use minigrep::folding::{fold_all, fold_one};
use minigrep::occurrences::{find_occurrences, occurs_here};
use minigrep::text::chars_of;

#[test]
fn folding_lowers_letters_with_a_single_lowercase() {
    assert_eq!(fold_one('A'), 'a');
    assert_eq!(fold_one('a'), 'a');
    assert_eq!(fold_one('Ä'), 'ä');
    assert_eq!(fold_one('Σ'), 'σ');
    assert_eq!(fold_one('7'), '7');
    assert_eq!(fold_one(' '), ' ');
    assert_eq!(fold_one('ß'), 'ß');
}

#[test]
fn folding_keeps_a_letter_whose_lowercase_is_longer() {
    assert_eq!('İ'.to_lowercase().count(), 2);
    assert_eq!(fold_one('İ'), 'İ');
}

#[test]
fn folding_a_text_keeps_its_length() {
    let text: Vec<char> = "Hello, İstanbul! ΟΔΟΣ".chars().collect();
    let folded = fold_all(&text);
    let expected: Vec<char> = "hello, İstanbul! οδοσ".chars().collect();
    assert_eq!(folded, expected);
    assert_eq!(folded.len(), text.len());
    assert_eq!(fold_all(&[]), Vec::<char>::new());
}

#[test]
fn chars_of_gives_the_characters_in_order() {
    assert_eq!(chars_of("añ日"), vec!['a', 'ñ', '日']);
    assert_eq!(chars_of(""), Vec::<char>::new());
}

#[test]
fn occurs_here_compares_at_one_position() {
    let text = chars_of("the cat");
    let pattern = chars_of("cat");
    assert!(occurs_here(&text, &pattern, 4));
    assert!(!occurs_here(&text, &pattern, 3));
    assert!(!occurs_here(&text, &pattern, 5));
    assert!(!occurs_here(&text, &pattern, 7));
    assert!(!occurs_here(&text, &pattern, usize::MAX));
    assert!(occurs_here(&text, &[], 7));
    assert!(!occurs_here(&text, &[], 8));
    assert!(!occurs_here(&pattern, &text, 0));
}

#[test]
fn find_occurrences_scans_left_to_right_without_overlap() {
    let text = chars_of("aaaaa");
    assert_eq!(find_occurrences(&text, &chars_of("aa")), vec![0, 2]);
    assert_eq!(find_occurrences(&text, &chars_of("a")), vec![0, 1, 2, 3, 4]);
    assert_eq!(find_occurrences(&text, &chars_of("aaaaa")), vec![0]);
    assert_eq!(find_occurrences(&text, &chars_of("aaaaaa")), Vec::<usize>::new());
    assert_eq!(find_occurrences(&text, &chars_of("")), Vec::<usize>::new());
    assert_eq!(find_occurrences(&chars_of("xabxxab"), &chars_of("ab")), vec![1, 5]);
    assert_eq!(find_occurrences(&[], &chars_of("ab")), Vec::<usize>::new());
}
