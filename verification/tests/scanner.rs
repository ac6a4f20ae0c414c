use minigrep::scan::{get_matches, scan, split_line};
use minigrep::MatchingLine;

fn strings(items: &[&str]) -> Vec<String> {
    items.iter().map(|item| item.to_string()).collect()
}

fn rejoined(record: &MatchingLine) -> String {
    let mut line = String::new();
    for (index, part) in record.parts.iter().enumerate() {
        line.push_str(part);
        if index < record.matches.len() {
            line.push_str(&record.matches[index]);
        }
    }
    line
}

#[test]
fn case_sensitive_scan_skips_other_case() {
    let record = scan("the Cat sat, cat napped", "cat", false).unwrap();
    assert_eq!(record.parts, strings(&["the Cat sat, ", " napped"]));
    assert_eq!(record.matches, strings(&["cat"]));
    assert_eq!(record.pattern, "cat");
    assert!(!record.is_case_insensitive);
    assert_eq!(record.line_number, 0);
}

#[test]
fn case_insensitive_scan_keeps_the_case_of_the_line() {
    let record = scan("the Cat sat, cat napped", "cat", true).unwrap();
    assert_eq!(record.parts, strings(&["the ", " sat, ", " napped"]));
    assert_eq!(record.matches, strings(&["Cat", "cat"]));
    assert_eq!(record.pattern, "cat");
    assert!(record.is_case_insensitive);
}

#[test]
fn case_insensitive_scan_folds_the_pattern_too() {
    let record = scan("cat, Cat and CAT", "CaT", true).unwrap();
    assert_eq!(record.parts, strings(&["", ", ", " and ", ""]));
    assert_eq!(record.matches, strings(&["cat", "Cat", "CAT"]));
    assert_eq!(record.pattern, "cat");
}

#[test]
fn overlapping_places_count_once() {
    let record = scan("aaa", "aa", false).unwrap();
    assert_eq!(record.parts, strings(&["", "a"]));
    assert_eq!(record.matches, strings(&["aa"]));
}

#[test]
fn adjacent_occurrences_are_all_found() {
    let record = scan("aaa", "a", false).unwrap();
    assert_eq!(record.parts, strings(&["", "", "", ""]));
    assert_eq!(record.matches, strings(&["a", "a", "a"]));
    let record = scan("abababa", "aba", false).unwrap();
    assert_eq!(record.parts, strings(&["", "b", ""]));
    assert_eq!(record.matches, strings(&["aba", "aba"]));
}

#[test]
fn pattern_at_start_leaves_empty_leading_part() {
    let record = scan("cat nap", "cat", false).unwrap();
    assert_eq!(record.parts, strings(&["", " nap"]));
    assert_eq!(record.matches, strings(&["cat"]));
}

#[test]
fn pattern_at_end_leaves_empty_trailing_part() {
    let record = scan("tom cat", "cat", false).unwrap();
    assert_eq!(record.parts, strings(&["tom ", ""]));
    assert_eq!(record.matches, strings(&["cat"]));
}

#[test]
fn pattern_equal_to_line_leaves_two_empty_parts() {
    let record = scan("cat", "cat", false).unwrap();
    assert_eq!(record.parts, strings(&["", ""]));
    assert_eq!(record.matches, strings(&["cat"]));
    let record = scan("CAT", "cat", true).unwrap();
    assert_eq!(record.parts, strings(&["", ""]));
    assert_eq!(record.matches, strings(&["CAT"]));
}

#[test]
fn absent_pattern_gives_no_record() {
    assert_eq!(scan("the dog sat", "cat", false), None);
    assert_eq!(scan("the dog sat", "cat", true), None);
    assert_eq!(scan("the Cat sat", "cat", false), None);
    assert_eq!(scan("ca", "cat", false), None);
    assert_eq!(scan("", "cat", true), None);
}

#[test]
fn empty_pattern_gives_no_record() {
    assert_eq!(scan("the cat sat", "", false), None);
    assert_eq!(scan("the cat sat", "", true), None);
    assert_eq!(scan("", "", false), None);
}

#[test]
fn pieces_rejoin_to_the_line() {
    let lines = [
        "the Cat sat, cat napped",
        "catcatcat",
        "a cat",
        "cat",
        "concatenate the CATalogue",
        "Ärger mit der KATZE, ärgerlich",
    ];
    let patterns = ["cat", "a", "T", "är", "e"];
    let mut records = 0;
    for line in lines {
        for pattern in patterns {
            for case_insensitive in [false, true] {
                if let Some(record) = scan(line, pattern, case_insensitive) {
                    assert_eq!(rejoined(&record), line);
                    assert!(record.matches.len() >= 1);
                    assert_eq!(record.parts.len(), record.matches.len() + 1);
                    records += 1;
                }
            }
        }
    }
    assert!(records > 20);
}

#[test]
fn matched_texts_lowercase_to_the_lowercased_pattern() {
    let record = scan("Stra\u{df}e, STRASSE, Ärger, ÄRGER und ärger", "äRgEr", true).unwrap();
    assert_eq!(record.matches, strings(&["Ärger", "ÄRGER", "ärger"]));
    for found in &record.matches {
        assert_eq!(found.to_lowercase(), "äRgEr".to_lowercase());
    }
    assert_eq!(record.pattern, "ärger");
}

#[test]
fn case_sensitive_matches_are_the_pattern() {
    let record = scan("Cat cat CAT cat", "cat", false).unwrap();
    assert_eq!(record.matches, strings(&["cat", "cat"]));
    assert_eq!(record.parts, strings(&["Cat ", " CAT ", ""]));
}

#[test]
fn lowercase_that_grows_keeps_positions() {
    // 'İ' lowercases to two characters; the line is compared with it in place.
    let record = scan("İi İI", "i", true).unwrap();
    assert_eq!(record.parts, strings(&["İ", " İ", ""]));
    assert_eq!(record.matches, strings(&["i", "I"]));
    assert_eq!(rejoined(&record), "İi İI");
    let record = scan("xİy tail", "tail", true).unwrap();
    assert_eq!(record.parts, strings(&["xİy ", ""]));
    assert_eq!(record.matches, strings(&["tail"]));
}

#[test]
fn characters_of_several_bytes_are_cut_whole() {
    let record = scan("日本語のテキスト、日本", "日本", false).unwrap();
    assert_eq!(record.parts, strings(&["", "語のテキスト、", ""]));
    assert_eq!(record.matches, strings(&["日本", "日本"]));
}

#[test]
fn split_line_gives_the_parts_around_the_occurrences() {
    assert_eq!(
        split_line("the Cat sat, cat napped", "cat"),
        strings(&["the ", " sat, ", " napped"])
    );
    assert_eq!(split_line("no such thing", "cat"), strings(&["no such thing"]));
    assert_eq!(split_line("aaa", "aa"), strings(&["", "a"]));
    assert_eq!(split_line("cat", ""), strings(&["cat"]));
}

#[test]
fn split_line_takes_the_pattern_as_given() {
    assert_eq!(split_line("the Cat sat", "Cat"), strings(&["the Cat sat"]));
}

#[test]
fn get_matches_gives_the_text_as_the_line_has_it() {
    assert_eq!(get_matches("the Cat sat, cat napped, CAT", "cat"), strings(&["Cat", "cat", "CAT"]));
    assert_eq!(get_matches("no such thing", "cat"), Vec::<String>::new());
    assert_eq!(get_matches("aaa", "aa"), strings(&["aa"]));
    assert_eq!(get_matches("AAAA", "aa"), strings(&["AA", "AA"]));
    assert_eq!(get_matches("cat", ""), Vec::<String>::new());
}

/// A small generator of repeatable pseudo-random numbers.
struct Numbers(u64);

impl Numbers {
    fn next(&mut self, below: usize) -> usize {
        self.0 = self.0.wrapping_mul(6364136223846793005).wrapping_add(1442695040888963407);
        ((self.0 >> 33) as usize) % below
    }

    fn text(&mut self, alphabet: &[char], longest: usize) -> String {
        let len = self.next(longest + 1);
        (0..len).map(|_| alphabet[self.next(alphabet.len())]).collect()
    }
}

#[test]
fn case_sensitive_parts_agree_with_standard_split() {
    let mut numbers = Numbers(7);
    let alphabet = ['a', 'b', 'A', 'é'];
    let mut records = 0;
    for _ in 0..4000 {
        let line = numbers.text(&alphabet, 12);
        let pattern = numbers.text(&alphabet, 2) + &numbers.text(&alphabet[..2], 1) + "a";
        let expected: Vec<String> = line.split(pattern.as_str()).map(String::from).collect();
        match scan(&line, &pattern, false) {
            Some(record) => {
                assert_eq!(record.parts, expected, "{:?} in {:?}", pattern, line);
                assert_eq!(record.matches, vec![pattern.clone(); expected.len() - 1]);
                records += 1;
            }
            None => assert!(!line.contains(pattern.as_str()), "{:?} in {:?}", pattern, line),
        }
    }
    assert!(records > 100);
}

#[test]
fn case_insensitive_parts_agree_with_split_of_the_lowercase_line() {
    let mut numbers = Numbers(11);
    let alphabet = ['a', 'b', 'A', 'B', 'é', 'É'];
    let mut records = 0;
    for _ in 0..4000 {
        let line = numbers.text(&alphabet, 12);
        let pattern = numbers.text(&alphabet, 2) + "a";
        let lower_line = line.to_lowercase();
        let lower_pattern = pattern.to_lowercase();
        let expected: Vec<String> =
            lower_line.split(lower_pattern.as_str()).map(String::from).collect();
        assert_eq!(split_line(&line, &lower_pattern).len(), expected.len());
        assert_eq!(get_matches(&line, &lower_pattern).len(), expected.len() - 1);
        match scan(&line, &pattern, true) {
            Some(record) => {
                let lower_parts: Vec<String> =
                    record.parts.iter().map(|part| part.to_lowercase()).collect();
                assert_eq!(lower_parts, expected, "{:?} in {:?}", pattern, line);
                assert_eq!(record.parts, split_line(&line, &lower_pattern));
                assert_eq!(record.matches, get_matches(&line, &lower_pattern));
                for found in &record.matches {
                    assert_eq!(found.to_lowercase(), lower_pattern);
                }
                assert_eq!(rejoined(&record), line);
                records += 1;
            }
            None => assert!(!lower_line.contains(lower_pattern.as_str())),
        }
    }
    assert!(records > 100);
}
