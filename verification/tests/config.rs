use minigrep::Config;

fn args(items: &[&str]) -> Vec<String> {
    items.iter().map(|item| item.to_string()).collect()
}

fn settings(
    pattern: &str,
    file_path: &str,
    case_insensitive: bool,
    print_line_index: bool,
) -> Config {
    Config {
        pattern: pattern.to_string(),
        file_path: file_path.to_string(),
        case_insensitive,
        print_line_index,
    }
}

#[test]
fn pattern_and_file_path_alone() {
    let config = Config::new(&args(&["minigrep", "cat", "poem.txt"]));
    assert_eq!(config, Ok(settings("cat", "poem.txt", false, false)));
}

#[test]
fn ignore_case_flag() {
    let config = Config::new(&args(&["minigrep", "-i", "cat", "poem.txt"]));
    assert_eq!(config, Ok(settings("cat", "poem.txt", true, false)));
}

#[test]
fn line_number_flag() {
    let config = Config::new(&args(&["minigrep", "cat", "-n", "poem.txt"]));
    assert_eq!(config, Ok(settings("cat", "poem.txt", false, true)));
}

#[test]
fn both_flags_apart_and_together() {
    let expected = Ok(settings("cat", "poem.txt", true, true));
    assert_eq!(Config::new(&args(&["minigrep", "-i", "-n", "cat", "poem.txt"])), expected);
    assert_eq!(Config::new(&args(&["minigrep", "cat", "poem.txt", "-ni"])), expected);
    assert_eq!(Config::new(&args(&["minigrep", "-in", "cat", "poem.txt"])), expected);
}

#[test]
fn long_flag_names() {
    let given = args(&["minigrep", "--ignore case", "cat", "--line number", "poem.txt"]);
    let config = Config::new(&given);
    assert_eq!(config, Ok(settings("cat", "poem.txt", true, true)));
}

#[test]
fn double_dash_ends_the_flags() {
    let config = Config::new(&args(&["minigrep", "-n", "--", "-i", "poem.txt"]));
    assert_eq!(config, Ok(settings("-i", "poem.txt", false, true)));
}

#[test]
fn the_program_name_is_passed_over() {
    let config = Config::new(&args(&["-i", "cat", "poem.txt"]));
    assert_eq!(config, Ok(settings("cat", "poem.txt", false, false)));
}

#[test]
fn unknown_flag_is_refused() {
    let config = Config::new(&args(&["minigrep", "-x", "cat", "poem.txt"]));
    assert_eq!(config, Err("Not valid params Unrecognized option: 'x'".to_string()));
    let config = Config::new(&args(&["minigrep", "--colour", "cat", "poem.txt"]));
    assert_eq!(config, Err("Not valid params Unrecognized option: 'colour'".to_string()));
}

#[test]
fn repeated_flag_is_refused() {
    let config = Config::new(&args(&["minigrep", "-i", "-i", "cat", "poem.txt"]));
    assert_eq!(
        config,
        Err("Not valid params Option 'ignore case' given more than once".to_string())
    );
}

#[test]
fn flag_with_argument_is_refused() {
    let config = Config::new(&args(&["minigrep", "--line number=3", "cat", "poem.txt"]));
    assert_eq!(
        config,
        Err("Not valid params Option 'line number' does not take an argument".to_string())
    );
}

#[test]
fn missing_pattern_is_refused() {
    let expected = Err("Didn't get a pattern string".to_string());
    assert_eq!(Config::new(&args(&["minigrep"])), expected);
    assert_eq!(Config::new(&args(&["minigrep", "-i", "-n"])), expected);
}

#[test]
fn missing_file_path_is_refused() {
    let expected = Err("Didn't get a file path".to_string());
    assert_eq!(Config::new(&args(&["minigrep", "cat"])), expected);
    assert_eq!(Config::new(&args(&["minigrep", "-n", "cat"])), expected);
}

#[test]
fn extra_arguments_are_refused() {
    let expected = Err("Got more than a pattern and a file path".to_string());
    assert_eq!(Config::new(&args(&["minigrep", "cat", "poem.txt", "other.txt"])), expected);
    assert_eq!(Config::new(&args(&["minigrep", "cat", "-i", "a", "b", "c"])), expected);
}

#[test]
fn settings_from_a_parsed_command_line() {
    let parsed = Ok((true, false, args(&["cat", "poem.txt"])));
    assert_eq!(Config::from_parsed(parsed), Ok(settings("cat", "poem.txt", true, false)));
    let parsed = Ok((false, true, args(&["", ""])));
    assert_eq!(Config::from_parsed(parsed), Ok(settings("", "", false, true)));
}

#[test]
fn errors_from_a_parsed_command_line() {
    assert_eq!(
        Config::from_parsed(Err("what?".to_string())),
        Err("Not valid params what?".to_string())
    );
    assert_eq!(
        Config::from_parsed(Ok((true, true, args(&[])))),
        Err("Didn't get a pattern string".to_string())
    );
    assert_eq!(
        Config::from_parsed(Ok((false, false, args(&["cat"])))),
        Err("Didn't get a file path".to_string())
    );
    assert_eq!(
        Config::from_parsed(Ok((false, false, args(&["cat", "a", "b"])))),
        Err("Got more than a pattern and a file path".to_string())
    );
}
