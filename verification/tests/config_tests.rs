use srep::Config;

fn args_from(command_line: &str) -> Vec<String> {
    command_line.split_whitespace().map(|arg| String::from(arg)).collect()
}

#[test]
fn build_config_with_no_params() {
    let args = args_from("program-name-no-args");
    let result = Config::build(args, None);

    assert!(!result.is_ok());
    assert!(result.is_err());
    let expected_err_message = "query and file_path";
    let error_message = result.err().unwrap();
    assert!(
        error_message.contains(expected_err_message),
        "expected err to contain '{expected_err_message}' but was '{error_message}'",
    );
}

#[test]
fn build_config_with_one_params() {
    let args = args_from("program-name-no-args foo");
    let result = Config::build(args, None);

    assert!(!result.is_ok());
    assert!(result.is_err());
    let expected_err_message = "provide file_path";
    let error_message = result.err().unwrap();
    assert!(
        error_message.contains(expected_err_message),
        "expected err to contain '{expected_err_message}' but was '{error_message}'",
    );
}

#[test]
fn build_config_with_two_params() {
    let args = args_from("program-name-no-args foo bar");
    let result = Config::build(args, None);

    match result {
        Ok(config) => {
            assert_eq!("bar", config.file_path);
            assert_eq!("foo", config.query);
        }
        Err(err) => panic!("Should not get an error with 2 params: {}", err),
    }
}

#[test]
fn error_messages_are_distinct() {
    let missing_both = Config::build(args_from("prog"), None).err().unwrap();
    let missing_path = Config::build(args_from("prog foo"), None).err().unwrap();
    assert_ne!(missing_both, missing_path);
}

#[test]
fn extra_arguments_are_ignored() {
    let config = Config::build(args_from("prog foo bar baz qux"), None).unwrap();
    assert_eq!("foo", config.query);
    assert_eq!("bar", config.file_path);
}

#[test]
fn toggle_true_sets_ignore_case() {
    let config = Config::build(args_from("prog foo bar"), Some(String::from("true"))).unwrap();
    assert!(config.ignore_case);
}

#[test]
fn toggle_false_clears_ignore_case() {
    let config = Config::build(args_from("prog foo bar"), Some(String::from("false"))).unwrap();
    assert!(!config.ignore_case);
}

#[test]
fn toggle_unset_clears_ignore_case() {
    let config = Config::build(args_from("prog foo bar"), None).unwrap();
    assert!(!config.ignore_case);
}

#[test]
fn toggle_needs_lowercase_t() {
    let on = Config::build(args_from("prog foo bar"), Some(String::from("t"))).unwrap();
    assert!(on.ignore_case);
    let capital = Config::build(args_from("prog foo bar"), Some(String::from("TRUE"))).unwrap();
    assert!(!capital.ignore_case);
    let empty = Config::build(args_from("prog foo bar"), Some(String::from(""))).unwrap();
    assert!(!empty.ignore_case);
    let other = Config::build(args_from("prog foo bar"), Some(String::from("yes"))).unwrap();
    assert!(!other.ignore_case);
}
