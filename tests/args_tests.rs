use codecrafters_http_server::args::parse_args;

#[test]
fn test_parse_short_option() {
    let args = vec!["program".to_string(), "-d".to_string(), "/tmp".to_string()];
    let result = parse_args(&args).unwrap();
    assert_eq!(result.get("d"), Some(&"/tmp".to_string()));
}

#[test]
fn test_parse_long_option() {
    let args = vec!["program".to_string(), "--directory".to_string(), "/tmp".to_string()];
    let result = parse_args(&args).unwrap();
    assert_eq!(result.get("directory"), Some(&"/tmp".to_string()));
}

#[test]
fn test_parse_multiple_options() {
    let args = vec![
        "program".to_string(),
        "-d".to_string(),
        "/tmp".to_string(),
        "--port".to_string(),
        "8080".to_string(),
    ];
    let result = parse_args(&args).unwrap();
    assert_eq!(result.get("d"), Some(&"/tmp".to_string()));
    assert_eq!(result.get("port"), Some(&"8080".to_string()));
    assert_eq!(result.len(), 2);
}

#[test]
fn test_parse_empty_args() {
    let args = vec!["program".to_string()];
    let result = parse_args(&args).unwrap();
    assert!(result.is_empty());
}

#[test]
fn test_parse_no_args() {
    let args: Vec<String> = vec![];
    let result = parse_args(&args).unwrap();
    assert!(result.is_empty());
}

#[test]
fn test_option_without_value_short() {
    let args = vec!["program".to_string(), "-d".to_string()];
    let result = parse_args(&args);
    assert!(result.is_err());
    assert!(result.unwrap_err().to_string().contains("requires a value"));
}

#[test]
fn test_option_without_value_long() {
    let args = vec!["program".to_string(), "--directory".to_string()];
    let result = parse_args(&args);
    assert!(result.is_err());
    assert!(result.unwrap_err().to_string().contains("requires a value"));
}

#[test]
fn test_option_followed_by_another_option() {
    let args = vec!["program".to_string(), "-d".to_string(), "-p".to_string()];
    let result = parse_args(&args);
    assert!(result.is_err());
    assert!(result.unwrap_err().to_string().contains("requires a value"));
}

#[test]
fn test_single_dash_as_positional() {
    let args = vec!["program".to_string(), "-".to_string(), "value".to_string()];
    let result = parse_args(&args);
    assert!(result.is_ok());
    assert!(result.unwrap().is_empty());
}

#[test]
fn test_double_dash_ends_option_parsing() {
    let args = vec![
        "program".to_string(),
        "-d".to_string(),
        "/tmp".to_string(),
        "--".to_string(),
        "-notanoption".to_string(),
    ];
    let result = parse_args(&args);
    assert!(result.is_ok());
    let options = result.unwrap();
    assert_eq!(options.get("d"), Some(&"/tmp".to_string()));
    assert_eq!(options.len(), 1);
}

#[test]
fn test_double_dash_at_end() {
    let args = vec![
        "program".to_string(),
        "-d".to_string(),
        "/tmp".to_string(),
        "--".to_string(),
    ];
    let result = parse_args(&args);
    assert!(result.is_ok());
    let options = result.unwrap();
    assert_eq!(options.get("d"), Some(&"/tmp".to_string()));
    assert_eq!(options.len(), 1);
}

#[test]
fn test_duplicate_options_last_wins() {
    let args = vec![
        "program".to_string(),
        "-d".to_string(),
        "/tmp".to_string(),
        "-d".to_string(),
        "/var".to_string(),
    ];
    let result = parse_args(&args).unwrap();
    assert_eq!(result.get("d"), Some(&"/var".to_string()));
}

#[test]
fn test_positional_arguments_are_skipped() {
    let args = vec![
        "program".to_string(),
        "positional1".to_string(),
        "-d".to_string(),
        "/tmp".to_string(),
        "positional2".to_string(),
    ];
    let result = parse_args(&args).unwrap();
    assert_eq!(result.get("d"), Some(&"/tmp".to_string()));
    assert_eq!(result.len(), 1);
}

#[test]
fn test_option_with_equals_not_supported() {
    let args = vec!["program".to_string(), "--directory=/tmp".to_string()];
    let result = parse_args(&args);
    assert!(result.is_err());
}

#[test]
fn option_of_only_dashes_is_invalid() {
    let args = vec!["----".to_string(), "x".to_string()];
    let result = parse_args(&args);
    assert_eq!(result.unwrap_err().to_string(), "Invalid option: ----");
}

#[test]
fn repeated_dashes_are_all_removed() {
    let args = vec!["----key".to_string(), "v".to_string()];
    let result = parse_args(&args).unwrap();
    assert_eq!(result.get("key"), Some(&"v".to_string()));
    let args = vec!["---key".to_string(), "v".to_string()];
    let result = parse_args(&args).unwrap();
    assert_eq!(result.get("-key"), Some(&"v".to_string()));
}

#[test]
fn missing_value_names_the_option() {
    let args = vec!["--port".to_string()];
    let result = parse_args(&args);
    assert_eq!(result.unwrap_err().to_string(), "Option --port requires a value");
}
