use codecrafters_http_server::config::parse_args_from_vec;

#[test]
fn test_parse_args_with_short_directory_flag() {
    let args = vec!["program".to_string(), "-d".to_string(), "/tmp".to_string()];
    let config = parse_args_from_vec(&args).unwrap();
    assert_eq!(config.directory, Some("/tmp".to_string()));
}

#[test]
fn test_parse_args_with_long_directory_flag() {
    let args = vec!["program".to_string(), "--directory".to_string(), "/var/www".to_string()];
    let config = parse_args_from_vec(&args).unwrap();
    assert_eq!(config.directory, Some("/var/www".to_string()));
}

#[test]
fn test_parse_args_no_directory() {
    let args = vec!["program".to_string()];
    let config = parse_args_from_vec(&args).unwrap();
    assert_eq!(config.directory, None);
}

#[test]
fn test_parse_args_empty() {
    let args: Vec<String> = vec![];
    let config = parse_args_from_vec(&args).unwrap();
    assert_eq!(config.directory, None);
}

#[test]
fn test_parse_args_with_other_args() {
    let args = vec![
        "program".to_string(),
        "some_positional".to_string(),
        "-d".to_string(),
        "/tmp".to_string(),
        "another_arg".to_string(),
    ];
    let config = parse_args_from_vec(&args).unwrap();
    assert_eq!(config.directory, Some("/tmp".to_string()));
}

#[test]
fn test_parse_args_with_path_containing_spaces() {
    let args = vec!["program".to_string(), "-d".to_string(), "/path/to/my directory".to_string()];
    let config = parse_args_from_vec(&args).unwrap();
    assert_eq!(config.directory, Some("/path/to/my directory".to_string()));
}

#[test]
fn test_parse_args_with_relative_path() {
    let args = vec!["program".to_string(), "-d".to_string(), "./relative/path".to_string()];
    let config = parse_args_from_vec(&args).unwrap();
    assert_eq!(config.directory, Some("./relative/path".to_string()));
}

#[test]
fn short_directory_flag_wins_over_long() {
    let args = vec![
        "--directory".to_string(),
        "/long".to_string(),
        "-d".to_string(),
        "/short".to_string(),
    ];
    let config = parse_args_from_vec(&args).unwrap();
    assert_eq!(config.directory, Some("/short".to_string()));
}

#[test]
fn refused_command_line_is_an_error() {
    let args = vec!["-d".to_string()];
    assert!(parse_args_from_vec(&args).is_err());
}
