use usage_aggregator::cli_args::CLIArgs;

#[test]
fn test_correct_required_args_builds_with_full_paths() {
    let args_list = vec!["--log_dir=test_dir".to_string()];

    let cli_args = CLIArgs::build(&args_list).unwrap();

    assert_eq!(cli_args.get_logs_dir(), "test_dir");
}

#[test]
fn test_correct_required_args_builds_with_shortned_paths() {
    let args_list = vec!["-ld=test_dir".to_string()];

    let cli_args = CLIArgs::build(&args_list).unwrap();

    assert_eq!(cli_args.get_logs_dir(), "test_dir");
}

#[test]
fn test_incorrect_args_builds() {
    let cli_args = CLIArgs::build(&vec![]);

    assert!(cli_args.is_err());
    assert!(cli_args.unwrap_err() == "Logs directory parameter is missing! Check your input");

    let cli_args = CLIArgs::build(&vec!["--log_dir".to_string()]);

    assert!(cli_args.is_err());
    assert!(
        cli_args.unwrap_err()
            == "Could not extract the second part from the argument. Check your input!"
    );

    let cli_args = CLIArgs::build(&vec!["--non_existant_arg=some_value".to_string()]);

    assert!(cli_args.is_err());
    assert!(cli_args.unwrap_err() == "Unknown parameter: --non_existant_arg");
}

#[test]
fn test_formatter_arg() {
    // Just to test if didn't returned an error, since this is an optional param.
    let cli_args = CLIArgs::build(&vec!["--log_dir=test_dir".to_string()]);

    assert!(!cli_args.is_err());

    let cli_args = CLIArgs::build(&vec![
        "--log_dir=test_dir".to_string(),
        "--formatter=json".to_string(),
    ])
    .unwrap();

    assert_eq!(cli_args.get_formatter(), "json");

    let cli_args =
        CLIArgs::build(&vec!["-ld=test_dir".to_string(), "-fmt=json".to_string()]).unwrap();

    assert_eq!(cli_args.get_formatter(), "json");

    let cli_args = CLIArgs::build(&vec![
        "--log_dir=test_dir".to_string(),
        "--formatter=stdout".to_string(),
    ])
    .unwrap();

    assert_eq!(cli_args.get_formatter(), "stdout");

    let cli_args =
        CLIArgs::build(&vec!["-ld=test_dir".to_string(), "-fmt=stdout".to_string()]).unwrap();

    assert_eq!(cli_args.get_formatter(), "stdout");

    let cli_args = CLIArgs::build(&vec![
        "-ld=test_dir".to_string(),
        "-fmt=unknown_formatter".to_string(),
    ]);

    assert!(cli_args.unwrap_err().contains("Unknown formatter"));
}

#[test]
fn trims_white_space_around_the_logs_dir() {
    let cli_args = CLIArgs::build(&vec!["--log_dir=  test_dir \t".to_string()]).unwrap();

    assert_eq!(cli_args.get_logs_dir(), "test_dir");
}

#[test]
fn the_default_formatter_is_stdout() {
    let cli_args = CLIArgs::build(&vec!["--log_dir=test_dir".to_string()]).unwrap();

    assert_eq!(cli_args.get_formatter(), "stdout");
}
