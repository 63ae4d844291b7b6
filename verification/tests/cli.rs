use cargo_run_wasm::cli::{Args, ConfigError, ValueOption};

fn line(tokens: &[&str]) -> Vec<String> {
    tokens.iter().map(|t| t.to_string()).collect()
}

#[test]
fn release_features_and_name_resolve() {
    let args = Args::from_env(line(&["--release", "--features", "a,b", "mycrate"])).unwrap();
    assert!(args.release());
    assert!(!args.example());
    assert!(!args.build_only());
    assert_eq!(args.name(), "mycrate");
    assert_eq!(args.features(), Some("a,b"));
    assert_eq!(args.host(), None);
    assert_eq!(args.port(), None);
}

#[test]
fn name_alone_resolves_to_defaults() {
    let args = Args::from_env(line(&["demo"])).unwrap();
    assert!(!args.release());
    assert!(!args.example());
    assert!(!args.build_only());
    assert_eq!(args.name(), "demo");
    assert_eq!(args.features(), None);
    assert_eq!(args.host(), None);
    assert_eq!(args.port(), None);
}

#[test]
fn every_flag_and_option_is_read_in_any_order() {
    let args = Args::from_env(line(&[
        "--port",
        "9001",
        "unit",
        "--build-only",
        "--host",
        "0.0.0.0",
        "--example",
        "--features",
        "x",
        "--release",
    ]))
    .unwrap();
    assert!(args.release());
    assert!(args.example());
    assert!(args.build_only());
    assert_eq!(args.name(), "unit");
    assert_eq!(args.features(), Some("x"));
    assert_eq!(args.host(), Some("0.0.0.0"));
    assert_eq!(args.port(), Some("9001"));
}

#[test]
fn name_is_kept_exactly() {
    let args = Args::from_env(line(&["  Ünit-1_ä  "])).unwrap();
    assert_eq!(args.name(), "  Ünit-1_ä  ");
}

#[test]
fn empty_token_is_no_name() {
    assert_eq!(Args::from_env(line(&[""])), Err(ConfigError::MissingName));
    assert_eq!(
        Args::from_env(line(&["--release", "", "--port", "1"])),
        Err(ConfigError::MissingName)
    );
}

#[test]
fn empty_token_counts_among_too_many() {
    assert_eq!(
        Args::from_env(line(&["", "demo"])),
        Err(ConfigError::TooManyArgs(line(&["", "demo"])))
    );
    assert_eq!(
        Args::from_env(line(&["", ""])),
        Err(ConfigError::TooManyArgs(line(&["", ""])))
    );
}

#[test]
fn empty_token_may_be_a_value() {
    let args = Args::from_env(line(&["--host", "", "demo"])).unwrap();
    assert_eq!(args.host(), Some(""));
    assert_eq!(args.name(), "demo");
}

#[test]
fn name_is_a_token_that_is_not_empty_and_not_dashed() {
    let lines: [&[&str]; 6] = [
        &["demo"],
        &["--release", "a b"],
        &["--features", "-f", "x"],
        &["--host", "", "--port", "", "n"],
        &["--example", "é", "--build-only"],
        &["--features", "--port", "p"],
    ];
    for tokens in lines {
        let args = Args::from_env(line(tokens)).unwrap();
        assert!(!args.name().is_empty());
        assert!(!args.name().starts_with('-'));
        assert!(tokens.contains(&args.name()));
    }
}

#[test]
fn no_token_is_a_missing_name() {
    assert_eq!(Args::from_env(line(&[])), Err(ConfigError::MissingName));
}

#[test]
fn flags_alone_are_a_missing_name() {
    assert_eq!(
        Args::from_env(line(&["--release", "--host", "h", "--build-only"])),
        Err(ConfigError::MissingName)
    );
}

#[test]
fn two_names_are_too_many() {
    assert_eq!(
        Args::from_env(line(&["one", "--release", "two"])),
        Err(ConfigError::TooManyArgs(line(&["one", "two"])))
    );
}

#[test]
fn three_names_are_all_carried() {
    assert_eq!(
        Args::from_env(line(&["a", "b", "c"])),
        Err(ConfigError::TooManyArgs(line(&["a", "b", "c"])))
    );
}

#[test]
fn unknown_flag_is_an_unknown_option() {
    assert_eq!(
        Args::from_env(line(&["--bogus", "demo"])),
        Err(ConfigError::UnknownOption("--bogus".to_string()))
    );
}

#[test]
fn first_unknown_flag_is_named() {
    assert_eq!(
        Args::from_env(line(&["demo", "-x", "--release", "-y"])),
        Err(ConfigError::UnknownOption("-x".to_string()))
    );
}

#[test]
fn unknown_flag_comes_before_the_count() {
    assert_eq!(
        Args::from_env(line(&["a", "b", "--bogus"])),
        Err(ConfigError::UnknownOption("--bogus".to_string()))
    );
    assert_eq!(
        Args::from_env(line(&["--bogus"])),
        Err(ConfigError::UnknownOption("--bogus".to_string()))
    );
}

#[test]
fn single_dash_is_an_unknown_option() {
    assert_eq!(
        Args::from_env(line(&["-"])),
        Err(ConfigError::UnknownOption("-".to_string()))
    );
}

#[test]
fn second_copy_of_a_flag_is_left_over() {
    assert_eq!(
        Args::from_env(line(&["--release", "demo", "--release"])),
        Err(ConfigError::UnknownOption("--release".to_string()))
    );
}

#[test]
fn second_copy_of_an_option_is_left_over() {
    assert_eq!(
        Args::from_env(line(&["--host", "a", "--host", "b"])),
        Err(ConfigError::UnknownOption("--host".to_string()))
    );
}

#[test]
fn option_without_value_is_malformed() {
    assert_eq!(
        Args::from_env(line(&["x", "--port"])),
        Err(ConfigError::MalformedOption(ValueOption::Port))
    );
    assert_eq!(
        Args::from_env(line(&["x", "--host"])),
        Err(ConfigError::MalformedOption(ValueOption::Host))
    );
    assert_eq!(
        Args::from_env(line(&["--features"])),
        Err(ConfigError::MalformedOption(ValueOption::Features))
    );
}

#[test]
fn features_are_looked_at_before_host_and_port() {
    assert_eq!(
        Args::from_env(line(&["--port", "--host", "--features"])),
        Err(ConfigError::MalformedOption(ValueOption::Features))
    );
}

#[test]
fn malformed_option_comes_before_unknown_option() {
    assert_eq!(
        Args::from_env(line(&["--bogus", "--port"])),
        Err(ConfigError::MalformedOption(ValueOption::Port))
    );
}

#[test]
fn value_may_begin_with_a_dash() {
    let args = Args::from_env(line(&["--features", "--bogus", "demo"])).unwrap();
    assert_eq!(args.features(), Some("--bogus"));
    assert_eq!(args.name(), "demo");
}

#[test]
fn flags_are_taken_before_values() {
    // The flag that stands where a value is expected is taken as the flag, and
    // the name that follows it as the value.
    assert_eq!(
        Args::from_env(line(&["--features", "--release", "demo"])),
        Err(ConfigError::MissingName)
    );
}

#[test]
fn option_key_may_be_the_value_of_an_earlier_option() {
    let args = Args::from_env(line(&["--features", "--port", "demo"])).unwrap();
    assert_eq!(args.features(), Some("--port"));
    assert_eq!(args.port(), None);
    assert_eq!(args.name(), "demo");
}

#[test]
fn resolving_twice_gives_the_same() {
    for tokens in [
        vec!["--release", "demo"],
        vec![],
        vec!["a", "b"],
        vec!["--nope"],
        vec!["--host"],
    ] {
        assert_eq!(Args::from_env(line(&tokens)), Args::from_env(line(&tokens)));
    }
}

#[test]
fn messages_say_what_is_wrong() {
    assert_eq!(
        ConfigError::UnknownOption("--bogus".to_string()).message(),
        "Unknown option --bogus"
    );
    assert_eq!(
        ConfigError::MissingName.message(),
        "Expected NAME arg, but there was no NAME arg"
    );
    assert_eq!(
        ConfigError::TooManyArgs(line(&["a", "b\"c"])).message(),
        "Expected exactly one free arg, but there was 2 free args: [\"a\", \"b\\\"c\"]"
    );
    assert_eq!(
        ConfigError::MalformedOption(ValueOption::Features).message(),
        "Expected a value after --features"
    );
    assert_eq!(
        ConfigError::MalformedOption(ValueOption::Host).message(),
        "Expected a value after --host"
    );
    assert_eq!(
        ConfigError::MalformedOption(ValueOption::Port).message(),
        "Expected a value after --port"
    );
}

#[test]
fn count_of_many_tokens_is_written_in_full() {
    let tokens: Vec<String> = (0..1203).map(|i| format!("t{}", i)).collect();
    let message = Args::from_env(tokens.clone()).unwrap_err().message();
    assert_eq!(
        message,
        format!(
            "Expected exactly one free arg, but there was 1203 free args: {:?}",
            tokens
        )
    );
}
