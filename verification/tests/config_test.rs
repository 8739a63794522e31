use conway::config::{Config, ConfigError};

#[test]
fn parse_simple() {
    let args = vec![
        "conway".to_string(),
        "--width".to_string(),
        "600".to_string(),
        "--height".to_string(),
        "800".to_string(),
        "--save-frames".to_string(),
        "--max-iterations".to_string(),
        "10".to_string(),
    ];
    let result = Config::build(&args).unwrap();

    assert_eq!(result.width, 600);
    assert_eq!(result.height, 800);
    assert_eq!(result.save_frames, true);
    assert_eq!(result.max_iterations, Some(10));
}

#[test]
fn parse_default() {
    let args = vec!["conway".to_string()];
    let result = Config::build(&args).unwrap();

    assert_eq!(result.width, 200);
    assert_eq!(result.height, 100);
    assert_eq!(result.save_frames, false);
    assert_eq!(result.max_iterations, None);
}

#[test]
fn parse_unknown_options() {
    let args = vec!["conway".to_string(), "--foo".to_string()];
    let result = Config::build(&args);
    assert!(result.is_err());
}

#[test]
fn parse_missing_value() {
    let args = vec![
        "conway".to_string(),
        "--width".to_string(),
        "--height".to_string(),
        "100".to_string(),
    ];
    let result = Config::build(&args);
    assert!(result.is_err());
}

#[test]
fn parse_unparsable_value() {
    let args = vec!["conway".to_string(), "--height".to_string(), "foobar".to_string()];
    let result = Config::build(&args);
    assert!(result.is_err());
}

#[test]
fn parse_scale() {
    let args = vec!["conway".to_string(), "--scale".to_string(), "7".to_string()];
    let result = Config::build(&args).unwrap();
    assert_eq!(result.scale, 7);
    assert_eq!(result.width, 200);
}

#[test]
fn parse_later_value_wins() {
    let args = vec![
        "conway".to_string(),
        "--width".to_string(),
        "10".to_string(),
        "--width".to_string(),
        "20".to_string(),
    ];
    let result = Config::build(&args).unwrap();
    assert_eq!(result.width, 20);
}

#[test]
fn parse_error_variants() {
    let args = vec!["conway".to_string(), "--scale".to_string()];
    assert!(matches!(Config::build(&args), Err(ConfigError::MissingValue)));

    let args = vec!["conway".to_string(), "--width".to_string(), "12x".to_string()];
    assert!(matches!(Config::build(&args), Err(ConfigError::UnparsableValue)));

    // a value that does not fit in a u32 is rejected, not wrapped
    let args = vec!["conway".to_string(), "--height".to_string(), "4294967296".to_string()];
    assert!(matches!(Config::build(&args), Err(ConfigError::UnparsableValue)));

    // an empty value is rejected
    let args = vec!["conway".to_string(), "--height".to_string(), "".to_string()];
    assert!(matches!(Config::build(&args), Err(ConfigError::UnparsableValue)));

    let args = vec!["conway".to_string(), "--foo".to_string()];
    match Config::build(&args) {
        Err(ConfigError::UnknownOption(s)) => assert_eq!(s, "--foo"),
        _ => panic!("expected an unknown-option error"),
    }
}

#[test]
fn parse_u32_boundary() {
    // the largest value a u32 holds is accepted
    let args = vec!["conway".to_string(), "--width".to_string(), "4294967295".to_string()];
    let result = Config::build(&args).unwrap();
    assert_eq!(result.width, u32::MAX);

    // leading zeros are plain digits
    let args = vec!["conway".to_string(), "--width".to_string(), "007".to_string()];
    let result = Config::build(&args).unwrap();
    assert_eq!(result.width, 7);
}
