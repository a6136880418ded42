use clockme::errors::{DurationError, NameError};
use clockme::parsers::DurationParser;
use clockme::validators::ProjectValidator;

#[test]
fn test_parse_hours_only() {
    let duration = DurationParser::parse("2h").unwrap();
    assert_eq!(duration, 120);

    let duration = DurationParser::parse("1h").unwrap();
    assert_eq!(duration, 60);
}

#[test]
fn test_parse_minutes_only() {
    let duration = DurationParser::parse("30m").unwrap();
    assert_eq!(duration, 30);

    let duration = DurationParser::parse("45m").unwrap();
    assert_eq!(duration, 45);
}

#[test]
fn test_parse_hours_and_minutes() {
    let duration = DurationParser::parse("2h 30m").unwrap();
    assert_eq!(duration, 150);

    let duration = DurationParser::parse("1h 15m").unwrap();
    assert_eq!(duration, 75);

    // Without space
    let duration = DurationParser::parse("2h30m").unwrap();
    assert_eq!(duration, 150);
}

#[test]
fn test_parse_decimal_hours() {
    let duration = DurationParser::parse("1.5h").unwrap();
    assert_eq!(duration, 90);

    let duration = DurationParser::parse("2.25h").unwrap();
    assert_eq!(duration, 135);

    let duration = DurationParser::parse("0.5h").unwrap();
    assert_eq!(duration, 30);
}

#[test]
fn test_parse_case_insensitive() {
    let duration = DurationParser::parse("2H").unwrap();
    assert_eq!(duration, 120);

    let duration = DurationParser::parse("30M").unwrap();
    assert_eq!(duration, 30);

    let duration = DurationParser::parse("2H 30M").unwrap();
    assert_eq!(duration, 150);
}

#[test]
fn test_parse_with_whitespace() {
    let duration = DurationParser::parse("  2h 30m  ").unwrap();
    assert_eq!(duration, 150);

    let duration = DurationParser::parse("1h  15m").unwrap();
    assert_eq!(duration, 75);
}

#[test]
fn test_parse_invalid_formats() {
    assert!(DurationParser::parse("").is_err());
    assert!(DurationParser::parse("abc").is_err());
    assert!(DurationParser::parse("2x").is_err());
    assert!(DurationParser::parse("2h30").is_err());
    assert!(DurationParser::parse("h30m").is_err());
    assert!(DurationParser::parse("2.5m").is_err()); // decimal minutes not supported
}

#[test]
fn test_parse_zero_duration() {
    assert!(DurationParser::parse("0h").is_err());
    assert!(DurationParser::parse("0m").is_err());
    assert!(DurationParser::parse("0h 0m").is_err());
}

#[test]
fn test_parse_error_variants() {
    assert_eq!(DurationParser::parse(""), Err(DurationError::Empty));
    assert_eq!(DurationParser::parse("   "), Err(DurationError::Empty));
    assert_eq!(DurationParser::parse("abc"), Err(DurationError::BadFormat));
    assert_eq!(DurationParser::parse("0h 0m"), Err(DurationError::Zero));
    // a fraction small enough to floor to zero minutes
    assert_eq!(DurationParser::parse("0.001h"), Err(DurationError::Zero));
    assert_eq!(
        DurationParser::parse("99999999999999999999h"),
        Err(DurationError::TooLarge)
    );
    // more than nine fraction digits is off the grammar
    assert_eq!(
        DurationParser::parse("1.0000000001h"),
        Err(DurationError::BadFormat)
    );
}

#[test]
fn test_format() {
    assert_eq!(DurationParser::format(150), "2h 30m");
    assert_eq!(DurationParser::format(120), "2h");
    assert_eq!(DurationParser::format(45), "45m");
    assert_eq!(DurationParser::format(75), "1h 15m");
}

#[test]
fn test_format_zero() {
    assert_eq!(DurationParser::format(0), "0m");
    assert_eq!(DurationParser::format(60), "1h");
}

#[test]
fn test_valid_project_names() {
    assert!(ProjectValidator::validate_name("my-project").is_ok());
    assert!(ProjectValidator::validate_name("project_123").is_ok());
    assert!(ProjectValidator::validate_name("MyProject").is_ok());
    assert!(ProjectValidator::validate_name("project1").is_ok());
    assert!(ProjectValidator::validate_name("a").is_ok());
    assert!(ProjectValidator::validate_name("Project-Name_123").is_ok());
}

#[test]
fn test_invalid_project_names() {
    // Empty name
    assert!(ProjectValidator::validate_name("").is_err());

    // Spaces not allowed
    assert!(ProjectValidator::validate_name("my project").is_err());

    // Special characters not allowed
    assert!(ProjectValidator::validate_name("project@home").is_err());
    assert!(ProjectValidator::validate_name("project!").is_err());
    assert!(ProjectValidator::validate_name("project.name").is_err());

    // Cannot start with hyphen or underscore
    assert!(ProjectValidator::validate_name("-project").is_err());
    assert!(ProjectValidator::validate_name("_project").is_err());

    // Too long (>50 characters)
    let long_name = "a".repeat(51);
    assert!(ProjectValidator::validate_name(&long_name).is_err());
}

#[test]
fn test_error_messages() {
    let result = ProjectValidator::validate_name("");
    assert!(result.is_err());
    assert!(result.unwrap_err().message().contains("cannot be empty"));

    let result = ProjectValidator::validate_name("my project");
    assert!(result.is_err());
    assert!(result
        .unwrap_err()
        .message()
        .contains("must start with a letter"));

    let long_name = "a".repeat(51);
    let result = ProjectValidator::validate_name(&long_name);
    assert!(result.is_err());
    assert!(result.unwrap_err().message().contains("50 characters"));
}

#[test]
fn test_name_error_variants() {
    assert_eq!(ProjectValidator::validate_name(""), Err(NameError::Empty));
    let long_name = "a".repeat(51);
    assert_eq!(
        ProjectValidator::validate_name(&long_name),
        Err(NameError::TooLong)
    );
    assert_eq!(
        ProjectValidator::validate_name("my project"),
        Err(NameError::BadFormat)
    );
}
