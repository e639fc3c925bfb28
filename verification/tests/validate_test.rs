use cargo_polylith::validate::{validate_brick_name, validate_name};

#[test]
fn valid_names_are_accepted() {
    assert!(validate_brick_name("my-component").is_ok());
    assert!(validate_brick_name("my_component").is_ok());
    assert!(validate_brick_name("_private").is_ok());
    assert!(validate_brick_name("abc123").is_ok());
}

#[test]
fn empty_name_is_rejected() {
    assert!(validate_brick_name("").is_err());
}

#[test]
fn name_starting_with_digit_is_rejected() {
    assert!(validate_brick_name("1abc").is_err());
}

#[test]
fn name_starting_with_hyphen_is_rejected() {
    assert!(validate_brick_name("-abc").is_err());
}

#[test]
fn name_with_spaces_is_rejected() {
    assert!(validate_brick_name("my component").is_err());
}

#[test]
fn name_with_unicode_is_rejected() {
    assert!(validate_brick_name("caf\u{00e9}").is_err());
}

#[test]
fn brick_name_error_messages() {
    assert_eq!(validate_brick_name("").unwrap_err(), "name cannot be empty");
    assert_eq!(
        validate_brick_name("a b").unwrap_err(),
        "name must contain only alphanumeric characters, underscores, or hyphens"
    );
    assert_eq!(validate_brick_name("9x").unwrap_err(), "name must start with a letter or underscore");
}

#[test]
fn component_name_allows_leading_digit() {
    assert!(validate_name("1abc").is_ok());
    assert!(validate_name("").is_err());
    assert!(validate_name("a/b").is_err());
}
