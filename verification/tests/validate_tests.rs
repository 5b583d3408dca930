use dsz::validate::tree_depth_validator;

#[test]
fn plain_depth_parses() {
    assert_eq!(tree_depth_validator("3"), Ok(3));
    assert_eq!(tree_depth_validator("1"), Ok(1));
    assert_eq!(tree_depth_validator("37"), Ok(37));
}

#[test]
fn leading_plus_is_accepted() {
    assert_eq!(tree_depth_validator("+7"), Ok(7));
}

#[test]
fn leading_zeros_are_accepted() {
    assert_eq!(tree_depth_validator("007"), Ok(7));
}

#[test]
fn empty_value() {
    assert_eq!(
        tree_depth_validator(""),
        Err("No value provided. Either provide a value with = or remove the flag.".to_string())
    );
}

#[test]
fn zero_is_too_small() {
    assert_eq!(
        tree_depth_validator("0"),
        Err("Depth must be greater than or equal to 1".to_string())
    );
}

#[test]
fn negative_depth() {
    assert_eq!(
        tree_depth_validator("-5"),
        Err("Negative depth values are not allowed".to_string())
    );
}

#[test]
fn minus_zero_is_not_negative() {
    assert_eq!(
        tree_depth_validator("-0"),
        Err("invalid digit found in string".to_string())
    );
}

#[test]
fn malformed_value() {
    assert_eq!(
        tree_depth_validator("abc"),
        Err("invalid digit found in string".to_string())
    );
    assert_eq!(
        tree_depth_validator("12x"),
        Err("invalid digit found in string".to_string())
    );
    assert_eq!(
        tree_depth_validator("+"),
        Err("invalid digit found in string".to_string())
    );
}

#[test]
fn overflowing_depth() {
    assert_eq!(
        tree_depth_validator("99999999999999999999999"),
        Err("Depth must be less than 18446744073709551615".to_string())
    );
}

#[test]
fn largest_depth_is_accepted() {
    assert_eq!(
        tree_depth_validator("18446744073709551615"),
        Ok(18446744073709551615)
    );
}
