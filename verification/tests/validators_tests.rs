//! Checks of the email and password validators.

use entries_core::validators::{validate_email_address, validate_strong_password};

#[test]
fn test_validate_email_address() {
    // Valid
    const NORMAL: &str = "test@example.com";
    const WITH_DOT_IN_USERNAME: &str = "test.me@example.com";
    const MULTIPLE_DOT_DOMAIN: &str = "email@example.co.jp";
    const PLUS_IN_USERNAME: &str = "firstname+lastname@example.com";
    const IP_DOMAIN: &str = "email@123.123.123.123";
    const BRACKETED_IP_DOMAIN: &str = "email@[123.123.123.123]";
    const WITH_QUOTATION_MARKS: &str = "\"email\"@example.com";
    const NUMERIC_USERNAME: &str = "1234567890@example.com";
    const DASH_IN_DOMAIN: &str = "email@example-one.com";
    const DASH_IN_USERNAME: &str = "firstname-lastname@example.com";
    const ALL_UNDERSCORE_USERNAME: &str = "_______@example.com";

    assert!(validate_email_address(NORMAL).is_valid());
    assert!(validate_email_address(WITH_DOT_IN_USERNAME).is_valid());
    assert!(validate_email_address(MULTIPLE_DOT_DOMAIN).is_valid());
    assert!(validate_email_address(PLUS_IN_USERNAME).is_valid());
    assert!(validate_email_address(IP_DOMAIN).is_valid());
    assert!(validate_email_address(BRACKETED_IP_DOMAIN).is_valid());
    assert!(validate_email_address(WITH_QUOTATION_MARKS).is_valid());
    assert!(validate_email_address(NUMERIC_USERNAME).is_valid());
    assert!(validate_email_address(DASH_IN_DOMAIN).is_valid());
    assert!(validate_email_address(DASH_IN_USERNAME).is_valid());
    assert!(validate_email_address(ALL_UNDERSCORE_USERNAME).is_valid());

    // Invalid
    const WITH_SPACE: &str = "te st@example.com";
    const NON_ASCII_CHAR: &str = "test😂@example.com";
    const MULTIPLE_AT: &str = "test@exam.com@ple.com";
    const NO_AT: &str = "testexample.com";
    const DOMAIN_DOT_ADJACENT_TO_AT: &str = "test@.com";
    const DOT_LAST_CHAR: &str = "test@example.com.";

    assert!(!validate_email_address(WITH_SPACE).is_valid());
    assert!(!validate_email_address(NON_ASCII_CHAR).is_valid());
    assert!(!validate_email_address(MULTIPLE_AT).is_valid());
    assert!(!validate_email_address(NO_AT).is_valid());
    assert!(!validate_email_address(DOMAIN_DOT_ADJACENT_TO_AT).is_valid());
    assert!(!validate_email_address(DOT_LAST_CHAR).is_valid());
}

#[test]
fn test_validate_strong_password() {
    const EMAIL: &str = "test_user@test.com";
    const FIRST_NAME: &str = "Arnold";
    const LAST_NAME: &str = "Schwarzenegger";

    let mut password = String::new();

    // Empty
    assert!(!validate_strong_password(&password, EMAIL, FIRST_NAME, LAST_NAME, 12).is_valid());

    // Shorter than 12 chars
    password = String::from("Qo1aG@Qe!9z");
    assert!(!validate_strong_password(&password, EMAIL, FIRST_NAME, LAST_NAME, 12).is_valid());

    // Contains "password"
    password = String::from("sd@#$#324dDPaSsWOrd#$90");
    assert!(!validate_strong_password(&password, EMAIL, FIRST_NAME, LAST_NAME, 12).is_valid());

    // No uppercase
    password = String::from("axgwjq7byvbgzu&70@1$");
    assert!(!validate_strong_password(&password, EMAIL, FIRST_NAME, LAST_NAME, 12).is_valid());

    // No lowercase
    password = String::from("XLX%J!6&$SAUYII2*Q4J");
    assert!(!validate_strong_password(&password, EMAIL, FIRST_NAME, LAST_NAME, 12).is_valid());

    // No number
    password = String::from("Hf)y!GqmiB&#Agwa*qbQ");
    assert!(!validate_strong_password(&password, EMAIL, FIRST_NAME, LAST_NAME, 12).is_valid());

    // No ASCII special chars
    password = String::from("aqBA19jyuajjq3UvpYwp");
    assert!(!validate_strong_password(&password, EMAIL, FIRST_NAME, LAST_NAME, 12).is_valid());

    // Contains user's first name
    password = String::from("yqTq8xAOJ$") + FIRST_NAME + "$d9";
    assert!(!validate_strong_password(&password, EMAIL, FIRST_NAME, LAST_NAME, 12).is_valid());

    // Contains user's last name
    password = String::from("8#@V2TT0or") + LAST_NAME + "HF^h3z";
    assert!(!validate_strong_password(&password, EMAIL, FIRST_NAME, LAST_NAME, 12).is_valid());

    // Contains username part of user's email
    password = String::from("Qh*r4qj8vD") + EMAIL.split_once('@').unwrap().0 + "3uX#F";
    assert!(!validate_strong_password(&password, EMAIL, FIRST_NAME, LAST_NAME, 12).is_valid());

    // Valid
    password = String::from("1&B3d^hJ37^9$YNA2sD9");
    assert!(validate_strong_password(&password, EMAIL, FIRST_NAME, LAST_NAME, 12).is_valid());

    // Valid
    password = String::from("HtbNUF4j&x92");
    assert!(validate_strong_password(&password, EMAIL, FIRST_NAME, LAST_NAME, 12).is_valid());
}
