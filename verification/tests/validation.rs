use manga_core::validate::sanitize_string;
use manga_core::validate::validate_email;
use manga_core::validate::validate_manga_title;
use manga_core::validate::validate_password;
use manga_core::validate::validate_username;

#[test]
fn test_validate_email() {
    assert!(validate_email("test@example.com").is_ok());
    assert!(validate_email("invalid.email").is_err());
    assert!(validate_email("").is_err());
}

#[test]
fn test_validate_username() {
    assert!(validate_username("user123").is_ok());
    assert!(validate_username("ab").is_err()); // too short
    assert!(validate_username("user@123").is_err()); // invalid char
}

#[test]
fn test_validate_password() {
    assert!(validate_password("Password123").is_ok());
    assert!(validate_password("short").is_err()); // too short
    assert!(validate_password("nouppercase123").is_err()); // no uppercase
    assert!(validate_password("NOLOWERCASE123").is_err()); // no lowercase
    assert!(validate_password("NoNumber").is_err()); // no number
}

#[test]
fn email_error_messages_name_the_cause() {
    assert_eq!(validate_email(""), Err(String::from("Email is required")));
    assert_eq!(
        validate_email("no-at-sign"),
        Err(String::from("Invalid email format"))
    );
    let local = "a".repeat(95);
    let long = format!("{}@ex.com", local);
    assert_eq!(
        validate_email(&long),
        Err(String::from("Email is too long (max 100 characters)"))
    );
    assert!(validate_email("a@b.c").is_err()); // final label too short
    assert!(validate_email("a@b.co").is_ok());
    assert!(validate_email("first.last+tag@sub.domain.org").is_ok());
}

#[test]
fn password_error_messages_name_the_cause() {
    assert_eq!(
        validate_password(""),
        Err(String::from("Password is required"))
    );
    assert_eq!(
        validate_password("short"),
        Err(String::from("Password must be at least 8 characters"))
    );
    let long = "Aa1".repeat(40);
    assert_eq!(
        validate_password(&long),
        Err(String::from("Password is too long (max 100 characters)"))
    );
}

#[test]
fn sanitize_escapes_and_truncates() {
    assert_eq!(
        sanitize_string("  <b>\"hi\"</b>  ", 100),
        "&lt;b&gt;&quot;hi&quot;&lt;&#x2F;b&gt;"
    );
    assert_eq!(sanitize_string("  abcdef  ", 3), "abc");
    assert_eq!(sanitize_string("it's", 10), "it&#x27;s");
    assert_eq!(sanitize_string("   ", 10), "");
}

#[test]
fn manga_title_must_be_present_and_short() {
    assert!(validate_manga_title("One Piece").is_ok());
    assert_eq!(
        validate_manga_title("   "),
        Err(String::from("Manga title is required"))
    );
    let long = "t".repeat(201);
    assert_eq!(
        validate_manga_title(&long),
        Err(String::from("Manga title is too long (max 200 characters)"))
    );
}
