//! Login of clients and on backends.
use nntp_proxy::auth::backend::{BackendAuthError, BackendAuthenticator, LoginStep};
use nntp_proxy::auth::handler::{AuthHandler, Credentials};
use nntp_proxy::command::handler::AuthAction;
use nntp_proxy::protocol::{authinfo_pass, authinfo_user, ResponseParser};
use nntp_proxy::types::{Password, Username, ValidationError};

fn test_handler() -> AuthHandler {
    AuthHandler::new(None, None).unwrap()
}

#[test]
fn test_new() {
    let creds = Credentials::new(
        Username::new("user".to_string()).unwrap(),
        Password::new("pass".to_string()).unwrap(),
    );
    assert_eq!(creds.username.as_str(), "user");
    assert_eq!(creds.password.as_str(), "pass");
}

#[test]
fn test_validate_correct() {
    let creds = Credentials::new(
        Username::new("alice".to_string()).unwrap(),
        Password::new("secret123".to_string()).unwrap(),
    );
    assert!(creds.validate("alice", "secret123"));
}

#[test]
fn test_validate_wrong_username() {
    let creds = Credentials::new(
        Username::new("alice".to_string()).unwrap(),
        Password::new("secret123".to_string()).unwrap(),
    );
    assert!(!creds.validate("bob", "secret123"));
}

#[test]
fn test_validate_wrong_password() {
    let creds = Credentials::new(
        Username::new("alice".to_string()).unwrap(),
        Password::new("secret123".to_string()).unwrap(),
    );
    assert!(!creds.validate("alice", "wrong"));
}

#[test]
fn test_validate_both_wrong() {
    let creds = Credentials::new(
        Username::new("alice".to_string()).unwrap(),
        Password::new("secret123".to_string()).unwrap(),
    );
    assert!(!creds.validate("bob", "wrong"));
}

#[test]
fn test_validate_empty_strings_rejected() {
    // Empty strings should fail validation
    assert!(Username::new("".to_string()).is_err());
    assert!(Password::new("".to_string()).is_err());
    assert!(Username::new("   ".to_string()).is_err());
    assert!(Password::new("   ".to_string()).is_err());
}

#[test]
fn test_validate_case_sensitive() {
    let creds = Credentials::new(
        Username::new("Alice".to_string()).unwrap(),
        Password::new("Secret".to_string()).unwrap(),
    );
    assert!(creds.validate("Alice", "Secret"));
    assert!(!creds.validate("alice", "Secret"));
    assert!(!creds.validate("Alice", "secret"));
    assert!(!creds.validate("alice", "secret"));
}

#[test]
fn test_validate_with_spaces() {
    let creds = Credentials::new(
        Username::new("user name".to_string()).unwrap(),
        Password::new("pass word".to_string()).unwrap(),
    );
    assert!(creds.validate("user name", "pass word"));
    assert!(!creds.validate("username", "password"));
}

#[test]
fn test_validate_unicode() {
    let creds = Credentials::new(
        Username::new("用户".to_string()).unwrap(),
        Password::new("密码".to_string()).unwrap(),
    );
    assert!(creds.validate("用户", "密码"));
    assert!(!creds.validate("user", "pass"));
}

#[test]
fn test_validate_special_chars() {
    let creds = Credentials::new(
        Username::new("user@example.com".to_string()).unwrap(),
        Password::new("p@ss!w0rd#123".to_string()).unwrap(),
    );
    assert!(creds.validate("user@example.com", "p@ss!w0rd#123"));
    assert!(!creds.validate("user", "p@ss!w0rd#123"));
}

#[test]
fn test_clone() {
    let creds1 = Credentials::new(
        Username::new("user".to_string()).unwrap(),
        Password::new("pass".to_string()).unwrap(),
    );
    let creds2 = creds1.clone();
    assert_eq!(creds1.username, creds2.username);
    assert_eq!(creds1.password, creds2.password);
    assert!(creds2.validate("user", "pass"));
}

#[test]
fn test_very_long_credentials() {
    let long_user = "u".repeat(1000);
    let long_pass = "p".repeat(1000);
    let creds = Credentials::new(
        Username::new(long_user.clone()).unwrap(),
        Password::new(long_pass.clone()).unwrap(),
    );
    assert!(creds.validate(&long_user, &long_pass));
    assert!(!creds.validate(&long_user, "wrong"));
}

#[test]
fn test_default() {
    let handler = AuthHandler::default();
    assert!(!handler.is_enabled());
}

#[test]
fn test_new_with_both_credentials() {
    let handler =
        AuthHandler::new(Some("user".to_string()), Some("pass".to_string())).unwrap();
    assert!(handler.is_enabled());
}

#[test]
fn test_new_with_only_username() {
    let handler = AuthHandler::new(Some("user".to_string()), None).unwrap();
    assert!(!handler.is_enabled());
}

#[test]
fn test_new_with_only_password() {
    let handler = AuthHandler::new(None, Some("pass".to_string())).unwrap();
    assert!(!handler.is_enabled());
}

#[test]
fn test_new_with_neither() {
    let handler = AuthHandler::new(None, None).unwrap();
    assert!(!handler.is_enabled());
}

#[test]
fn test_new_with_empty_username_fails() {
    let result = AuthHandler::new(Some("".to_string()), Some("pass".to_string()));
    assert!(result.is_err(), "Empty username should return error");
}

#[test]
fn test_new_with_empty_password_fails() {
    let result = AuthHandler::new(Some("user".to_string()), Some("".to_string()));
    assert!(result.is_err(), "Empty password should return error");
}

#[test]
fn test_new_with_whitespace_username_fails() {
    let result = AuthHandler::new(Some("   ".to_string()), Some("pass".to_string()));
    assert!(
        result.is_err(),
        "Whitespace-only username should return error"
    );
}

#[test]
fn test_new_with_whitespace_password_fails() {
    let result = AuthHandler::new(Some("user".to_string()), Some("   ".to_string()));
    assert!(
        result.is_err(),
        "Whitespace-only password should return error"
    );
}

#[test]
fn test_validate_when_disabled() {
    let handler = AuthHandler::new(None, None).unwrap();
    assert!(handler.validate("any", "thing"));
    assert!(handler.validate("", ""));
    assert!(handler.validate("foo", "bar"));
}

#[test]
fn test_validate_when_enabled() {
    let handler =
        AuthHandler::new(Some("alice".to_string()), Some("secret".to_string())).unwrap();
    assert!(handler.validate("alice", "secret"));
    assert!(!handler.validate("alice", "wrong"));
    assert!(!handler.validate("bob", "secret"));
    assert!(!handler.validate("bob", "wrong"));
}

#[test]
fn test_is_enabled_consistent() {
    let disabled = AuthHandler::new(None, None).unwrap();
    assert!(!disabled.is_enabled());
    assert!(!disabled.is_enabled()); // Call twice to ensure consistency

    let enabled = AuthHandler::new(Some("u".to_string()), Some("p".to_string())).unwrap();
    assert!(enabled.is_enabled());
    assert!(enabled.is_enabled()); // Call twice to ensure consistency
}

#[test]
fn test_user_response() {
    let handler = test_handler();
    let response = handler.user_response();
    let response_str = String::from_utf8_lossy(response);

    // Should be 381 Password required
    assert!(response_str.starts_with("381"));
    assert!(response_str.contains("Password required") || response_str.contains("password"));
    assert!(response_str.ends_with("\r\n"));
}

#[test]
fn test_pass_response() {
    let handler = test_handler();
    let response = handler.pass_response();
    let response_str = String::from_utf8_lossy(response);

    // Should be 281 Authentication accepted
    assert!(response_str.starts_with("281"));
    assert!(response_str.contains("accepted") || response_str.contains("Authentication"));
    assert!(response_str.ends_with("\r\n"));
}

#[test]
fn test_responses_are_static() {
    // Verify responses are the same each time (static)
    let handler = test_handler();
    let response1 = handler.user_response();
    let response2 = handler.user_response();
    assert_eq!(response1.as_ptr(), response2.as_ptr());

    let response3 = handler.pass_response();
    let response4 = handler.pass_response();
    assert_eq!(response3.as_ptr(), response4.as_ptr());
}

#[test]
fn test_responses_are_different() {
    // User and pass responses should be different
    let handler = test_handler();
    let user_resp = handler.user_response();
    let pass_resp = handler.pass_response();
    assert_ne!(user_resp, pass_resp);
}

#[test]
fn test_responses_are_valid_utf8() {
    // Ensure responses are valid UTF-8
    let handler = test_handler();
    let user_resp = handler.user_response();
    assert!(std::str::from_utf8(user_resp).is_ok());

    let pass_resp = handler.pass_response();
    assert!(std::str::from_utf8(pass_resp).is_ok());
}

#[test]
fn test_auth_disabled_by_default() {
    let handler = AuthHandler::default();
    assert!(!handler.is_enabled());
    assert!(handler.validate("any", "thing")); // Should accept anything
}

#[test]
fn test_auth_new_none_none() {
    let handler = AuthHandler::new(None, None).unwrap();
    assert!(!handler.is_enabled());
    assert!(handler.validate("any", "thing"));
}

#[test]
fn test_auth_enabled_with_credentials() {
    let handler =
        AuthHandler::new(Some("mjc".to_string()), Some("nntp1337".to_string())).unwrap();
    assert!(handler.is_enabled());
    assert!(handler.validate("mjc", "nntp1337"));
    assert!(!handler.validate("mjc", "wrong"));
    assert!(!handler.validate("wrong", "nntp1337"));
}

#[test]
fn test_security_empty_credentials_rejected() {
    // Empty username must fail
    let result = AuthHandler::new(Some("".to_string()), Some("pass".to_string()));
    assert!(
        result.is_err(),
        "Empty username should be rejected to prevent silent auth bypass"
    );

    // Empty password must fail
    let result = AuthHandler::new(Some("user".to_string()), Some("".to_string()));
    assert!(
        result.is_err(),
        "Empty password should be rejected to prevent silent auth bypass"
    );

    // Both empty must fail
    let result = AuthHandler::new(Some("".to_string()), Some("".to_string()));
    assert!(
        result.is_err(),
        "Both empty should be rejected to prevent silent auth bypass"
    );
}

#[test]
fn test_security_whitespace_credentials_rejected() {
    // Whitespace-only username must fail
    let result = AuthHandler::new(Some("   ".to_string()), Some("pass".to_string()));
    assert!(
        result.is_err(),
        "Whitespace-only username should be rejected"
    );

    // Whitespace-only password must fail
    let result = AuthHandler::new(Some("user".to_string()), Some("   ".to_string()));
    assert!(
        result.is_err(),
        "Whitespace-only password should be rejected"
    );
}

#[test]
fn test_security_explicit_config_prevents_silent_bypass() {
    // Credentials that are set but empty must fail: login is never switched off
    // by a slip.

    // Simulate someone setting credentials in config
    let username_from_config = Some("".to_string()); // Typo or misconfiguration
    let password_from_config = Some("secret".to_string());

    let result = AuthHandler::new(username_from_config, password_from_config);

    assert!(
        result.is_err(),
        "Proxy must refuse to start with empty credentials from config. \
         Silently disabling auth would be a critical security vulnerability!"
    );
}

/// Test ResponseParser::is_auth_success
#[test]
fn test_auth_response_parsing() {
    // Test successful auth response
    let auth_success = b"281 Authentication accepted\r\n";
    assert!(ResponseParser::is_auth_success(auth_success));

    // Test password required response
    let password_required = b"381 Password required\r\n";
    assert!(ResponseParser::is_auth_required(password_required));
    assert!(!ResponseParser::is_auth_success(password_required));

    // Test failure response
    let auth_failed = b"481 Authentication failed\r\n";
    assert!(!ResponseParser::is_auth_success(auth_failed));
    assert!(!ResponseParser::is_auth_required(auth_failed));
}

/// Test greeting detection
#[test]
fn test_greeting_parsing() {
    let greeting = b"200 Welcome to the NNTP server\r\n";
    assert!(ResponseParser::is_greeting(greeting));

    let greeting_auth_required = b"201 Welcome, authentication required\r\n";
    assert!(ResponseParser::is_greeting(greeting_auth_required));

    let not_greeting = b"400 Service temporarily unavailable\r\n";
    assert!(!ResponseParser::is_greeting(not_greeting));
}

/// Test authentication command formatting
#[test]
fn test_authentication_command_format() {
    // Verify the commands we construct are correct
    let username = "testuser";
    let password = "testpass";

    let user_command = authinfo_user(username);
    assert_eq!(user_command, "AUTHINFO USER testuser\r\n");

    let pass_command = authinfo_pass(password);
    assert_eq!(pass_command, "AUTHINFO PASS testpass\r\n");
}

/// Test edge cases in command formatting
#[test]
fn test_authentication_command_edge_cases() {
    // Username with spaces (invalid but test the format)
    let username = "user with spaces";
    let user_command = authinfo_user(username);
    assert!(user_command.contains("user with spaces"));

    // Empty username
    let empty_command = authinfo_user("");
    assert_eq!(empty_command, "AUTHINFO USER \r\n");

    // Password with special characters
    let password = "p@ssw0rd!#$";
    let pass_command = authinfo_pass(password);
    assert_eq!(pass_command, "AUTHINFO PASS p@ssw0rd!#$\r\n");
}

#[test]
fn blank_credentials_name_the_culprit() {
    assert_eq!(
        AuthHandler::new(Some(" ".to_string()), Some("p".to_string())).err(),
        Some(ValidationError::EmptyUsername)
    );
    assert_eq!(
        AuthHandler::new(Some("u".to_string()), Some("\t".to_string())).err(),
        Some(ValidationError::EmptyPassword)
    );
    assert_eq!(
        ValidationError::EmptyUsername.message(),
        "username cannot be empty or whitespace"
    );
}

#[test]
fn a_password_counts_for_the_name_before_it() {
    let handler = AuthHandler::new(Some("alice".to_string()), Some("secret".to_string())).unwrap();
    let asked = handler.answer(AuthAction::RequestPassword("alice"), None);
    assert!(!asked.success);
    assert_eq!(asked.response, b"381 Password required\r\n");
    let passed = handler.answer(
        AuthAction::ValidateAndRespond { password: "secret" },
        Some("alice"),
    );
    assert!(passed.success);
    assert_eq!(passed.response, b"281 Authentication accepted\r\n");
    let other_name = handler.answer(
        AuthAction::ValidateAndRespond { password: "secret" },
        Some("bob"),
    );
    assert!(!other_name.success);
    assert_eq!(other_name.response, b"481 Authentication failed\r\n");
    let no_name = handler.answer(AuthAction::ValidateAndRespond { password: "secret" }, None);
    assert!(!no_name.success);
    assert_eq!(no_name.response, b"481 Authentication failed\r\n");
    let unknown = handler.answer(AuthAction::UnknownSubcommand, Some("alice"));
    assert!(!unknown.success);
    assert_eq!(unknown.response, b"501 Syntax error\r\n");
}

#[test]
fn a_login_sends_the_password_only_when_asked() {
    assert!(BackendAuthenticator::check_greeting(b"200 Welcome\r\n").is_ok());
    assert_eq!(
        BackendAuthenticator::check_greeting(b"502 Go away\r\n"),
        Err(BackendAuthError::Greeting)
    );
    assert_eq!(
        BackendAuthError::Greeting.message(),
        "Server returned non-success greeting: "
    );
    assert!(
        matches!(BackendAuthenticator::start("user"), LoginStep::Send(line) if line == "AUTHINFO USER user\r\n")
    );
    assert!(matches!(
        BackendAuthenticator::after_user(b"281 Welcome\r\n", "pass"),
        LoginStep::Done
    ));
    assert!(
        matches!(BackendAuthenticator::after_user(b"381 More\r\n", "pass"), LoginStep::Send(line) if line == "AUTHINFO PASS pass\r\n")
    );
    assert!(matches!(
        BackendAuthenticator::after_user(b"482 No\r\n", "pass"),
        LoginStep::Fail(BackendAuthError::UnexpectedUserResponse)
    ));
    assert!(matches!(
        BackendAuthenticator::after_pass(b"281 Welcome\r\n"),
        LoginStep::Done
    ));
    assert!(matches!(
        BackendAuthenticator::after_pass(b"481 No\r\n"),
        LoginStep::Fail(BackendAuthError::Failed)
    ));
}

#[test]
fn a_lone_blank_credential_is_an_error() {
    let user = |s: &str| AuthHandler::new(Some(s.to_string()), None);
    let pass = |s: &str| AuthHandler::new(None, Some(s.to_string()));
    assert_eq!(user("").err(), Some(ValidationError::EmptyUsername));
    assert_eq!(user(" \t").err(), Some(ValidationError::EmptyUsername));
    assert_eq!(pass("").err(), Some(ValidationError::EmptyPassword));
    assert_eq!(pass("  ").err(), Some(ValidationError::EmptyPassword));
    assert!(!user("me").unwrap().is_enabled());
    assert!(!pass("word").unwrap().is_enabled());
}
