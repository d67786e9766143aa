use spark_core::text::contains_everyone;
use spark_core::text::extract_mention_tokens;
use spark_core::text::str_eq;
use spark_core::error::AuthError;

#[test]
fn test_str_eq_basic() {
    assert!(str_eq("", ""));
    assert!(str_eq("abc", "abc"));
    assert!(!str_eq("abc", "abd"));
    assert!(!str_eq("abc", "ab"));
    assert!(str_eq("héllo", "héllo"));
    assert!(!str_eq("héllo", "hello"));
}

#[test]
fn test_contains_everyone_cases() {
    assert!(contains_everyone("@everyone"));
    assert!(contains_everyone("hello @Everyone!"));
    assert!(contains_everyone("x@EVERYONEy"));
    assert!(!contains_everyone("everyone"));
    assert!(!contains_everyone("@everyon"));
    assert!(!contains_everyone(""));
    assert!(!contains_everyone("@ everyone"));
}

#[test]
fn test_extract_mention_tokens_cases() {
    assert_eq!(extract_mention_tokens("hi @bob"), vec!["bob".to_string()]);
    assert_eq!(
        extract_mention_tokens("@alice @bob_2 and @carol!"),
        vec!["alice".to_string(), "bob_2".to_string(), "carol".to_string()]
    );
    // the token "everyone" is filtered out, other tokens stay
    assert_eq!(extract_mention_tokens("@everyone @bob"), vec!["bob".to_string()]);
    assert_eq!(extract_mention_tokens("@Everyone"), Vec::<String>::new());
    // a lone "@" or "@" before a non-word character yields nothing
    assert_eq!(extract_mention_tokens("mail @ nothing @@"), Vec::<String>::new());
    // "@@bob" matches at the second "@"
    assert_eq!(extract_mention_tokens("@@bob"), vec!["bob".to_string()]);
    // tokens stop at the first non-word character
    assert_eq!(extract_mention_tokens("@bob.smith"), vec!["bob".to_string()]);
    assert_eq!(extract_mention_tokens(""), Vec::<String>::new());
}

#[test]
fn test_error_labels() {
    assert_eq!(AuthError::UserExists.label(), "User already exists");
    assert_eq!(AuthError::InvalidCredentials.label(), "Invalid credentials");
    assert_eq!(AuthError::UserNotFound.label(), "User not found");
    assert_eq!(AuthError::InvalidSession.label(), "Session not found or expired");
    assert_eq!(AuthError::InvalidInput("x".to_string()).label(), "Invalid input");
    assert_eq!(AuthError::PasswordHash("y".to_string()).label(), "Password hashing error");
}
