use backend_comparison::auth::{bearer_header, token_from_cache_contents};

#[test]
fn test_get_saved_token_from_cache_when_it_exists() {
    assert_eq!(token_from_cache_contents("existing_test_token"), Some("existing_test_token".to_string()));
}

#[test]
fn test_return_only_first_line_of_cache_as_token() {
    let token = token_from_cache_contents("first_line_token\nsecond_line\nthird_line").expect("token should be present");
    assert_eq!(token, "first_line_token", "The token should match only the first line of the file");
}

#[test]
fn test_return_none_when_cache_file_exists_but_is_empty() {
    assert!(token_from_cache_contents("").is_none(), "Expected None for empty cache file, got Some");
}

#[test]
fn crlf_line_ending_is_stripped() {
    assert_eq!(token_from_cache_contents("tok\r\nrest"), Some("tok".to_string()));
    assert_eq!(token_from_cache_contents("\nrest"), Some(String::new()));
    assert_eq!(token_from_cache_contents("tok\n"), Some("tok".to_string()));
}

#[test]
fn bearer_header_value() {
    assert_eq!(bearer_header("abc"), "Bearer abc");
}
