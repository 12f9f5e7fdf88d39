use callhook::verification_config::{
    default_method, ChallengeConfig, ContentType, ResponseConfig, TokenConfig, VerificationConfig,
};

const VERIFICATION_PATH: &str = "callhook";

fn create_test_config(path: &str, method: &str) -> VerificationConfig {
    VerificationConfig::new(
        path.to_string(),
        method.to_string(),
        TokenConfig::new("header".to_string(), "X-Hub-Signature".to_string()),
        ChallengeConfig::new("query".to_string(), "hub.challenge".to_string()),
        ResponseConfig::new(ContentType::TextPlain, "{{challenge}}".to_string(), None),
    )
}

#[test]
fn test_test_get_verification_path() {
    let config = create_test_config(&format!("{}/endpoint", VERIFICATION_PATH), "GET");
    assert_eq!(config.get_verification_path(), format!("{}/endpoint", VERIFICATION_PATH));
}

#[test]
fn test_test_get_verification_method() {
    let config = create_test_config(&format!("{}/endpoint", VERIFICATION_PATH), "post");
    assert_eq!(config.get_verification_method(), "POST");
}

#[test]
fn test_test_is_verification_path_valid() {
    // Valid paths
    assert!(create_test_config(VERIFICATION_PATH, "GET").is_verification_path_valid());
    assert!(create_test_config(&format!("{}/endpoint", VERIFICATION_PATH), "GET").is_verification_path_valid());
    assert!(create_test_config(&format!("/{}", VERIFICATION_PATH), "GET").is_verification_path_valid());
    assert!(create_test_config(&format!("/{}/endpoint", VERIFICATION_PATH), "GET").is_verification_path_valid());

    // Invalid paths
    assert!(!create_test_config("", "GET").is_verification_path_valid());
    assert!(!create_test_config("/", "GET").is_verification_path_valid());
    assert!(!create_test_config("invalid", "GET").is_verification_path_valid());
    assert!(!create_test_config("/invalid", "GET").is_verification_path_valid());
    assert!(!create_test_config(&format!("/invalid/{}", VERIFICATION_PATH), "GET").is_verification_path_valid());
}

#[test]
fn test_test_is_verification_path_exact_matching() {
    let config = create_test_config(&format!("{}/endpoint", VERIFICATION_PATH), "GET");

    // Exact matches
    assert!(config.is_verification_path(format!("{}/endpoint", VERIFICATION_PATH)));
    assert!(config.is_verification_path(format!("/{}/endpoint", VERIFICATION_PATH)));
    assert!(config.is_verification_path(format!("{}/endpoint/", VERIFICATION_PATH)));
    assert!(config.is_verification_path(format!("/{}/endpoint/", VERIFICATION_PATH)));

    // Non-matches
    assert!(!config.is_verification_path(VERIFICATION_PATH.to_string()));
    assert!(!config.is_verification_path(format!("{}/wrong", VERIFICATION_PATH)));
    assert!(!config.is_verification_path(format!("{}/endpoint/extra", VERIFICATION_PATH)));
    assert!(!config.is_verification_path(format!("wrong/{}/endpoint", VERIFICATION_PATH)));
}

#[test]
fn test_test_is_verification_path_with_wildcards() {
    // A wildcard in the middle
    let config_middle = create_test_config(&format!("{}/.../endpoint", VERIFICATION_PATH), "GET");

    assert!(config_middle.is_verification_path(format!("{}/anything/endpoint", VERIFICATION_PATH)));
    assert!(config_middle.is_verification_path(format!("{}/multi/level/path/endpoint", VERIFICATION_PATH)));
    assert!(config_middle.is_verification_path(format!("/{}/anything/endpoint", VERIFICATION_PATH)));

    assert!(!config_middle.is_verification_path(format!("{}/endpoint", VERIFICATION_PATH)));
    assert!(!config_middle.is_verification_path(format!("{}/endpoint/extra", VERIFICATION_PATH)));
    assert!(!config_middle.is_verification_path(VERIFICATION_PATH.to_string()));

    // A wildcard at the end
    let config_end = create_test_config(&format!("{}/endpoint/...", VERIFICATION_PATH), "GET");

    // the wildcard must take at least one segment
    assert!(!config_end.is_verification_path(format!("{}/endpoint", VERIFICATION_PATH)));
    assert!(config_end.is_verification_path(format!("{}/endpoint/extra", VERIFICATION_PATH)));
    assert!(config_end.is_verification_path(format!("{}/endpoint/multi/level/extra", VERIFICATION_PATH)));

    assert!(!config_end.is_verification_path(VERIFICATION_PATH.to_string()));
    assert!(!config_end.is_verification_path(format!("{}/wrong", VERIFICATION_PATH)));

    // A wildcard at the beginning: nothing matches
    let config_start = create_test_config(&format!(".../{}/endpoint", VERIFICATION_PATH), "GET");

    assert!(!config_start.is_verification_path(format!("prefix/{}/endpoint", VERIFICATION_PATH)));
    assert!(!config_start.is_verification_path(format!("multi/level/prefix/{}/endpoint", VERIFICATION_PATH)));
    assert!(!config_start.is_verification_path(format!("{}/endpoint", VERIFICATION_PATH)));

    assert!(!config_start.is_verification_path(VERIFICATION_PATH.to_string()));
    assert!(!config_start.is_verification_path(format!("{}/endpoint/extra", VERIFICATION_PATH)));
}

#[test]
fn test_test_is_verification_path_multiple_wildcards() {
    let config = create_test_config(&format!("{}/.../middle/.../endpoint", VERIFICATION_PATH), "GET");

    assert!(config.is_verification_path(format!("{}/anything/middle/something/endpoint", VERIFICATION_PATH)));
    assert!(config.is_verification_path(format!("{}/a/b/c/middle/x/y/z/endpoint", VERIFICATION_PATH)));

    assert!(!config.is_verification_path(format!("{}/middle/endpoint", VERIFICATION_PATH)));
    assert!(!config.is_verification_path(format!("{}/anything/endpoint", VERIFICATION_PATH)));
    assert!(!config.is_verification_path(format!("{}/anything/middle", VERIFICATION_PATH)));
}

#[test]
fn test_test_is_verification_path_adjacent_wildcards() {
    let config = create_test_config(&format!("{}/.../.../.../endpoint", VERIFICATION_PATH), "GET");

    // One segment for each wildcard
    assert!(config.is_verification_path(format!("{}/a/b/c/endpoint", VERIFICATION_PATH)));

    // Several segments for the first wildcard
    assert!(config.is_verification_path(format!("{}/a/b/c/d/endpoint", VERIFICATION_PATH)));

    // Segments spread over the wildcards
    assert!(config.is_verification_path(format!("{}/a/b/c/endpoint", VERIFICATION_PATH)));

    // The endpoint is missing
    assert!(!config.is_verification_path(format!("{}/a/b/c", VERIFICATION_PATH)));

    // The last segment is wrong
    assert!(!config.is_verification_path(format!("{}/a/b/c/wrong", VERIFICATION_PATH)));
}

#[test]
fn test_test_is_verification_path_edge_cases() {
    let invalid_config = create_test_config("invalid", "GET");

    assert!(!invalid_config.is_verification_path("invalid".to_string()));
    assert!(!invalid_config.is_verification_path(VERIFICATION_PATH.to_string()));

    let empty_config = create_test_config("", "GET");
    assert!(!empty_config.is_verification_path("".to_string()));
    assert!(!empty_config.is_verification_path(VERIFICATION_PATH.to_string()));
}

#[test]
fn test_test_set_token() {
    let mut config = create_test_config(VERIFICATION_PATH, "GET");

    config.set_expected_token("new_token".to_string());
    assert_eq!(config.get_expected_token(), "new_token");
}

#[test]
fn token_is_compared_without_outer_white_space() {
    let mut config = create_test_config(VERIFICATION_PATH, "GET");
    config.set_expected_token("  secret\n".to_string());
    assert!(config.is_token_valid("secret".to_string()));
    assert!(config.is_token_valid("\tsecret \u{2003}".to_string()));
    assert!(!config.is_token_valid("sec ret".to_string()));
    assert!(!config.is_token_valid("Secret".to_string()));
    assert!(!config.is_token_valid("".to_string()));
    config.set_expected_token(" \u{a0} ".to_string());
    assert!(config.is_token_valid("".to_string()));
}

#[test]
fn method_is_upper_cased_beyond_ascii() {
    let config = create_test_config(VERIFICATION_PATH, "stra\u{df}e");
    assert_eq!(config.get_verification_method(), "STRASSE");
    assert_eq!(config.get_method(), "stra\u{df}e");
}

#[test]
fn default_method_is_get() {
    assert_eq!(default_method(), "GET");
}

#[test]
fn content_types_have_two_names() {
    assert_eq!(ContentType::TextPlain.as_str(), "text/plain");
    assert_eq!(ContentType::ApplicationJson.as_str(), "application/json");
    assert_eq!(ContentType::parse("text/plain"), Some(ContentType::TextPlain));
    assert_eq!(ContentType::parse("application/json"), Some(ContentType::ApplicationJson));
    assert_eq!(ContentType::parse("text/html"), None);
    assert_eq!(ContentType::parse("Text/Plain"), None);
    assert_eq!(ContentType::parse(""), None);
}

#[test]
fn response_config_hands_out_its_parts() {
    let with_path = ResponseConfig::new(
        ContentType::ApplicationJson,
        "@challenge".to_string(),
        Some("data::challenge".to_string()),
    );
    assert_eq!(with_path.get_content_type(), ContentType::ApplicationJson);
    assert_eq!(with_path.get_data(), "@challenge");
    assert_eq!(with_path.get_in_path(), Some("data::challenge".to_string()));
    let without = ResponseConfig::new(ContentType::TextPlain, "x".to_string(), None);
    assert_eq!(without.get_in_path(), None);
}
