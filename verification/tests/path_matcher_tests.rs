use callhook::path_matcher::{path_matches, CALLBACK_PATH, POLLING_PATH, WILDCARD};

#[test]
fn literal_template_ignores_outer_slashes() {
    assert!(path_matches("callhook/users", "/callhook/users/", "callhook", "*"));
    assert!(path_matches("callhook/users", "callhook/users", "callhook", "*"));
    assert!(!path_matches("callhook/users", "callhook/users/extra", "callhook", "*"));
}

#[test]
fn literal_template_is_compared_as_a_whole() {
    // without a wildcard the paths are compared as text, inner slashes count
    assert!(!path_matches("callhook/users", "callhook//users", "callhook", "*"));
    assert!(path_matches("callhook//users", "callhook//users", "callhook", "*"));
    assert!(path_matches("/callhook/users//", "//callhook/users", "callhook", "*"));
}

#[test]
fn trailing_wildcard_takes_the_rest() {
    assert!(path_matches("callhook/events/*", "callhook/events/a", "callhook", "*"));
    assert!(path_matches("callhook/events/*", "callhook/events/a/b/c", "callhook", "*"));
    assert!(!path_matches("callhook/events/*", "callhook/events", "callhook", "*"));
    assert!(!path_matches("callhook/events/*", "/callhook/events/", "callhook", "*"));
    assert!(!path_matches("callhook/events/*", "callhook/other/a", "callhook", "*"));
    assert!(!path_matches("callhook/events/*", "callhook", "callhook", "*"));
}

#[test]
fn template_left_over_at_the_end_fails() {
    // the request ends where segments of the template are left, wildcards or not
    assert!(!path_matches("callhook/events/*/*", "callhook/events", "callhook", "*"));
    assert!(!path_matches("callhook/events/*/x", "callhook/events", "callhook", "*"));
    assert!(!path_matches("callhook/*/x", "callhook/a", "callhook", "*"));
    // adjacent wildcards share what is there
    assert!(path_matches("callhook/events/*/*", "callhook/events/a", "callhook", "*"));
}

#[test]
fn wildcard_needs_a_segment() {
    assert!(!path_matches("callhook/*/done", "callhook/done", "callhook", "*"));
    assert!(path_matches("callhook/*/done", "callhook/x/done", "callhook", "*"));
    assert!(path_matches("callhook/*/done", "callhook/x/y/done", "callhook", "*"));
    assert!(!path_matches("callhook/*/done", "callhook/x/y", "callhook", "*"));
}

#[test]
fn wildcard_stops_at_the_first_occurrence_of_the_next_literal() {
    // the wildcard ends at the first `a`, then `b` is expected
    assert!(!path_matches("callhook/*/a/b", "callhook/x/a/a/b", "callhook", "*"));
    assert!(path_matches("callhook/*/a/b", "callhook/x/a/b", "callhook", "*"));
}

#[test]
fn request_may_go_on_after_a_walked_template() {
    // once a template with a wildcard is used up, what is left of the request passes
    assert!(path_matches("callhook/*/a", "callhook/x/a/extra", "callhook", "*"));
    assert!(path_matches("callhook/*/*/a", "callhook/x/y/a/b/c", "callhook", "*"));
    // a template without a wildcard is compared as a whole
    assert!(!path_matches("callhook/a", "callhook/a/extra", "callhook", "*"));
}

#[test]
fn leading_wildcard_matches_nothing() {
    assert!(!path_matches("*/callhook/x", "a/callhook/x", "callhook", "*"));
    assert!(!path_matches("*/callhook/x", "callhook/x", "callhook", "*"));
    assert!(!path_matches("*/callhook/x", "*/callhook/x", "callhook", "*"));
    assert!(!path_matches("/*/callhook/x", "a/callhook/x", "callhook", "*"));
    // also where the wildcard is the required prefix
    assert!(!path_matches("*/x", "*/x", "*", "*"));
    assert!(!path_matches("*/x", "a/x", "*", "*"));
}

#[test]
fn template_must_begin_with_the_prefix() {
    assert!(!path_matches("other/users", "other/users", "callhook", "*"));
    assert!(!path_matches("", "", "callhook", "*"));
    assert!(!path_matches("//callhook", "callhook", "callhook", "*"));
    assert!(path_matches("/callhook", "callhook", "callhook", "*"));
    assert!(!path_matches("callhookx", "callhookx", "callhook", "*"));
}

#[test]
fn marker_inside_a_segment_is_a_literal() {
    // the marker occurs, so segments are walked, but no segment is the marker
    assert!(path_matches("callhook/a...b", "callhook/a...b", "callhook", "..."));
    assert!(path_matches("callhook/a...b", "/callhook//a...b/", "callhook", "..."));
    assert!(!path_matches("callhook/a...b", "callhook/axb", "callhook", "..."));
    assert!(!path_matches("callhook/a...b", "callhook", "callhook", "..."));
}

#[test]
fn constants_name_the_paths() {
    assert_eq!(CALLBACK_PATH, "callhook");
    assert_eq!(POLLING_PATH, "pollhook");
    assert_eq!(WILDCARD, "...");
}
