use callhook::request::{
    child, extract_challenge, extract_token, extract_value, value_in_query, BodyJson,
    ExtractError, JsonNode, RequestParts,
};
use callhook::verification_config::{ChallengeConfig, TokenConfig};

fn request(path: &str, query: &str, headers: &[(&str, Option<&str>)]) -> RequestParts {
    RequestParts {
        path: path.to_string(),
        query_string: query.to_string(),
        headers: headers
            .iter()
            .map(|(name, value)| (name.to_string(), value.map(|v| v.to_string())))
            .collect(),
    }
}

fn text(value: &str) -> JsonNode {
    JsonNode::Text(value.to_string())
}

fn object(members: Vec<(&str, JsonNode)>) -> JsonNode {
    JsonNode::Object(members.into_iter().map(|(name, node)| (name.to_string(), node)).collect())
}

fn sample_body() -> BodyJson {
    BodyJson::Document(object(vec![(
        "data",
        object(vec![
            ("user", object(vec![("id", text("user123")), ("name", text("John Doe"))])),
            ("token", text("secret-token")),
        ]),
    )]))
}

#[test]
fn test_extract_from_query() {
    let req = request("/", "param=value", &[]);
    let result = extract_value(&req, "query", "param", &BodyJson::Absent);
    assert!(result.is_ok());
    assert_eq!(result.unwrap(), "value");

    // Test missing param
    let req = request("/", "other=value", &[]);
    let result = extract_value(&req, "query", "param", &BodyJson::Absent);
    assert!(result.is_err());
    assert_eq!(result, Err(ExtractError::NotInQuery));
}

#[test]
fn test_extract_from_header() {
    let req = request("/", "", &[("authorization", Some("Bearer token123"))]);

    let result = extract_value(&req, "header", "authorization", &BodyJson::Absent);
    assert!(result.is_ok());
    assert_eq!(result.unwrap(), "Bearer token123");

    // Test missing header
    let req = request("/", "", &[]);
    let result = extract_value(&req, "header", "authorization", &BodyJson::Absent);
    assert!(result.is_err());
    assert_eq!(result, Err(ExtractError::NotInHeader));
}

#[test]
fn test_extract_from_path() {
    let req = request("/api/v1/resource", "", &[]);

    // The piece with the index 3
    let result = extract_value(&req, "path", "3", &BodyJson::Absent);
    assert!(result.is_ok());
    assert_eq!(result.unwrap(), "resource");

    // Test out of bounds
    let result = extract_value(&req, "path", "5", &BodyJson::Absent);
    assert!(result.is_err());
    assert_eq!(result, Err(ExtractError::PathIndexOutOfBounds));

    // Test invalid index
    let result = extract_value(&req, "path", "not-a-number", &BodyJson::Absent);
    assert!(result.is_err());
    assert_eq!(result, Err(ExtractError::InvalidPathIndex));
}

#[test]
fn test_extract_from_body() {
    let body = sample_body();
    let req = request("/", "", &[]);

    // Test simple path
    let result = extract_value(&req, "body", "data::token", &body);
    assert!(result.is_ok());
    assert_eq!(result.unwrap(), "secret-token");

    // Test nested path
    let result = extract_value(&req, "body", "data::user::id", &body);
    assert!(result.is_ok());
    assert_eq!(result.unwrap(), "user123");

    // Test missing path
    let result = extract_value(&req, "body", "data::missing", &body);
    assert!(result.is_err());
    assert_eq!(result, Err(ExtractError::NotInBody));

    // Test no body provided
    let result = extract_value(&req, "body", "data::token", &BodyJson::Absent);
    assert!(result.is_err());
    assert_eq!(result, Err(ExtractError::BodyMissing));

    // Test non-string value
    let result = extract_value(&req, "body", "data::user", &body);
    assert!(result.is_err());
    assert_eq!(result, Err(ExtractError::BodyValueNotString));
}

#[test]
fn test_unsupported_location() {
    let req = request("/", "", &[]);
    let result = extract_value(&req, "unsupported", "param", &BodyJson::Absent);
    assert!(result.is_err());
    assert_eq!(result, Err(ExtractError::UnsupportedLocation));
    assert_eq!(extract_value(&req, "Query", "param", &BodyJson::Absent), Err(ExtractError::UnsupportedLocation));
    assert_eq!(extract_value(&req, "", "param", &BodyJson::Absent), Err(ExtractError::UnsupportedLocation));
}

#[test]
fn test_invalid_json_body() {
    let req = request("/", "", &[]);
    let result = extract_value(&req, "body", "data", &BodyJson::Invalid);
    assert!(result.is_err());
    assert_eq!(result, Err(ExtractError::BodyNotJson));
}

#[test]
fn query_values_are_decoded_and_the_last_one_counts() {
    let req = request("/", "a=1&hub.challenge=x%20y%2Bz&b=&a=two+words&c", &[]);
    let none = BodyJson::Absent;
    assert_eq!(extract_value(&req, "query", "hub.challenge", &none), Ok("x y+z".to_string()));
    assert_eq!(extract_value(&req, "query", "a", &none), Ok("two words".to_string()));
    assert_eq!(extract_value(&req, "query", "b", &none), Ok("".to_string()));
    assert_eq!(extract_value(&req, "query", "c", &none), Ok("".to_string()));
    assert_eq!(extract_value(&req, "query", "A", &none), Err(ExtractError::NotInQuery));
    assert_eq!(extract_value(&request("/", "", &[]), "query", "a", &none), Err(ExtractError::NotInQuery));
}

#[test]
fn value_in_query_goes_by_the_pairs_it_is_given() {
    let pairs = vec![
        ("a".to_string(), "1".to_string()),
        ("b".to_string(), "2".to_string()),
        ("a".to_string(), "3".to_string()),
    ];
    assert_eq!(value_in_query(Some(pairs.clone()), "a"), Ok("3".to_string()));
    assert_eq!(value_in_query(Some(pairs.clone()), "b"), Ok("2".to_string()));
    assert_eq!(value_in_query(Some(pairs), "c"), Err(ExtractError::NotInQuery));
    assert_eq!(value_in_query(Some(vec![]), "a"), Err(ExtractError::NotInQuery));
    assert_eq!(value_in_query(None, "a"), Err(ExtractError::MalformedQuery));
}

#[test]
fn header_names_are_found_whatever_their_case() {
    let req = request(
        "/",
        "",
        &[
            ("x-hub-signature", Some("first")),
            ("content-type", Some("text/plain")),
            ("x-hub-signature", Some("second")),
            ("x-binary", None),
        ],
    );
    let none = BodyJson::Absent;
    assert_eq!(extract_value(&req, "header", "X-Hub-Signature", &none), Ok("first".to_string()));
    assert_eq!(extract_value(&req, "header", "x-hub-signature", &none), Ok("first".to_string()));
    assert_eq!(extract_value(&req, "header", "CONTENT-TYPE", &none), Ok("text/plain".to_string()));
    assert_eq!(extract_value(&req, "header", "x-binary", &none), Err(ExtractError::InvalidHeaderValue));
    assert_eq!(extract_value(&req, "header", "x-hub", &none), Err(ExtractError::NotInHeader));
    assert_eq!(extract_value(&req, "header", "x hub signature", &none), Err(ExtractError::NotInHeader));
    assert_eq!(extract_value(&req, "header", "", &none), Err(ExtractError::NotInHeader));
}

#[test]
fn path_pieces_are_counted_from_the_leading_slash() {
    let req = request("/api/v1//resource/", "", &[]);
    let none = BodyJson::Absent;
    assert_eq!(extract_value(&req, "path", "0", &none), Ok("".to_string()));
    assert_eq!(extract_value(&req, "path", "1", &none), Ok("api".to_string()));
    assert_eq!(extract_value(&req, "path", "+2", &none), Ok("v1".to_string()));
    assert_eq!(extract_value(&req, "path", "3", &none), Ok("".to_string()));
    assert_eq!(extract_value(&req, "path", "4", &none), Ok("resource".to_string()));
    assert_eq!(extract_value(&req, "path", "5", &none), Ok("".to_string()));
    assert_eq!(extract_value(&req, "path", "6", &none), Err(ExtractError::PathIndexOutOfBounds));
    assert_eq!(extract_value(&req, "path", "-1", &none), Err(ExtractError::InvalidPathIndex));
    assert_eq!(extract_value(&req, "path", "", &none), Err(ExtractError::InvalidPathIndex));
    assert_eq!(
        extract_value(&req, "path", "99999999999999999999999", &none),
        Err(ExtractError::InvalidPathIndex)
    );
    assert_eq!(extract_value(&request("", "", &[]), "path", "0", &none), Ok("".to_string()));
    assert_eq!(extract_value(&request("", "", &[]), "path", "1", &none), Err(ExtractError::PathIndexOutOfBounds));
}

#[test]
fn body_places_are_split_at_double_colons() {
    let body = BodyJson::Document(object(vec![
        ("a", object(vec![(":b", text("odd")), ("", text("empty name")), ("b", JsonNode::Other)])),
        ("", text("top")),
        ("plain", text("word")),
    ]));
    let req = request("/", "", &[]);
    assert_eq!(extract_value(&req, "body", "plain", &body), Ok("word".to_string()));
    assert_eq!(extract_value(&req, "body", "", &body), Ok("top".to_string()));
    assert_eq!(extract_value(&req, "body", "a:::b", &body), Ok("odd".to_string()));
    assert_eq!(extract_value(&req, "body", "a::", &body), Ok("empty name".to_string()));
    assert_eq!(extract_value(&req, "body", "a::b", &body), Err(ExtractError::BodyValueNotString));
    assert_eq!(extract_value(&req, "body", "a::b::c", &body), Err(ExtractError::NotInBody));
    assert_eq!(extract_value(&req, "body", "plain::x", &body), Err(ExtractError::NotInBody));
    assert_eq!(extract_value(&req, "body", "a:b", &body), Err(ExtractError::NotInBody));
    // a document that is no object has no members
    let bare = BodyJson::Document(text("just text"));
    assert_eq!(extract_value(&req, "body", "x", &bare), Err(ExtractError::NotInBody));
    let other = BodyJson::Document(JsonNode::Other);
    assert_eq!(extract_value(&req, "body", "x", &other), Err(ExtractError::NotInBody));
}

#[test]
fn child_finds_the_first_member_of_the_name() {
    let node = object(vec![("a", text("1")), ("b", text("2")), ("a", text("3"))]);
    let name: Vec<char> = "a".chars().collect();
    match child(&node, &name) {
        Some(JsonNode::Text(found)) => assert_eq!(found, "1"),
        _ => panic!("no member found"),
    }
    let missing: Vec<char> = "c".chars().collect();
    assert!(child(&node, &missing).is_none());
    assert!(child(&text("a"), &name).is_none());
}

#[test]
fn token_and_challenge_are_found_where_configured() {
    let req = request("/callhook/x", "hub.challenge=12345", &[("x-hub-signature", Some("secret"))]);
    let token = TokenConfig::new("header".to_string(), "X-Hub-Signature".to_string());
    let challenge = ChallengeConfig::new("query".to_string(), "hub.challenge".to_string());
    assert_eq!(extract_token(&req, &token, &BodyJson::Absent), Ok("secret".to_string()));
    assert_eq!(extract_challenge(&req, &challenge, &BodyJson::Absent), Ok("12345".to_string()));
    let in_path = ChallengeConfig::new("path".to_string(), "2".to_string());
    assert_eq!(extract_challenge(&req, &in_path, &BodyJson::Absent), Ok("x".to_string()));
    let nowhere = TokenConfig::new("cookie".to_string(), "t".to_string());
    assert_eq!(extract_token(&req, &nowhere, &BodyJson::Absent), Err(ExtractError::UnsupportedLocation));
}

#[test]
fn failures_are_put_into_words() {
    assert_eq!(ExtractError::MalformedQuery.message("Token"), "Query deserialize error");
    assert_eq!(ExtractError::NotInQuery.message("Token"), "Token not found in query");
    assert_eq!(ExtractError::InvalidHeaderValue.message("Token"), "Invalid header value");
    assert_eq!(ExtractError::NotInHeader.message("Challenge"), "Challenge not found in header");
    assert_eq!(ExtractError::PathIndexOutOfBounds.message("Token"), "Path segment index out of bounds");
    assert_eq!(ExtractError::InvalidPathIndex.message("Token"), "Invalid path segment index");
    assert_eq!(ExtractError::NotInBody.message("Token"), "Token path not found in body");
    assert_eq!(ExtractError::BodyValueNotString.message("Challenge"), "Challenge value in body is not a string");
    assert_eq!(ExtractError::BodyNotJson.message("Token"), "Failed to parse body as JSON");
    assert_eq!(ExtractError::BodyMissing.message("Token"), "Body expected but not provided");
    assert_eq!(ExtractError::UnsupportedLocation.message("Token"), "Unsupported Token location");
}
