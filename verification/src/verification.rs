//! The verification handshake: a provider proves that it knows the token
//! and is answered with the challenge that it sent.

use vstd::prelude::*;
use crate::path_matcher::{matches_template, CALLBACK_PATH, WILDCARD};
use crate::request::{
    extract_challenge, extract_token, extracted, BodyJson, ExtractError, JsonNode, RequestParts,
};
use crate::text::{
    replace_all, replace_chars, split_at_colons, split_on_colons, string_of, to_chars, trim_space,
    views,
};
use crate::verification_config::{
    ContentType, ResponseConfig, ResponseView, VerificationConfig, VerificationView,
};

verus! {

/// What stands for the challenge in the template of a response.
pub const CHALLENGE_MARK: &'static str = "@challenge";

/// The body of the response to a challenge.
pub enum ResponseBody {
    /// The text of the body.
    Text(String),
    /// The JSON document that the body holds.
    Json(JsonNode),
}

/// How a verification request is answered.
pub enum VerificationOutcome {
    /// The path of the request is not a path of the verification endpoint.
    InvalidPath,
    /// The request does not hold a token where the configuration says.
    TokenNotFound(ExtractError),
    /// The token of the request is not the expected one.
    Forbidden,
    /// The request does not hold a challenge where the configuration says.
    ChallengeNotFound(ExtractError),
    /// The challenge is answered.
    Respond {
        /// The content type of the answer.
        content_type: ContentType,
        /// The body of the answer.
        body: ResponseBody,
    },
}

/// Whether `node` holds `value` as a string at the end of the chain of
/// objects with one member each that `path` names.
pub open spec fn nested(node: JsonNode, path: Seq<Seq<char>>, value: Seq<char>) -> bool
    decreases path.len(),
{
    if path.len() == 0 {
        match node {
            JsonNode::Text(text) => text@ == value,
            _ => false,
        }
    } else {
        match node {
            JsonNode::Object(entries) => entries@.len() == 1 && entries@[0].0@ == path[0]
                && nested(entries@[0].1, path.skip(1), value),
            _ => false,
        }
    }
}

/// Whether `body` is the answer to `challenge` under the configuration
/// `config`: the template with the challenge in place of every mark, as text
/// or, where a place is configured, at that place in a JSON document.
pub open spec fn rendered(config: ResponseView, challenge: Seq<char>, body: ResponseBody) -> bool {
    let text = replace_all(config.data, CHALLENGE_MARK@, challenge);
    match config.in_path {
        Some(place) => match body {
            ResponseBody::Json(node) => nested(node, split_on_colons(place), text),
            _ => false,
        },
        None => match body {
            ResponseBody::Text(plain) => plain@ == text,
            _ => false,
        },
    }
}

/// Whether `outcome` is how the request is answered under `config`, once it
/// is known to be on the path of the verification endpoint.
pub open spec fn verified(
    req: RequestParts,
    body: BodyJson,
    config: VerificationView,
    outcome: VerificationOutcome,
) -> bool {
    match extracted(req, config.token.location, config.token.locate, body) {
        Err(why) => outcome == VerificationOutcome::TokenNotFound(why),
        Ok(token) => if trim_space(config.raw_token) != trim_space(token) {
            outcome == VerificationOutcome::Forbidden
        } else {
            match extracted(req, config.challenge.location, config.challenge.locate, body) {
                Err(why) => outcome == VerificationOutcome::ChallengeNotFound(why),
                Ok(challenge) => match outcome {
                    VerificationOutcome::Respond { content_type, body } => content_type
                        == config.response.content_type && rendered(
                        config.response,
                        challenge,
                        body,
                    ),
                    _ => false,
                },
            }
        },
    }
}

/// The chain of objects that holds `value` at the place that `parts` name.
pub fn nest(parts: &Vec<Vec<char>>, value: String) -> (node: JsonNode)
    ensures
        nested(node, views(parts@), value@),
{
    let ghost path = views(parts@);
    let mut node = JsonNode::Text(value);
    let mut at: usize = parts.len();
    assert(path.skip(at as int).len() == 0);
    while at > 0
        invariant
            at <= parts.len(),
            path == views(parts@),
            nested(node, path.skip(at as int), value@),
        decreases at,
    {
        at -= 1;
        let name = string_of(parts[at].as_slice());
        let mut entries: Vec<(String, JsonNode)> = Vec::new();
        entries.push((name, node));
        node = JsonNode::Object(entries);
        assert(path.skip(at as int)[0] == parts@[at as int]@);
        assert(path.skip(at as int).skip(1) == path.skip(at + 1));
    }
    assert(path.skip(0) == path);
    node
}

/// The answer to `challenge` under the response configuration.
pub fn render(response_config: &ResponseConfig, challenge: &str) -> (body: ResponseBody)
    ensures
        rendered(response_config@, challenge@, body),
{
    let data = to_chars(response_config.get_data().as_str());
    let mark = to_chars(CHALLENGE_MARK);
    let with = to_chars(challenge);
    let replaced = replace_chars(data.as_slice(), mark.as_slice(), with.as_slice());
    let text = string_of(replaced.as_slice());
    match response_config.get_in_path() {
        Some(place) => {
            let chars = to_chars(place.as_str());
            let parts = split_at_colons(chars.as_slice());
            ResponseBody::Json(nest(&parts, text))
        },
        None => ResponseBody::Text(text),
    }
}

/// Answers a request on the path of the verification endpoint: the token
/// must be found and be the expected one, then the challenge must be found,
/// and is answered.
pub fn verify_from_config(
    req: &RequestParts,
    body: &BodyJson,
    config: &VerificationConfig,
) -> (outcome: VerificationOutcome)
    ensures
        verified(*req, *body, config@, outcome),
{
    let token = match extract_token(req, config.get_token_config(), body) {
        Ok(token) => token,
        Err(why) => {
            return VerificationOutcome::TokenNotFound(why);
        },
    };
    if !config.is_token_valid(token) {
        return VerificationOutcome::Forbidden;
    }
    let challenge = match extract_challenge(req, config.get_challenge_config(), body) {
        Ok(challenge) => challenge,
        Err(why) => {
            return VerificationOutcome::ChallengeNotFound(why);
        },
    };
    let response_config = config.get_response_config();
    VerificationOutcome::Respond {
        content_type: response_config.get_content_type(),
        body: render(response_config, challenge.as_str()),
    }
}

/// Answers a verification request: a request on another path is turned
/// away, any other is answered as `verify_from_config` says.
pub fn verification_handler(
    req: &RequestParts,
    body: &BodyJson,
    config: &VerificationConfig,
) -> (outcome: VerificationOutcome)
    ensures
        if matches_template(config@.path, req.path@, CALLBACK_PATH@, WILDCARD@) {
            verified(*req, *body, config@, outcome)
        } else {
            outcome == VerificationOutcome::InvalidPath
        },
{
    if !config.is_verification_path(req.path.clone()) {
        return VerificationOutcome::InvalidPath;
    }
    verify_from_config(req, body, config)
}

} // verus!
