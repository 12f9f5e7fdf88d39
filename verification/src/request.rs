//! Finding a configured value in a request: in the query string, in a
//! header, in a segment of the path or in the JSON document of the body.

use vstd::prelude::*;
use vstd::string::StringExecFns;
use actix_web::web::Query;
use crate::decimal::{parse_decimal, parse_usize};
use crate::text::{
    chars_eq, lower_ascii, lower_ascii_chars, split_at_colons, split_chars, split_on,
    split_on_colons, str_eq, string_of, to_chars, views,
};
use crate::verification_config::{ChallengeConfig, TokenConfig};

verus! {

/// What of a request the extraction reads.
pub struct RequestParts {
    /// The path of the request.
    pub path: String,
    /// The query string, without the question mark.
    pub query_string: String,
    /// The headers in the order in which they arrived, the names in lower
    /// case. A value that is not visible ASCII text is `None`.
    pub headers: Vec<(String, Option<String>)>,
}

/// What of a JSON document the extraction reads.
pub enum JsonNode {
    /// A string.
    Text(String),
    /// An object: its members by name.
    Object(Vec<(String, JsonNode)>),
    /// Any other value.
    Other,
}

/// The body of a request, as far as the extraction reads it.
pub enum BodyJson {
    /// The request has no body.
    Absent,
    /// The body is not a JSON document.
    Invalid,
    /// The body is this JSON document.
    Document(JsonNode),
}

/// Why no value was found.
#[derive(Clone, Copy, Debug, PartialEq, Eq, Structural)]
pub enum ExtractError {
    /// The query string cannot be decoded.
    MalformedQuery,
    /// The query has no parameter of the name.
    NotInQuery,
    /// The header is there, but its value is not visible ASCII text.
    InvalidHeaderValue,
    /// The request has no header of the name.
    NotInHeader,
    /// The path has fewer pieces than the index asks for.
    PathIndexOutOfBounds,
    /// The place in the path is not a number.
    InvalidPathIndex,
    /// The document has no value at the place.
    NotInBody,
    /// The value at the place is not a string.
    BodyValueNotString,
    /// The body is not a JSON document.
    BodyNotJson,
    /// The request has no body.
    BodyMissing,
    /// The part of the request is none of `query`, `header`, `path`, `body`.
    UnsupportedLocation,
}

impl ExtractError {
    /// What went wrong, in words, for a value that is called `value_type`.
    pub open spec fn text(self, value_type: Seq<char>) -> Seq<char> {
        match self {
            ExtractError::MalformedQuery => "Query deserialize error"@,
            ExtractError::NotInQuery => value_type + " not found in query"@,
            ExtractError::InvalidHeaderValue => "Invalid header value"@,
            ExtractError::NotInHeader => value_type + " not found in header"@,
            ExtractError::PathIndexOutOfBounds => "Path segment index out of bounds"@,
            ExtractError::InvalidPathIndex => "Invalid path segment index"@,
            ExtractError::NotInBody => value_type + " path not found in body"@,
            ExtractError::BodyValueNotString => value_type + " value in body is not a string"@,
            ExtractError::BodyNotJson => "Failed to parse body as JSON"@,
            ExtractError::BodyMissing => "Body expected but not provided"@,
            ExtractError::UnsupportedLocation => "Unsupported "@ + value_type + " location"@,
        }
    }

    /// What went wrong, in words, for a value that is called `value_type`.
    pub fn message(&self, value_type: &str) -> (text: String)
        ensures
            text@ == self.text(value_type@),
    {
        match self {
            ExtractError::MalformedQuery => "Query deserialize error".to_owned(),
            ExtractError::NotInQuery => value_type.to_owned().concat(" not found in query"),
            ExtractError::InvalidHeaderValue => "Invalid header value".to_owned(),
            ExtractError::NotInHeader => value_type.to_owned().concat(" not found in header"),
            ExtractError::PathIndexOutOfBounds => "Path segment index out of bounds".to_owned(),
            ExtractError::InvalidPathIndex => "Invalid path segment index".to_owned(),
            ExtractError::NotInBody => value_type.to_owned().concat(" path not found in body"),
            ExtractError::BodyValueNotString => value_type.to_owned().concat(
                " value in body is not a string",
            ),
            ExtractError::BodyNotJson => "Failed to parse body as JSON".to_owned(),
            ExtractError::BodyMissing => "Body expected but not provided".to_owned(),
            ExtractError::UnsupportedLocation => "Unsupported ".to_owned().concat(
                value_type,
            ).concat(" location"),
        }
    }
}

/// The parameters of the query string `query`, decoded, in their order; or
/// `None` where the query string cannot be decoded.
pub uninterp spec fn decoded_query(query: Seq<char>) -> Option<Seq<(Seq<char>, Seq<char>)>>;

/// The views of decoded parameters.
pub open spec fn parameter_views(
    pairs: Option<Vec<(String, String)>>,
) -> Option<Seq<(Seq<char>, Seq<char>)>> {
    match pairs {
        Some(list) => Some(Seq::new(list@.len(), |i: int| (list@[i].0@, list@[i].1@))),
        None => None,
    }
}

/// Decodes the query string with `actix_web::web::Query::from_query`, which
/// yields the parameters as pairs of name and value in their order.
#[verifier::external_body]
pub(crate) fn decode_query(query: &str) -> (pairs: Option<Vec<(String, String)>>)
    ensures
        parameter_views(pairs) == decoded_query(query@),
{
    match Query::<Vec<(String, String)>>::from_query(query) {
        Ok(decoded) => Some(decoded.into_inner()),
        Err(_) => None,
    }
}

/// The value of the last parameter of the name `name`, if there is one.
pub open spec fn last_value(
    pairs: Seq<(Seq<char>, Seq<char>)>,
    name: Seq<char>,
) -> Option<Seq<char>>
    decreases pairs.len(),
{
    if pairs.len() == 0 {
        None
    } else if pairs.last().0 == name {
        Some(pairs.last().1)
    } else {
        last_value(pairs.drop_last(), name)
    }
}

/// The first index at or after `from` at which `headers` holds a header of
/// the name `name`, or the length of `headers` if there is none.
pub open spec fn header_at(
    headers: Seq<(String, Option<String>)>,
    name: Seq<char>,
    from: nat,
) -> nat
    decreases headers.len() - from,
{
    if from >= headers.len() {
        headers.len()
    } else if headers[from as int].0@ == name {
        from
    } else {
        header_at(headers, name, from + 1)
    }
}

/// The first index at or after `from` at which `entries` holds a member of
/// the name `name`, or the length of `entries` if there is none.
pub open spec fn entry_at(entries: Seq<(String, JsonNode)>, name: Seq<char>, from: nat) -> nat
    decreases entries.len() - from,
{
    if from >= entries.len() {
        entries.len()
    } else if entries[from as int].0@ == name {
        from
    } else {
        entry_at(entries, name, from + 1)
    }
}

/// The member of `node` of the name `name`, if `node` is an object that has
/// one.
pub open spec fn member(node: JsonNode, name: Seq<char>) -> Option<JsonNode> {
    match node {
        JsonNode::Object(entries) => {
            let at = entry_at(entries@, name, 0);
            if at < entries@.len() {
                Some(entries@[at as int].1)
            } else {
                None
            }
        },
        _ => None,
    }
}

/// The value reached from `node` by going from member to member along
/// `path`, if every step finds its member.
pub open spec fn descend(node: JsonNode, path: Seq<Seq<char>>) -> Option<JsonNode>
    decreases path.len(),
{
    if path.len() == 0 {
        Some(node)
    } else {
        match member(node, path[0]) {
            Some(child) => descend(child, path.skip(1)),
            None => None,
        }
    }
}

/// The value that the query string holds under `locate`.
pub open spec fn from_query(
    query: Seq<char>,
    locate: Seq<char>,
) -> Result<Seq<char>, ExtractError> {
    match decoded_query(query) {
        None => Err(ExtractError::MalformedQuery),
        Some(pairs) => match last_value(pairs, locate) {
            Some(value) => Ok(value),
            None => Err(ExtractError::NotInQuery),
        },
    }
}

/// The value of the first header of the name `locate`, whatever the case of
/// its letters.
pub open spec fn from_headers(
    headers: Seq<(String, Option<String>)>,
    locate: Seq<char>,
) -> Result<Seq<char>, ExtractError> {
    let at = header_at(headers, lower_ascii(locate), 0);
    if at >= headers.len() {
        Err(ExtractError::NotInHeader)
    } else {
        match headers[at as int].1 {
            Some(value) => Ok(value@),
            None => Err(ExtractError::InvalidHeaderValue),
        }
    }
}

/// The piece of the path with the index that `locate` holds. The pieces are
/// what lies between the slashes, so the piece before a leading slash is the
/// empty piece with the index zero.
pub open spec fn from_path(path: Seq<char>, locate: Seq<char>) -> Result<Seq<char>, ExtractError> {
    match parse_decimal(locate, usize::MAX as nat) {
        None => Err(ExtractError::InvalidPathIndex),
        Some(index) => if index < split_on(path, '/').len() {
            Ok(split_on(path, '/')[index as int])
        } else {
            Err(ExtractError::PathIndexOutOfBounds)
        },
    }
}

/// The string that the document of the body holds at the place `locate`,
/// whose member names are set apart by `::`.
pub open spec fn from_body(body: BodyJson, locate: Seq<char>) -> Result<Seq<char>, ExtractError> {
    match body {
        BodyJson::Absent => Err(ExtractError::BodyMissing),
        BodyJson::Invalid => Err(ExtractError::BodyNotJson),
        BodyJson::Document(root) => match descend(root, split_on_colons(locate)) {
            None => Err(ExtractError::NotInBody),
            Some(JsonNode::Text(text)) => Ok(text@),
            Some(_) => Err(ExtractError::BodyValueNotString),
        },
    }
}

/// The value that the request holds in its part `location` at the place
/// `locate`.
pub open spec fn extracted(
    req: RequestParts,
    location: Seq<char>,
    locate: Seq<char>,
    body: BodyJson,
) -> Result<Seq<char>, ExtractError> {
    if location == "query"@ {
        from_query(req.query_string@, locate)
    } else if location == "header"@ {
        from_headers(req.headers@, locate)
    } else if location == "path"@ {
        from_path(req.path@, locate)
    } else if location == "body"@ {
        from_body(body, locate)
    } else {
        Err(ExtractError::UnsupportedLocation)
    }
}

/// What an extraction yields, by the view of the value.
pub open spec fn outcome_view(
    found: Result<String, ExtractError>,
) -> Result<Seq<char>, ExtractError> {
    match found {
        Ok(value) => Ok(value@),
        Err(why) => Err(why),
    }
}

/// The value of the last of `pairs` that has the name `name`.
pub fn value_in_query(
    pairs: Option<Vec<(String, String)>>,
    name: &str,
) -> (found: Result<String, ExtractError>)
    ensures
        outcome_view(found) == match parameter_views(pairs) {
            None => Err::<Seq<char>, ExtractError>(ExtractError::MalformedQuery),
            Some(list) => match last_value(list, name@) {
                Some(value) => Ok(value),
                None => Err(ExtractError::NotInQuery),
            },
        },
{
    match &pairs {
        None => Err(ExtractError::MalformedQuery),
        Some(list) => {
            let ghost all = parameter_views(pairs)->0;
            let mut at: usize = list.len();
            assert(all.take(at as int) == all);
            while at > 0
                invariant
                    at <= list.len(),
                    pairs == Some(*list),
                    all == parameter_views(pairs)->0,
                    last_value(all, name@) == last_value(all.take(at as int), name@),
                decreases at,
            {
                at -= 1;
                let ghost upto = all.take(at + 1);
                assert(upto.drop_last() == all.take(at as int));
                assert(upto.last() == (list@[at as int].0@, list@[at as int].1@));
                if str_eq(list[at].0.as_str(), name) {
                    assert(last_value(upto, name@) == Some(list@[at as int].1@));
                    return Ok(list[at].1.clone());
                }
                assert(last_value(upto, name@) == last_value(all.take(at as int), name@));
            }
            Err(ExtractError::NotInQuery)
        },
    }
}

/// The value of the first header of the name `locate`.
pub fn value_in_headers(
    headers: &Vec<(String, Option<String>)>,
    locate: &str,
) -> (found: Result<String, ExtractError>)
    ensures
        outcome_view(found) == from_headers(headers@, locate@),
{
    let wanted = lower_ascii_chars(locate);
    let mut at: usize = 0;
    while at < headers.len()
        invariant
            at <= headers.len(),
            wanted@ == lower_ascii(locate@),
            header_at(headers@, wanted@, 0) == header_at(headers@, wanted@, at as nat),
        decreases headers.len() - at,
    {
        let name = to_chars(headers[at].0.as_str());
        if chars_eq(name.as_slice(), wanted.as_slice()) {
            return match &headers[at].1 {
                Some(value) => Ok(value.clone()),
                None => Err(ExtractError::InvalidHeaderValue),
            };
        }
        at += 1;
    }
    Err(ExtractError::NotInHeader)
}

/// The piece of `path` with the index that `locate` holds.
pub fn value_in_path(path: &str, locate: &str) -> (found: Result<String, ExtractError>)
    ensures
        outcome_view(found) == from_path(path@, locate@),
{
    match parse_usize(locate) {
        None => Err(ExtractError::InvalidPathIndex),
        Some(index) => {
            let chars = to_chars(path);
            let pieces = split_chars(chars.as_slice(), '/');
            assert(views(pieces@).len() == pieces@.len());
            if index < pieces.len() {
                assert(views(pieces@)[index as int] == pieces@[index as int]@);
                Ok(string_of(pieces[index].as_slice()))
            } else {
                Err(ExtractError::PathIndexOutOfBounds)
            }
        },
    }
}

/// The member of `node` of the name `name`.
pub fn child<'a>(node: &'a JsonNode, name: &[char]) -> (found: Option<&'a JsonNode>)
    ensures
        match found {
            Some(it) => member(*node, name@) == Some(*it),
            None => member(*node, name@) is None,
        },
{
    match node {
        JsonNode::Object(entries) => {
            let mut at: usize = 0;
            while at < entries.len()
                invariant
                    at <= entries.len(),
                    *node == JsonNode::Object(*entries),
                    entry_at(entries@, name@, 0) == entry_at(entries@, name@, at as nat),
                decreases entries.len() - at,
            {
                let key = to_chars(entries[at].0.as_str());
                if chars_eq(key.as_slice(), name) {
                    assert(entry_at(entries@, name@, at as nat) == at);
                    return Some(&entries[at].1);
                }
                at += 1;
            }
            None
        },
        _ => None,
    }
}

/// The string that the document of `body` holds at the place `locate`.
pub fn value_in_body(body: &BodyJson, locate: &str) -> (found: Result<String, ExtractError>)
    ensures
        outcome_view(found) == from_body(*body, locate@),
{
    match body {
        BodyJson::Absent => Err(ExtractError::BodyMissing),
        BodyJson::Invalid => Err(ExtractError::BodyNotJson),
        BodyJson::Document(root) => {
            let chars = to_chars(locate);
            let parts = split_at_colons(chars.as_slice());
            let ghost path = split_on_colons(locate@);
            let mut node: &JsonNode = root;
            let mut at: usize = 0;
            assert(path.skip(0) == path);
            while at < parts.len()
                invariant
                    at <= parts.len(),
                    *body == BodyJson::Document(*root),
                    path == split_on_colons(locate@),
                    path == views(parts@),
                    descend(*root, path) == descend(*node, path.skip(at as int)),
                decreases parts.len() - at,
            {
                let ghost rest = path.skip(at as int);
                assert(rest[0] == parts@[at as int]@);
                assert(rest.skip(1) == path.skip(at + 1));
                match child(node, parts[at].as_slice()) {
                    Some(next) => {
                        node = next;
                    },
                    None => {
                        assert(descend(*node, rest) is None);
                        return Err(ExtractError::NotInBody);
                    },
                }
                at += 1;
            }
            match node {
                JsonNode::Text(text) => Ok(text.clone()),
                _ => Err(ExtractError::BodyValueNotString),
            }
        },
    }
}

/// Finds the value that the request holds in its part `location` at the
/// place `locate_path`.
pub fn extract_value(
    req: &RequestParts,
    location: &str,
    locate_path: &str,
    body: &BodyJson,
) -> (found: Result<String, ExtractError>)
    ensures
        outcome_view(found) == extracted(*req, location@, locate_path@, *body),
{
    if str_eq(location, "query") {
        value_in_query(decode_query(req.query_string.as_str()), locate_path)
    } else if str_eq(location, "header") {
        value_in_headers(&req.headers, locate_path)
    } else if str_eq(location, "path") {
        value_in_path(req.path.as_str(), locate_path)
    } else if str_eq(location, "body") {
        value_in_body(body, locate_path)
    } else {
        Err(ExtractError::UnsupportedLocation)
    }
}

/// Finds the provider's token in the request.
pub fn extract_token(
    req: &RequestParts,
    token_config: &TokenConfig,
    body: &BodyJson,
) -> (found: Result<String, ExtractError>)
    ensures
        outcome_view(found) == extracted(
            *req,
            token_config@.location,
            token_config@.locate,
            *body,
        ),
{
    let location = token_config.get_in();
    let locate = token_config.get_locate();
    extract_value(req, location.as_str(), locate.as_str(), body)
}

/// Finds the provider's challenge in the request.
pub fn extract_challenge(
    req: &RequestParts,
    challenge_config: &ChallengeConfig,
    body: &BodyJson,
) -> (found: Result<String, ExtractError>)
    ensures
        outcome_view(found) == extracted(
            *req,
            challenge_config@.location,
            challenge_config@.locate,
            *body,
        ),
{
    let location = challenge_config.get_in();
    let locate = challenge_config.get_locate();
    extract_value(req, location.as_str(), locate.as_str(), body)
}

} // verus!
