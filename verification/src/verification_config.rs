//! The configuration of the verification endpoint: where its path lies, how
//! the provider's token and challenge are found in a request, and what the
//! response to a challenge looks like.

use vstd::prelude::*;
use crate::path_matcher::{
    has_prefix_segment, matches_template, path_matches, starts_with_prefix, CALLBACK_PATH,
    WILDCARD,
};
use crate::std_text::{to_upper, uppercase};
use crate::text::{str_eq, to_chars, trim_space, trimmed_space_eq};

verus! {

/// Where a value is found in a request.
pub struct LocatorView {
    /// The part of the request: `query`, `header`, `path` or `body`.
    pub location: Seq<char>,
    /// The name, index or path of the value within that part.
    pub locate: Seq<char>,
}

/// Where the provider's token is found in a request.
#[derive(Debug, Clone)]
pub struct TokenConfig {
    location: String,
    locate: String,
}

impl View for TokenConfig {
    type V = LocatorView;

    closed spec fn view(&self) -> LocatorView {
        LocatorView { location: self.location@, locate: self.locate@ }
    }
}

impl TokenConfig {
    /// A token locator for the part `location` and the place `locate` in it.
    pub fn new(location: String, locate: String) -> (config: TokenConfig)
        ensures
            config@ == (LocatorView { location: location@, locate: locate@ }),
    {
        TokenConfig { location, locate }
    }

    /// The part of the request that holds the token.
    pub fn get_in(&self) -> (location: String)
        ensures
            location@ == self@.location,
    {
        self.location.clone()
    }

    /// The place of the token within that part.
    pub fn get_locate(&self) -> (locate: String)
        ensures
            locate@ == self@.locate,
    {
        self.locate.clone()
    }
}

/// Where the provider's challenge is found in a request.
#[derive(Debug, Clone)]
pub struct ChallengeConfig {
    location: String,
    locate: String,
}

impl View for ChallengeConfig {
    type V = LocatorView;

    closed spec fn view(&self) -> LocatorView {
        LocatorView { location: self.location@, locate: self.locate@ }
    }
}

impl ChallengeConfig {
    /// A challenge locator for the part `location` and the place `locate` in
    /// it.
    pub fn new(location: String, locate: String) -> (config: ChallengeConfig)
        ensures
            config@ == (LocatorView { location: location@, locate: locate@ }),
    {
        ChallengeConfig { location, locate }
    }

    /// The part of the request that holds the challenge.
    pub fn get_in(&self) -> (location: String)
        ensures
            location@ == self@.location,
    {
        self.location.clone()
    }

    /// The place of the challenge within that part.
    pub fn get_locate(&self) -> (locate: String)
        ensures
            locate@ == self@.locate,
    {
        self.locate.clone()
    }
}

/// The content type of the response to a challenge.
#[derive(Debug, Clone, Copy, PartialEq, Eq, Structural)]
pub enum ContentType {
    /// `text/plain`
    TextPlain,
    /// `application/json`
    ApplicationJson,
}

impl ContentType {
    /// The name of the content type as it stands in a header.
    pub open spec fn name(self) -> Seq<char> {
        match self {
            ContentType::TextPlain => "text/plain"@,
            ContentType::ApplicationJson => "application/json"@,
        }
    }

    /// The name of the content type as it stands in a header.
    pub fn as_str(&self) -> (name: &'static str)
        ensures
            name@ == self.name(),
    {
        match self {
            ContentType::TextPlain => "text/plain",
            ContentType::ApplicationJson => "application/json",
        }
    }

    /// The content type that `name` names, if it is one of the two.
    pub fn parse(name: &str) -> (parsed: Option<ContentType>)
        ensures
            match parsed {
                Some(content_type) => content_type.name() == name@,
                None => name@ != ContentType::TextPlain.name() && name@
                    != ContentType::ApplicationJson.name(),
            },
    {
        if str_eq(name, "text/plain") {
            Some(ContentType::TextPlain)
        } else if str_eq(name, "application/json") {
            Some(ContentType::ApplicationJson)
        } else {
            None
        }
    }
}

/// What a response configuration holds.
pub struct ResponseView {
    /// The content type of the response.
    pub content_type: ContentType,
    /// The template of the response data.
    pub data: Seq<char>,
    /// The place in a JSON document at which the data stands, if any.
    pub in_path: Option<Seq<char>>,
}

/// What the response to a challenge looks like.
#[derive(Debug, Clone)]
pub struct ResponseConfig {
    content_type: ContentType,
    data: String,
    in_path: Option<String>,
}

impl View for ResponseConfig {
    type V = ResponseView;

    closed spec fn view(&self) -> ResponseView {
        ResponseView {
            content_type: self.content_type,
            data: self.data@,
            in_path: match self.in_path {
                Some(p) => Some(p@),
                None => None,
            },
        }
    }
}

impl ResponseConfig {
    /// A response of type `content_type` with the template `data`, placed at
    /// `in_path` if there is one.
    pub fn new(
        content_type: ContentType,
        data: String,
        in_path: Option<String>,
    ) -> (config: ResponseConfig)
        ensures
            config@.content_type == content_type,
            config@.data == data@,
            match in_path {
                Some(p) => config@.in_path == Some(p@),
                None => config@.in_path is None,
            },
    {
        ResponseConfig { content_type, data, in_path }
    }

    /// The content type of the response.
    pub fn get_content_type(&self) -> (content_type: ContentType)
        ensures
            content_type == self@.content_type,
    {
        self.content_type
    }

    /// The template of the response data.
    pub fn get_data(&self) -> (data: String)
        ensures
            data@ == self@.data,
    {
        self.data.clone()
    }

    /// The place in a JSON document at which the data stands, if any.
    pub fn get_in_path(&self) -> (in_path: Option<String>)
        ensures
            match in_path {
                Some(p) => self@.in_path == Some(p@),
                None => self@.in_path is None,
            },
    {
        match &self.in_path {
            Some(p) => Some(p.clone()),
            None => None,
        }
    }
}

/// What a verification configuration holds.
pub struct VerificationView {
    /// The path template of the verification endpoint.
    pub path: Seq<char>,
    /// The HTTP method of the verification endpoint, as configured.
    pub method: Seq<char>,
    /// The token that a request must carry.
    pub raw_token: Seq<char>,
    /// Where the token is found.
    pub token: LocatorView,
    /// Where the challenge is found.
    pub challenge: LocatorView,
    /// What the response looks like.
    pub response: ResponseView,
}

/// The configuration of the verification endpoint.
#[derive(Debug, Clone)]
pub struct VerificationConfig {
    path: String,
    method: String,
    raw_token: String,
    token: TokenConfig,
    challenge: ChallengeConfig,
    response: ResponseConfig,
}

impl View for VerificationConfig {
    type V = VerificationView;

    closed spec fn view(&self) -> VerificationView {
        VerificationView {
            path: self.path@,
            method: self.method@,
            raw_token: self.raw_token@,
            token: self.token@,
            challenge: self.challenge@,
            response: self.response@,
        }
    }
}

/// The HTTP method of an endpoint for which none is configured.
pub fn default_method() -> (method: String)
    ensures
        method@ == "GET"@,
{
    "GET".to_owned()
}

impl VerificationConfig {
    /// A configuration without an expected token.
    pub fn new(
        path: String,
        method: String,
        token: TokenConfig,
        challenge: ChallengeConfig,
        response: ResponseConfig,
    ) -> (config: VerificationConfig)
        ensures
            config@.path == path@,
            config@.method == method@,
            config@.raw_token == Seq::<char>::empty(),
            config@.token == token@,
            config@.challenge == challenge@,
            config@.response == response@,
    {
        VerificationConfig { path, method, raw_token: String::new(), token, challenge, response }
    }

    /// The path template of the verification endpoint.
    pub fn get_verification_path(&self) -> (path: String)
        ensures
            path@ == self@.path,
    {
        self.path.clone()
    }

    /// The path template of the verification endpoint.
    pub fn get_path(&self) -> (path: String)
        ensures
            path@ == self@.path,
    {
        self.path.clone()
    }

    /// The HTTP method of the verification endpoint, in upper case.
    pub fn get_verification_method(&self) -> (method: String)
        ensures
            method@ == uppercase(self@.method),
    {
        to_upper(self.method.as_str())
    }

    /// The HTTP method of the verification endpoint, as configured.
    pub fn get_method(&self) -> (method: String)
        ensures
            method@ == self@.method,
    {
        self.method.clone()
    }

    /// The token that a request must carry.
    pub fn get_expected_token(&self) -> (token: String)
        ensures
            token@ == self@.raw_token,
    {
        self.raw_token.clone()
    }

    /// Sets the token that a request must carry.
    pub fn set_expected_token(&mut self, expected_token: String)
        ensures
            final(self)@ == (VerificationView { raw_token: expected_token@, ..old(self)@ }),
    {
        self.raw_token = expected_token;
    }

    /// Where the token is found.
    pub fn get_token_config(&self) -> (token: &TokenConfig)
        ensures
            token@ == self@.token,
    {
        &self.token
    }

    /// Where the challenge is found.
    pub fn get_challenge_config(&self) -> (challenge: &ChallengeConfig)
        ensures
            challenge@ == self@.challenge,
    {
        &self.challenge
    }

    /// What the response looks like.
    pub fn get_response_config(&self) -> (response: &ResponseConfig)
        ensures
            response@ == self@.response,
    {
        &self.response
    }

    /// Whether `token` is the expected token, white space at either end of
    /// both left out.
    pub fn is_token_valid(&self, token: String) -> (valid: bool)
        ensures
            valid == (trim_space(self@.raw_token) == trim_space(token@)),
    {
        trimmed_space_eq(self.raw_token.as_str(), token.as_str())
    }

    /// Whether the path template begins with the callback prefix.
    pub fn is_verification_path_valid(&self) -> (valid: bool)
        ensures
            valid == has_prefix_segment(self@.path, CALLBACK_PATH@),
    {
        let template = to_chars(self.path.as_str());
        let prefix = to_chars(CALLBACK_PATH);
        starts_with_prefix(template.as_slice(), prefix.as_slice())
    }

    /// Whether `path_to_check` is a path of the verification endpoint.
    pub fn is_verification_path(&self, path_to_check: String) -> (matched: bool)
        ensures
            matched == matches_template(self@.path, path_to_check@, CALLBACK_PATH@, WILDCARD@),
    {
        path_matches(self.path.as_str(), path_to_check.as_str(), CALLBACK_PATH, WILDCARD)
    }
}

} // verus!
