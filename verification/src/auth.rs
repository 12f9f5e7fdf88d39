//! The check of the bearer token that a consumer sends with a poll.

use vstd::prelude::*;
use crate::text::{stands_at, to_chars};

verus! {

/// What an `Authorization` header must begin with.
pub const BEARER_PREFIX: &'static str = "Bearer ";

/// How the check of a consumer's token ended.
#[derive(Clone, Copy, Debug, PartialEq, Eq, Structural)]
pub enum AuthCheck {
    /// The header holds the expected token.
    Granted,
    /// The header holds another token.
    InvalidToken,
    /// There is no header, or it does not begin with `Bearer `.
    MissingHeader,
}

impl AuthCheck {
    /// What a refused consumer is told.
    pub fn message(&self) -> (text: &'static str)
        ensures
            text@ == match self {
                AuthCheck::Granted => "Authorized"@,
                AuthCheck::InvalidToken => "Invalid token"@,
                AuthCheck::MissingHeader =>
                    "Missing or invalid Authorization header. Use 'Bearer <token>' format."@,
            },
    {
        match self {
            AuthCheck::Granted => "Authorized",
            AuthCheck::InvalidToken => "Invalid token",
            AuthCheck::MissingHeader =>
                "Missing or invalid Authorization header. Use 'Bearer <token>' format.",
        }
    }
}

/// How the check of the header `header` against `token` ends: the header
/// must begin with `Bearer `, and what follows must be the token.
pub open spec fn bearer_check(header: Option<Seq<char>>, token: Seq<char>) -> AuthCheck {
    match header {
        Some(text) => if BEARER_PREFIX@.is_prefix_of(text) {
            if text.skip(BEARER_PREFIX@.len() as int) == token {
                AuthCheck::Granted
            } else {
                AuthCheck::InvalidToken
            }
        } else {
            AuthCheck::MissingHeader
        },
        None => AuthCheck::MissingHeader,
    }
}

/// The view of an optional header.
pub open spec fn header_view(header: Option<&str>) -> Option<Seq<char>> {
    match header {
        Some(text) => Some(text@),
        None => None,
    }
}

/// Checks the `Authorization` header of a poll against the expected token.
pub fn check_bearer(header: Option<&str>, token: &str) -> (check: AuthCheck)
    ensures
        check == bearer_check(header_view(header), token@),
{
    match header {
        None => AuthCheck::MissingHeader,
        Some(text) => {
            let whole = to_chars(text);
            let prefix = to_chars(BEARER_PREFIX);
            let wanted = to_chars(token);
            let begins = stands_at(whole.as_slice(), prefix.as_slice(), 0);
            assert(begins == BEARER_PREFIX@.is_prefix_of(text@)) by {
                if prefix@.len() <= whole@.len() {
                    assert(whole@.subrange(0, prefix@.len() as int) =~= whole@.take(
                        prefix@.len() as int,
                    ));
                    if BEARER_PREFIX@.is_prefix_of(text@) {
                        assert(whole@.take(prefix@.len() as int) =~= prefix@);
                    }
                }
            }
            if !begins {
                return AuthCheck::MissingHeader;
            }
            let rest_is_token = whole.len() - prefix.len() == wanted.len() && stands_at(
                whole.as_slice(),
                wanted.as_slice(),
                prefix.len(),
            );
            assert(rest_is_token == (text@.skip(prefix@.len() as int) == token@)) by {
                if whole@.len() - prefix@.len() == wanted@.len() {
                    assert(whole@.subrange(
                        prefix@.len() as int,
                        (prefix@.len() + wanted@.len()) as int,
                    ) =~= whole@.skip(prefix@.len() as int));
                }
            }
            if rest_is_token {
                AuthCheck::Granted
            } else {
                AuthCheck::InvalidToken
            }
        },
    }
}

} // verus!
