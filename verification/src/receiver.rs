//! Ingestion: an inbound payload that is a JSON document is queued for its
//! alias under its fingerprint.

use vstd::prelude::*;
use crate::cache::OrderedCache;
use crate::fingerprint::{fingerprint, fingerprint_of};

verus! {

/// Why a payload was not queued.
#[derive(Clone, Copy, Debug, PartialEq, Eq, Structural)]
pub enum ReceiveError {
    /// The payload is not a JSON document.
    InvalidPayload,
    /// No queue is configured for the alias.
    UnknownAlias,
}

impl ReceiveError {
    /// A short description of the failure.
    pub fn message(&self) -> (text: &'static str)
        ensures
            text@ == match self {
                ReceiveError::InvalidPayload => "Payload is not valid JSON"@,
                ReceiveError::UnknownAlias => "Alias not found"@,
            },
    {
        match self {
            ReceiveError::InvalidPayload => "Payload is not valid JSON",
            ReceiveError::UnknownAlias => "Alias not found",
        }
    }
}

/// Whether `body` is a JSON document.
pub uninterp spec fn is_json(body: Seq<u8>) -> bool;

/// Whether `body` parses as a JSON document with
/// `serde_json::from_slice::<serde_json::Value>`.
#[verifier::external_body]
pub(crate) fn json_is_valid(body: &[u8]) -> (valid: bool)
    ensures
        valid == is_json(body@),
{
    serde_json::from_slice::<serde_json::Value>(body).is_ok()
}

/// Whether `after` is `before` once an event with the fingerprint `key` and
/// the payload `body` was handed to the queue of `alias`: the event is at the
/// back of that queue, unless its fingerprint was seen recently, and nothing
/// else has changed but by the passing of time. An event that went to the
/// queue is held there, unless the queue lets events live no time at all.
pub open spec fn delivered(
    before: &OrderedCache,
    after: &OrderedCache,
    alias: Seq<char>,
    key: Seq<char>,
    body: Seq<u8>,
) -> bool {
    &&& before.same_but(after, alias)
    &&& before.queue(alias).fades_to(after.queue(alias)) || before.queue(alias).queued_as(
        after.queue(alias),
        key,
        body,
    )
    &&& !before.queue(alias).recent.contains(key) ==> before.queue(alias).queued_as(
        after.queue(alias),
        key,
        body,
    )
}

/// Queues `body` for `alias` under `key` if `valid` says that it is a JSON
/// document. Returns the alias and the fingerprint.
pub fn store_event(
    valid: bool,
    key: String,
    body: Vec<u8>,
    alias: String,
    cache: &mut OrderedCache,
) -> (stored: Result<(String, String), ReceiveError>)
    requires
        old(cache).wf(),
    ensures
        final(cache).wf(),
        match stored {
            Ok(named) => valid && old(cache).has(alias@) && named.0@ == alias@ && named.1@
                == key@ && delivered(old(cache), final(cache), alias@, key@, body@),
            Err(ReceiveError::InvalidPayload) => !valid && old(cache).same_as(final(cache)),
            Err(ReceiveError::UnknownAlias) => valid && !old(cache).has(alias@) && old(
                cache,
            ).same_as(final(cache)),
        },
{
    if !valid {
        return Err(ReceiveError::InvalidPayload);
    }
    match cache.insert(alias.as_str(), key.clone(), body) {
        Ok(()) => Ok((alias, key)),
        Err(_) => Err(ReceiveError::UnknownAlias),
    }
}

/// Takes in the payload `body` for `alias`: a JSON document is queued under
/// its fingerprint, anything else is refused.
pub fn data_receiver(
    body: Vec<u8>,
    alias: String,
    cache: &mut OrderedCache,
) -> (stored: Result<(String, String), ReceiveError>)
    requires
        old(cache).wf(),
    ensures
        final(cache).wf(),
        match stored {
            Ok(named) => is_json(body@) && old(cache).has(alias@) && named.0@ == alias@
                && named.1@ == fingerprint_of(body@) && delivered(
                old(cache),
                final(cache),
                alias@,
                fingerprint_of(body@),
                body@,
            ),
            Err(ReceiveError::InvalidPayload) => !is_json(body@) && old(cache).same_as(
                final(cache),
            ),
            Err(ReceiveError::UnknownAlias) => is_json(body@) && !old(cache).has(alias@) && old(
                cache,
            ).same_as(final(cache)),
        },
{
    let valid = json_is_valid(body.as_slice());
    let key = if valid {
        fingerprint(body.as_slice())
    } else {
        String::new()
    };
    store_event(valid, key, body, alias, cache)
}

} // verus!
