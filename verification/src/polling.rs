//! Long polling: the decisions of a retrieval.
//!
//! A retrieval drains the queue of its alias again and again until events
//! are found or its time is up. The waiting between two attempts is left to
//! the caller: each attempt is one call of `retrieve_data_with_polling`, which
//! is told how long the retrieval has lasted and answers with the response or
//! with the time to wait before the next attempt.

use vstd::prelude::*;
use vstd::string::StringExecFns;
use crate::cache::{CacheError, OrderedCache};
use crate::decimal::{decimal_text, push_decimal};
use crate::polling_config::PollingConfig;
use crate::queue::{pair_views, QueueView};

verus! {

/// The time between two attempts, in milliseconds.
pub const POLL_INTERVAL_MILLIS: u64 = 100;

/// How a retrieval ended.
#[derive(Clone, Copy, Debug, PartialEq, Eq, Structural)]
pub enum PollStatus {
    /// Events were found.
    Success,
    /// No event arrived in time.
    Timeout,
    /// The queue could not be drained.
    Error,
    /// No queue is configured for the alias.
    AliasNotFound,
}

/// The response to a retrieval.
#[derive(Clone, Debug)]
pub struct DataResponse {
    /// How the retrieval ended.
    pub status: PollStatus,
    /// Whether events were found.
    pub success: bool,
    /// What happened, in words.
    pub message: String,
    /// The number of payloads in `data`.
    pub count: usize,
    /// The payloads, oldest first.
    pub data: Vec<Vec<u8>>,
}

/// What a response says.
pub struct ResponseText {
    /// How the retrieval ended.
    pub status: PollStatus,
    /// Whether events were found.
    pub success: bool,
    /// What happened, in words.
    pub message: Seq<char>,
    /// The number of payloads.
    pub count: nat,
    /// The payloads, oldest first.
    pub data: Seq<Seq<u8>>,
}

impl View for DataResponse {
    type V = ResponseText;

    open spec fn view(&self) -> ResponseText {
        ResponseText {
            status: self.status,
            success: self.success,
            message: self.message@,
            count: self.count as nat,
            data: Seq::new(self.data@.len(), |i: int| self.data@[i]@),
        }
    }
}

/// What a retrieval does after an attempt.
#[derive(Clone, Debug)]
pub enum PollStep {
    /// The retrieval is over.
    Finished(DataResponse),
    /// The retrieval goes on after a pause.
    Wait {
        /// The length of the pause, in milliseconds.
        millis: u64,
    },
}

/// What a step says.
pub enum StepText {
    /// The retrieval is over.
    Finished(ResponseText),
    /// The retrieval goes on after a pause of so many milliseconds.
    Wait(nat),
}

impl View for PollStep {
    type V = StepText;

    open spec fn view(&self) -> StepText {
        match self {
            PollStep::Finished(response) => StepText::Finished(response@),
            PollStep::Wait { millis } => StepText::Wait(*millis as nat),
        }
    }
}

/// The payloads of `events`, in order.
pub open spec fn payloads(events: Seq<(Seq<char>, Seq<u8>)>) -> Seq<Seq<u8>> {
    Seq::new(events.len(), |i: int| events[i].1)
}

/// The response to a retrieval for an alias that has no queue.
pub open spec fn alias_not_found_text(alias: Seq<char>) -> ResponseText {
    ResponseText {
        status: PollStatus::AliasNotFound,
        success: false,
        message: "Alias '"@ + alias + "' not found"@,
        count: 0,
        data: Seq::empty(),
    }
}

/// The response that hands out `events`.
pub open spec fn items_found_text(events: Seq<(Seq<char>, Seq<u8>)>) -> ResponseText {
    ResponseText {
        status: PollStatus::Success,
        success: true,
        message: "Retrieved "@ + decimal_text(events.len()) + " items after polling"@,
        count: events.len(),
        data: payloads(events),
    }
}

/// The response to a retrieval whose time is up.
pub open spec fn timed_out_text() -> ResponseText {
    ResponseText {
        status: PollStatus::Timeout,
        success: false,
        message: "No data available within timeout period"@,
        count: 0,
        data: Seq::empty(),
    }
}

/// The response to a retrieval that failed for the reason `cause`.
pub open spec fn failed_text(cause: Seq<char>) -> ResponseText {
    ResponseText {
        status: PollStatus::Error,
        success: false,
        message: "Failed to retrieve data: "@ + cause,
        count: 0,
        data: Seq::empty(),
    }
}

/// The step after an attempt that drained `drained`, taken `elapsed`
/// milliseconds into a retrieval that may last `timeout` milliseconds.
///
/// - A failure ends the retrieval with its cause.
/// - Events end the retrieval with success.
/// - Without events, the retrieval ends once its time is up; before that it
///   pauses for the interval, or for what is left of its time if that is
///   less.
pub open spec fn decide(
    drained: Result<Seq<(Seq<char>, Seq<u8>)>, Seq<char>>,
    elapsed: nat,
    timeout: nat,
) -> StepText {
    match drained {
        Err(cause) => StepText::Finished(failed_text(cause)),
        Ok(events) => if events.len() > 0 {
            StepText::Finished(items_found_text(events))
        } else if elapsed >= timeout {
            StepText::Finished(timed_out_text())
        } else if timeout - elapsed < POLL_INTERVAL_MILLIS {
            StepText::Wait((timeout - elapsed) as nat)
        } else {
            StepText::Wait(POLL_INTERVAL_MILLIS as nat)
        },
    }
}

/// The result of a drain as `decide` takes it.
pub open spec fn drained_text(
    drained: Result<Vec<(String, Vec<u8>)>, CacheError>,
) -> Result<Seq<(Seq<char>, Seq<u8>)>, Seq<char>> {
    match drained {
        Ok(events) => Ok(pair_views(events@)),
        Err(_) => Err("Alias not found"@),
    }
}

/// The time that a retrieval may last, in milliseconds, for a limit of
/// `seconds`. A limit beyond what a `u64` holds in milliseconds counts as the
/// largest `u64`.
pub open spec fn timeout_millis(seconds: nat) -> nat {
    if seconds * 1000 > u64::MAX {
        u64::MAX as nat
    } else {
        seconds * 1000
    }
}

/// The response to a retrieval for an alias that has no queue.
pub fn alias_not_found(alias: &str) -> (response: DataResponse)
    ensures
        response@ == alias_not_found_text(alias@),
{
    let mut message = "Alias '".to_owned();
    message.append(alias);
    message.append("' not found");
    let response = DataResponse {
        status: PollStatus::AliasNotFound,
        success: false,
        message,
        count: 0,
        data: Vec::new(),
    };
    assert(response@.data =~= Seq::<Seq<u8>>::empty());
    response
}

/// The response that hands out the payloads of `events`, in order.
pub fn items_found(events: Vec<(String, Vec<u8>)>) -> (response: DataResponse)
    ensures
        response@ == items_found_text(pair_views(events@)),
{
    let ghost given = pair_views(events@);
    let count = events.len();
    let mut data: Vec<Vec<u8>> = Vec::new();
    for event in it: events
        invariant
            it.seq() == events@,
            data@.len() == it.index(),
            forall|i: int| 0 <= i < data@.len() ==> (#[trigger] data@[i])@ == events@[i].1@,
    {
        data.push(event.1);
    }
    let mut message = "Retrieved ".to_owned();
    push_decimal(&mut message, count);
    message.append(" items after polling");
    let response = DataResponse {
        status: PollStatus::Success,
        success: true,
        message,
        count,
        data,
    };
    assert(response@.data =~= payloads(given));
    response
}

/// The response to a retrieval whose time is up.
pub fn timed_out() -> (response: DataResponse)
    ensures
        response@ == timed_out_text(),
{
    let response = DataResponse {
        status: PollStatus::Timeout,
        success: false,
        message: "No data available within timeout period".to_owned(),
        count: 0,
        data: Vec::new(),
    };
    assert(response@.data =~= Seq::<Seq<u8>>::empty());
    response
}

/// The response to a retrieval that failed for the reason `cause`.
pub fn failed(cause: &str) -> (response: DataResponse)
    ensures
        response@ == failed_text(cause@),
{
    let mut message = "Failed to retrieve data: ".to_owned();
    message.append(cause);
    let response = DataResponse {
        status: PollStatus::Error,
        success: false,
        message,
        count: 0,
        data: Vec::new(),
    };
    assert(response@.data =~= Seq::<Seq<u8>>::empty());
    response
}

/// Decides the step after an attempt that drained `drained`, taken
/// `elapsed_millis` into a retrieval that may last `timeout_millis`.
pub fn after_drain(
    drained: Result<Vec<(String, Vec<u8>)>, CacheError>,
    elapsed_millis: u64,
    timeout_millis: u64,
) -> (step: PollStep)
    ensures
        step@ == decide(drained_text(drained), elapsed_millis as nat, timeout_millis as nat),
{
    match drained {
        Err(cause) => PollStep::Finished(failed(cause.message())),
        Ok(events) => {
            if events.len() > 0 {
                PollStep::Finished(items_found(events))
            } else if elapsed_millis >= timeout_millis {
                PollStep::Finished(timed_out())
            } else if timeout_millis - elapsed_millis < POLL_INTERVAL_MILLIS {
                PollStep::Wait { millis: timeout_millis - elapsed_millis }
            } else {
                PollStep::Wait { millis: POLL_INTERVAL_MILLIS }
            }
        },
    }
}

/// The time that a retrieval may last under `config`, in milliseconds.
pub fn retrieval_millis(config: &PollingConfig) -> (millis: u64)
    ensures
        millis == timeout_millis(config.timeout_seconds()),
{
    let seconds = config.get_timeout();
    if seconds > u64::MAX / 1000 {
        u64::MAX
    } else {
        seconds * 1000
    }
}

/// Whether `step` is what an attempt decides that finds the queue of its
/// alias in the state `before` and leaves it in the state `after`: it has
/// drained up to `limit` events, oldest first, and goes on as `decide` says.
pub open spec fn attempted(
    before: QueueView,
    after: QueueView,
    limit: nat,
    elapsed: nat,
    timeout: nat,
    step: StepText,
) -> bool {
    exists|events: Seq<(Seq<char>, Seq<u8>)>|
        before.drains_to(after, limit, events, true) && step == decide(
            Ok(events),
            elapsed,
            timeout,
        )
}

/// One attempt of the retrieval for `alias`, taken `elapsed_millis` into the
/// retrieval. The caller makes the first attempt at once, and after a
/// `PollStep::Wait` pauses for as long as it says and makes the next.
///
/// An alias without a queue ends the retrieval at once, whatever the time.
/// Otherwise up to `polling_config.get_max_polled_item()` events are drained
/// from the alias's queue, oldest first, and `decide` says how the retrieval
/// goes on.
pub fn retrieve_data_with_polling(
    alias: &str,
    cache: &mut OrderedCache,
    polling_config: &PollingConfig,
    elapsed_millis: u64,
) -> (step: PollStep)
    requires
        old(cache).wf(),
    ensures
        final(cache).wf(),
        !old(cache).has(alias@) ==> step@ == StepText::Finished(alias_not_found_text(alias@))
            && old(cache).same_as(final(cache)),
        old(cache).has(alias@) ==> old(cache).same_but(final(cache), alias@) && attempted(
            old(cache).queue(alias@),
            final(cache).queue(alias@),
            polling_config.polled_items(),
            elapsed_millis as nat,
            timeout_millis(polling_config.timeout_seconds()),
            step@,
        ),
{
    if !cache.has_alias(alias) {
        return PollStep::Finished(alias_not_found(alias));
    }
    let drained = cache.remove_oldest(alias, polling_config.get_max_polled_item());
    let ghost events = match drained_text(drained) {
        Ok(found) => found,
        Err(_) => Seq::empty(),
    };
    let step = after_drain(drained, elapsed_millis, retrieval_millis(polling_config));
    assert(old(cache).queue(alias@).drains_to(
        cache.queue(alias@),
        polling_config.polled_items(),
        events,
        true,
    ));
    step
}

/// The time, in milliseconds into the retrieval, at which a retrieval that
/// finds nothing ends, if it makes an attempt at `elapsed` and pauses after
/// each attempt for exactly as long as it is told.
pub open spec fn ends_at(elapsed: nat, timeout: nat) -> nat
    decreases timeout - elapsed,
{
    if elapsed >= timeout {
        elapsed
    } else if timeout - elapsed < POLL_INTERVAL_MILLIS {
        ends_at(timeout, timeout)
    } else {
        ends_at(elapsed + POLL_INTERVAL_MILLIS as nat, timeout)
    }
}

/// An attempt that finds nothing either ends the retrieval, with the status
/// `Timeout` and no payloads, because its time is up, or asks for a pause
/// that is not empty, not longer than the interval and not longer than what
/// is left of the time.
pub proof fn lemma_empty_attempt(elapsed: nat, timeout: nat)
    ensures
        match decide(Ok(Seq::empty()), elapsed, timeout) {
            StepText::Wait(millis) => elapsed < timeout && 0 < millis <= POLL_INTERVAL_MILLIS
                && elapsed + millis <= timeout && ends_at(elapsed, timeout) == ends_at(
                elapsed + millis,
                timeout,
            ),
            StepText::Finished(response) => elapsed >= timeout && response == timed_out_text()
                && ends_at(elapsed, timeout) == elapsed,
        },
{
}

/// A retrieval that finds nothing ends when its time is up, not before and
/// not after, unless its first attempt already comes later.
pub proof fn lemma_ends_on_time(elapsed: nat, timeout: nat)
    ensures
        ends_at(elapsed, timeout) == if elapsed >= timeout {
            elapsed
        } else {
            timeout
        },
    decreases timeout - elapsed,
{
    if elapsed < timeout {
        if timeout - elapsed < POLL_INTERVAL_MILLIS {
            lemma_ends_on_time(timeout, timeout);
        } else {
            lemma_ends_on_time(elapsed + POLL_INTERVAL_MILLIS as nat, timeout);
        }
    }
}

} // verus!
