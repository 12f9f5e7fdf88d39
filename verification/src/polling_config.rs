//! The server-side settings of long polling.

use vstd::prelude::*;
use crate::decimal::{parse_decimal, parse_u64, parse_usize};

verus! {

/// How long a poll stays open, in seconds, where nothing is configured.
pub const DEFAULT_TIMEOUT_SECONDS: u64 = 20;

/// How many events a poll returns at most where nothing is configured.
pub const DEFAULT_POLLED_ITEMS: usize = 5;

/// The number that `setting` holds, or `fallback` where there is no setting or
/// it does not hold a number of at most `max`.
pub open spec fn setting_or(setting: Option<Seq<char>>, max: nat, fallback: nat) -> nat {
    match setting {
        Some(text) => match parse_decimal(text, max) {
            Some(value) => value,
            None => fallback,
        },
        None => fallback,
    }
}

/// The views of an optional setting.
pub open spec fn setting_view(setting: Option<&str>) -> Option<Seq<char>> {
    match setting {
        Some(text) => Some(text@),
        None => None,
    }
}

/// The number of seconds that `setting` holds, or `fallback`.
pub fn seconds_or(setting: Option<&str>, fallback: u64) -> (seconds: u64)
    ensures
        seconds == setting_or(setting_view(setting), u64::MAX as nat, fallback as nat),
{
    match setting {
        Some(text) => match parse_u64(text) {
            Some(value) => value,
            None => fallback,
        },
        None => fallback,
    }
}

/// The count that `setting` holds, or `fallback`.
pub fn count_or(setting: Option<&str>, fallback: usize) -> (count: usize)
    ensures
        count == setting_or(setting_view(setting), usize::MAX as nat, fallback as nat),
{
    match setting {
        Some(text) => match parse_usize(text) {
            Some(value) => value,
            None => fallback,
        },
        None => fallback,
    }
}

/// The server-side settings of long polling.
#[derive(Debug, Clone, Copy)]
pub struct PollingConfig {
    max_timeout: u64,
    max_polled_items: usize,
}

impl PollingConfig {
    /// The longest time that a poll stays open, in seconds.
    pub closed spec fn timeout_seconds(&self) -> nat {
        self.max_timeout as nat
    }

    /// The largest number of events that a poll returns.
    pub closed spec fn polled_items(&self) -> nat {
        self.max_polled_items as nat
    }

    /// The settings that the configured values give: `timeout` holds the
    /// seconds that a poll stays open, `items` the number of events that it
    /// returns at most. A value that is missing or is not a number gives way
    /// to the default.
    pub fn new(timeout: Option<&str>, items: Option<&str>) -> (config: PollingConfig)
        ensures
            config.timeout_seconds() == setting_or(
                setting_view(timeout),
                u64::MAX as nat,
                DEFAULT_TIMEOUT_SECONDS as nat,
            ),
            config.polled_items() == setting_or(
                setting_view(items),
                usize::MAX as nat,
                DEFAULT_POLLED_ITEMS as nat,
            ),
    {
        PollingConfig {
            max_timeout: seconds_or(timeout, DEFAULT_TIMEOUT_SECONDS),
            max_polled_items: count_or(items, DEFAULT_POLLED_ITEMS),
        }
    }

    /// The longest time that a poll stays open, in seconds.
    pub fn get_timeout(&self) -> (seconds: u64)
        ensures
            seconds == self.timeout_seconds(),
    {
        self.max_timeout
    }

    /// The largest number of events that a poll returns.
    pub fn get_max_polled_item(&self) -> (items: usize)
        ensures
            items == self.polled_items(),
    {
        self.max_polled_items
    }
}

impl Default for PollingConfig {
    fn default() -> (config: PollingConfig)
        ensures
            config.timeout_seconds() == 0,
            config.polled_items() == 0,
    {
        PollingConfig { max_timeout: 0, max_polled_items: 0 }
    }
}

} // verus!
