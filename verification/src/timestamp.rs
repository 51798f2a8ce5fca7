//! Points in time, given as seconds since the Unix epoch.

use crate::chunk::opt_string;
use crate::json::{json_integer, json_string};
use crate::number::{decimal_i64, parse_i64};
use crate::text::chars_of;
use vstd::prelude::*;

verus! {

/// A point in time that the calendar can show.
#[derive(Debug, PartialEq, Eq)]
pub struct Timestamp {
    /// Seconds since 1970-01-01 00:00:00 UTC; never zero.
    pub seconds: i64,
    /// Date and time of day in UTC, as `chrono` shows them.
    pub text: String,
}

impl Timestamp {
    /// True when the timestamp stands for a time: its seconds are not zero.
    pub open spec fn wf(&self) -> bool {
        self.seconds != 0
    }
}

/// What a [`Timestamp`] holds, as plain values.
pub struct TimestampView {
    pub seconds: int,
    pub text: Seq<char>,
}

impl View for Timestamp {
    type V = TimestampView;

    open spec fn view(&self) -> TimestampView {
        TimestampView { seconds: self.seconds as int, text: self.text@ }
    }
}

/// What a time holds, where there is one.
pub open spec fn opt_time(time: Option<Timestamp>) -> Option<TimestampView> {
    match time {
        Some(t) => Some(t@),
        None => None,
    }
}

/// How `chrono` shows the time `seconds` after the Unix epoch in UTC; `None`
/// where its calendar does not reach that far.
pub uninterp spec fn utc_display(seconds: int) -> Option<Seq<char>>;

/// `chrono::DateTime::from_timestamp` with no nanoseconds, and the result
/// shown by the `Display` of `chrono::DateTime<Utc>`: date, time of day and
/// `UTC`. `None` where `from_timestamp` gives none. Taken on trust: what
/// comes back depends on the seconds alone; [`utc_display`] is its name.
#[verifier::external_body]
fn utc_text(seconds: i64) -> (text: Option<String>)
    ensures
        opt_string(text) == utc_display(seconds as int),
{
    chrono::DateTime::from_timestamp(seconds, 0).map(|time| time.to_string())
}

/// The timestamp for `seconds` whose calendar text is `shown`. Zero seconds
/// stand for no time at all, as does a time that could not be shown.
pub fn resolve(seconds: i64, shown: Option<String>) -> (time: Option<Timestamp>)
    ensures
        time is None <==> seconds == 0 || shown is None,
        time matches Some(t) ==> t.wf() && t.seconds == seconds && shown == Some(t.text),
{
    if seconds == 0 {
        None
    } else {
        match shown {
            Some(text) => Some(Timestamp { seconds, text }),
            None => None,
        }
    }
}

/// The timestamp for `seconds` after the Unix epoch; none for zero and none
/// beyond the calendar.
pub fn timestamp_of(seconds: i64) -> (time: Option<Timestamp>)
    ensures
        time is None <==> seconds == 0 || utc_display(seconds as int) is None,
        time matches Some(t) ==> t.wf() && t.seconds == seconds && utc_display(seconds as int)
            == Some(t.text@),
{
    resolve(seconds, utc_text(seconds))
}

/// The seconds that a JSON value gives: an integer itself, or a string that
/// denotes one in decimal notation.
pub open spec fn json_seconds(value: serde_json::Value) -> Option<int> {
    match json_integer(value) {
        Some(n) => Some(n as int),
        None => match json_string(value) {
            Some(text) => decimal_i64(text),
            None => None,
        },
    }
}

/// The time that a JSON value gives, with its calendar text; none for zero
/// seconds, which stand for no time at all, and none beyond the calendar.
pub open spec fn time_read(value: serde_json::Value) -> Option<TimestampView> {
    match json_seconds(value) {
        Some(n) => if n == 0 {
            None
        } else {
            match utc_display(n) {
                Some(text) => Some(TimestampView { seconds: n, text }),
                None => None,
            }
        },
        None => None,
    }
}

/// Reads a timestamp from a JSON number or numeric string. Zero is absent.
pub fn parse_timestamp(value: &serde_json::Value) -> (time: Option<Timestamp>)
    ensures
        opt_time(time) == time_read(*value),
        json_seconds(*value) == Some(0int) ==> time is None,
        time is None <==> (json_seconds(*value) matches Some(n) ==> n == 0 || utc_display(n)
            is None),
        time matches Some(t) ==> t.wf() && json_seconds(*value) == Some(t.seconds as int)
            && utc_display(t.seconds as int) == Some(t.text@),
{
    let seconds = match value.as_i64() {
        Some(n) => Some(n),
        None => match value.as_str() {
            Some(text) => parse_i64(&chars_of(text)),
            None => None,
        },
    };
    match seconds {
        Some(n) => timestamp_of(n),
        None => None,
    }
}

} // verus!
