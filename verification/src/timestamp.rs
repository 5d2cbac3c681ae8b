//! Points in time with the UTC offset they are shown in, and their textual form.

use std::fmt::Write;

use vstd::prelude::*;

verus! {

pub const DEFAULT_TIMESTAMP_FORMAT: &'static str = "%Y-%m-%d %H:%M:%S%.3f";

/// The first second that the calendar can represent, counted from 1970-01-01T00:00:00Z.
pub const MIN_SECONDS: i64 = -8_334_601_228_800;

/// The last second that the calendar can represent, counted from 1970-01-01T00:00:00Z.
pub const MAX_SECONDS: i64 = 8_210_266_876_799;

/// A point in time: seconds since 1970-01-01T00:00:00Z, nanoseconds within that second, and the
/// number of seconds by which local time is ahead of UTC.
#[derive(Debug, Clone, Copy, PartialEq, Eq, Structural)]
pub struct Timestamp {
    seconds: i64,
    nanos: u32,
    offset_seconds: i32,
}

/// What the calendar accepts as a point in time. A second fraction of one second or more stands
/// for a leap second and is possible at the end of a minute only.
pub open spec fn valid_timestamp(seconds: int, nanos: int, offset_seconds: int) -> bool {
    &&& MIN_SECONDS <= seconds <= MAX_SECONDS
    &&& 0 <= nanos < 2_000_000_000
    &&& nanos >= 1_000_000_000 ==> seconds % 60 == 59
    &&& -86_400 < offset_seconds < 86_400
}

impl Timestamp {
    pub closed spec fn spec_seconds(self) -> i64 {
        self.seconds
    }

    pub closed spec fn spec_nanos(self) -> u32 {
        self.nanos
    }

    pub closed spec fn spec_offset_seconds(self) -> i32 {
        self.offset_seconds
    }

    #[verifier::type_invariant]
    spec fn on_calendar(self) -> bool {
        valid_timestamp(self.seconds as int, self.nanos as int, self.offset_seconds as int)
    }

    /// `None` for what the calendar does not represent.
    pub fn new(seconds: i64, nanos: u32, offset_seconds: i32) -> (timestamp: Option<Timestamp>)
        ensures
            timestamp is Some <==> valid_timestamp(
                seconds as int,
                nanos as int,
                offset_seconds as int,
            ),
            timestamp matches Some(t) ==> t.spec_seconds() == seconds && t.spec_nanos() == nanos
                && t.spec_offset_seconds() == offset_seconds,
    {
        if seconds < MIN_SECONDS || seconds > MAX_SECONDS || nanos >= 2_000_000_000 {
            return None;
        }
        if offset_seconds <= -86_400 || offset_seconds >= 86_400 {
            return None;
        }
        let shifted: u64 = (seconds - MIN_SECONDS) as u64;
        assert(seconds % 60 == shifted % 60) by {
            assert(MIN_SECONDS == -138_910_020_480 * 60);
        }
        if nanos >= 1_000_000_000 && shifted % 60 != 59 {
            return None;
        }
        Some(Timestamp { seconds, nanos, offset_seconds })
    }

    /// 1970-01-01T00:00:00Z, shown in UTC.
    pub open spec fn is_epoch(self) -> bool {
        self.spec_seconds() == 0 && self.spec_nanos() == 0 && self.spec_offset_seconds() == 0
    }

    pub fn epoch() -> (timestamp: Timestamp)
        ensures
            timestamp.is_epoch(),
    {
        Timestamp { seconds: 0, nanos: 0, offset_seconds: 0 }
    }

    pub fn seconds(&self) -> (seconds: i64)
        ensures
            seconds == self.spec_seconds(),
    {
        self.seconds
    }

    pub fn nanos(&self) -> (nanos: u32)
        ensures
            nanos == self.spec_nanos(),
    {
        self.nanos
    }

    pub fn offset_seconds(&self) -> (offset_seconds: i32)
        ensures
            offset_seconds == self.spec_offset_seconds(),
    {
        self.offset_seconds
    }
}

/// How the moment of an export is written in the name of its file.
pub const EXPORT_NAME_FORMAT: &'static str = "%Y%m%d_%H%M%S";

/// Whether `StrftimeItems` reads a format string without meeting an unknown specifier.
pub uninterp spec fn strftime_accepts(format: Seq<char>) -> bool;

/// The text that `chrono` writes for a point in time and a format string, or that it cannot.
pub uninterp spec fn strftime_text(
    seconds: i64,
    nanos: u32,
    offset_seconds: i32,
    format: Seq<char>,
) -> Option<Seq<char>>;

/// `chrono::format::StrftimeItems` yields no `Item::Error` for the format string. The default
/// format and that of file names consist of documented specifiers.
#[verifier::external_body]
fn strftime_is_valid(format: &str) -> (valid: bool)
    ensures
        valid == strftime_accepts(format@),
        format@ == DEFAULT_TIMESTAMP_FORMAT@ || format@ == EXPORT_NAME_FORMAT@ ==> valid,
{
    chrono::format::StrftimeItems::new(format).all(|item| item != chrono::format::Item::Error)
}

/// `chrono::DateTime::format` gives the local time of a timestamp, to be written by a format
/// string. Writing fails at an unknown specifier and at one that is meant for reading only. The
/// outcome depends on nothing else. The default format and that of file names can be written.
#[verifier::external_body]
fn strftime(seconds: i64, nanos: u32, offset_seconds: i32, format: &str) -> (text: Option<String>)
    requires
        valid_timestamp(seconds as int, nanos as int, offset_seconds as int),
    ensures
        text is Some <==> strftime_text(seconds, nanos, offset_seconds, format@) is Some,
        text matches Some(text) ==> strftime_text(seconds, nanos, offset_seconds, format@) == Some(
            text@,
        ),
        format@ == DEFAULT_TIMESTAMP_FORMAT@ || format@ == EXPORT_NAME_FORMAT@ ==> text is Some,
{
    let utc = chrono::DateTime::from_timestamp(seconds, nanos).expect("a valid timestamp");
    let offset = chrono::FixedOffset::east_opt(offset_seconds).expect("a valid offset");
    let mut text = String::new();
    match write!(text, "{}", utc.with_timezone(&offset).format(format)) {
        Ok(()) => Some(text),
        Err(_) => None,
    }
}

/// A format string can be used when it is not empty and all its specifiers are known.
pub open spec fn valid_format(format: Seq<char>) -> bool {
    format.len() > 0 && strftime_accepts(format)
}

/// A timestamp written by a format string, if that is possible.
pub open spec fn written(received_at: Timestamp, format: Seq<char>) -> Option<Seq<char>> {
    strftime_text(
        received_at.spec_seconds(),
        received_at.spec_nanos(),
        received_at.spec_offset_seconds(),
        format,
    )
}

/// The text of a timestamp. A format string that is unusable, or that cannot be written, is
/// replaced by the default one.
pub open spec fn timestamp_text(received_at: Timestamp, format: Seq<char>) -> Seq<char> {
    if valid_format(format) && written(received_at, format) is Some {
        written(received_at, format)->0
    } else {
        written(received_at, DEFAULT_TIMESTAMP_FORMAT@)->0
    }
}

/// The text of a timestamp in square brackets, followed by a space.
pub open spec fn timestamp_prefix_text(received_at: Timestamp, format: Seq<char>) -> Seq<char> {
    seq!['['] + timestamp_text(received_at, format) + seq![']', ' ']
}

pub fn is_valid_timestamp_format(timestamp_format: &str) -> (valid: bool)
    ensures
        valid == valid_format(timestamp_format@),
        timestamp_format@ == DEFAULT_TIMESTAMP_FORMAT@ || timestamp_format@ == EXPORT_NAME_FORMAT@
            ==> valid,
{
    proof {
        reveal_strlit("%Y-%m-%d %H:%M:%S%.3f");
        reveal_strlit("%Y%m%d_%H%M%S");
    }
    !timestamp_format.is_empty() && strftime_is_valid(timestamp_format)
}

pub fn format_timestamp(received_at: Timestamp, timestamp_format: &str) -> (text: String)
    ensures
        text@ == timestamp_text(received_at, timestamp_format@),
        written(received_at, timestamp_format@) == Some(text@) || written(
            received_at,
            DEFAULT_TIMESTAMP_FORMAT@,
        ) == Some(text@),
        timestamp_format@ == EXPORT_NAME_FORMAT@ ==> written(received_at, timestamp_format@)
            == Some(text@),
{
    proof {
        use_type_invariant(received_at);
    }
    let (seconds, nanos) = (received_at.seconds, received_at.nanos);
    let offset_seconds: i32 = received_at.offset_seconds;
    if is_valid_timestamp_format(timestamp_format) {
        if let Some(text) = strftime(seconds, nanos, offset_seconds, timestamp_format) {
            return text;
        }
    }
    strftime(seconds, nanos, offset_seconds, DEFAULT_TIMESTAMP_FORMAT).unwrap()
}

pub fn timestamp_prefix(received_at: Timestamp, timestamp_format: &str) -> (text: String)
    ensures
        text@ == timestamp_prefix_text(received_at, timestamp_format@),
{
    let mut text = String::new();
    text.push('[');
    text.append(format_timestamp(received_at, timestamp_format).as_str());
    text.push(']');
    text.push(' ');
    text
}

/// The name that is proposed for a file to export to.
pub fn export_file_name(now: Timestamp) -> (name: String)
    ensures
        written(now, EXPORT_NAME_FORMAT@) is Some,
        name@ == "ESCOM_"@ + written(now, EXPORT_NAME_FORMAT@)->0 + ".txt"@,
{
    let mut name = "ESCOM_".to_owned();
    name.append(format_timestamp(now, EXPORT_NAME_FORMAT).as_str());
    name.append(".txt");
    name
}

} // verus!
