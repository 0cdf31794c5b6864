//! Times as text: in UTC, and in the machine's own zone.

use crate::text;
use crate::text::Text;
use chrono::TimeZone;
use vstd::prelude::*;
use vstd::string::*;

verus! {

/// How a date and a time are shown.
pub const DISPLAY_FORMAT: &'static str = "%Y-%m-%d %H:%M:%S";

/// How a date and a time are written in ISO form, without a zone.
pub const ISO_FORMAT: &'static str = "%Y-%m-%dT%H:%M:%S";

/// How a date and a time in UTC are written in ISO form.
pub const ISO_UTC_FORMAT: &'static str = "%Y-%m-%dT%H:%M:%SZ";

/// What `chrono::NaiveDateTime::parse_from_str` makes of a text in a format: the
/// seconds since the epoch of that time in UTC, and the nanoseconds of its
/// second.
pub uninterp spec fn utc_instant(text: Text, format: Text) -> Option<(i64, u32)>;

/// `chrono::NaiveDateTime::parse_from_str`: the date and time that a text stands
/// for in a format, as seconds and nanoseconds since the epoch in UTC; nothing
/// where it does not parse. A function of the two texts alone.
#[verifier::external_body]
fn parse_utc(text: &str, format: &str) -> (r: Option<(i64, u32)>)
    ensures
        r == utc_instant(text@, format@),
{
    let parsed = chrono::NaiveDateTime::parse_from_str(text, format).ok()?;
    Some((parsed.and_utc().timestamp(), parsed.and_utc().timestamp_subsec_nanos()))
}

/// What `chrono::DateTime::format` makes of a time, in a zone that is so many
/// seconds ahead of UTC; nothing for a time beyond all calendars.
pub uninterp spec fn shown_ahead(seconds: i64, nanos: u32, ahead: i32, format: Text) -> Option<Text>;

/// Whether a second is one of the years 0 to 9999.
pub open spec fn in_calendar(seconds: i64) -> bool {
    -62_167_219_200 <= seconds <= 253_402_300_799
}

/// Whether a zone may be so many seconds ahead of UTC: less than a day.
pub open spec fn is_offset(ahead: i32) -> bool {
    -86_400 < ahead < 86_400
}

/// `chrono::FixedOffset::east_opt`, its `timestamp_opt`, and
/// `chrono::DateTime::format`: a time as text, in a zone that is so many seconds
/// ahead of UTC, a function of the four arguments alone. Every second of the years
/// 0 to 9999 can be shown, in every zone that is less than a day away from UTC.
#[verifier::external_body]
fn show_ahead(seconds: i64, nanos: u32, ahead: i32, format: &str) -> (r: Option<String>)
    requires
        format@ == DISPLAY_FORMAT@ || format@ == ISO_UTC_FORMAT@,
    ensures
        text::opt_text(r) == shown_ahead(seconds, nanos, ahead, format@),
        in_calendar(seconds) && nanos < 1_000_000_000 && is_offset(ahead) ==> r is Some,
{
    let zone = chrono::FixedOffset::east_opt(ahead)?;
    let time = zone.timestamp_opt(seconds, nanos).single()?;
    Some(time.format(format).to_string())
}

/// `chrono::Local.timestamp_opt` and `chrono::DateTime::offset`: how many seconds
/// the machine's own zone is ahead of UTC at a time. It depends on the machine; it is
/// less than a day, and there is one for every second of the years 0 to 9999.
#[verifier::external_body]
fn local_offset(seconds: i64) -> (r: Option<i32>)
    ensures
        may_be_ahead(seconds, r),
{
    let time = chrono::Local.timestamp_opt(seconds, 0).single()?;
    Some(time.offset().local_minus_utc())
}

/// Whether the machine's own zone may be so far ahead of UTC at a second.
pub open spec fn may_be_ahead(seconds: i64, ahead: Option<i32>) -> bool {
    match ahead {
        Some(a) => is_offset(a),
        None => !in_calendar(seconds),
    }
}

/// A time as a date and a time of a zone, where it is known how far that is ahead of
/// UTC.
pub open spec fn shown_in_zone(seconds: i64, nanos: u32, ahead: Option<i32>) -> Option<Text> {
    match ahead {
        Some(a) => shown_ahead(seconds, nanos, a, DISPLAY_FORMAT@),
        None => None,
    }
}

/// A time as a date and a time of a zone, where it is known how far that is ahead of
/// UTC.
pub fn show_in_zone(seconds: i64, nanos: u32, ahead: Option<i32>) -> (r: Option<String>)
    ensures
        text::opt_text(r) == shown_in_zone(seconds, nanos, ahead),
        in_calendar(seconds) && nanos < 1_000_000_000 && ahead is Some && is_offset(
            ahead->Some_0,
        ) ==> r is Some,
{
    match ahead {
        Some(a) => show_ahead(seconds, nanos, a, DISPLAY_FORMAT),
        None => None,
    }
}

/// A time, in seconds since the epoch, as a date and a time of the machine's own
/// zone. There is none for a time beyond all calendars.
pub fn format_timestamp(unix_seconds: i64) -> (r: Option<String>)
    ensures
        in_calendar(unix_seconds) ==> r is Some,
        exists|ahead: Option<i32>|
            #![trigger may_be_ahead(unix_seconds, ahead)]
            may_be_ahead(unix_seconds, ahead) && text::opt_text(r) == shown_in_zone(
                unix_seconds,
                0,
                ahead,
            ),
{
    let ahead = local_offset(unix_seconds);
    show_in_zone(unix_seconds, 0, ahead)
}

/// The time that a text stands for in UTC, in one of the two forms without a zone.
pub open spec fn utc_time(s: Text) -> Option<(i64, u32)> {
    match utc_instant(s, DISPLAY_FORMAT@) {
        Some(t) => Some(t),
        None => utc_instant(s, ISO_FORMAT@),
    }
}

/// What a text is shown as that stands for a time or for none: the time in a zone, or
/// else the text itself.
pub open spec fn displayed(s: Text, instant: Option<(i64, u32)>, ahead: Option<i32>) -> Text {
    match instant {
        Some((seconds, nanos)) => match shown_in_zone(seconds, nanos, ahead) {
            Some(shown) => shown,
            None => s,
        },
        None => s,
    }
}

/// Show a text that stands for a time or for none: the time in a zone, or else the
/// text itself.
pub fn display_instant(s: &str, instant: Option<(i64, u32)>, ahead: Option<i32>) -> (r: String)
    ensures
        r@ == displayed(s@, instant, ahead),
{
    if let Some((seconds, nanos)) = instant {
        if let Some(shown) = show_in_zone(seconds, nanos, ahead) {
            return shown;
        }
    }
    text::copy(s)
}

/// Whether the machine's own zone may be so far ahead of UTC at the time that a text
/// stands for.
pub open spec fn may_be_ahead_at(s: Text, ahead: Option<i32>) -> bool {
    match utc_time(s) {
        Some((seconds, _)) => may_be_ahead(seconds, ahead),
        None => true,
    }
}

/// A time in UTC as a date and a time of the machine's own zone. What is no time
/// stays as it is.
pub fn utc_to_local_display(utc_str: &str) -> (r: String)
    ensures
        exists|ahead: Option<i32>|
            #![trigger may_be_ahead_at(utc_str@, ahead)]
            may_be_ahead_at(utc_str@, ahead) && r@ == displayed(
                utc_str@,
                utc_time(utc_str@),
                ahead,
            ),
{
    let instant = match parse_utc(utc_str, DISPLAY_FORMAT) {
        Some(t) => Some(t),
        None => parse_utc(utc_str, ISO_FORMAT),
    };
    let ahead = match instant {
        Some((seconds, _)) => local_offset(seconds),
        None => None,
    };
    assert(may_be_ahead_at(utc_str@, ahead));
    display_instant(utc_str, instant, ahead)
}

/// A second since the epoch, in ISO form; nothing for a second beyond all calendars.
pub open spec fn iso_shown(seconds: i64) -> Option<Text> {
    shown_ahead(seconds, 0, 0, ISO_UTC_FORMAT@)
}

/// A second since the epoch, in ISO form.
pub fn iso_text(unix_seconds: i64) -> (r: Option<String>)
    ensures
        text::opt_text(r) == iso_shown(unix_seconds),
        in_calendar(unix_seconds) ==> r is Some,
{
    show_ahead(unix_seconds, 0, 0, ISO_UTC_FORMAT)
}

/// The second since the epoch that a text in ISO form stands for.
pub open spec fn iso_seconds(s: Text) -> Option<i64> {
    match utc_instant(s, ISO_UTC_FORMAT@) {
        Some((seconds, _)) => Some(seconds),
        None => None,
    }
}

/// The second since the epoch that a text in ISO form stands for.
pub fn parse_iso_to_secs(ts: &str) -> (r: Option<i64>)
    ensures
        r == iso_seconds(ts@),
{
    match parse_utc(ts, ISO_UTC_FORMAT) {
        Some((seconds, _)) => Some(seconds),
        None => None,
    }
}

/// The seconds from one second to another, as far as they can be counted.
pub open spec fn span(now: i64, then: i64) -> i64 {
    if now - then > i64::MAX {
        i64::MAX
    } else if now - then < i64::MIN {
        i64::MIN
    } else {
        (now - then) as i64
    }
}

/// The seconds that have gone by at `now` since a time in ISO form; nothing where
/// that cannot be read.
pub open spec fn elapsed_since(ts: Text, now: i64) -> Option<i64> {
    match iso_seconds(ts) {
        Some(seconds) => Some(span(now, seconds)),
        None => None,
    }
}

/// The seconds that have gone by at `now` since a time in ISO form.
pub fn seconds_since(ts: &str, now: i64) -> (r: Option<i64>)
    ensures
        r == elapsed_since(ts@, now),
{
    match parse_iso_to_secs(ts) {
        Some(seconds) => {
            let difference: i128 = now as i128 - seconds as i128;
            if difference > i64::MAX as i128 {
                Some(i64::MAX)
            } else if difference < i64::MIN as i128 {
                Some(i64::MIN)
            } else {
                Some(difference as i64)
            }
        },
        None => None,
    }
}

/// The time since an instant is the seconds between, as far as they can be counted.
pub proof fn law_elapsed_time_is_the_difference(ts: Text, now: i64, then: i64)
    requires
        iso_seconds(ts) == Some(then),
        i64::MIN <= now - then <= i64::MAX,
    ensures
        elapsed_since(ts, now) == Some((now - then) as i64),
{
}

} // verus!
