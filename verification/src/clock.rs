//! Instants, elapsed time and the sample timeline. An instant is held as the
//! number of nanoseconds since the Unix epoch, in UTC.

use vstd::prelude::*;

verus! {

/// Nanoseconds per second.
pub const NANOS_PER_SECOND: i128 = 1_000_000_000;

/// The last instant of the calendar.
pub const MAX_INSTANT: i128 = 8_210_266_876_799_999_999_999;

/// The first second of the calendar.
pub const FIRST_SECOND: i64 = -8_334_601_228_800;

/// The last second of the calendar.
pub const LAST_SECOND: i64 = 8_210_266_876_799;

/// The first second of the year 0.
pub const FIRST_RFC3339_SECOND: i64 = -62_167_219_200;

/// The last second of the year 9999.
pub const LAST_RFC3339_SECOND: i64 = 253_402_300_799;

/// The sample of the common timeline at `ns` nanoseconds: `ns * 48000 / 10^9`,
/// rounded to the nearest whole number, halves upwards.
pub open spec fn timeline_sample(ns: int) -> int {
    (ns * 48_000 + 500_000_000) / 1_000_000_000
}

/// Where a frame that came at `first_ns` lies on the timeline of a recording that started
/// at `recording_ns`.
pub open spec fn frame_sample(first_ns: int, recording_ns: int) -> int {
    timeline_sample(
        if first_ns >= recording_ns {
            first_ns - recording_ns
        } else {
            0
        },
    )
}

/// Where a segment starts on the common timeline when its first frame came at
/// `first_ns` and the recording started at `recording_ns`.
pub fn timeline_start_sample(first_ns: u64, recording_ns: u64) -> (sample: u64)
    ensures
        sample == frame_sample(first_ns as int, recording_ns as int),
{
    let elapsed: u64 = first_ns.saturating_sub(recording_ns);
    ((elapsed as u128 * 48_000 + 500_000_000) / 1_000_000_000) as u64
}

/// Nanoseconds from one instant to another; 0 where the second is not later or
/// the span does not fit a signed 64-bit number.
pub open spec fn elapsed_between(started_at: int, now: int) -> int {
    if 0 <= now - started_at <= i64::MAX {
        now - started_at
    } else {
        0
    }
}

/// Nanoseconds from `started_at` to `now`.
pub fn elapsed_ns(started_at: i128, now: i128) -> (ns: u64)
    ensures
        ns == elapsed_between(started_at as int, now as int),
{
    match now.checked_sub(started_at) {
        Some(span) => {
            if 0 <= span && span <= i64::MAX as i128 {
                span as u64
            } else {
                0
            }
        },
        None => 0,
    }
}

/// The current time from `chrono::Utc::now`, as whole seconds since the epoch
/// and the nanoseconds behind them. Claimed: it is an instant of the calendar
/// and not before the epoch.
#[verifier::external_body]
fn chrono_now() -> (parts: (i64, u32))
    ensures
        0 <= parts.0 <= 8_210_266_876_799,
        parts.1 < 1_000_000_000,
{
    let now = chrono::Utc::now();
    (now.timestamp(), now.timestamp_subsec_nanos())
}

/// The instant that lies so many seconds and nanoseconds behind the epoch.
pub fn instant_from_parts(seconds: i64, nanos: u32) -> (instant: i128)
    ensures
        instant == seconds * 1_000_000_000 + nanos,
{
    seconds as i128 * NANOS_PER_SECOND + nanos as i128
}

/// The current instant.
pub fn utc_now() -> (now: i128)
    ensures
        0 <= now <= MAX_INSTANT,
{
    let (seconds, nanos) = chrono_now();
    instant_from_parts(seconds, nanos)
}

/// Nanoseconds since `started_at`.
pub fn elapsed_ns_since(started_at: i128) -> (ns: u64)
    ensures
        exists|now: int|
            0 <= now <= MAX_INSTANT && ns == #[trigger] elapsed_between(started_at as int, now),
{
    let now = utc_now();
    elapsed_ns(started_at, now)
}

/// What `chrono::DateTime::parse_from_rfc3339` reads from a text: seconds since
/// the epoch in UTC and the nanoseconds behind them; `None` where it rejects the text.
pub uninterp spec fn rfc3339_value(text: Seq<char>) -> Option<(i64, u32)>;

/// Reads an instant with `chrono::DateTime::parse_from_rfc3339`.
#[verifier::external_body]
fn rfc3339_parse(text: &str) -> (parts: Option<(i64, u32)>)
    ensures
        parts == rfc3339_value(text@),
{
    match chrono::DateTime::parse_from_rfc3339(text) {
        Ok(time) => Some((time.timestamp(), time.timestamp_subsec_nanos())),
        Err(_) => None,
    }
}

/// What `chrono::DateTime::to_rfc3339` writes for an instant; `None` where
/// `chrono::DateTime::from_timestamp` knows no such instant.
pub uninterp spec fn rfc3339_form(seconds: i64, nanos: u32) -> Option<Seq<char>>;

/// Writes an instant with `chrono::DateTime::to_rfc3339` (`from_timestamp`).
/// Claimed too: there is such a text for every instant from `DateTime::MIN_UTC` to
/// `DateTime::MAX_UTC` and no other, and from the year 0 to the end of the year 9999
/// `parse_from_rfc3339` reads the same instant back.
#[verifier::external_body]
fn rfc3339_format(seconds: i64, nanos: u32) -> (text: Option<String>)
    ensures
        text is Some <==> rfc3339_form(seconds, nanos) is Some,
        text is Some ==> rfc3339_form(seconds, nanos) == Some(text->0@),
        nanos < 1_000_000_000 ==> (text is Some <==> FIRST_SECOND <= seconds <= LAST_SECOND),
        FIRST_RFC3339_SECOND <= seconds <= LAST_RFC3339_SECOND && nanos < 1_000_000_000
            ==> text is Some && rfc3339_value(text->0@) == Some((seconds, nanos)),
{
    chrono::DateTime::from_timestamp(seconds, nanos).map(|time| time.to_rfc3339())
}

/// What `chrono::DateTime::to_rfc3339_opts` writes for an instant in UTC, with as many
/// digits as it needs and with `Z`; `None` where `chrono::DateTime::from_timestamp` knows no
/// such instant.
pub uninterp spec fn rfc3339_utc(seconds: i64, nanos: u32) -> Option<Seq<char>>;

/// Writes an instant with `chrono::DateTime::to_rfc3339_opts` (`from_timestamp`). Claimed
/// too: there is such a text for every instant from `DateTime::MIN_UTC` to
/// `DateTime::MAX_UTC` and no other, and from the year 0 to the end of the year 9999
/// `parse_from_rfc3339` reads the same instant back.
#[verifier::external_body]
fn rfc3339_format_utc(seconds: i64, nanos: u32) -> (text: Option<String>)
    ensures
        text is Some <==> rfc3339_utc(seconds, nanos) is Some,
        text is Some ==> rfc3339_utc(seconds, nanos) == Some(text->0@),
        nanos < 1_000_000_000 ==> (text is Some <==> FIRST_SECOND <= seconds <= LAST_SECOND),
        FIRST_RFC3339_SECOND <= seconds <= LAST_RFC3339_SECOND && nanos < 1_000_000_000
            ==> text is Some && rfc3339_value(text->0@) == Some((seconds, nanos)),
{
    chrono::DateTime::from_timestamp(seconds, nanos).map(
        |time| time.to_rfc3339_opts(chrono::SecondsFormat::AutoSi, true),
    )
}

/// The instant that a text stands for. A leap second is counted as the second behind it.
pub open spec fn time_value(text: Seq<char>) -> Option<int> {
    match rfc3339_value(text) {
        Some(parts) => Some(parts.0 * 1_000_000_000 + parts.1),
        None => None,
    }
}

/// Reads an instant.
pub fn parse_time(text: &str) -> (instant: Option<i128>)
    ensures
        match instant {
            Some(i) => time_value(text@) == Some(i as int),
            None => time_value(text@) is None,
        },
{
    match rfc3339_parse(text) {
        Some((seconds, nanos)) => Some(instant_from_parts(seconds, nanos)),
        None => None,
    }
}

/// Whether an instant lies in the calendar.
pub open spec fn in_calendar(instant: int) -> bool {
    FIRST_SECOND * 1_000_000_000 <= instant < (LAST_SECOND + 1) * 1_000_000_000
}

/// Whether an instant is read back from its text: it lies in the years 0 to 9999.
pub open spec fn writable(instant: int) -> bool {
    FIRST_RFC3339_SECOND * 1_000_000_000 <= instant < (LAST_RFC3339_SECOND + 1) * 1_000_000_000
}

/// The whole seconds of an instant, from the epoch.
pub open spec fn seconds_of(instant: int) -> i64 {
    (instant / 1_000_000_000) as i64
}

/// The nanoseconds of an instant behind its last whole second.
pub open spec fn nanos_of(instant: int) -> u32 {
    (instant % 1_000_000_000) as u32
}

/// The whole seconds of an instant and the nanoseconds behind them; `None` outside the
/// calendar.
fn parts_of(instant: i128) -> (parts: Option<(i64, u32)>)
    ensures
        match parts {
            Some((seconds, nanos)) => {
                &&& in_calendar(instant as int)
                &&& seconds == seconds_of(instant as int)
                &&& nanos == nanos_of(instant as int)
                &&& FIRST_SECOND <= seconds <= LAST_SECOND
                &&& nanos < 1_000_000_000
                &&& seconds * 1_000_000_000 + nanos == instant
            },
            None => !in_calendar(instant as int),
        },
{
    if instant < FIRST_SECOND as i128 * NANOS_PER_SECOND || instant >= (LAST_SECOND as i128 + 1)
        * NANOS_PER_SECOND {
        return None;
    }
    let shifted: i128 = instant - FIRST_SECOND as i128 * NANOS_PER_SECOND;
    let seconds: i64 = (shifted / NANOS_PER_SECOND) as i64 + FIRST_SECOND;
    Some((seconds, (shifted % NANOS_PER_SECOND) as u32))
}

/// An instant of the calendar as it is kept.
pub open spec fn time_form(instant: int) -> Seq<char> {
    rfc3339_form(seconds_of(instant), nanos_of(instant))->0
}

/// Writes an instant; `None` outside the calendar. From the years 0 to 9999 it is read back.
pub fn time_text(instant: i128) -> (text: Option<String>)
    ensures
        text is Some <==> in_calendar(instant as int),
        text is Some ==> text->0@ == time_form(instant as int),
        writable(instant as int) ==> text is Some && time_value(text->0@) == Some(instant as int),
{
    match parts_of(instant) {
        Some((seconds, nanos)) => rfc3339_format(seconds, nanos),
        None => None,
    }
}

/// An instant of the calendar as the files of a recording show it.
pub open spec fn shown_time(instant: int) -> Seq<char> {
    rfc3339_utc(seconds_of(instant), nanos_of(instant))->0
}

/// Writes an instant as the files of a recording show it; `None` outside the calendar.
pub fn utc_text(instant: i128) -> (text: Option<String>)
    ensures
        text is Some <==> in_calendar(instant as int),
        text is Some ==> text->0@ == shown_time(instant as int),
        writable(instant as int) ==> text is Some && time_value(text->0@) == Some(instant as int),
{
    match parts_of(instant) {
        Some((seconds, nanos)) => rfc3339_format_utc(seconds, nanos),
        None => None,
    }
}

/// The recording's timeline runs forward: a later frame is never placed earlier.
pub proof fn law_timeline_is_monotone(first: int, second: int)
    requires
        first <= second,
    ensures
        timeline_sample(first) <= timeline_sample(second),
{
    assert((first * 48_000 + 500_000_000) / 1_000_000_000 <= (second * 48_000 + 500_000_000)
        / 1_000_000_000) by (nonlinear_arith)
        requires
            first <= second,
    ;
}

/// The later a recording started, the earlier on its timeline a frame lies.
pub proof fn law_later_recording_starts_earlier(first_ns: int, recording_ns: int, later_ns: int)
    requires
        recording_ns <= later_ns,
    ensures
        frame_sample(first_ns, later_ns) <= frame_sample(first_ns, recording_ns),
{
    law_timeline_is_monotone(
        if first_ns >= later_ns {
            first_ns - later_ns
        } else {
            0
        },
        if first_ns >= recording_ns {
            first_ns - recording_ns
        } else {
            0
        },
    );
}

/// The instant so many nanoseconds behind a base: a clock that is set once and then counted
/// on runs forward.
pub fn steady_instant(base: i128, since_ns: u64) -> (instant: i128)
    requires
        base <= MAX_INSTANT,
    ensures
        instant == base + since_ns,
{
    base + since_ns as i128
}

/// An instant falls on the sample that is nearest to it, at 48000 samples a second; one in the
/// middle between two samples falls on the later one.
pub proof fn law_nearest_sample(ns: int)
    ensures
        -500_000_000 < timeline_sample(ns) * 1_000_000_000 - ns * 48_000 <= 500_000_000,
{
}

/// Time runs from the start to the instant, if that is later and the span fits; each
/// nanosecond counts.
pub proof fn law_elapsed_time(started_at: int, now: int)
    ensures
        started_at <= now <= started_at + 9_223_372_036_854_775_807 ==> elapsed_between(
            started_at,
            now,
        ) + started_at == now,
        now < started_at || now > started_at + 9_223_372_036_854_775_807 ==> elapsed_between(
            started_at,
            now,
        ) == 0,
{
}

/// A frame that came before the recording started lies at its start, every other one at the
/// sample that is nearest to its distance from the start.
pub proof fn law_frames_lie_behind_the_start(first_ns: int, recording_ns: int)
    ensures
        first_ns <= recording_ns ==> frame_sample(first_ns, recording_ns) == 0,
        first_ns >= recording_ns ==> -500_000_000 < frame_sample(first_ns, recording_ns)
            * 1_000_000_000 - (first_ns - recording_ns) * 48_000 <= 500_000_000,
{
}

/// An instant is its whole seconds and less than a second of nanoseconds, also before the epoch.
pub proof fn law_parts_of_an_instant(instant: int)
    requires
        in_calendar(instant),
    ensures
        seconds_of(instant) * 1_000_000_000 + nanos_of(instant) == instant,
        0 <= nanos_of(instant) < 1_000_000_000,
        -8_334_601_228_800_000_000_000 <= instant < 8_210_266_876_800_000_000_000,
{
}

/// The calendar goes from the year -262143 to the year 262142, and texts of the years 0 to 9999
/// are read back.
pub proof fn law_bounds_of_the_calendar(instant: int)
    ensures
        in_calendar(instant) <==> -8_334_601_228_800_000_000_000 <= instant
            < 8_210_266_876_800_000_000_000,
        writable(instant) <==> -62_167_219_200_000_000_000 <= instant
            < 253_402_300_800_000_000_000,
{
}

/// A text stands for the instant whose seconds and nanoseconds are read from it, and an instant
/// is written by its own.
pub proof fn law_texts_of_instants(text: Seq<char>, instant: int, seconds: i64, nanos: u32)
    requires
        in_calendar(instant),
        seconds * 1_000_000_000 + nanos == instant,
        nanos < 1_000_000_000,
    ensures
        rfc3339_value(text) == Some((seconds, nanos)) ==> time_value(text) == Some(instant),
        rfc3339_value(text) is None ==> time_value(text) is None,
        time_form(instant) == rfc3339_form(seconds, nanos)->0,
        shown_time(instant) == rfc3339_utc(seconds, nanos)->0,
{
    law_parts_of_an_instant(instant);
    assert(seconds_of(instant) == seconds && nanos_of(instant) == nanos);
}

} // verus!
