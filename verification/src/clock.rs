//! Times of day and spans of time as text.

use crate::text;
use vstd::prelude::*;
use vstd::string::*;

verus! {

/// Three numbers with colons between them, each of at least two digits.
pub open spec fn colons(hours: nat, minutes: nat, seconds: nat) -> Seq<char> {
    text::two_digits(hours) + ":"@ + text::two_digits(minutes) + ":"@ + text::two_digits(seconds)
}

/// The time of day, in UTC, of a number of seconds since the Unix epoch.
pub open spec fn time_of_day(secs: nat) -> Seq<char> {
    colons((secs / 3600) % 24, (secs / 60) % 60, secs % 60)
}

/// A span of seconds in hours, minutes and seconds.
pub open spec fn span(secs: nat) -> Seq<char> {
    colons(secs / 3600, (secs % 3600) / 60, secs % 60)
}

/// Why the time of day is not known.
#[derive(Clone, Copy, Debug, PartialEq, Eq, Structural)]
pub enum ClockError {
    /// The system clock is set to a time before the Unix epoch.
    BeforeEpoch,
}

/// Calls `SystemTime::elapsed` of std on the Unix epoch, and gives the whole
/// seconds of what it returns; `None` where it reports that the clock is before
/// the epoch. What it returns depends on the clock, so nothing is claimed of it.
#[verifier::external_body]
fn seconds_since_epoch() -> (secs: Option<u64>) {
    match std::time::UNIX_EPOCH.elapsed() {
        Ok(elapsed) => Some(elapsed.as_secs()),
        Err(_) => None,
    }
}

/// Writes three numbers with colons between them.
fn write_colons(hours: u64, minutes: u64, seconds: u64) -> (written: String)
    ensures
        written@ == colons(hours as nat, minutes as nat, seconds as nat),
{
    let mut written = text::write_two_digits(hours);
    written.append(":");
    written.append(&text::write_two_digits(minutes));
    written.append(":");
    written.append(&text::write_two_digits(seconds));
    written
}

/// The time of day of a number of seconds since the Unix epoch.
pub fn write_time_of_day(secs: u64) -> (written: String)
    ensures
        written@ == time_of_day(secs as nat),
{
    write_colons((secs / 3600) % 24, (secs / 60) % 60, secs % 60)
}

/// The present time of day, in UTC.
pub fn chrono_time_str() -> (written: Result<String, ClockError>)
    ensures
        match written {
            Ok(time) => exists|secs: u64| time@ == #[trigger] time_of_day(secs as nat),
            Err(error) => error == ClockError::BeforeEpoch,
        },
{
    write_clock_reading(seconds_since_epoch())
}

/// The time of day for a reading of the system clock: the seconds since the Unix
/// epoch, or nothing where the clock is before it.
pub fn write_clock_reading(reading: Option<u64>) -> (written: Result<String, ClockError>)
    ensures
        match reading {
            Some(secs) => written matches Ok(time) && time@ == time_of_day(secs as nat),
            None => written matches Err(error) && error == ClockError::BeforeEpoch,
        },
{
    match reading {
        Some(secs) => Ok(write_time_of_day(secs)),
        None => Err(ClockError::BeforeEpoch),
    }
}

/// How long the monitor has been running.
pub fn uptime_text(secs: u64) -> (written: String)
    ensures
        written@ == "⏱  Uptime  "@ + span(secs as nat),
{
    let mut written = "⏱  Uptime  ".to_owned();
    written.append(&write_colons(secs / 3600, (secs % 3600) / 60, secs % 60));
    written
}

/// A number below one hundred takes two digits, and they tell the number.
proof fn lemma_two_digits(n: nat)
    requires
        n < 100,
    ensures
        text::two_digits(n).len() == 2,
        text::two_digits(n)[0] == text::digit(n / 10),
        text::two_digits(n)[1] == text::digit(n % 10),
{
    if n >= 10 {
        reveal_with_fuel(text::decimal, 2);
        assert(text::decimal(n) =~= seq![text::digit(n / 10), text::digit(n % 10)]);
    }
}

/// A digit is told by its character.
proof fn lemma_digits_differ(a: nat, b: nat)
    requires
        a < 10,
        b < 10,
        text::digit(a) == text::digit(b),
    ensures
        a == b,
{
    assert(text::digit(a) as int == 48 + a);
    assert(text::digit(b) as int == 48 + b);
}

/// Three numbers below one hundred take eight characters, which tell the
/// numbers.
proof fn lemma_colons(hours: nat, minutes: nat, seconds: nat)
    requires
        hours < 100,
        minutes < 100,
        seconds < 100,
    ensures
        colons(hours, minutes, seconds) == seq![
            text::digit(hours / 10),
            text::digit(hours % 10),
            ':',
            text::digit(minutes / 10),
            text::digit(minutes % 10),
            ':',
            text::digit(seconds / 10),
            text::digit(seconds % 10),
        ],
{
    lemma_two_digits(hours);
    lemma_two_digits(minutes);
    lemma_two_digits(seconds);
    reveal_strlit(":");
    assert(colons(hours, minutes, seconds) =~= seq![
        text::digit(hours / 10),
        text::digit(hours % 10),
        ':',
        text::digit(minutes / 10),
        text::digit(minutes % 10),
        ':',
        text::digit(seconds / 10),
        text::digit(seconds % 10),
    ]);
}

/// A time of day has the shape `HH:MM:SS`.
pub proof fn law_time_of_day_has_eight_characters(secs: nat)
    ensures
        time_of_day(secs).len() == 8,
        time_of_day(secs)[2] == ':',
        time_of_day(secs)[5] == ':',
{
    lemma_colons((secs / 3600) % 24, (secs / 60) % 60, secs % 60);
}

/// The time of day comes round every day.
pub proof fn law_time_of_day_repeats_daily(secs: nat)
    ensures
        time_of_day(secs + 86400) == time_of_day(secs),
{
    assert((secs + 86400) / 3600 == secs / 3600 + 24);
    assert((secs + 86400) / 60 == secs / 60 + 1440);
    assert((secs + 86400) % 60 == secs % 60);
}

/// Within a day different seconds have different times of day.
pub proof fn law_time_of_day_tells_the_second(a: nat, b: nat)
    requires
        a < 86400,
        b < 86400,
        time_of_day(a) == time_of_day(b),
    ensures
        a == b,
{
    let (ha, ma, sa) = ((a / 3600) % 24, (a / 60) % 60, a % 60);
    let (hb, mb, sb) = ((b / 3600) % 24, (b / 60) % 60, b % 60);
    lemma_colons(ha, ma, sa);
    lemma_colons(hb, mb, sb);
    let (x, y) = (time_of_day(a), time_of_day(b));
    assert(x[0] == y[0] && x[1] == y[1] && x[3] == y[3] && x[4] == y[4] && x[6] == y[6] && x[7]
        == y[7]);
    lemma_digits_differ(ha / 10, hb / 10);
    lemma_digits_differ(ha % 10, hb % 10);
    lemma_digits_differ(ma / 10, mb / 10);
    lemma_digits_differ(ma % 10, mb % 10);
    lemma_digits_differ(sa / 10, sb / 10);
    lemma_digits_differ(sa % 10, sb % 10);
    assert(a == 3600 * ha + 60 * ma + sa);
    assert(b == 3600 * hb + 60 * mb + sb);
}

/// A span of less than a day is written like the time of day that follows
/// midnight by it.
pub proof fn law_short_span_is_a_time_of_day(secs: nat)
    requires
        secs < 86400,
    ensures
        span(secs) == time_of_day(secs),
{
    assert((secs % 3600) / 60 == (secs / 60) % 60);
}

/// On any day, the time of day is written as its hours, minutes and seconds, two
/// digits each.
pub proof fn law_time_of_day_by_parts(day: nat, hour: nat, minute: nat, second: nat)
    requires
        hour < 24,
        minute < 60,
        second < 60,
    ensures
        time_of_day(86400 * day + 3600 * hour + 60 * minute + second) == seq![
            (48 + hour / 10) as char,
            (48 + hour % 10) as char,
            ':',
            (48 + minute / 10) as char,
            (48 + minute % 10) as char,
            ':',
            (48 + second / 10) as char,
            (48 + second % 10) as char,
        ],
{
    let secs = 86400 * day + 3600 * hour + 60 * minute + second;
    assert(secs / 3600 == 24 * day + hour);
    assert(secs / 60 == 60 * (24 * day + hour) + minute);
    assert(secs % 60 == second);
    assert((24 * day + hour) % 24 == hour);
    lemma_colons(hour, minute, second);
}

/// A span is written as its hours, however many, its minutes and its seconds.
pub proof fn law_span_by_parts(hours: nat, minutes: nat, seconds: nat)
    requires
        minutes < 60,
        seconds < 60,
    ensures
        span(3600 * hours + 60 * minutes + seconds) == text::two_digits(hours) + seq![':']
            + text::two_digits(minutes) + seq![':'] + text::two_digits(seconds),
{
    let secs = 3600 * hours + 60 * minutes + seconds;
    assert(secs / 3600 == hours);
    assert((secs % 3600) / 60 == minutes);
    assert(secs % 60 == seconds);
    reveal_strlit(":");
    assert(":"@ =~= seq![':']);
}

} // verus!
