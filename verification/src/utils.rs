//! Small formatting helpers used by the progress display.

use vstd::prelude::*;
use chrono::{Datelike, Timelike};
use crate::constants::AVERAGE_DELAY_SECS;
use crate::text::{decimal, digit_char, digit_to_char, push_char, push_decimal};

verus! {

/// The text of an ETA for `remaining` pending accounts at the average delay:
/// hours and minutes from an hour on, minutes above a minute, else seconds.
pub open spec fn eta_text(remaining: u32) -> Seq<char> {
    let secs = remaining as nat * 45;
    if secs >= 3600 {
        decimal(secs / 3600) + seq!['h', ' '] + decimal((secs % 3600) / 60) + seq!['m']
    } else if secs > 60 {
        decimal(secs / 60) + seq!['m']
    } else {
        decimal(secs) + seq!['s']
    }
}

/// Calculate the ETA string for `remaining` pending accounts.
pub fn calculate_eta(remaining: u32) -> (s: String)
    ensures
        s@ == eta_text(remaining),
{
    let eta_seconds: u64 = remaining as u64 * AVERAGE_DELAY_SECS;
    let mut s = String::new();
    if eta_seconds >= 3600 {
        push_decimal(&mut s, eta_seconds / 3600);
        push_char(&mut s, 'h');
        push_char(&mut s, ' ');
        push_decimal(&mut s, (eta_seconds % 3600) / 60);
        push_char(&mut s, 'm');
    } else if eta_seconds > 60 {
        push_decimal(&mut s, eta_seconds / 60);
        push_char(&mut s, 'm');
    } else {
        push_decimal(&mut s, eta_seconds);
        push_char(&mut s, 's');
    }
    assert(s@ =~= eta_text(remaining));
    s
}


/// Whether year, month, day, hour, minute, second and nanosecond lie in the
/// ranges chrono gives them (a nanosecond count past one second marks a leap
/// second).
pub open spec fn date_time_fields(f: (i32, u32, u32, u32, u32, u32, u32)) -> bool {
    &&& -262_143 <= f.0 <= 262_142
    &&& 1 <= f.1 <= 12
    &&& 1 <= f.2 <= 31
    &&& f.3 < 24
    &&& f.4 < 60
    &&& f.5 < 60
    &&& f.6 < 2_000_000_000
}

/// The local date and time now, as year, month, day, hour, minute, second
/// and nanosecond (`chrono::Local::now` and its `Datelike`/`Timelike`
/// accessors). The ranges are those chrono documents; the values are the
/// clock's and the time zone's.
#[verifier::external_body]
fn local_now_fields() -> (f: (i32, u32, u32, u32, u32, u32, u32))
    ensures
        date_time_fields(f),
{
    let t = chrono::Local::now();
    (t.year(), t.month(), t.day(), t.hour(), t.minute(), t.second(), t.nanosecond())
}

/// Two decimal digits.
pub open spec fn two_digits(n: nat) -> Seq<char> {
    seq![digit_char(n / 10), digit_char(n % 10)]
}

/// A number zero-padded to at least four digits.
pub open spec fn four_digits(n: nat) -> Seq<char> {
    if n < 10000 {
        seq![digit_char(n / 1000), digit_char((n / 100) % 10), digit_char((n / 10) % 10), digit_char(n % 10)]
    } else {
        decimal(n)
    }
}

/// How chrono's `%Y` writes a year: four digits within 0 to 9999, else with a
/// sign.
pub open spec fn year_text(y: int) -> Seq<char> {
    if 0 <= y <= 9999 {
        four_digits(y as nat)
    } else if y > 9999 {
        seq!['+'] + decimal(y as nat)
    } else {
        seq!['-'] + four_digits((0 - y) as nat)
    }
}

/// `YYYY-MM-DD HH:MM:SS` for the given fields; a leap second (nanoseconds
/// past one second) shows as second 60.
pub open spec fn timestamp_text(f: (i32, u32, u32, u32, u32, u32, u32)) -> Seq<char> {
    year_text(f.0 as int) + seq!['-'] + two_digits(f.1 as nat) + seq!['-'] + two_digits(f.2 as nat)
        + seq![' '] + two_digits(f.3 as nat) + seq![':'] + two_digits(f.4 as nat) + seq![':']
        + two_digits((f.5 + f.6 / 1_000_000_000) as nat)
}

fn push_digit(s: &mut String, d: u64)
    requires
        d < 10,
    ensures
        final(s)@ == old(s)@.push(digit_char(d as nat)),
{
    push_char(s, digit_to_char(d));
}

fn push_two(s: &mut String, n: u64)
    requires
        n < 100,
    ensures
        final(s)@ == old(s)@ + two_digits(n as nat),
{
    push_digit(s, n / 10);
    push_digit(s, n % 10);
    assert(s@ =~= old(s)@ + two_digits(n as nat));
}

fn push_four(s: &mut String, n: u64)
    ensures
        final(s)@ == old(s)@ + four_digits(n as nat),
{
    if n < 10000 {
        push_digit(s, n / 1000);
        push_digit(s, (n / 100) % 10);
        push_digit(s, (n / 10) % 10);
        push_digit(s, n % 10);
        assert(s@ =~= old(s)@ + four_digits(n as nat));
    } else {
        push_decimal(s, n);
    }
}

/// The text of the given date and time fields.
pub fn format_fields(f: (i32, u32, u32, u32, u32, u32, u32)) -> (s: String)
    requires
        f.1 < 100,
        f.2 < 100,
        f.3 < 100,
        f.4 < 100,
        f.5 < 60,
        f.6 < 2_000_000_000,
    ensures
        s@ == timestamp_text(f),
{
    let mut s = String::new();
    let y = f.0;
    if 0 <= y && y <= 9999 {
        push_four(&mut s, y as u64);
    } else if y > 9999 {
        push_char(&mut s, '+');
        push_decimal(&mut s, y as u64);
    } else {
        push_char(&mut s, '-');
        let m: u64 = (0i64 - y as i64) as u64;
        push_four(&mut s, m);
    }
    assert(s@ =~= year_text(f.0 as int));
    push_char(&mut s, '-');
    push_two(&mut s, f.1 as u64);
    push_char(&mut s, '-');
    push_two(&mut s, f.2 as u64);
    push_char(&mut s, ' ');
    push_two(&mut s, f.3 as u64);
    push_char(&mut s, ':');
    push_two(&mut s, f.4 as u64);
    push_char(&mut s, ':');
    push_two(&mut s, (f.5 + f.6 / 1_000_000_000) as u64);
    assert(s@ =~= timestamp_text(f));
    s
}

/// The local date and time now, as `YYYY-MM-DD HH:MM:SS`.
pub fn format_timestamp() -> (s: String)
    ensures
        exists|f: (i32, u32, u32, u32, u32, u32, u32)| date_time_fields(f) && s@ == timestamp_text(f),
{
    let f = local_now_fields();
    format_fields(f)
}

} // verus!
