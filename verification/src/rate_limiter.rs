//! Daily, hourly and per-session limits on unfollows, with the calendar
//! arithmetic that decides when a count starts over.
//!
//! Times are UTC Unix timestamps in whole seconds. A new day starts at UTC
//! midnight, a new hour on the UTC hour.

use vstd::prelude::*;
use rand::Rng;
use crate::settings::{
    agrees_with, has_key, holds_written, lemma_agrees_drop_last, lemma_has_key_step,
    lemma_written_key_present, rows_view, Settings,
};
use crate::text::{
    decimal, decimal_string, i64_string, lemma_parse_i64_signed_decimal, lemma_parse_u32_decimal,
    parse_i64, parse_i64_spec, parse_u32, parse_u32_spec, same_text, signed_decimal,
};

verus! {

/// What the limiter allows right now.
pub enum LimitStatus {
    /// Nothing stands in the way of the next unfollow.
    Proceed,
    /// Minutes to wait until the next hour starts.
    HourlyWait(i64),
    SessionBreak,
    DailyStop,
}

/// Counters and limits for unfollows.
pub struct RateLimiter {
    pub daily_count: u32,
    pub hourly_count: u32,
    pub session_count: u32,
    pub daily_limit: u32,
    pub hourly_limit: u32,
    pub session_limit: u32,
    pub min_delay: u32,
    pub max_delay: u32,
    /// When the current hour's count started (Unix seconds, UTC).
    pub hour_start: i64,
    /// When the current day's count started (Unix seconds, UTC).
    pub day_start: i64,
}

/// The UTC calendar day of a timestamp, as a day number.
pub open spec fn day_of(ts: int) -> int {
    ts / 86400
}

/// The UTC hour of the day (0 to 23) of a timestamp.
pub open spec fn hour_of(ts: int) -> int {
    (ts % 86400) / 3600
}

/// The minute of the hour (0 to 59) of a timestamp.
pub open spec fn minute_of(ts: int) -> int {
    (ts % 3600) / 60
}

/// The current time as a Unix timestamp in seconds (`chrono::Utc::now`,
/// then `DateTime::timestamp`). The value is the clock's; the contract claims
/// only that it lies in chrono's date range, since `Utc::now` builds its
/// result with `DateTime::from_timestamp` (unwrapped) and `timestamp` gives
/// those seconds back.
#[verifier::external_body]
fn utc_now_timestamp() -> (t: i64)
    ensures
        chrono_accepts_timestamp(t as int),
{
    chrono::Utc::now().timestamp()
}

/// Whether `chrono::DateTime::from_timestamp` accepts `secs` whole seconds:
/// whether they fall on a day of chrono's date range, January 1 of year
/// -262143 to December 31 of year 262142 (days -96465292 to 95026236 counted
/// from 1970-01-01).
pub open spec fn chrono_accepts_timestamp(secs: int) -> bool {
    -96_465_292 <= day_of(secs) <= 95_026_236
}

/// Whether `chrono::DateTime::from_timestamp(secs, 0)` gives a date-time.
/// The contract claims that it does exactly for the days of chrono's date
/// range (`NaiveDate::MIN` to `NaiveDate::MAX`); the time of day always fits.
#[verifier::external_body]
fn timestamp_is_valid(secs: i64) -> (r: bool)
    ensures
        r == chrono_accepts_timestamp(secs as int),
{
    chrono::DateTime::from_timestamp(secs, 0).is_some()
}

/// A whole number of seconds chosen uniformly in `lo..=hi`
/// (`rand::thread_rng().gen_range(lo..=hi)`, which panics on an empty range).
#[verifier::external_body]
fn random_between(lo: u32, hi: u32) -> (r: u32)
    requires
        lo <= hi,
    ensures
        lo <= r <= hi,
{
    rand::thread_rng().gen_range(lo..=hi)
}

fn day_number(ts: i64) -> (d: i64)
    ensures
        d == day_of(ts as int),
{
    match ts.checked_div_euclid(86400) {
        Some(d) => d,
        None => 0,
    }
}

fn seconds_into_day(ts: i64) -> (s: i64)
    ensures
        s == ts as int % 86400,
        0 <= s < 86400,
{
    match ts.checked_rem_euclid(86400) {
        Some(s) => s,
        None => 0,
    }
}

fn hour_number(ts: i64) -> (h: i64)
    ensures
        h == hour_of(ts as int),
        0 <= h < 24,
{
    seconds_into_day(ts) / 3600
}

fn minute_number(ts: i64) -> (m: i64)
    ensures
        m == minute_of(ts as int),
        0 <= m < 60,
{
    match ts.checked_rem_euclid(3600) {
        Some(s) => s / 60,
        None => 0,
    }
}

impl RateLimiter {
    /// Whether both period starts are dates chrono can represent, as every
    /// start taken from the clock is.
    pub open spec fn periods_valid(self) -> bool {
        chrono_accepts_timestamp(self.hour_start as int) && chrono_accepts_timestamp(self.day_start as int)
    }

    /// Whether `now` falls on another UTC day than the day's count started.
    pub open spec fn spec_is_new_day(&self, now: int) -> bool {
        day_of(now) != day_of(self.day_start as int)
    }

    /// Whether `now` falls in another hour than the hour's count started.
    pub open spec fn spec_is_new_hour(&self, now: int) -> bool {
        hour_of(now) != hour_of(self.hour_start as int) || self.spec_is_new_day(now)
    }

    /// The limiter after the daily counters start over at `now`.
    pub open spec fn after_daily_reset(self, now: int) -> RateLimiter {
        RateLimiter { daily_count: 0, hourly_count: 0, session_count: 0, day_start: now as i64, ..self }
    }

    /// The limiter after the hourly counter starts over at `now`.
    pub open spec fn after_hourly_reset(self, now: int) -> RateLimiter {
        RateLimiter { hourly_count: 0, hour_start: now as i64, ..self }
    }

    /// The limiter with the counters that `now` has outdated started over.
    pub open spec fn rolled_over(self, now: int) -> RateLimiter {
        let d = if self.spec_is_new_day(now) { self.after_daily_reset(now) } else { self };
        if d.spec_is_new_hour(now) { d.after_hourly_reset(now) } else { d }
    }

    /// What the counters allow at `now`: the daily limit first, then the
    /// hourly one (waiting until the next hour), then the session one.
    pub open spec fn status_at(self, now: int) -> LimitStatus {
        if self.daily_count >= self.daily_limit {
            LimitStatus::DailyStop
        } else if self.hourly_count >= self.hourly_limit {
            LimitStatus::HourlyWait((60 - minute_of(now)) as i64)
        } else if self.session_count >= self.session_limit {
            LimitStatus::SessionBreak
        } else {
            LimitStatus::Proceed
        }
    }

    /// A limiter with zero counts, the given limits, and both periods
    /// starting at `now`.
    pub open spec fn fresh(daily_limit: u32, hourly_limit: u32, session_limit: u32, min_delay: u32, max_delay: u32, now: i64) -> RateLimiter {
        RateLimiter {
            daily_count: 0,
            hourly_count: 0,
            session_count: 0,
            daily_limit,
            hourly_limit,
            session_limit,
            min_delay,
            max_delay,
            hour_start: now,
            day_start: now,
        }
    }

    /// A limiter with the given limits whose periods start at `now`.
    pub fn new_at(
        daily_limit: u32,
        hourly_limit: u32,
        session_limit: u32,
        min_delay: u32,
        max_delay: u32,
        now: i64,
    ) -> (r: RateLimiter)
        ensures
            r == RateLimiter::fresh(daily_limit, hourly_limit, session_limit, min_delay, max_delay, now),
    {
        RateLimiter {
            daily_count: 0,
            hourly_count: 0,
            session_count: 0,
            daily_limit,
            hourly_limit,
            session_limit,
            min_delay,
            max_delay,
            hour_start: now,
            day_start: now,
        }
    }

    /// A limiter with the given limits whose periods start now.
    pub fn new(
        daily_limit: u32,
        hourly_limit: u32,
        session_limit: u32,
        min_delay: u32,
        max_delay: u32,
    ) -> (r: RateLimiter)
        ensures
            r == RateLimiter::fresh(daily_limit, hourly_limit, session_limit, min_delay, max_delay, r.day_start),
            r.periods_valid(),
    {
        let now = utc_now_timestamp();
        RateLimiter::new_at(daily_limit, hourly_limit, session_limit, min_delay, max_delay, now)
    }

    /// Whether `now` falls on another UTC day than the day's count started.
    pub fn is_new_day(&self, now: i64) -> (r: bool)
        ensures
            r == self.spec_is_new_day(now as int),
    {
        day_number(now) != day_number(self.day_start)
    }

    /// Whether `now` falls in another hour than the hour's count started.
    pub fn is_new_hour(&self, now: i64) -> (r: bool)
        ensures
            r == self.spec_is_new_hour(now as int),
    {
        hour_number(now) != hour_number(self.hour_start) || self.is_new_day(now)
    }

    /// Minutes from `now` until the next hour starts (1 to 60).
    pub fn minutes_until_next_hour(&self, now: i64) -> (m: i64)
        ensures
            m == 60 - minute_of(now as int),
            1 <= m <= 60,
    {
        60 - minute_number(now)
    }

    /// Start the daily counters over at `now`.
    pub fn reset_daily_at(&mut self, now: i64)
        ensures
            *final(self) == old(self).after_daily_reset(now as int),
    {
        self.daily_count = 0;
        self.hourly_count = 0;
        self.session_count = 0;
        self.day_start = now;
    }

    /// Start the hourly counter over at `now`.
    pub fn reset_hourly_at(&mut self, now: i64)
        ensures
            *final(self) == old(self).after_hourly_reset(now as int),
    {
        self.hourly_count = 0;
        self.hour_start = now;
    }

    /// Start the daily counters over, now.
    pub fn reset_daily(&mut self)
        ensures
            *final(self) == old(self).after_daily_reset(final(self).day_start as int),
            chrono_accepts_timestamp(final(self).day_start as int),
    {
        let now = utc_now_timestamp();
        self.reset_daily_at(now);
    }

    /// Start the hourly counter over, now.
    pub fn reset_hourly(&mut self)
        ensures
            *final(self) == old(self).after_hourly_reset(final(self).hour_start as int),
            chrono_accepts_timestamp(final(self).hour_start as int),
    {
        let now = utc_now_timestamp();
        self.reset_hourly_at(now);
    }

    /// Start the session counter over.
    pub fn reset_session(&mut self)
        ensures
            *final(self) == (RateLimiter { session_count: 0, ..*old(self) }),
    {
        self.session_count = 0;
    }

    /// Count one unfollow against every limit.
    pub fn increment(&mut self)
        requires
            old(self).daily_count < u32::MAX,
            old(self).hourly_count < u32::MAX,
            old(self).session_count < u32::MAX,
        ensures
            *final(self) == (RateLimiter {
                daily_count: (old(self).daily_count + 1) as u32,
                hourly_count: (old(self).hourly_count + 1) as u32,
                session_count: (old(self).session_count + 1) as u32,
                ..*old(self)
            }),
    {
        self.daily_count += 1;
        self.hourly_count += 1;
        self.session_count += 1;
    }

    /// Start outdated counters over and report what the limits allow at `now`.
    pub fn check_limits_at(&mut self, now: i64) -> (s: LimitStatus)
        ensures
            *final(self) == old(self).rolled_over(now as int),
            s == final(self).status_at(now as int),
    {
        if self.is_new_day(now) {
            self.reset_daily_at(now);
        }
        if self.is_new_hour(now) {
            self.reset_hourly_at(now);
        }
        if self.daily_count >= self.daily_limit {
            return LimitStatus::DailyStop;
        }
        if self.hourly_count >= self.hourly_limit {
            return LimitStatus::HourlyWait(self.minutes_until_next_hour(now));
        }
        if self.session_count >= self.session_limit {
            return LimitStatus::SessionBreak;
        }
        LimitStatus::Proceed
    }

    /// Start outdated counters over and report what the limits allow now.
    pub fn check_limits(&mut self) -> (s: LimitStatus)
        ensures
            (exists|now: int| {
                &&& chrono_accepts_timestamp(now)
                &&& *final(self) == old(self).rolled_over(now)
                &&& s == final(self).status_at(now)
            }),
            old(self).periods_valid() ==> final(self).periods_valid(),
    {
        let now = utc_now_timestamp();
        self.check_limits_at(now)
    }

    /// A delay in whole seconds, uniform between the minimum and maximum.
    pub fn get_random_delay(&self) -> (secs: u64)
        requires
            self.min_delay <= self.max_delay,
        ensures
            self.min_delay <= secs <= self.max_delay,
    {
        random_between(self.min_delay, self.max_delay) as u64
    }
}


impl Default for RateLimiter {
    /// The default limits (50 a day, 30 an hour, 25 a session, 30 to 60
    /// seconds between unfollows), with both periods starting now.
    fn default() -> (r: RateLimiter)
        ensures
            r == RateLimiter::fresh(50, 30, 25, 30, 60, r.day_start),
            r.periods_valid(),
    {
        RateLimiter::new(50, 30, 25, 30, 60)
    }
}

/// The limiter loaded from stored rows: a fresh one with the limits of
/// `settings`, created at `created`, with the rows applied in order, then
/// brought up to `now`.
pub open spec fn loaded(settings: Settings, rows: Seq<(Seq<char>, Seq<char>)>, created: i64, now: int) -> RateLimiter {
    RateLimiter::fresh(
        settings.daily_limit,
        settings.hourly_limit,
        settings.session_limit,
        settings.min_delay,
        settings.max_delay,
        created,
    ).restored(rows).caught_up(now)
}

/// A stored count, or zero when it does not parse.
pub open spec fn stored_count(value: Seq<char>) -> u32 {
    match parse_u32_spec(value) {
        Some(v) => v,
        None => 0,
    }
}

/// A stored timestamp, when it parses and chrono accepts it.
pub open spec fn stored_timestamp(value: Seq<char>) -> Option<i64> {
    match parse_i64_spec(value) {
        Some(ts) => if chrono_accepts_timestamp(ts as int) { Some(ts) } else { None },
        None => None,
    }
}

impl RateLimiter {
    /// The effect of one stored row; unknown keys and unreadable timestamps
    /// leave the limiter as it is.
    pub open spec fn with_stored(self, key: Seq<char>, value: Seq<char>) -> RateLimiter {
        if key == "daily_count"@ {
            RateLimiter { daily_count: stored_count(value), ..self }
        } else if key == "hourly_count"@ {
            RateLimiter { hourly_count: stored_count(value), ..self }
        } else if key == "session_count"@ {
            RateLimiter { session_count: stored_count(value), ..self }
        } else if key == "hour_start"@ {
            match stored_timestamp(value) {
                Some(ts) => RateLimiter { hour_start: ts, ..self },
                None => self,
            }
        } else if key == "day_start"@ {
            match stored_timestamp(value) {
                Some(ts) => RateLimiter { day_start: ts, ..self },
                None => self,
            }
        } else {
            self
        }
    }

    /// The limiter with every stored row applied in order.
    pub open spec fn restored(self, rows: Seq<(Seq<char>, Seq<char>)>) -> RateLimiter
        decreases rows.len(),
    {
        if rows.len() == 0 {
            self
        } else {
            let r = rows.last();
            self.restored(rows.drop_last()).with_stored(r.0, r.1)
        }
    }

    /// The limiter brought up to `now` after a restart: a new day starts the
    /// daily counters over, otherwise a new hour starts the hourly one over.
    pub open spec fn caught_up(self, now: int) -> RateLimiter {
        if self.spec_is_new_day(now) {
            self.after_daily_reset(now)
        } else if self.spec_is_new_hour(now) {
            self.after_hourly_reset(now)
        } else {
            self
        }
    }

    fn stored_timestamp_of(value: &String) -> (r: Option<i64>)
        ensures
            r == stored_timestamp(value@),
    {
        match parse_i64(value.as_str()) {
            Some(ts) => if timestamp_is_valid(ts) { Some(ts) } else { None },
            None => None,
        }
    }

    /// Apply stored `(key, value)` rows to the limiter, in order.
    pub fn restore_from_rows(&mut self, rows: &Vec<(String, String)>)
        ensures
            *final(self) == old(self).restored(rows_view(rows@)),
    {
        let ghost start = *self;
        let mut i: usize = 0;
        while i < rows.len()
            invariant
                i <= rows@.len(),
                *self == start.restored(rows_view(rows@.take(i as int))),
            decreases rows@.len() - i,
        {
            assert(rows_view(rows@.take(i + 1)).drop_last() =~= rows_view(rows@.take(i as int)));
            let key = rows[i].0.as_str();
            let value = &rows[i].1;
            if same_text(key, "daily_count") {
                self.daily_count = match parse_u32(value.as_str()) { Some(v) => v, None => 0 };
            } else if same_text(key, "hourly_count") {
                self.hourly_count = match parse_u32(value.as_str()) { Some(v) => v, None => 0 };
            } else if same_text(key, "session_count") {
                self.session_count = match parse_u32(value.as_str()) { Some(v) => v, None => 0 };
            } else if same_text(key, "hour_start") {
                if let Some(ts) = RateLimiter::stored_timestamp_of(value) {
                    self.hour_start = ts;
                }
            } else if same_text(key, "day_start") {
                if let Some(ts) = RateLimiter::stored_timestamp_of(value) {
                    self.day_start = ts;
                }
            }
            i += 1;
        }
        assert(rows@.take(rows@.len() as int) =~= rows@);
    }

    /// Bring a restored limiter up to `now`.
    pub fn catch_up_at(&mut self, now: i64)
        ensures
            *final(self) == old(self).caught_up(now as int),
    {
        if self.is_new_day(now) {
            self.reset_daily_at(now);
        } else if self.is_new_hour(now) {
            self.reset_hourly_at(now);
        }
    }

    /// A limiter with the limits of `settings` created at `created`, the
    /// counters and period starts of the stored rows, brought up to `now`.
    pub fn load_from_rows_at(settings: &Settings, rows: &Vec<(String, String)>, created: i64, now: i64) -> (r: RateLimiter)
        ensures
            r == loaded(*settings, rows_view(rows@), created, now as int),
            chrono_accepts_timestamp(created as int) && chrono_accepts_timestamp(now as int) ==> r.periods_valid(),
    {
        let mut limiter = RateLimiter::new_at(
            settings.daily_limit,
            settings.hourly_limit,
            settings.session_limit,
            settings.min_delay,
            settings.max_delay,
            created,
        );
        limiter.restore_from_rows(rows);
        proof {
            if chrono_accepts_timestamp(created as int) {
                lemma_restored_keeps_valid(
                    RateLimiter::fresh(
                        settings.daily_limit,
                        settings.hourly_limit,
                        settings.session_limit,
                        settings.min_delay,
                        settings.max_delay,
                        created,
                    ),
                    rows_view(rows@),
                );
            }
        }
        limiter.catch_up_at(now);
        limiter
    }

    /// A limiter with the limits of `settings` and the counters and period
    /// starts of the stored rows, brought up to the current time.
    pub fn load_from_rows(settings: &Settings, rows: &Vec<(String, String)>) -> (r: RateLimiter)
        ensures
            exists|created: i64, now: i64| {
                &&& chrono_accepts_timestamp(created as int)
                &&& chrono_accepts_timestamp(now as int)
                &&& r == loaded(*settings, rows_view(rows@), created, now as int)
            },
            r.periods_valid(),
    {
        let created = utc_now_timestamp();
        let now = utc_now_timestamp();
        RateLimiter::load_from_rows_at(settings, rows, created, now)
    }

    /// The rows that store the counters and period starts.
    pub open spec fn stored_rows(self) -> Seq<(Seq<char>, Seq<char>)> {
        seq![
            ("daily_count"@, decimal(self.daily_count as nat)),
            ("hourly_count"@, decimal(self.hourly_count as nat)),
            ("session_count"@, decimal(self.session_count as nat)),
            ("hour_start"@, signed_decimal(self.hour_start as int)),
            ("day_start"@, signed_decimal(self.day_start as int)),
        ]
    }

    /// The `(key, value)` rows that store the counters and period starts.
    pub fn rate_limit_pairs(&self) -> (pairs: Vec<(String, String)>)
        ensures
            rows_view(pairs@) == self.stored_rows(),
    {
        let mut pairs: Vec<(String, String)> = Vec::new();
        pairs.push(("daily_count".to_owned(), decimal_string(self.daily_count as u64)));
        pairs.push(("hourly_count".to_owned(), decimal_string(self.hourly_count as u64)));
        pairs.push(("session_count".to_owned(), decimal_string(self.session_count as u64)));
        pairs.push(("hour_start".to_owned(), i64_string(self.hour_start)));
        pairs.push(("day_start".to_owned(), i64_string(self.day_start)));
        assert(rows_view(pairs@) =~= seq![
            ("daily_count"@, decimal(self.daily_count as nat)),
            ("hourly_count"@, decimal(self.hourly_count as nat)),
            ("session_count"@, decimal(self.session_count as nat)),
            ("hour_start"@, signed_decimal(self.hour_start as int)),
            ("day_start"@, signed_decimal(self.day_start as int)),
        ]);
        pairs
    }
}


proof fn lemma_restored_keeps_valid(base: RateLimiter, rows: Seq<(Seq<char>, Seq<char>)>)
    requires
        base.periods_valid(),
    ensures
        base.restored(rows).periods_valid(),
    decreases rows.len(),
{
    if rows.len() > 0 {
        lemma_restored_keeps_valid(base, rows.drop_last());
    }
}

/// When the limits allow an unfollow, every counter is below its limit, so
/// counting the unfollow keeps each counter within its limit.
pub proof fn lemma_proceed_leaves_room(l: RateLimiter, now: int)
    ensures
        ({
            let r = l.rolled_over(now);
            r.status_at(now) is Proceed ==> {
                &&& r.daily_count < r.daily_limit
                &&& r.hourly_count < r.hourly_limit
                &&& r.session_count < r.session_limit
            }
        }),
{
}

/// The wait at the hourly limit lasts until the next hour: one to sixty
/// minutes.
pub proof fn lemma_hourly_wait_bounds(l: RateLimiter, now: int)
    ensures
        l.status_at(now) matches LimitStatus::HourlyWait(m) ==> 1 <= m <= 60,
{
}

/// Checking the limits twice at the same moment starts nothing over the
/// second time.
pub proof fn lemma_rolled_over_idempotent(l: RateLimiter, now: int)
    requires
        i64::MIN <= now <= i64::MAX,
    ensures
        l.rolled_over(now).rolled_over(now) == l.rolled_over(now),
{
}

proof fn lemma_limiter_keys_distinct()
    ensures
        "hourly_count"@ != "daily_count"@,
        "session_count"@ != "daily_count"@,
        "session_count"@ != "hourly_count"@,
        "hour_start"@ != "daily_count"@,
        "hour_start"@ != "hourly_count"@,
        "hour_start"@ != "session_count"@,
        "day_start"@ != "daily_count"@,
        "day_start"@ != "hourly_count"@,
        "day_start"@ != "session_count"@,
        "day_start"@ != "hour_start"@,
{
    reveal_strlit("daily_count");
    reveal_strlit("hourly_count");
    reveal_strlit("session_count");
    reveal_strlit("hour_start");
    reveal_strlit("day_start");
    assert("hourly_count"@[0] != "daily_count"@[0]);
    assert("session_count"@[0] != "daily_count"@[0]);
    assert("session_count"@[0] != "hourly_count"@[0]);
    assert("hour_start"@[0] != "daily_count"@[0]);
    assert("hour_start"@[4] != "hourly_count"@[4]);
    assert("hour_start"@[0] != "session_count"@[0]);
    assert("day_start"@[2] != "daily_count"@[2]);
    assert("day_start"@[0] != "hourly_count"@[0]);
    assert("day_start"@[0] != "session_count"@[0]);
    assert("day_start"@[0] != "hour_start"@[0]);
}

proof fn lemma_restored_written(base: RateLimiter, l: RateLimiter, rows: Seq<(Seq<char>, Seq<char>)>)
    requires
        chrono_accepts_timestamp(l.hour_start as int),
        chrono_accepts_timestamp(l.day_start as int),
        agrees_with(rows, l.stored_rows()),
    ensures
        base.restored(rows) == (RateLimiter {
            daily_count: if has_key(rows, "daily_count"@) { l.daily_count } else { base.daily_count },
            hourly_count: if has_key(rows, "hourly_count"@) { l.hourly_count } else { base.hourly_count },
            session_count: if has_key(rows, "session_count"@) { l.session_count } else { base.session_count },
            hour_start: if has_key(rows, "hour_start"@) { l.hour_start } else { base.hour_start },
            day_start: if has_key(rows, "day_start"@) { l.day_start } else { base.day_start },
            ..base
        }),
    decreases rows.len(),
{
    let w = l.stored_rows();
    if rows.len() > 0 {
        let n = rows.len() - 1;
        lemma_agrees_drop_last(rows, w);
        lemma_restored_written(base, l, rows.drop_last());
        lemma_limiter_keys_distinct();
        lemma_has_key_step(rows, "daily_count"@);
        lemma_has_key_step(rows, "hourly_count"@);
        lemma_has_key_step(rows, "session_count"@);
        lemma_has_key_step(rows, "hour_start"@);
        lemma_has_key_step(rows, "day_start"@);
        let r = rows.last();
        assert(rows[n] == r);
        if r.0 == "daily_count"@ {
            assert(rows[n].0 == w[0].0);
            lemma_parse_u32_decimal(l.daily_count);
        } else if r.0 == "hourly_count"@ {
            assert(rows[n].0 == w[1].0);
            lemma_parse_u32_decimal(l.hourly_count);
        } else if r.0 == "session_count"@ {
            assert(rows[n].0 == w[2].0);
            lemma_parse_u32_decimal(l.session_count);
        } else if r.0 == "hour_start"@ {
            assert(rows[n].0 == w[3].0);
            lemma_parse_i64_signed_decimal(l.hour_start);
        } else if r.0 == "day_start"@ {
            assert(rows[n].0 == w[4].0);
            lemma_parse_i64_signed_decimal(l.day_start);
        }
    }
}

/// Reading back the stored rows of a limiter restores its counters and
/// period starts (for period starts chrono can represent, as every limiter
/// whose starts came from the clock has), whatever limiter
/// they are applied to, whatever order the rows come back in and whatever
/// rows the table holds under other keys.
pub proof fn lemma_restore_roundtrip(base: RateLimiter, l: RateLimiter, rows: Seq<(Seq<char>, Seq<char>)>)
    requires
        l.periods_valid(),
        holds_written(rows, l.stored_rows()),
    ensures
        base.restored(rows) == (RateLimiter {
            daily_count: l.daily_count,
            hourly_count: l.hourly_count,
            session_count: l.session_count,
            hour_start: l.hour_start,
            day_start: l.day_start,
            ..base
        }),
{
    lemma_restored_written(base, l, rows);
    let w = l.stored_rows();
    lemma_written_key_present(rows, w, 0);
    lemma_written_key_present(rows, w, 1);
    lemma_written_key_present(rows, w, 2);
    lemma_written_key_present(rows, w, 3);
    lemma_written_key_present(rows, w, 4);
}


/// A limiter stored and loaded again within the same UTC day and hour comes
/// back with its counters and period starts, and with the limits and delays
/// of the settings it is loaded with (for period starts chrono can
/// represent, as every limiter whose starts came from the clock has),
/// whatever order the rows come back in.
pub proof fn lemma_load_roundtrip(
    settings: Settings,
    l: RateLimiter,
    rows: Seq<(Seq<char>, Seq<char>)>,
    created: i64,
    now: int,
)
    requires
        l.periods_valid(),
        holds_written(rows, l.stored_rows()),
        !l.spec_is_new_day(now),
        !l.spec_is_new_hour(now),
    ensures
        loaded(settings, rows, created, now) == (RateLimiter {
            daily_count: l.daily_count,
            hourly_count: l.hourly_count,
            session_count: l.session_count,
            daily_limit: settings.daily_limit,
            hourly_limit: settings.hourly_limit,
            session_limit: settings.session_limit,
            min_delay: settings.min_delay,
            max_delay: settings.max_delay,
            hour_start: l.hour_start,
            day_start: l.day_start,
        }),
{
    let base = RateLimiter::fresh(
        settings.daily_limit,
        settings.hourly_limit,
        settings.session_limit,
        settings.min_delay,
        settings.max_delay,
        created,
    );
    lemma_restore_roundtrip(base, l, rows);
}


/// Catching up after a restart: on another UTC day than the stored day start,
/// the daily, hourly and session counts all start over at zero and the day
/// starts at `now`, nothing else changing; on the same day but in another
/// hour of it, only the hourly count starts over, with the hour starting at
/// `now`; within the same hour nothing changes.
pub proof fn lemma_catch_up_resets(l: RateLimiter, now: int)
    requires
        i64::MIN <= now <= i64::MAX,
    ensures
        now / 86400 != (l.day_start as int) / 86400 ==> l.caught_up(now) == (RateLimiter {
            daily_count: 0,
            hourly_count: 0,
            session_count: 0,
            day_start: now as i64,
            ..l
        }),
        now / 86400 == (l.day_start as int) / 86400 && (now % 86400) / 3600 != ((l.hour_start as int) % 86400) / 3600
            ==> l.caught_up(now) == (RateLimiter { hourly_count: 0, hour_start: now as i64, ..l }),
        now / 86400 == (l.day_start as int) / 86400 && (now % 86400) / 3600 == ((l.hour_start as int) % 86400) / 3600
            ==> l.caught_up(now) == l,
{
}

/// Loading a limiter on another UTC day than the day start its rows restore
/// gives zero daily, hourly and session counts, a day starting at `now`, and
/// the limits and delays of the settings.
pub proof fn lemma_load_on_new_day(settings: Settings, rows: Seq<(Seq<char>, Seq<char>)>, created: i64, now: int)
    requires
        i64::MIN <= now <= i64::MAX,
        now / 86400 != (RateLimiter::fresh(
            settings.daily_limit,
            settings.hourly_limit,
            settings.session_limit,
            settings.min_delay,
            settings.max_delay,
            created,
        ).restored(rows).day_start as int) / 86400,
    ensures
        ({
            let r = loaded(settings, rows, created, now);
            &&& r.daily_count == 0
            &&& r.hourly_count == 0
            &&& r.session_count == 0
            &&& r.day_start == now
            &&& r.daily_limit == settings.daily_limit
            &&& r.hourly_limit == settings.hourly_limit
            &&& r.session_limit == settings.session_limit
            &&& r.min_delay == settings.min_delay
            &&& r.max_delay == settings.max_delay
        }),
{
    let base = RateLimiter::fresh(
        settings.daily_limit,
        settings.hourly_limit,
        settings.session_limit,
        settings.min_delay,
        settings.max_delay,
        created,
    );
    lemma_restored_keeps_limits(base, rows);
    lemma_catch_up_resets(base.restored(rows), now);
}

proof fn lemma_restored_keeps_limits(base: RateLimiter, rows: Seq<(Seq<char>, Seq<char>)>)
    ensures
        ({
            let r = base.restored(rows);
            &&& r.daily_limit == base.daily_limit
            &&& r.hourly_limit == base.hourly_limit
            &&& r.session_limit == base.session_limit
            &&& r.min_delay == base.min_delay
            &&& r.max_delay == base.max_delay
        }),
    decreases rows.len(),
{
    if rows.len() > 0 {
        lemma_restored_keeps_limits(base, rows.drop_last());
    }
}

/// Checking the limits: on another UTC day than the day start, the daily,
/// hourly and session counts all start over at zero and the day starts at
/// `now`; on the same day but in another hour, only the hourly count starts
/// over, with the hour starting at `now`; within the same hour nothing
/// changes. Limits and delays never change.
pub proof fn lemma_roll_over_resets(l: RateLimiter, now: int)
    requires
        i64::MIN <= now <= i64::MAX,
    ensures
        ({
            let r = l.rolled_over(now);
            &&& now / 86400 != (l.day_start as int) / 86400 ==> {
                &&& r.daily_count == 0
                &&& r.hourly_count == 0
                &&& r.session_count == 0
                &&& r.day_start == now
            }
            &&& now / 86400 == (l.day_start as int) / 86400 && (now % 86400) / 3600 != ((l.hour_start as int) % 86400) / 3600
                ==> r == (RateLimiter { hourly_count: 0, hour_start: now as i64, ..l })
            &&& now / 86400 == (l.day_start as int) / 86400 && (now % 86400) / 3600 == ((l.hour_start as int) % 86400) / 3600
                ==> r == l
            &&& r.daily_limit == l.daily_limit
            &&& r.hourly_limit == l.hourly_limit
            &&& r.session_limit == l.session_limit
            &&& r.min_delay == l.min_delay
            &&& r.max_delay == l.max_delay
        }),
{
}

} // verus!
