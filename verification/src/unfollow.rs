//! The unfollow session: starting, pausing, resuming and stopping it, the
//! progress it reports, and the decisions of its work loop.
//!
//! The loop itself (waiting, talking to the web view and the queue store)
//! runs outside; [`unfollow_step`] decides, from the session and limiter
//! state and what just happened, what it does next.

use vstd::prelude::*;
use crate::rate_limiter::{LimitStatus, RateLimiter};
use crate::settings::rows_view;
use crate::state::AppState;
use crate::csv::{is_username_shape, regex_is_match, USERNAME_PATTERN};
use crate::text::{
    chars_of, i64_string, lemma_split_on_nonempty, signed_decimal, split_on, string_of, trim_bounds,
    trim_ws,
};
use crate::utils::{calculate_eta, eta_text};

verus! {

/// The live state of an unfollow session.
pub struct UnfollowState {
    pub running: bool,
    pub paused: bool,
    pub current_position: u32,
    pub total: u32,
    pub session_id: String,
}

impl View for UnfollowState {
    /// Running, paused, position, total, session id.
    type V = (bool, bool, u32, u32, Seq<char>);

    open spec fn view(&self) -> (bool, bool, u32, u32, Seq<char>) {
        (self.running, self.paused, self.current_position, self.total, self.session_id@)
    }
}

impl Default for UnfollowState {
    /// Not running, not paused, nothing done, no session.
    fn default() -> (s: UnfollowState)
        ensures
            s@ == (false, false, 0u32, 0u32, Seq::<char>::empty()),
    {
        UnfollowState { running: false, paused: false, current_position: 0, total: 0, session_id: String::new() }
    }
}

/// Whether `s` has the layout of a random (version 4) UUID as uuid's
/// `Display` writes it: 36 characters, hyphens at 8, 13, 18 and 23, the
/// version digit `4` at 14, one of `8`, `9`, `a`, `b` at 19, and lower-case
/// hexadecimal digits everywhere else.
pub open spec fn is_v4_uuid_text(s: Seq<char>) -> bool {
    &&& s.len() == 36
    &&& forall|i: int| 0 <= i < 36 ==> if i == 8 || i == 13 || i == 18 || i == 23 {
        #[trigger] s[i] == '-'
    } else {
        ('0' <= s[i] <= '9' || 'a' <= s[i] <= 'f')
    }
    &&& s[14] == '4'
    &&& (s[19] == '8' || s[19] == '9' || s[19] == 'a' || s[19] == 'b')
}

/// A fresh random session id (`uuid::Uuid::new_v4`, rendered with
/// `to_string`). The contract claims the layout that `new_v4` (which sets the
/// version and variant bits) and the hyphenated lower-case `Display` give;
/// the other digits are random.
#[verifier::external_body]
fn new_session_id() -> (id: String)
    ensures
        is_v4_uuid_text(id@),
{
    uuid::Uuid::new_v4().to_string()
}

/// The saved form of a session: position, running flag, paused flag, id.
pub open spec fn snapshot_of(v: (bool, bool, u32, u32, Seq<char>)) -> (u32, bool, bool, Seq<char>) {
    (v.2, v.0, v.1, v.4)
}

/// A session after a pause.
pub open spec fn paused_view(v: (bool, bool, u32, u32, Seq<char>)) -> (bool, bool, u32, u32, Seq<char>) {
    (v.0, true, v.2, v.3, v.4)
}

/// Whether `after` is the session resumed from the saved state `saved` with
/// `pending` rows left: running, not paused, at the saved position, with the
/// saved id (or a fresh one when none was saved).
pub open spec fn resumed_from(saved: (u32, bool, bool, Seq<char>), pending: i64, after: (bool, bool, u32, u32, Seq<char>)) -> bool {
    &&& after.0
    &&& !after.1
    &&& after.2 == saved.0
    &&& after.3 == saved.0 + (pending as u32)
    &&& if saved.3.len() == 0 { is_v4_uuid_text(after.4) } else { after.4 == saved.3 }
}

/// Resuming from what a pause saved continues the session: running again, at
/// the position where it paused, with the same total ahead of it as rows are
/// pending, and with its id when it had one.
pub proof fn lemma_pause_then_resume(v: (bool, bool, u32, u32, Seq<char>), pending: i64, after: (bool, bool, u32, u32, Seq<char>))
    requires
        resumed_from(snapshot_of(paused_view(v)), pending, after),
    ensures
        after.0,
        !after.1,
        after.2 == v.2,
        after.3 == v.2 + (pending as u32),
        v.4.len() > 0 ==> after.4 == v.4,
{
}

/// The message for a start or resume with an empty queue.
pub open spec fn no_pending_message() -> Seq<char> {
    "No pending usernames in queue"@
}

impl UnfollowState {
    /// Start a new session over `pending` queued usernames.
    pub fn start(&mut self, pending: i64) -> (r: Result<(), String>)
        ensures
            pending == 0 ==> (r matches Err(e) && e@ == no_pending_message() && *final(self) == *old(self)),
            pending != 0 ==> {
                &&& r is Ok
                &&& final(self).running
                &&& !final(self).paused
                &&& final(self).current_position == 0
                &&& final(self).total == pending as u32
                &&& is_v4_uuid_text(final(self).session_id@)
            },
    {
        if pending == 0 {
            return Err("No pending usernames in queue".to_owned());
        }
        self.running = true;
        self.paused = false;
        self.session_id = new_session_id();
        self.total = pending as u32;
        self.current_position = 0;
        Ok(())
    }

    /// Resume the session saved in `saved` over `pending` queued usernames,
    /// keeping its session id when it has one.
    pub fn resume(&mut self, saved: &AppState, pending: i64) -> (r: Result<(), String>)
        requires
            pending == 0 || saved.current_position + (pending as u32) <= u32::MAX,
        ensures
            pending == 0 ==> (r matches Err(e) && e@ == no_pending_message() && *final(self) == *old(self)),
            pending != 0 ==> r is Ok && resumed_from(saved@, pending, final(self)@),
    {
        if pending == 0 {
            return Err("No pending usernames in queue".to_owned());
        }
        self.running = true;
        self.paused = false;
        self.current_position = saved.current_position;
        self.total = saved.current_position + pending as u32;
        if saved.last_session_id.as_str().is_empty() {
            self.session_id = new_session_id();
        } else {
            self.session_id = saved.last_session_id.clone();
        }
        Ok(())
    }

    /// The saved form of this state.
    pub fn snapshot(&self) -> (s: AppState)
        ensures
            s@ == snapshot_of(self@),
    {
        AppState {
            current_position: self.current_position,
            is_running: self.running,
            is_paused: self.paused,
            last_session_id: self.session_id.clone(),
        }
    }

    /// Pause the session; returns the state to save.
    pub fn pause(&mut self) -> (s: AppState)
        ensures
            final(self)@ == paused_view(old(self)@),
            s@ == snapshot_of(paused_view(old(self)@)),
    {
        self.paused = true;
        self.snapshot()
    }

    /// Stop the session.
    pub fn stop(&mut self)
        ensures
            final(self)@ == (false, false, old(self).current_position, old(self).total, old(self).session_id@),
    {
        self.running = false;
        self.paused = false;
    }
}


/// Progress of a session as the progress display reports it (the share done
/// is left to the display).
pub struct ProgressSummary {
    pub current: u32,
    pub total: u32,
    pub eta_seconds: Option<u64>,
    pub status: String,
}

/// The status word of a session.
pub open spec fn status_word(s: (bool, bool, u32, u32, Seq<char>)) -> Seq<char> {
    if s.0 && !s.1 {
        "running"@
    } else if s.1 {
        "paused"@
    } else if s.2 >= s.3 && s.3 > 0 {
        "completed"@
    } else {
        "idle"@
    }
}

/// Accounts still to go.
pub open spec fn remaining_of(current: u32, total: u32) -> nat {
    if total >= current { (total - current) as nat } else { 0 }
}

impl UnfollowState {
    /// Position, total, estimated seconds left (at 45 seconds an account,
    /// when any are left) and the status word.
    pub fn progress_summary(&self) -> (p: ProgressSummary)
        ensures
            p.current == self.current_position,
            p.total == self.total,
            p.eta_seconds == if remaining_of(self.current_position, self.total) > 0 {
                Some((remaining_of(self.current_position, self.total) * 45) as u64)
            } else {
                None
            },
            p.status@ == status_word(self@),
    {
        let remaining = self.total.saturating_sub(self.current_position);
        let eta_seconds: u64 = remaining as u64 * 45;
        let status = if self.running && !self.paused {
            "running".to_owned()
        } else if self.paused {
            "paused".to_owned()
        } else if self.current_position >= self.total && self.total > 0 {
            "completed".to_owned()
        } else {
            "idle".to_owned()
        };
        ProgressSummary {
            current: self.current_position,
            total: self.total,
            eta_seconds: if remaining > 0 { Some(eta_seconds) } else { None },
            status,
        }
    }
}

/// Announcement that a rate limit was reached.
pub struct RateLimitEvent {
    pub reason: String,
    pub resume_at: Option<String>,
}

impl View for RateLimitEvent {
    type V = (Seq<char>, Option<Seq<char>>);

    open spec fn view(&self) -> (Seq<char>, Option<Seq<char>>) {
        (self.reason@, match &self.resume_at { Some(r) => Some(r@), None => None })
    }
}

/// Announcement of one unfollow attempt's result.
pub struct UnfollowEvent {
    pub username: String,
    pub method: Option<String>,
    pub error: Option<String>,
}

impl View for UnfollowEvent {
    type V = (Seq<char>, Option<Seq<char>>, Option<Seq<char>>);

    open spec fn view(&self) -> (Seq<char>, Option<Seq<char>>, Option<Seq<char>>) {
        (
            self.username@,
            match &self.method { Some(m) => Some(m@), None => None },
            match &self.error { Some(e) => Some(e@), None => None },
        )
    }
}

/// Announcement of the session's progress.
pub struct ProgressEvent {
    pub current: u32,
    pub total: u32,
    pub username: String,
    pub eta: Option<String>,
}

impl View for ProgressEvent {
    type V = (u32, u32, Seq<char>, Option<Seq<char>>);

    open spec fn view(&self) -> (u32, u32, Seq<char>, Option<Seq<char>>) {
        (self.current, self.total, self.username@, match &self.eta { Some(e) => Some(e@), None => None })
    }
}

/// What the work loop just learned.
pub enum LoopEvent {
    /// A new round starts at time `now` (Unix seconds, UTC).
    Tick { now: i64 },
    /// A session break has been slept through.
    BreakOver,
    /// The oldest pending queue row, if there is one.
    NextPending(Option<(i64, String)>),
    /// The unfollow of queue row `id` finished: the method used, or an error.
    Unfollowed { id: i64, username: String, result: Result<String, String> },
}

/// What is stored and announced after one unfollow attempt.
pub enum AttemptRecord {
    /// Mark row `id` completed, add the unfollow to the history, store the
    /// limiter rows, announce success.
    Succeeded {
        id: i64,
        username: String,
        method: String,
        session_id: String,
        limiter_rows: Vec<(String, String)>,
        event: UnfollowEvent,
    },
    /// Mark row `id` failed with `error`, announce the failure.
    Failed { id: i64, error: String, event: UnfollowEvent },
}

/// What the work loop does next.
pub enum LoopAction {
    /// Leave the loop.
    Stop,
    /// Announce the reached daily limit and leave the loop.
    Halt { notice: RateLimitEvent },
    /// Announce the reached limit, sleep `secs` seconds, report `BreakOver`
    /// when `session_break` is set, and start a new round.
    Wait { notice: RateLimitEvent, secs: u64, session_break: bool },
    /// Look up the oldest pending queue row.
    FetchNext,
    /// Mark row `id` as processing and unfollow `username`.
    Unfollow { id: i64, username: String },
    /// Announce that the queue is done after `total_unfollowed` attempts and
    /// leave the loop.
    Complete { total_unfollowed: u32 },
    /// Store and announce the attempt, save the session state, announce the
    /// progress, sleep `delay_secs` seconds and start a new round.
    Record { record: AttemptRecord, saved: AppState, progress: ProgressEvent, delay_secs: u64 },
    /// Start a new round.
    Continue,
}

/// The notice for a reached rate limit.
pub open spec fn notice_view(reason: Seq<char>, resume_at: Seq<char>) -> (Seq<char>, Option<Seq<char>>) {
    (reason, Some(resume_at))
}

/// "`m` minutes".
pub open spec fn minutes_text(m: int) -> Seq<char> {
    signed_decimal(m) + " minutes"@
}

fn notice(reason: &str, resume_at: String) -> (n: RateLimitEvent)
    ensures
        n@ == notice_view(reason@, resume_at@),
{
    RateLimitEvent { reason: reason.to_owned(), resume_at: Some(resume_at) }
}

/// What a round does after the limits were checked with result `status`.
pub open spec fn limit_action_ok(status: LimitStatus, action: LoopAction) -> bool {
    match status {
        LimitStatus::DailyStop => action matches LoopAction::Halt { notice }
            && notice@ == notice_view("daily_limit"@, "tomorrow"@),
        LimitStatus::HourlyWait(m) => action matches LoopAction::Wait { notice, secs, session_break }
            && notice@ == notice_view("hourly_limit"@, minutes_text(m as int))
            && secs == m * 60
            && !session_break,
        LimitStatus::SessionBreak => action matches LoopAction::Wait { notice, secs, session_break }
            && notice@ == notice_view("session_break"@, "30 minutes"@)
            && secs == 1800
            && session_break,
        LimitStatus::Proceed => action is FetchNext,
    }
}

/// The session after one more attempt.
pub open spec fn advanced(s: (bool, bool, u32, u32, Seq<char>)) -> (bool, bool, u32, u32, Seq<char>) {
    (s.0, s.1, (s.2 + 1) as u32, s.3, s.4)
}

/// What is stored and announced after an attempt of the session `s` on row
/// `id` for `username` with `result`, the limiter then being `l`.
pub open spec fn record_ok(
    record: AttemptRecord,
    s: (bool, bool, u32, u32, Seq<char>),
    l: RateLimiter,
    id: i64,
    username: Seq<char>,
    result: Result<String, String>,
) -> bool {
    match result {
        Ok(method) => record matches AttemptRecord::Succeeded { id: rid, username: ru, method: rm, session_id, limiter_rows, event }
            && rid == id
            && ru@ == username
            && rm@ == method@
            && session_id@ == s.4
            && rows_view(limiter_rows@) == l.stored_rows()
            && event@ == (username, Some(method@), None::<Seq<char>>),
        Err(error) => record matches AttemptRecord::Failed { id: rid, error: re, event }
            && rid == id
            && re@ == error@
            && event@ == (username, None::<Seq<char>>, Some(error@)),
    }
}

/// The limiter after an attempt with `result`: a success counts against
/// every limit.
pub open spec fn limiter_after(l: RateLimiter, result: Result<String, String>) -> RateLimiter {
    match result {
        Ok(_) => RateLimiter {
            daily_count: (l.daily_count + 1) as u32,
            hourly_count: (l.hourly_count + 1) as u32,
            session_count: (l.session_count + 1) as u32,
            ..l
        },
        Err(_) => l,
    }
}

/// Decide the next step of the work loop.
///
/// A round checks that the session is running and not paused, then checks the
/// rate limits; within them it takes the oldest pending row, unfollows it,
/// records the result, advances the position and waits a random delay.
pub fn unfollow_step(state: &mut UnfollowState, limiter: &mut RateLimiter, event: LoopEvent) -> (action: LoopAction)
    requires
        event matches LoopEvent::Unfollowed { result, .. } ==> {
            &&& old(state).current_position < u32::MAX
            &&& old(limiter).min_delay <= old(limiter).max_delay
            &&& result is Ok ==> {
                &&& old(limiter).daily_count < u32::MAX
                &&& old(limiter).hourly_count < u32::MAX
                &&& old(limiter).session_count < u32::MAX
            }
        },
    ensures
        match event {
            LoopEvent::Tick { now } => if old(state).running && !old(state).paused {
                &&& *final(limiter) == old(limiter).rolled_over(now as int)
                &&& final(state)@ == if final(limiter).status_at(now as int) is DailyStop {
                    (false, old(state).paused, old(state).current_position, old(state).total, old(state).session_id@)
                } else {
                    old(state)@
                }
                &&& limit_action_ok(final(limiter).status_at(now as int), action)
            } else {
                &&& action is Stop
                &&& *final(state) == *old(state)
                &&& *final(limiter) == *old(limiter)
            },
            LoopEvent::BreakOver => {
                &&& action is Continue
                &&& *final(state) == *old(state)
                &&& *final(limiter) == (RateLimiter { session_count: 0, ..*old(limiter) })
            },
            LoopEvent::NextPending(None) => {
                &&& action matches LoopAction::Complete { total_unfollowed }
                &&& total_unfollowed == old(state).current_position
                &&& final(state)@ == (false, old(state).paused, old(state).current_position, old(state).total, old(state).session_id@)
                &&& *final(limiter) == *old(limiter)
            },
            LoopEvent::NextPending(Some(row)) => {
                &&& action matches LoopAction::Unfollow { id, username }
                &&& id == row.0
                &&& username@ == row.1@
                &&& *final(state) == *old(state)
                &&& *final(limiter) == *old(limiter)
            },
            LoopEvent::Unfollowed { id, username, result } => {
                &&& *final(limiter) == limiter_after(*old(limiter), result)
                &&& final(state)@ == advanced(old(state)@)
                &&& action matches LoopAction::Record { record, saved, progress, delay_secs }
                &&& record_ok(record, old(state)@, *final(limiter), id, username@, result)
                &&& saved@ == ((old(state).current_position + 1) as u32, old(state).running, old(state).paused, old(state).session_id@)
                &&& progress@ == (
                    (old(state).current_position + 1) as u32,
                    old(state).total,
                    username@,
                    Some(eta_text(remaining_of((old(state).current_position + 1) as u32, old(state).total) as u32)),
                )
                &&& old(limiter).min_delay <= delay_secs <= old(limiter).max_delay
            },
        },
{
    match event {
        LoopEvent::Tick { now } => {
            if !(state.running && !state.paused) {
                return LoopAction::Stop;
            }
            match limiter.check_limits_at(now) {
                LimitStatus::DailyStop => {
                    state.running = false;
                    LoopAction::Halt { notice: notice("daily_limit", "tomorrow".to_owned()) }
                },
                LimitStatus::HourlyWait(minutes) => {
                    let mut text = i64_string(minutes);
                    text.append(" minutes");
                    LoopAction::Wait { notice: notice("hourly_limit", text), secs: minutes as u64 * 60, session_break: false }
                },
                LimitStatus::SessionBreak => {
                    LoopAction::Wait { notice: notice("session_break", "30 minutes".to_owned()), secs: 1800, session_break: true }
                },
                LimitStatus::Proceed => LoopAction::FetchNext,
            }
        },
        LoopEvent::BreakOver => {
            limiter.reset_session();
            LoopAction::Continue
        },
        LoopEvent::NextPending(None) => {
            let total = state.current_position;
            state.running = false;
            LoopAction::Complete { total_unfollowed: total }
        },
        LoopEvent::NextPending(Some((id, username))) => LoopAction::Unfollow { id, username },
        LoopEvent::Unfollowed { id, username, result } => {
            let record = match result {
                Ok(method) => {
                    limiter.increment();
                    let limiter_rows = limiter.rate_limit_pairs();
                    let event = UnfollowEvent { username: username.clone(), method: Some(method.clone()), error: None };
                    AttemptRecord::Succeeded {
                        id,
                        username: username.clone(),
                        method,
                        session_id: state.session_id.clone(),
                        limiter_rows,
                        event,
                    }
                },
                Err(error) => {
                    let event = UnfollowEvent { username: username.clone(), method: None, error: Some(error.clone()) };
                    AttemptRecord::Failed { id, error, event }
                },
            };
            state.current_position = state.current_position + 1;
            let current = state.current_position;
            let total = state.total;
            let saved = state.snapshot();
            let remaining = total.saturating_sub(current);
            let eta = calculate_eta(remaining);
            let progress = ProgressEvent { current, total, username, eta: Some(eta) };
            let delay_secs = limiter.get_random_delay();
            LoopAction::Record { record, saved, progress, delay_secs }
        },
    }
}


/// `str::to_lowercase`: the Unicode lower-case mapping of a string.
pub uninterp spec fn unicode_lowercase(s: Seq<char>) -> Seq<char>;

/// `str::to_lowercase`. The contract claims only that the result depends on
/// the text alone.
#[verifier::external_body]
fn lowercase(s: &str) -> (r: String)
    ensures
        r@ == unicode_lowercase(s@),
{
    s.to_lowercase()
}

/// The usernames among the comma-separated pieces of a scraped list: each
/// non-empty piece trimmed and lower-cased, kept when it has the shape of a
/// username.
pub open spec fn scraped_names(pieces: Seq<Seq<char>>) -> Seq<Seq<char>>
    decreases pieces.len(),
{
    if pieces.len() == 0 {
        Seq::empty()
    } else {
        let earlier = scraped_names(pieces.drop_last());
        let piece = pieces.last();
        let name = unicode_lowercase(trim_ws(piece));
        if piece.len() > 0 && is_username_shape(name) {
            earlier.push(name)
        } else {
            earlier
        }
    }
}

/// The username a scraped piece stands for, if it is one.
fn scraped_name(piece: &Vec<char>) -> (r: Option<String>)
    ensures
        match r {
            Some(n) => piece@.len() > 0 && n@ == unicode_lowercase(trim_ws(piece@))
                && is_username_shape(n@),
            None => !(piece@.len() > 0 && is_username_shape(unicode_lowercase(trim_ws(piece@)))),
        },
{
    if piece.len() == 0 {
        return None;
    }
    let (lo, hi) = trim_bounds(piece);
    let trimmed = string_of(piece, lo, hi);
    let name = lowercase(trimmed.as_str());
    match regex_is_match(USERNAME_PATTERN, name.as_str()) {
        Some(true) => Some(name),
        _ => None,
    }
}

/// The usernames in a scraped, comma-separated list, in order.
pub fn scraped_usernames(data: &str) -> (names: Vec<String>)
    ensures
        names@.map_values(|n: String| n@) == scraped_names(split_on(data@, ',')),
{
    let mut names: Vec<String> = Vec::new();
    let mut cur: Vec<char> = Vec::new();
    for c in it: data.chars()
        invariant
            it.seq() == data@,
            split_on(data@.take(it.index() as int), ',').len() >= 1,
            cur@ == split_on(data@.take(it.index() as int), ',').last(),
            names@.map_values(|n: String| n@) == scraped_names(split_on(data@.take(it.index() as int), ',').drop_last()),
    {
        let ghost i = it.index() as int;
        let ghost pre = split_on(data@.take(i), ',');
        assert(data@.take(i + 1).drop_last() =~= data@.take(i));
        assert(data@.take(i + 1).last() == c);
        proof { lemma_split_on_nonempty(data@.take(i + 1), ','); }
        if c == ',' {
            assert(pre.push(Seq::empty()).drop_last() =~= pre);
            assert(pre.drop_last().push(pre.last()) =~= pre);
            match scraped_name(&cur) {
                Some(n) => {
                    names.push(n);
                    assert(names@.map_values(|n: String| n@) =~= scraped_names(pre));
                },
                None => {},
            }
            cur = Vec::new();
            assert(cur@ =~= Seq::<char>::empty());
        } else {
            cur.push(c);
            let ghost post = pre.update(pre.len() - 1, pre.last().push(c));
            assert(post.drop_last() =~= pre.drop_last());
        }
    }
    assert(data@.take(data@.len() as int) =~= data@);
    let ghost all = split_on(data@, ',');
    proof { lemma_split_on_nonempty(data@, ','); }
    assert(all.drop_last().push(all.last()) =~= all);
    match scraped_name(&cur) {
        Some(n) => {
            names.push(n);
            assert(names@.map_values(|n: String| n@) =~= scraped_names(all));
        },
        None => {},
    }
    names
}

/// The mark that the scraping script leaves in the page address when done.
pub open spec fn done_marker() -> Seq<char> {
    "#__XUNFOLLOW_DONE__:"@
}

/// Whether `m` occurs in `s` at index `i`.
pub open spec fn occurs_at(s: Seq<char>, m: Seq<char>, i: int) -> bool {
    0 <= i && i + m.len() <= s.len() && s.subrange(i, i + m.len()) == m
}

/// Whether `m` occurs in `v` at index `i`.
fn matches_at(v: &Vec<char>, m: &Vec<char>, i: usize) -> (r: bool)
    requires
        i + m@.len() <= v@.len(),
    ensures
        r == (v@.subrange(i as int, i + m@.len()) == m@),
{
    let n = v.len();
    let mut k: usize = 0;
    while k < m.len()
        invariant
            n == v@.len(),
            i + m@.len() <= v@.len(),
            k <= m@.len(),
            forall|t: int| 0 <= t < k ==> v@[i + t] == m@[t],
        decreases m@.len() - k,
    {
        if v[i + k] != m[k] {
            assert(v@.subrange(i as int, i + m@.len())[k as int] != m@[k as int]);
            return false;
        }
        k += 1;
    }
    assert(v@.subrange(i as int, i + m@.len()) =~= m@);
    true
}

/// The text after the first done mark in a page address.
pub fn completion_payload(url: &str) -> (r: Option<String>)
    ensures
        match r {
            Some(p) => exists|i: int| {
                &&& occurs_at(url@, done_marker(), i)
                &&& (forall|j: int| 0 <= j < i ==> !occurs_at(url@, done_marker(), j))
                &&& p@ == url@.skip(i + done_marker().len())
            },
            None => forall|i: int| !occurs_at(url@, done_marker(), i),
        },
{
    let v = chars_of(url);
    let m = chars_of("#__XUNFOLLOW_DONE__:");
    proof { reveal_strlit("#__XUNFOLLOW_DONE__:"); }
    let n = v.len();
    if m.len() > v.len() {
        assert forall|i: int| !occurs_at(url@, done_marker(), i) by {}
        return None;
    }
    let mut i: usize = 0;
    let last_start = v.len() - m.len();
    while i <= last_start
        invariant
            last_start == v@.len() - m@.len(),
            v@ == url@,
            m@ == done_marker(),
            m@.len() <= v@.len(),
            n == v@.len(),
            m@.len() == 20,
            i <= v@.len() - m@.len() + 1,
            forall|j: int| 0 <= j < i ==> !occurs_at(url@, done_marker(), j),
        decreases v@.len() - i,
    {
        if matches_at(&v, &m, i) {
            let payload = string_of(&v, i + m.len(), v.len());
            assert(payload@ =~= url@.skip(i + done_marker().len()));
            assert(occurs_at(url@, done_marker(), i as int));
            return Some(payload);
        }
        i += 1;
    }
    assert forall|j: int| !occurs_at(url@, done_marker(), j) by {
        if 0 <= j && j >= i {
            assert(j + m@.len() > v@.len());
        }
    }
    None
}

/// The message when the scrape found nothing.
pub open spec fn nothing_found_message() -> Seq<char> {
    "No accounts found. Make sure you're logged in and on the following page."@
}

/// The usernames of a finished scrape, or the error for an empty one.
pub fn following_batch(data: &str) -> (r: Result<Vec<String>, String>)
    ensures
        match r {
            Ok(names) => data@.len() > 0 && names@.map_values(|n: String| n@) == scraped_names(split_on(data@, ',')),
            Err(e) => data@.len() == 0 && e@ == nothing_found_message(),
        },
{
    if data.is_empty() {
        return Err("No accounts found. Make sure you're logged in and on the following page.".to_owned());
    }
    Ok(scraped_usernames(data))
}

/// Outcome of filling the queue from the following list.
pub struct FetchFollowingResult {
    pub added: u32,
    pub skipped: u32,
}

/// How many inserts changed a row.
pub open spec fn inserted_count(rows: Seq<Option<u64>>) -> nat
    decreases rows.len(),
{
    if rows.len() == 0 {
        0
    } else {
        inserted_count(rows.drop_last()) + if rows.last() matches Some(r) && r > 0 { 1nat } else { 0nat }
    }
}

impl FetchFollowingResult {
    /// The result of queueing the scraped `names`, from the rows each one's
    /// insert affected (`rows`, one per name, `None` for a failed insert): a
    /// name whose insert changed a row was added, the others skipped, so
    /// every name is either added or skipped.
    pub fn tally(names: &Vec<String>, rows: &Vec<Option<u64>>) -> (r: FetchFollowingResult)
        requires
            rows@.len() == names@.len(),
            rows@.len() <= u32::MAX,
        ensures
            r.added == inserted_count(rows@),
            r.added + r.skipped == names@.len(),
    {
        let mut added: u32 = 0;
        let mut skipped: u32 = 0;
        let mut i: usize = 0;
        while i < rows.len()
            invariant
                i <= rows@.len() <= u32::MAX,
                added == inserted_count(rows@.take(i as int)),
                added + skipped == i,
            decreases rows@.len() - i,
        {
            assert(rows@.take(i + 1).drop_last() =~= rows@.take(i as int));
            match rows[i] {
                Some(n) if n > 0 => added += 1,
                _ => skipped += 1,
            }
            i += 1;
        }
        assert(rows@.take(rows@.len() as int) =~= rows@);
        FetchFollowingResult { added, skipped }
    }
}


/// The status a session reports: "running" whenever it runs and is not
/// paused, "paused" whenever it is paused, whatever its position; "completed"
/// only for a session neither running nor paused whose position has reached
/// a non-zero total; "idle" otherwise.
pub proof fn lemma_status_word(v: (bool, bool, u32, u32, Seq<char>))
    ensures
        v.0 && !v.1 ==> status_word(v) == "running"@,
        v.1 ==> status_word(v) == "paused"@,
        (status_word(v) == "completed"@) <==> (!v.0 && !v.1 && v.2 >= v.3 && v.3 > 0),
        (status_word(v) == "idle"@) <==> (!v.0 && !v.1 && !(v.2 >= v.3 && v.3 > 0)),
{
    reveal_strlit("running");
    reveal_strlit("paused");
    reveal_strlit("completed");
    reveal_strlit("idle");
    assert("running"@[0] != "completed"@[0]);
    assert("paused"@[0] != "completed"@[0]);
    assert("idle"@[0] != "completed"@[0]);
    assert("running"@[0] != "idle"@[0]);
    assert("paused"@[0] != "idle"@[0]);
}

} // verus!
