use xunfollow::rate_limiter::RateLimiter;
use xunfollow::state::AppState;
use xunfollow::unfollow::{
    completion_payload, following_batch, scraped_usernames, unfollow_step, AttemptRecord,
    FetchFollowingResult, LoopAction, LoopEvent, UnfollowState,
};

const T: i64 = 1_709_807_415; // 2024-03-07 10:30:15 UTC

fn running_state() -> UnfollowState {
    let mut s = UnfollowState::default();
    s.start(3).unwrap();
    s
}

#[test]
fn start_needs_pending_rows() {
    let mut s = UnfollowState::default();
    assert_eq!(s.start(0), Err("No pending usernames in queue".to_string()));
    assert!(!s.running);
    assert!(s.start(4).is_ok());
    assert!(s.running && !s.paused);
    assert_eq!((s.current_position, s.total), (0, 4));
    assert_eq!(s.session_id.len(), 36);
    for (i, c) in s.session_id.chars().enumerate() {
        match i {
            8 | 13 | 18 | 23 => assert_eq!(c, '-'),
            14 => assert_eq!(c, '4'),
            19 => assert!(matches!(c, '8' | '9' | 'a' | 'b')),
            _ => assert!(c.is_ascii_digit() || ('a'..='f').contains(&c)),
        }
    }
    let first = s.session_id.clone();
    s.start(4).unwrap();
    assert_ne!(first, s.session_id);
}

#[test]
fn resume_keeps_saved_session() {
    let saved = AppState { current_position: 5, is_running: false, is_paused: true, last_session_id: "sess".into() };
    let mut s = UnfollowState::default();
    assert!(s.resume(&saved, 0).is_err());
    s.resume(&saved, 7).unwrap();
    assert_eq!((s.current_position, s.total), (5, 12));
    assert_eq!(s.session_id, "sess");
    let blank = AppState::default();
    s.resume(&blank, 1).unwrap();
    assert_eq!(s.session_id.len(), 36);
}

#[test]
fn paused_session_resumes_where_it_stopped() {
    let mut s = running_state();
    s.current_position = 2;
    let id = s.session_id.clone();
    let saved = s.pause();
    let mut later = UnfollowState::default();
    later.resume(&saved, 1).unwrap();
    assert!(later.running && !later.paused);
    assert_eq!((later.current_position, later.total), (2, 3));
    assert_eq!(later.session_id, id);
}

#[test]
fn pause_stop_and_progress() {
    let mut s = running_state();
    let p = s.progress_summary();
    assert_eq!((p.current, p.total, p.eta_seconds, p.status.as_str()), (0, 3, Some(135), "running"));
    let saved = s.pause();
    assert!(saved.is_paused && saved.is_running);
    assert_eq!(s.progress_summary().status, "paused");
    s.stop();
    assert!(!s.running && !s.paused);
    assert_eq!(s.progress_summary().status, "idle");
    s.current_position = 3;
    let p = s.progress_summary();
    assert_eq!((p.eta_seconds, p.status.as_str()), (None, "completed"));
    assert_eq!(UnfollowState::default().progress_summary().status, "idle");
}

#[test]
fn loop_stops_when_not_running() {
    let mut s = UnfollowState::default();
    let mut l = RateLimiter::new_at(50, 30, 25, 30, 60, T);
    assert!(matches!(unfollow_step(&mut s, &mut l, LoopEvent::Tick { now: T }), LoopAction::Stop));
    let mut s = running_state();
    s.pause();
    assert!(matches!(unfollow_step(&mut s, &mut l, LoopEvent::Tick { now: T }), LoopAction::Stop));
}

#[test]
fn loop_respects_limits() {
    let mut s = running_state();
    let mut l = RateLimiter::new_at(50, 30, 25, 30, 60, T);
    assert!(matches!(unfollow_step(&mut s, &mut l, LoopEvent::Tick { now: T }), LoopAction::FetchNext));

    l.session_count = 25;
    match unfollow_step(&mut s, &mut l, LoopEvent::Tick { now: T }) {
        LoopAction::Wait { notice, secs, session_break } => {
            assert_eq!(notice.reason, "session_break");
            assert_eq!(notice.resume_at.as_deref(), Some("30 minutes"));
            assert_eq!(secs, 1800);
            assert!(session_break);
        }
        _ => panic!("expected a session break"),
    }
    assert!(matches!(unfollow_step(&mut s, &mut l, LoopEvent::BreakOver), LoopAction::Continue));
    assert_eq!(l.session_count, 0);

    l.hourly_count = 30;
    match unfollow_step(&mut s, &mut l, LoopEvent::Tick { now: T }) {
        LoopAction::Wait { notice, secs, session_break } => {
            assert_eq!(notice.reason, "hourly_limit");
            assert_eq!(notice.resume_at.as_deref(), Some("30 minutes"));
            assert_eq!(secs, 1800);
            assert!(!session_break);
        }
        _ => panic!("expected an hourly wait"),
    }

    l.daily_count = 50;
    match unfollow_step(&mut s, &mut l, LoopEvent::Tick { now: T }) {
        LoopAction::Halt { notice } => {
            assert_eq!(notice.reason, "daily_limit");
            assert_eq!(notice.resume_at.as_deref(), Some("tomorrow"));
        }
        _ => panic!("expected the daily stop"),
    }
    assert!(!s.running);
}

#[test]
fn loop_unfollows_and_records() {
    let mut s = running_state();
    let mut l = RateLimiter::new_at(50, 30, 25, 30, 60, T);
    match unfollow_step(&mut s, &mut l, LoopEvent::NextPending(Some((7, "alice".into())))) {
        LoopAction::Unfollow { id, username } => assert_eq!((id, username.as_str()), (7, "alice")),
        _ => panic!("expected an unfollow"),
    }
    let ev = LoopEvent::Unfollowed { id: 7, username: "alice".into(), result: Ok("css".into()) };
    match unfollow_step(&mut s, &mut l, ev) {
        LoopAction::Record { record, saved, progress, delay_secs } => {
            match record {
                AttemptRecord::Succeeded { id, username, method, session_id, limiter_rows, event } => {
                    assert_eq!((id, username.as_str(), method.as_str()), (7, "alice", "css"));
                    assert_eq!(session_id, s.session_id);
                    assert_eq!(limiter_rows[0], ("daily_count".to_string(), "1".to_string()));
                    assert_eq!(event.method.as_deref(), Some("css"));
                    assert!(event.error.is_none());
                }
                _ => panic!("expected a success"),
            }
            assert_eq!(saved.current_position, 1);
            assert_eq!((progress.current, progress.total), (1, 3));
            assert_eq!(progress.eta.as_deref(), Some("1m"));
            assert!((30..=60).contains(&delay_secs));
        }
        _ => panic!("expected a record"),
    }
    assert_eq!((l.daily_count, l.hourly_count, l.session_count), (1, 1, 1));

    let ev = LoopEvent::Unfollowed { id: 8, username: "bob".into(), result: Err("nope".into()) };
    match unfollow_step(&mut s, &mut l, ev) {
        LoopAction::Record { record: AttemptRecord::Failed { id, error, event }, progress, .. } => {
            assert_eq!((id, error.as_str()), (8, "nope"));
            assert_eq!(event.error.as_deref(), Some("nope"));
            assert_eq!(progress.eta.as_deref(), Some("45s"));
        }
        _ => panic!("expected a failure record"),
    }
    assert_eq!(l.daily_count, 1);
    assert_eq!(s.current_position, 2);

    match unfollow_step(&mut s, &mut l, LoopEvent::NextPending(None)) {
        LoopAction::Complete { total_unfollowed } => assert_eq!(total_unfollowed, 2),
        _ => panic!("expected completion"),
    }
    assert!(!s.running);
}

#[test]
fn scraped_list_is_normalized() {
    let names = scraped_usernames("Alice,,bob ,home_page_is_long_name,x y,\u{212A}");
    assert_eq!(names, vec!["alice".to_string(), "bob".to_string(), "k".to_string()]);
    assert!(scraped_usernames("").is_empty());
}

#[test]
fn completion_marker() {
    assert_eq!(
        completion_payload("https://x.com/me/following#__XUNFOLLOW_DONE__:a,b"),
        Some("a,b".to_string())
    );
    assert_eq!(completion_payload("https://x.com/#__XUNFOLLOW_DONE__:"), Some(String::new()));
    assert_eq!(completion_payload("https://x.com/me/following"), None);
    assert_eq!(
        completion_payload("#__XUNFOLLOW_DONE__:a#__XUNFOLLOW_DONE__:b"),
        Some("a#__XUNFOLLOW_DONE__:b".to_string())
    );
}

#[test]
fn empty_scrape_is_an_error() {
    assert_eq!(
        following_batch("").map(|v| v.len()),
        Err("No accounts found. Make sure you're logged in and on the following page.".to_string())
    );
    assert_eq!(following_batch("a,b").unwrap(), vec!["a".to_string(), "b".to_string()]);
}

#[test]
fn fetch_tally() {
    let names: Vec<String> = vec!["a".into(), "b".into(), "c".into(), "d".into()];
    let r = FetchFollowingResult::tally(&names, &vec![Some(1), Some(0), None, Some(3)]);
    assert_eq!((r.added, r.skipped), (2, 2));
}
