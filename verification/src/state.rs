//! The persisted position of an unfollow session, so that it can resume
//! after a pause or a restart.

use vstd::prelude::*;
use crate::settings::{
    agrees_with, has_key, holds_written, lemma_agrees_drop_last, lemma_has_key_step,
    lemma_written_key_present, rows_view,
};
use crate::text::{
    bool_string, bool_text, decimal, decimal_string, lemma_parse_u32_decimal, parse_u32,
    parse_u32_spec, same_text,
};

verus! {

/// The saved session state.
pub struct AppState {
    pub current_position: u32,
    pub is_running: bool,
    pub is_paused: bool,
    pub last_session_id: String,
}

impl View for AppState {
    /// Position, running flag, paused flag, session id.
    type V = (u32, bool, bool, Seq<char>);

    open spec fn view(&self) -> (u32, bool, bool, Seq<char>) {
        (self.current_position, self.is_running, self.is_paused, self.last_session_id@)
    }
}

impl Default for AppState {
    /// Position zero, neither running nor paused, no session.
    fn default() -> (s: AppState)
        ensures
            s@ == (0u32, false, false, Seq::<char>::empty()),
    {
        AppState { current_position: 0, is_running: false, is_paused: false, last_session_id: String::new() }
    }
}

/// The effect of one stored row on a saved state; unknown keys are ignored.
pub open spec fn apply_state_row(s: (u32, bool, bool, Seq<char>), key: Seq<char>, value: Seq<char>) -> (u32, bool, bool, Seq<char>) {
    if key == "current_position"@ {
        (match parse_u32_spec(value) { Some(v) => v, None => 0 }, s.1, s.2, s.3)
    } else if key == "is_running"@ {
        (s.0, value == "true"@, s.2, s.3)
    } else if key == "is_paused"@ {
        (s.0, s.1, value == "true"@, s.3)
    } else if key == "last_session_id"@ {
        (s.0, s.1, s.2, value)
    } else {
        s
    }
}

/// The saved state that stored rows describe, starting from the default.
pub open spec fn state_from(rows: Seq<(Seq<char>, Seq<char>)>) -> (u32, bool, bool, Seq<char>)
    decreases rows.len(),
{
    if rows.len() == 0 {
        (0u32, false, false, Seq::empty())
    } else {
        let r = rows.last();
        apply_state_row(state_from(rows.drop_last()), r.0, r.1)
    }
}

/// The rows that store a saved state.
pub open spec fn stored_state_rows(s: (u32, bool, bool, Seq<char>)) -> Seq<(Seq<char>, Seq<char>)> {
    seq![
        ("current_position"@, decimal(s.0 as nat)),
        ("is_running"@, bool_text(s.1)),
        ("is_paused"@, bool_text(s.2)),
        ("last_session_id"@, s.3),
    ]
}

impl AppState {
    /// Read a saved state from stored `(key, value)` rows.
    pub fn from_rows(rows: &Vec<(String, String)>) -> (s: AppState)
        ensures
            s@ == state_from(rows_view(rows@)),
    {
        let mut s = AppState::default();
        let mut i: usize = 0;
        while i < rows.len()
            invariant
                i <= rows@.len(),
                s@ == state_from(rows_view(rows@.take(i as int))),
            decreases rows@.len() - i,
        {
            assert(rows_view(rows@.take(i + 1)).drop_last() =~= rows_view(rows@.take(i as int)));
            let key = rows[i].0.as_str();
            let value = &rows[i].1;
            if same_text(key, "current_position") {
                s.current_position = match parse_u32(value.as_str()) { Some(v) => v, None => 0 };
            } else if same_text(key, "is_running") {
                s.is_running = same_text(value.as_str(), "true");
            } else if same_text(key, "is_paused") {
                s.is_paused = same_text(value.as_str(), "true");
            } else if same_text(key, "last_session_id") {
                s.last_session_id = value.clone();
            }
            i += 1;
        }
        assert(rows@.take(rows@.len() as int) =~= rows@);
        s
    }

    /// The `(key, value)` rows that store this state.
    pub fn state_pairs(&self) -> (pairs: Vec<(String, String)>)
        ensures
            rows_view(pairs@) == stored_state_rows(self@),
    {
        let mut pairs: Vec<(String, String)> = Vec::new();
        pairs.push(("current_position".to_owned(), decimal_string(self.current_position as u64)));
        pairs.push(("is_running".to_owned(), bool_string(self.is_running)));
        pairs.push(("is_paused".to_owned(), bool_string(self.is_paused)));
        pairs.push(("last_session_id".to_owned(), self.last_session_id.clone()));
        assert(rows_view(pairs@) =~= stored_state_rows(self@));
        pairs
    }
}

proof fn lemma_state_keys_distinct()
    ensures
        "is_running"@ != "current_position"@,
        "is_paused"@ != "current_position"@,
        "is_paused"@ != "is_running"@,
        "last_session_id"@ != "current_position"@,
        "last_session_id"@ != "is_running"@,
        "last_session_id"@ != "is_paused"@,
        "false"@ != "true"@,
{
    reveal_strlit("current_position");
    reveal_strlit("is_running");
    reveal_strlit("is_paused");
    reveal_strlit("last_session_id");
    reveal_strlit("true");
    reveal_strlit("false");
    assert("is_running"@[0] != "current_position"@[0]);
    assert("is_paused"@[0] != "current_position"@[0]);
    assert("is_paused"@[3] != "is_running"@[3]);
    assert("last_session_id"@[0] != "current_position"@[0]);
    assert("last_session_id"@[0] != "is_running"@[0]);
    assert("last_session_id"@[0] != "is_paused"@[0]);
    assert("false"@[0] != "true"@[0]);
}

proof fn lemma_state_from_written(s: (u32, bool, bool, Seq<char>), rows: Seq<(Seq<char>, Seq<char>)>)
    requires
        agrees_with(rows, stored_state_rows(s)),
    ensures
        state_from(rows) == (
            if has_key(rows, "current_position"@) { s.0 } else { 0u32 },
            if has_key(rows, "is_running"@) { s.1 } else { false },
            if has_key(rows, "is_paused"@) { s.2 } else { false },
            if has_key(rows, "last_session_id"@) { s.3 } else { Seq::<char>::empty() },
        ),
    decreases rows.len(),
{
    let w = stored_state_rows(s);
    if rows.len() > 0 {
        let n = rows.len() - 1;
        lemma_agrees_drop_last(rows, w);
        lemma_state_from_written(s, rows.drop_last());
        lemma_state_keys_distinct();
        lemma_has_key_step(rows, "current_position"@);
        lemma_has_key_step(rows, "is_running"@);
        lemma_has_key_step(rows, "is_paused"@);
        lemma_has_key_step(rows, "last_session_id"@);
        let r = rows.last();
        assert(rows[n] == r);
        if r.0 == "current_position"@ {
            assert(rows[n].0 == w[0].0);
            lemma_parse_u32_decimal(s.0);
        } else if r.0 == "is_running"@ {
            assert(rows[n].0 == w[1].0);
        } else if r.0 == "is_paused"@ {
            assert(rows[n].0 == w[2].0);
        } else if r.0 == "last_session_id"@ {
            assert(rows[n].0 == w[3].0);
        }
    }
}

/// Reading back a stored session state gives that state, whatever order the
/// rows come back in and whatever rows the table holds under other keys.
pub proof fn lemma_state_roundtrip(s: (u32, bool, bool, Seq<char>), rows: Seq<(Seq<char>, Seq<char>)>)
    requires
        holds_written(rows, stored_state_rows(s)),
    ensures
        state_from(rows) == s,
{
    lemma_state_from_written(s, rows);
    let w = stored_state_rows(s);
    lemma_written_key_present(rows, w, 0);
    lemma_written_key_present(rows, w, 1);
    lemma_written_key_present(rows, w, 2);
    lemma_written_key_present(rows, w, 3);
}

} // verus!
