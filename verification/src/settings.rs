//! User settings: their defaults, how stored key/value rows read back, which
//! updates are accepted, and the history export format.

use vstd::prelude::*;
use crate::text::{
    decimal, decimal_string, lemma_parse_u32_decimal, parse_u32, parse_u32_spec, push_char,
    same_text,
};

verus! {

/// Maximum allowed daily limit.
pub const MAX_DAILY_LIMIT: u32 = 100;

/// Rate-limit and delay settings.
pub struct Settings {
    pub daily_limit: u32,
    pub hourly_limit: u32,
    pub session_limit: u32,
    pub min_delay: u32,
    pub max_delay: u32,
}

/// The settings used until the user changes them.
pub open spec fn default_settings() -> Settings {
    Settings { daily_limit: 50, hourly_limit: 30, session_limit: 25, min_delay: 30, max_delay: 60 }
}

impl Default for Settings {
    fn default() -> (s: Settings)
        ensures
            s == default_settings(),
    {
        Settings { daily_limit: 50, hourly_limit: 30, session_limit: 25, min_delay: 30, max_delay: 60 }
    }
}

/// A stored number, or `fallback` when it does not parse.
pub open spec fn parsed_or(value: Seq<char>, fallback: u32) -> u32 {
    match parse_u32_spec(value) {
        Some(v) => v,
        None => fallback,
    }
}

/// The effect of one stored row on the settings; unknown keys are ignored.
pub open spec fn apply_setting(s: Settings, key: Seq<char>, value: Seq<char>) -> Settings {
    if key == "daily_limit"@ {
        Settings { daily_limit: parsed_or(value, 50), ..s }
    } else if key == "hourly_limit"@ {
        Settings { hourly_limit: parsed_or(value, 30), ..s }
    } else if key == "session_limit"@ {
        Settings { session_limit: parsed_or(value, 25), ..s }
    } else if key == "min_delay"@ {
        Settings { min_delay: parsed_or(value, 30), ..s }
    } else if key == "max_delay"@ {
        Settings { max_delay: parsed_or(value, 60), ..s }
    } else {
        s
    }
}

/// The views of stored key/value rows.
pub open spec fn rows_view(rows: Seq<(String, String)>) -> Seq<(Seq<char>, Seq<char>)> {
    rows.map_values(|r: (String, String)| (r.0@, r.1@))
}

/// The settings that stored rows describe, starting from the defaults.
pub open spec fn settings_from(rows: Seq<(Seq<char>, Seq<char>)>) -> Settings
    decreases rows.len(),
{
    if rows.len() == 0 {
        default_settings()
    } else {
        let r = rows.last();
        apply_setting(settings_from(rows.drop_last()), r.0, r.1)
    }
}

fn parse_or(value: &String, fallback: u32) -> (r: u32)
    ensures
        r == parsed_or(value@, fallback),
{
    match parse_u32(value.as_str()) {
        Some(v) => v,
        None => fallback,
    }
}

/// Read settings from stored `(key, value)` rows.
pub fn settings_from_rows(rows: &Vec<(String, String)>) -> (s: Settings)
    ensures
        s == settings_from(rows_view(rows@)),
{
    let mut s = Settings::default();
    let mut i: usize = 0;
    while i < rows.len()
        invariant
            i <= rows@.len(),
            s == settings_from(rows_view(rows@.take(i as int))),
        decreases rows@.len() - i,
    {
        assert(rows_view(rows@.take(i + 1)).drop_last() =~= rows_view(rows@.take(i as int)));
        let key = rows[i].0.as_str();
        let value = &rows[i].1;
        if same_text(key, "daily_limit") {
            s.daily_limit = parse_or(value, 50);
        } else if same_text(key, "hourly_limit") {
            s.hourly_limit = parse_or(value, 30);
        } else if same_text(key, "session_limit") {
            s.session_limit = parse_or(value, 25);
        } else if same_text(key, "min_delay") {
            s.min_delay = parse_or(value, 30);
        } else if same_text(key, "max_delay") {
            s.max_delay = parse_or(value, 60);
        }
        i += 1;
    }
    assert(rows@.take(rows@.len() as int) =~= rows@);
    s
}

/// The reason an update is refused, if it is.
pub open spec fn settings_error(s: Settings) -> Option<Seq<char>> {
    if s.daily_limit > 100 {
        Some("Daily limit cannot exceed 100"@)
    } else if s.min_delay > s.max_delay {
        Some("Min delay cannot be greater than max delay"@)
    } else {
        None
    }
}

/// Check settings before they are stored.
pub fn validate_settings(settings: &Settings) -> (r: Result<(), String>)
    ensures
        match r {
            Ok(()) => settings_error(*settings) is None,
            Err(e) => settings_error(*settings) == Some(e@),
        },
{
    if settings.daily_limit > MAX_DAILY_LIMIT {
        return Err("Daily limit cannot exceed 100".to_owned());
    }
    if settings.min_delay > settings.max_delay {
        return Err("Min delay cannot be greater than max delay".to_owned());
    }
    Ok(())
}

/// The rows that store `s`.
pub open spec fn stored_settings_rows(s: Settings) -> Seq<(Seq<char>, Seq<char>)> {
    seq![
        ("daily_limit"@, decimal(s.daily_limit as nat)),
        ("hourly_limit"@, decimal(s.hourly_limit as nat)),
        ("session_limit"@, decimal(s.session_limit as nat)),
        ("min_delay"@, decimal(s.min_delay as nat)),
        ("max_delay"@, decimal(s.max_delay as nat)),
    ]
}

/// The `(key, value)` rows that store `s`.
pub fn settings_pairs(s: &Settings) -> (pairs: Vec<(String, String)>)
    ensures
        rows_view(pairs@) == stored_settings_rows(*s),
{
    let mut pairs: Vec<(String, String)> = Vec::new();
    pairs.push(("daily_limit".to_owned(), decimal_string(s.daily_limit as u64)));
    pairs.push(("hourly_limit".to_owned(), decimal_string(s.hourly_limit as u64)));
    pairs.push(("session_limit".to_owned(), decimal_string(s.session_limit as u64)));
    pairs.push(("min_delay".to_owned(), decimal_string(s.min_delay as u64)));
    pairs.push(("max_delay".to_owned(), decimal_string(s.max_delay as u64)));
    assert(rows_view(pairs@) =~= seq![
        ("daily_limit"@, decimal(s.daily_limit as nat)),
        ("hourly_limit"@, decimal(s.hourly_limit as nat)),
        ("session_limit"@, decimal(s.session_limit as nat)),
        ("min_delay"@, decimal(s.min_delay as nat)),
        ("max_delay"@, decimal(s.max_delay as nat)),
    ]);
    pairs
}

/// One unfollow recorded in the history.
pub struct HistoryItem {
    pub id: i64,
    pub username: String,
    pub unfollowed_at: String,
    pub method: String,
    pub session_id: Option<String>,
}

/// One line of the history export.
pub open spec fn history_line(item: HistoryItem) -> Seq<char> {
    item.username@ + seq![','] + item.unfollowed_at@ + seq![','] + item.method@ + seq!['\n']
}

/// The history export: a header line, then one line per item, in order.
pub open spec fn history_csv_text(items: Seq<HistoryItem>) -> Seq<char>
    decreases items.len(),
{
    if items.len() == 0 {
        "username,unfollowed_at,method\n"@
    } else {
        history_csv_text(items.drop_last()) + history_line(items.last())
    }
}

/// The CSV text of a history export.
pub fn history_csv(items: &Vec<HistoryItem>) -> (text: String)
    ensures
        text@ == history_csv_text(items@),
{
    let mut text = "username,unfollowed_at,method\n".to_owned();
    let mut i: usize = 0;
    while i < items.len()
        invariant
            i <= items@.len(),
            text@ == history_csv_text(items@.take(i as int)),
        decreases items@.len() - i,
    {
        assert(items@.take(i + 1).drop_last() =~= items@.take(i as int));
        let item = &items[i];
        text.append(item.username.as_str());
        push_char(&mut text, ',');
        text.append(item.unfollowed_at.as_str());
        push_char(&mut text, ',');
        text.append(item.method.as_str());
        push_char(&mut text, '\n');
        assert(text@ =~= history_csv_text(items@.take(i + 1)));
        i += 1;
    }
    assert(items@.take(items@.len() as int) =~= items@);
    text
}


/// Whether some row of `rows` is stored under `key`.
pub open spec fn has_key(rows: Seq<(Seq<char>, Seq<char>)>, key: Seq<char>) -> bool {
    exists|j: int| 0 <= j < rows.len() && (#[trigger] rows[j]).0 == key
}

/// Whether no row of `rows` holds, under a key of `written`, another value
/// than the one written there.
pub open spec fn agrees_with(rows: Seq<(Seq<char>, Seq<char>)>, written: Seq<(Seq<char>, Seq<char>)>) -> bool {
    forall|i: int, j: int|
        0 <= i < written.len() && 0 <= j < rows.len() && (#[trigger] rows[j]).0 == (#[trigger] written[i]).0
            ==> rows[j].1 == written[i].1
}

/// Whether a key/value table read back as `rows` holds what `written` put
/// there: every written row is present and no other value is stored under a
/// written key. The rows may come back in any order, and rows under other
/// keys may be present.
pub open spec fn holds_written(rows: Seq<(Seq<char>, Seq<char>)>, written: Seq<(Seq<char>, Seq<char>)>) -> bool {
    &&& forall|i: int| 0 <= i < written.len() ==> rows.contains(#[trigger] written[i])
    &&& agrees_with(rows, written)
}

pub(crate) proof fn lemma_agrees_drop_last(rows: Seq<(Seq<char>, Seq<char>)>, written: Seq<(Seq<char>, Seq<char>)>)
    requires
        agrees_with(rows, written),
        rows.len() > 0,
    ensures
        agrees_with(rows.drop_last(), written),
{
    let dl = rows.drop_last();
    assert forall|i: int, j: int|
        0 <= i < written.len() && 0 <= j < dl.len() && (#[trigger] dl[j]).0 == (#[trigger] written[i]).0
        implies dl[j].1 == written[i].1 by {
        assert(dl[j] == rows[j]);
    }
}

pub(crate) proof fn lemma_has_key_step(rows: Seq<(Seq<char>, Seq<char>)>, key: Seq<char>)
    requires
        rows.len() > 0,
    ensures
        has_key(rows, key) == (has_key(rows.drop_last(), key) || rows.last().0 == key),
{
    let dl = rows.drop_last();
    if has_key(rows, key) && rows.last().0 != key {
        let j = choose|j: int| 0 <= j < rows.len() && (#[trigger] rows[j]).0 == key;
        assert(dl[j] == rows[j]);
    }
    if has_key(dl, key) {
        let j = choose|j: int| 0 <= j < dl.len() && (#[trigger] dl[j]).0 == key;
        assert(dl[j] == rows[j]);
    }
    if rows.last().0 == key {
        assert(rows[rows.len() - 1].0 == key);
    }
}

pub(crate) proof fn lemma_written_key_present(rows: Seq<(Seq<char>, Seq<char>)>, written: Seq<(Seq<char>, Seq<char>)>, i: int)
    requires
        holds_written(rows, written),
        0 <= i < written.len(),
    ensures
        has_key(rows, written[i].0),
{
    assert(rows.contains(written[i]));
    let j = choose|j: int| 0 <= j < rows.len() && rows[j] == written[i];
    assert(rows[j].0 == written[i].0);
}

proof fn lemma_setting_keys_distinct()
    ensures
        "hourly_limit"@ != "daily_limit"@,
        "session_limit"@ != "daily_limit"@,
        "session_limit"@ != "hourly_limit"@,
        "min_delay"@ != "daily_limit"@,
        "min_delay"@ != "hourly_limit"@,
        "min_delay"@ != "session_limit"@,
        "max_delay"@ != "daily_limit"@,
        "max_delay"@ != "hourly_limit"@,
        "max_delay"@ != "session_limit"@,
        "max_delay"@ != "min_delay"@,
{
    reveal_strlit("daily_limit");
    reveal_strlit("hourly_limit");
    reveal_strlit("session_limit");
    reveal_strlit("min_delay");
    reveal_strlit("max_delay");
    assert("hourly_limit"@[0] != "daily_limit"@[0]);
    assert("session_limit"@[0] != "daily_limit"@[0]);
    assert("session_limit"@[0] != "hourly_limit"@[0]);
    assert("min_delay"@[0] != "daily_limit"@[0]);
    assert("min_delay"@[0] != "hourly_limit"@[0]);
    assert("min_delay"@[0] != "session_limit"@[0]);
    assert("max_delay"@[0] != "daily_limit"@[0]);
    assert("max_delay"@[0] != "hourly_limit"@[0]);
    assert("max_delay"@[0] != "session_limit"@[0]);
    assert("max_delay"@[1] != "min_delay"@[1]);
}

proof fn lemma_settings_from_written(s: Settings, rows: Seq<(Seq<char>, Seq<char>)>)
    requires
        agrees_with(rows, stored_settings_rows(s)),
    ensures
        settings_from(rows) == (Settings {
            daily_limit: if has_key(rows, "daily_limit"@) { s.daily_limit } else { 50 },
            hourly_limit: if has_key(rows, "hourly_limit"@) { s.hourly_limit } else { 30 },
            session_limit: if has_key(rows, "session_limit"@) { s.session_limit } else { 25 },
            min_delay: if has_key(rows, "min_delay"@) { s.min_delay } else { 30 },
            max_delay: if has_key(rows, "max_delay"@) { s.max_delay } else { 60 },
        }),
    decreases rows.len(),
{
    let w = stored_settings_rows(s);
    if rows.len() > 0 {
        let n = rows.len() - 1;
        lemma_agrees_drop_last(rows, w);
        lemma_settings_from_written(s, rows.drop_last());
        lemma_setting_keys_distinct();
        lemma_has_key_step(rows, "daily_limit"@);
        lemma_has_key_step(rows, "hourly_limit"@);
        lemma_has_key_step(rows, "session_limit"@);
        lemma_has_key_step(rows, "min_delay"@);
        lemma_has_key_step(rows, "max_delay"@);
        let r = rows.last();
        assert(rows[n] == r);
        if r.0 == "daily_limit"@ {
            assert(rows[n].0 == w[0].0);
            lemma_parse_u32_decimal(s.daily_limit);
        } else if r.0 == "hourly_limit"@ {
            assert(rows[n].0 == w[1].0);
            lemma_parse_u32_decimal(s.hourly_limit);
        } else if r.0 == "session_limit"@ {
            assert(rows[n].0 == w[2].0);
            lemma_parse_u32_decimal(s.session_limit);
        } else if r.0 == "min_delay"@ {
            assert(rows[n].0 == w[3].0);
            lemma_parse_u32_decimal(s.min_delay);
        } else if r.0 == "max_delay"@ {
            assert(rows[n].0 == w[4].0);
            lemma_parse_u32_decimal(s.max_delay);
        }
    }
}

/// Reading back stored settings gives those settings, whatever order the
/// rows come back in and whatever rows the table holds under other keys.
pub proof fn lemma_settings_roundtrip(s: Settings, rows: Seq<(Seq<char>, Seq<char>)>)
    requires
        holds_written(rows, stored_settings_rows(s)),
    ensures
        settings_from(rows) == s,
{
    lemma_settings_from_written(s, rows);
    let w = stored_settings_rows(s);
    lemma_written_key_present(rows, w, 0);
    lemma_written_key_present(rows, w, 1);
    lemma_written_key_present(rows, w, 2);
    lemma_written_key_present(rows, w, 3);
    lemma_written_key_present(rows, w, 4);
}


/// Settings are accepted exactly when the daily limit is at most 100 and the
/// minimum delay is at most the maximum; no other field restricts them. A
/// daily limit over 100 is reported first, then delays in the wrong order.
pub proof fn lemma_settings_acceptance(s: Settings)
    ensures
        (settings_error(s) is None) <==> (s.daily_limit <= 100 && s.min_delay <= s.max_delay),
        s.daily_limit > 100 ==> settings_error(s) == Some("Daily limit cannot exceed 100"@),
        s.daily_limit <= 100 && s.min_delay > s.max_delay
            ==> settings_error(s) == Some("Min delay cannot be greater than max delay"@),
        forall|h: u32, sl: u32| #![all_triggers]
            settings_error(Settings { hourly_limit: h, session_limit: sl, ..s }) == settings_error(s),
{
}

} // verus!
