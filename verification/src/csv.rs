//! Importing a list of usernames: line classification, username validation
//! and the tally of what an import added, skipped and rejected.

use vstd::prelude::*;
use crate::text::{
    ascii_lower, chars_of, lowered_string_of, skip_char, string_of, strip_leading, trim_bounds,
    trim_ws, push_char, split_on, lemma_split_on_nonempty, trim_start_ws, trim_end_ws,
    is_whitespace, ascii_lower_char,
};

verus! {

/// The shape of an X username: one to fifteen ASCII letters, digits or `_`.
pub const USERNAME_PATTERN: &'static str = "^[a-zA-Z0-9_]{1,15}$";

/// Whether `c` may occur in a username.
pub open spec fn is_username_char(c: char) -> bool {
    ||| 'a' <= c <= 'z'
    ||| 'A' <= c <= 'Z'
    ||| '0' <= c <= '9'
    ||| c == '_'
}

/// Whether `s` is exactly what `USERNAME_PATTERN` matches.
pub open spec fn is_username_shape(s: Seq<char>) -> bool {
    &&& 1 <= s.len() <= 15
    &&& forall|i: int| 0 <= i < s.len() ==> is_username_char(#[trigger] s[i])
}

/// Whether `regex::Regex::new` accepts `pattern`.
pub uninterp spec fn regex_compiles(pattern: Seq<char>) -> bool;

/// Whether the compiled `pattern` matches somewhere in `text`
/// (`regex::Regex::is_match`).
pub uninterp spec fn regex_matches(pattern: Seq<char>, text: Seq<char>) -> bool;

/// Compiles `pattern` with `regex::Regex::new` and, when it compiles, asks
/// `Regex::is_match` whether it matches `text`. The contract claims that the
/// result depends on the two strings alone, and, from the regex syntax that
/// the crate documents (anchors `^`/`$` at the ends of the text, an ASCII
/// class repeated one to fifteen times), what `USERNAME_PATTERN` matches.
#[verifier::external_body]
pub(crate) fn regex_is_match(pattern: &str, text: &str) -> (r: Option<bool>)
    ensures
        r is Some <==> regex_compiles(pattern@),
        r matches Some(b) ==> b == regex_matches(pattern@, text@),
        pattern@ == USERNAME_PATTERN@ ==> r == Some(is_username_shape(text@)),
{
    match regex::Regex::new(pattern) {
        Ok(re) => Some(re.is_match(text)),
        Err(_) => None,
    }
}

/// A username with its surroundings removed: whitespace trimmed, then any
/// leading `@` characters.
pub open spec fn cleaned_username(raw: Seq<char>) -> Seq<char> {
    strip_leading(trim_ws(raw), '@')
}

/// The normalized username `raw` denotes, if it is a valid one: lower-cased,
/// without `@`.
pub open spec fn validated_username(raw: Seq<char>) -> Option<Seq<char>> {
    let cleaned = cleaned_username(raw);
    if is_username_shape(cleaned) {
        Some(ascii_lower(cleaned))
    } else {
        None
    }
}

/// Validate and normalize a username. Returns the normalized username
/// (lower-case, without `@`) if valid, `None` otherwise.
pub fn validate_username(username: &str) -> (r: Option<String>)
    ensures
        match r {
            Some(s) => validated_username(username@) == Some(s@),
            None => validated_username(username@) is None,
        },
{
    let v = chars_of(username);
    let (lo, hi) = trim_bounds(&v);
    let start = skip_char(&v, lo, hi, '@');
    let ghost cleaned = v@.subrange(start as int, hi as int);
    assert(cleaned == cleaned_username(username@));
    if start == hi {
        return None;
    }
    let cleaned_text = string_of(&v, start, hi);
    match regex_is_match(USERNAME_PATTERN, cleaned_text.as_str()) {
        Some(true) => Some(lowered_string_of(&v, start, hi)),
        _ => None,
    }
}


/// Outcome of importing a username list.
pub struct LoadResult {
    pub added: u32,
    pub skipped: u32,
    pub invalid: Vec<String>,
}

/// One row of the unfollow queue.
pub struct QueueItem {
    pub id: i64,
    pub username: String,
    pub status: String,
    pub error_message: Option<String>,
    pub attempts: i32,
    pub created_at: String,
    pub updated_at: String,
}

/// What one meaningful line of an import file asks for.
pub enum ImportLine {
    /// A valid username, normalized, to be queued.
    Candidate(String),
    /// A line that is not a username, as it stood after trimming.
    Invalid(String),
}

impl View for ImportLine {
    /// Whether the line is a candidate, and its text.
    type V = (bool, Seq<char>);

    open spec fn view(&self) -> (bool, Seq<char>) {
        match self {
            ImportLine::Candidate(u) => (true, u@),
            ImportLine::Invalid(l) => (false, l@),
        }
    }
}

/// What a line of an import file asks for: nothing for a blank line or a
/// `#` comment, otherwise a candidate username or an invalid entry.
pub open spec fn classify_line(line: Seq<char>) -> Option<(bool, Seq<char>)> {
    let t = trim_ws(line);
    if t.len() == 0 || t[0] == '#' {
        None
    } else {
        match validated_username(t) {
            Some(u) => Some((true, u)),
            None => Some((false, t)),
        }
    }
}

/// The meaningful lines among `lines`, in order.
pub open spec fn plan_of(lines: Seq<Seq<char>>) -> Seq<(bool, Seq<char>)>
    decreases lines.len(),
{
    if lines.len() == 0 {
        Seq::empty()
    } else {
        let earlier = plan_of(lines.drop_last());
        match classify_line(lines.last()) {
            Some(entry) => earlier.push(entry),
            None => earlier,
        }
    }
}

/// The import plan for a file's contents.
pub open spec fn import_plan(contents: Seq<char>) -> Seq<(bool, Seq<char>)> {
    plan_of(split_on(contents, '\n'))
}

fn classify(line: &Vec<char>) -> (r: Option<ImportLine>)
    ensures
        match r {
            Some(l) => classify_line(line@) == Some(l@),
            None => classify_line(line@) is None,
        },
{
    let (lo, hi) = trim_bounds(line);
    if lo == hi || line[lo] == '#' {
        return None;
    }
    let t = string_of(line, lo, hi);
    match validate_username(t.as_str()) {
        Some(u) => Some(ImportLine::Candidate(u)),
        None => Some(ImportLine::Invalid(t)),
    }
}

/// Read an import file: every line is trimmed; blank lines and lines that
/// start with `#` are skipped; each other line is a candidate username (when
/// it validates) or an invalid entry, in file order.
pub fn plan_import(contents: &str) -> (plan: Vec<ImportLine>)
    ensures
        plan@.map_values(|l: ImportLine| l@) == import_plan(contents@),
{
    let mut plan: Vec<ImportLine> = Vec::new();
    let mut cur: Vec<char> = Vec::new();
    for c in it: contents.chars()
        invariant
            it.seq() == contents@,
            split_on(contents@.take(it.index() as int), '\n').len() >= 1,
            cur@ == split_on(contents@.take(it.index() as int), '\n').last(),
            plan@.map_values(|l: ImportLine| l@) == plan_of(split_on(contents@.take(it.index() as int), '\n').drop_last()),
    {
        let ghost i = it.index() as int;
        let ghost pre = split_on(contents@.take(i), '\n');
        assert(contents@.take(i + 1).drop_last() =~= contents@.take(i));
        assert(contents@.take(i + 1).last() == c);
        proof { lemma_split_on_nonempty(contents@.take(i + 1), '\n'); }
        if c == '\n' {
            let entry = classify(&cur);
            assert(pre.push(Seq::empty()).drop_last() =~= pre);
            assert(pre.drop_last().push(pre.last()) =~= pre);
            match entry {
                Some(l) => {
                    plan.push(l);
                    assert(plan@.map_values(|l: ImportLine| l@) =~= plan_of(pre));
                },
                None => {},
            }
            cur = Vec::new();
            assert(cur@ =~= Seq::<char>::empty());
        } else {
            cur.push(c);
            let ghost post = pre.update(pre.len() - 1, pre.last().push(c));
            assert(post.drop_last() =~= pre.drop_last());
        }
    }
    assert(contents@.take(contents@.len() as int) =~= contents@);
    let ghost all = split_on(contents@, '\n');
    proof { lemma_split_on_nonempty(contents@, '\n'); }
    assert(all.drop_last().push(all.last()) =~= all);
    match classify(&cur) {
        Some(l) => {
            plan.push(l);
            assert(plan@.map_values(|l: ImportLine| l@) =~= plan_of(all));
        },
        None => {},
    }
    plan
}


/// What the queue store answered for one candidate username.
pub struct CandidateOutcome {
    /// How many history rows hold the username; `None` when the lookup failed.
    pub history_count: Option<i64>,
    /// Rows the insert into the queue affected; `None` when it was not
    /// attempted or failed.
    pub rows_inserted: Option<u64>,
}

/// Whether a history count marks a username as already unfollowed (a failed
/// lookup counts as zero).
pub open spec fn counts_as_unfollowed(history_count: Option<i64>) -> bool {
    match history_count {
        Some(n) => n > 0,
        None => false,
    }
}

/// Whether a candidate ended up newly queued.
pub open spec fn outcome_added(o: CandidateOutcome) -> bool {
    !counts_as_unfollowed(o.history_count) && (o.rows_inserted matches Some(r) && r > 0)
}

/// How many outcomes added a username.
pub open spec fn added_count(outcomes: Seq<CandidateOutcome>) -> nat
    decreases outcomes.len(),
{
    if outcomes.len() == 0 {
        0
    } else {
        added_count(outcomes.drop_last()) + if outcome_added(outcomes.last()) { 1nat } else { 0nat }
    }
}

/// How many entries of a plan are candidate usernames.
pub open spec fn candidate_count(plan: Seq<(bool, Seq<char>)>) -> nat
    decreases plan.len(),
{
    if plan.len() == 0 {
        0
    } else {
        candidate_count(plan.drop_last()) + if plan.last().0 { 1nat } else { 0nat }
    }
}

/// The texts of the invalid entries of a plan, in order.
pub open spec fn invalid_lines(plan: Seq<(bool, Seq<char>)>) -> Seq<Seq<char>>
    decreases plan.len(),
{
    if plan.len() == 0 {
        Seq::empty()
    } else if plan.last().0 {
        invalid_lines(plan.drop_last())
    } else {
        invalid_lines(plan.drop_last()).push(plan.last().1)
    }
}

/// Whether a candidate with this history count still has to be inserted.
pub fn needs_insert(history_count: Option<i64>) -> (r: bool)
    ensures
        r == !counts_as_unfollowed(history_count),
{
    match history_count {
        Some(n) => !(n > 0),
        None => true,
    }
}

impl LoadResult {
    /// The result of an import: the invalid lines of `plan`, and for the
    /// candidates, in order, what the store answered (`outcomes`, one per
    /// candidate): a username already in the history, or whose insert changed
    /// nothing or failed, is skipped; the others are added, so every candidate
    /// is either added or skipped.
    pub fn tally(plan: &Vec<ImportLine>, outcomes: &Vec<CandidateOutcome>) -> (r: LoadResult)
        requires
            outcomes@.len() == candidate_count(plan@.map_values(|l: ImportLine| l@)),
            outcomes@.len() <= u32::MAX,
        ensures
            r.added == added_count(outcomes@),
            r.added + r.skipped == candidate_count(plan@.map_values(|l: ImportLine| l@)),
            r.invalid@.map_values(|l: String| l@) == invalid_lines(plan@.map_values(|l: ImportLine| l@)),
    {
        let mut added: u32 = 0;
        let mut skipped: u32 = 0;
        let mut i: usize = 0;
        while i < outcomes.len()
            invariant
                i <= outcomes@.len() <= u32::MAX,
                added == added_count(outcomes@.take(i as int)),
                added + skipped == i,
            decreases outcomes@.len() - i,
        {
            assert(outcomes@.take(i + 1).drop_last() =~= outcomes@.take(i as int));
            let o = &outcomes[i];
            let add = needs_insert(o.history_count) && match o.rows_inserted {
                Some(rows) => rows > 0,
                None => false,
            };
            if add {
                added += 1;
            } else {
                skipped += 1;
            }
            i += 1;
        }
        assert(outcomes@.take(outcomes@.len() as int) =~= outcomes@);
        let mut invalid: Vec<String> = Vec::new();
        let mut j: usize = 0;
        while j < plan.len()
            invariant
                j <= plan@.len(),
                invalid@.map_values(|l: String| l@) == invalid_lines(plan@.take(j as int).map_values(|l: ImportLine| l@)),
            decreases plan@.len() - j,
        {
            assert(plan@.take(j + 1).map_values(|l: ImportLine| l@).drop_last() =~= plan@.take(j as int).map_values(|l: ImportLine| l@));
            match &plan[j] {
                ImportLine::Invalid(line) => {
                    invalid.push(line.clone());
                    assert(invalid@.map_values(|l: String| l@) =~= invalid_lines(plan@.take(j + 1).map_values(|l: ImportLine| l@)));
                },
                ImportLine::Candidate(_) => {},
            }
            j += 1;
        }
        assert(plan@.take(plan@.len() as int) =~= plan@);
        LoadResult { added, skipped, invalid }
    }
}

/// The text an exported queue file holds: the usernames joined by newlines.
pub open spec fn joined_lines(items: Seq<Seq<char>>) -> Seq<char>
    decreases items.len(),
{
    if items.len() == 0 {
        Seq::empty()
    } else if items.len() == 1 {
        items[0]
    } else {
        joined_lines(items.drop_last()) + seq!['\n'] + items.last()
    }
}

/// The contents of an exported queue: the pending usernames, one per line.
pub fn queue_export_text(usernames: &Vec<String>) -> (text: String)
    ensures
        text@ == joined_lines(usernames@.map_values(|u: String| u@)),
{
    let mut text = String::new();
    let mut i: usize = 0;
    while i < usernames.len()
        invariant
            i <= usernames@.len(),
            text@ == joined_lines(usernames@.take(i as int).map_values(|u: String| u@)),
        decreases usernames@.len() - i,
    {
        let ghost items = usernames@.take(i + 1).map_values(|u: String| u@);
        assert(items.drop_last() =~= usernames@.take(i as int).map_values(|u: String| u@));
        if i > 0 {
            push_char(&mut text, '\n');
        }
        text.append(usernames[i].as_str());
        assert(text@ =~= joined_lines(items));
        i += 1;
    }
    assert(usernames@.take(usernames@.len() as int) =~= usernames@);
    text
}

/// Whether `s` holds no line break.
pub open spec fn no_newline(s: Seq<char>) -> bool {
    forall|i: int| 0 <= i < s.len() ==> s[i] != '\n'
}

/// Whether `u` is a username as `validate_username` leaves it.
pub open spec fn is_normalized_username(u: Seq<char>) -> bool {
    validated_username(u) == Some(u)
}

proof fn lemma_split_append(x: Seq<char>, b: Seq<char>)
    requires
        no_newline(b),
    ensures
        split_on(x + b, '\n') == split_on(x, '\n').update(
            split_on(x, '\n').len() - 1,
            split_on(x, '\n').last() + b,
        ),
    decreases b.len(),
{
    lemma_split_on_nonempty(x, '\n');
    let s = split_on(x, '\n');
    if b.len() == 0 {
        assert(x + b =~= x);
        assert(s.last() + b =~= s.last());
        assert(s.update(s.len() - 1, s.last()) =~= s);
    } else {
        let bd = b.drop_last();
        lemma_split_append(x, bd);
        assert((x + b).drop_last() =~= x + bd);
        assert((x + b).last() == b.last());
        let e = split_on(x + bd, '\n');
        assert(e.last().push(b.last()) =~= s.last() + b);
        assert(e.update(e.len() - 1, e.last().push(b.last())) =~= s.update(s.len() - 1, s.last() + b));
    }
}

proof fn lemma_split_joined(items: Seq<Seq<char>>)
    requires
        items.len() >= 1,
        forall|k: int| 0 <= k < items.len() ==> no_newline(#[trigger] items[k]),
    ensures
        split_on(joined_lines(items), '\n') == items,
    decreases items.len(),
{
    let e = Seq::<char>::empty();
    if items.len() == 1 {
        lemma_split_append(e, items[0]);
        assert(e + items[0] =~= items[0]);
        assert(split_on(e, '\n') == seq![e]);
        assert(seq![e].update(0, items[0]) =~= items);
    } else {
        let dl = items.drop_last();
        assert forall|k: int| 0 <= k < dl.len() implies no_newline(#[trigger] dl[k]) by {
            assert(dl[k] == items[k]);
        }
        lemma_split_joined(dl);
        let x = joined_lines(dl) + seq!['\n'];
        assert(x.drop_last() =~= joined_lines(dl));
        assert(split_on(x, '\n') == dl.push(e));
        assert(no_newline(items[items.len() - 1]));
        lemma_split_append(x, items.last());
        assert(joined_lines(items) == x + items.last());
        assert(e + items.last() =~= items.last());
        assert(dl.push(e).update(dl.len() as int, items.last()) =~= items);
    }
}

proof fn lemma_normalized_line(u: Seq<char>)
    requires
        is_normalized_username(u),
    ensures
        no_newline(u),
        classify_line(u) == Some((true, u)),
{
    let cleaned = cleaned_username(u);
    assert(is_username_shape(cleaned));
    assert(u =~= ascii_lower(cleaned));
    assert forall|i: int| 0 <= i < u.len() implies {
        &&& is_username_char(#[trigger] u[i])
        &&& !('A' <= u[i] <= 'Z')
    } by {
        assert(u[i] == ascii_lower_char(cleaned[i]));
        assert(is_username_char(cleaned[i]));
    }
    assert(!is_whitespace(u[0]));
    assert(!is_whitespace(u.last()));
    assert(trim_start_ws(u) == u);
    assert(trim_end_ws(u) == u);
    assert(trim_ws(u) == u);
    assert(strip_leading(u, '@') == u);
    assert(is_username_shape(u));
    assert(ascii_lower(u) =~= u);
}

proof fn lemma_plan_of_normalized(items: Seq<Seq<char>>)
    requires
        forall|k: int| 0 <= k < items.len() ==> is_normalized_username(#[trigger] items[k]),
    ensures
        plan_of(items) == items.map_values(|u: Seq<char>| (true, u)),
    decreases items.len(),
{
    if items.len() > 0 {
        let dl = items.drop_last();
        assert forall|k: int| 0 <= k < dl.len() implies is_normalized_username(#[trigger] dl[k]) by {
            assert(dl[k] == items[k]);
        }
        lemma_plan_of_normalized(dl);
        assert(is_normalized_username(items[items.len() - 1]));
        lemma_normalized_line(items.last());
        assert(items.map_values(|u: Seq<char>| (true, u)) =~= dl.map_values(|u: Seq<char>| (true, u)).push((true, items.last())));
    } else {
        assert(items.map_values(|u: Seq<char>| (true, u)) =~= Seq::<(bool, Seq<char>)>::empty());
    }
}

/// Importing what an export wrote queues every exported username again, in
/// the same order, and finds nothing invalid.
pub proof fn lemma_export_import_roundtrip(usernames: Seq<Seq<char>>)
    requires
        forall|k: int| 0 <= k < usernames.len() ==> is_normalized_username(#[trigger] usernames[k]),
    ensures
        import_plan(joined_lines(usernames)) == usernames.map_values(|u: Seq<char>| (true, u)),
{
    if usernames.len() == 0 {
        let e = Seq::<char>::empty();
        assert(split_on(e, '\n') == seq![e]);
        assert(seq![e].drop_last() =~= Seq::<Seq<char>>::empty());
        assert(trim_ws(e) =~= e);
        assert(classify_line(e) is None);
        assert(plan_of(seq![e]) == plan_of(Seq::<Seq<char>>::empty()));
        assert(usernames.map_values(|u: Seq<char>| (true, u)) =~= Seq::<(bool, Seq<char>)>::empty());
    } else {
        assert forall|k: int| 0 <= k < usernames.len() implies no_newline(#[trigger] usernames[k]) by {
            lemma_normalized_line(usernames[k]);
        }
        lemma_split_joined(usernames);
        lemma_plan_of_normalized(usernames);
    }
}


proof fn lemma_trim_start_skips(w: Seq<char>, t: Seq<char>)
    requires
        forall|i: int| 0 <= i < w.len() ==> is_whitespace(#[trigger] w[i]),
        t.len() > 0,
        !is_whitespace(t[0]),
    ensures
        trim_start_ws(w + t) == t,
    decreases w.len(),
{
    if w.len() == 0 {
        assert(w + t =~= t);
    } else {
        assert((w + t)[0] == w[0]);
        assert((w + t).drop_first() =~= w.drop_first() + t);
        assert forall|i: int| 0 <= i < w.drop_first().len() implies is_whitespace(#[trigger] w.drop_first()[i]) by {
            assert(w.drop_first()[i] == w[i + 1]);
        }
        lemma_trim_start_skips(w.drop_first(), t);
    }
}

proof fn lemma_trim_end_keeps_first(t: Seq<char>)
    requires
        t.len() > 0,
        !is_whitespace(t[0]),
    ensures
        trim_end_ws(t).len() > 0,
        trim_end_ws(t)[0] == t[0],
    decreases t.len(),
{
    if t.len() > 1 && is_whitespace(t.last()) {
        assert(t.drop_last()[0] == t[0]);
        lemma_trim_end_keeps_first(t.drop_last());
    }
}

/// A comment line, `#` after any leading whitespace, adds nothing to an
/// import: it is neither a candidate nor an invalid entry, and the plan of a
/// file is the same with or without it.
pub proof fn lemma_comment_lines_skipped(lines: Seq<Seq<char>>, w: Seq<char>, t: Seq<char>)
    requires
        forall|i: int| 0 <= i < w.len() ==> is_whitespace(#[trigger] w[i]),
        t.len() > 0,
        t[0] == '#',
    ensures
        classify_line(w + t) is None,
        plan_of(lines.push(w + t)) == plan_of(lines),
{
    lemma_trim_start_skips(w, t);
    lemma_trim_end_keeps_first(t);
    assert(lines.push(w + t).drop_last() =~= lines);
}

/// A blank line, whitespace only, adds nothing to an import either.
pub proof fn lemma_blank_lines_skipped(lines: Seq<Seq<char>>, w: Seq<char>)
    requires
        forall|i: int| 0 <= i < w.len() ==> is_whitespace(#[trigger] w[i]),
    ensures
        classify_line(w) is None,
        plan_of(lines.push(w)) == plan_of(lines),
{
    lemma_blank_trims_to_nothing(w);
    assert(lines.push(w).drop_last() =~= lines);
}

proof fn lemma_blank_trims_to_nothing(w: Seq<char>)
    requires
        forall|i: int| 0 <= i < w.len() ==> is_whitespace(#[trigger] w[i]),
    ensures
        trim_start_ws(w).len() == 0,
        trim_ws(w).len() == 0,
    decreases w.len(),
{
    if w.len() > 0 {
        assert forall|i: int| 0 <= i < w.drop_first().len() implies is_whitespace(#[trigger] w.drop_first()[i]) by {
            assert(w.drop_first()[i] == w[i + 1]);
        }
        assert(is_whitespace(w[0]));
        lemma_blank_trims_to_nothing(w.drop_first());
    }
    assert(trim_end_ws(trim_start_ws(w)) == trim_start_ws(w));
}

} // verus!
