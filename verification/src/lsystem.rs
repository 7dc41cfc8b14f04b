//! The L-system itself: string rewriting.
//!
//! Start from the initial string, and on every pass replace *every* symbol
//! simultaneously with whatever the rules say. A symbol with no rule maps to
//! itself. Growth is exponential, so expansion carries a hard length budget
//! and stops cleanly at the last complete pass that fits.

use vstd::prelude::*;
use vstd::utf8::{char_u32_cast, encode_scalar, encode_utf8};
use std::collections::HashMap;
use vstd::string::StringSliceAdditionalSpecFns;
use crate::text::{chars_of, push_char};

verus! {

/// Longest string (in bytes, as the budget counts them) built for one plant.
pub const MAX_LEN: usize = 400_000;

/// A single-symbol, context-free rule table: each symbol has at most one
/// replacement string. The table is keyed by the symbol's code point.
pub struct Rules {
    table: HashMap<u32, String>,
}

impl Rules {
    /// The replacement of each symbol that has a rule.
    pub closed spec fn view(&self) -> Map<char, Seq<char>> {
        Map::new(
            |c: char| self.table@.contains_key(c as u32),
            |c: char| self.table@[c as u32]@,
        )
    }

    /// An empty table.
    pub fn new() -> (r: Rules)
        ensures
            r@ == Map::<char, Seq<char>>::empty(),
    {
        let r = Rules { table: HashMap::new() };
        assert(r@ =~= Map::<char, Seq<char>>::empty());
        r
    }

    /// The replacement for `c`, if it has a rule.
    pub fn get(&self, c: char) -> (r: Option<&String>)
        ensures
            match r {
                Some(s) => self@.contains_key(c) && s@ == self@[c],
                None => !self@.contains_key(c),
            },
    {
        broadcast use vstd::std_specs::hash::group_hash_axioms;
        let key: u32 = c as u32;
        self.table.get(&key)
    }

    /// Sets the rule for `c`, replacing any earlier one.
    pub fn insert(&mut self, c: char, replacement: String)
        ensures
            final(self)@ == old(self)@.insert(c, replacement@),
    {
        broadcast use vstd::std_specs::hash::group_hash_axioms;
        let ghost rep = replacement@;
        let key: u32 = c as u32;
        self.table.insert(key, replacement);
        proof {
            assert forall|k: char| #[trigger] self@.contains_key(k) <==> old(self)@.insert(c, rep).contains_key(k) by {
                if k as u32 == c as u32 {
                    char_u32_cast(k, k as u32);
                    char_u32_cast(c, c as u32);
                }
            }
            assert forall|k: char| #[trigger] self@.contains_key(k) implies self@[k] == old(self)@.insert(c, rep)[k] by {
                if k as u32 == c as u32 {
                    char_u32_cast(k, k as u32);
                    char_u32_cast(c, c as u32);
                }
            }
            assert(self@ =~= old(self)@.insert(c, rep));
        }
    }
}


/// What one symbol becomes in a rewrite pass: its rule, or itself.
pub open spec fn replacement(rules: Map<char, Seq<char>>, c: char) -> Seq<char> {
    if rules.contains_key(c) {
        rules[c]
    } else {
        seq![c]
    }
}

/// One rewrite pass: every symbol replaced simultaneously.
pub open spec fn rewrite(s: Seq<char>, rules: Map<char, Seq<char>>) -> Seq<char>
    decreases s.len(),
{
    if s.len() == 0 {
        Seq::empty()
    } else {
        rewrite(s.drop_last(), rules) + replacement(rules, s.last())
    }
}

/// `n` rewrite passes over `start`.
pub open spec fn iterate(start: Seq<char>, rules: Map<char, Seq<char>>, n: nat) -> Seq<char>
    decreases n,
{
    if n == 0 {
        start
    } else {
        rewrite(iterate(start, rules, (n - 1) as nat), rules)
    }
}

/// The UTF-8 byte length of a string, as `str::len` reports it.
pub open spec fn byte_len(s: Seq<char>) -> nat {
    (encode_utf8(s).len() as usize) as nat
}

/// What the budget charges for one symbol: the byte length of its rule, or
/// one for a symbol that passes through.
pub open spec fn symbol_cost(rules: Map<char, Seq<char>>, c: char) -> nat {
    if rules.contains_key(c) {
        byte_len(rules[c])
    } else {
        1
    }
}

/// The predicted size of the next pass over `s`.
pub open spec fn projected_len(s: Seq<char>, rules: Map<char, Seq<char>>) -> nat
    decreases s.len(),
{
    if s.len() == 0 {
        0
    } else {
        projected_len(s.drop_last(), rules) + symbol_cost(rules, s.last())
    }
}

/// Whether every symbol of `s` that has no rule is a single UTF-8 byte.
pub open spec fn unruled_are_ascii(s: Seq<char>, rules: Map<char, Seq<char>>) -> bool {
    forall|i: int| 0 <= i < s.len() ==> (rules.contains_key(#[trigger] s[i]) || (s[i] as u32) < 128)
}

/// Whether every symbol without a rule, in `start` or in any replacement, is
/// a single UTF-8 byte: then every pass charges exactly what it builds.
pub open spec fn ascii_closed(start: Seq<char>, rules: Map<char, Seq<char>>) -> bool {
    &&& unruled_are_ascii(start, rules)
    &&& forall|c: char| rules.contains_key(c) ==> unruled_are_ascii(#[trigger] rules[c], rules)
}

/// Whether every replacement is short enough for `str::len` to report its
/// length (as every string held in memory is).
pub open spec fn rule_lengths_fit(rules: Map<char, Seq<char>>) -> bool {
    forall|c: char| rules.contains_key(c) ==> #[trigger] encode_utf8(rules[c]).len() <= usize::MAX
}

proof fn lemma_encode_concat(a: Seq<char>, b: Seq<char>)
    ensures
        encode_utf8(a + b) == encode_utf8(a) + encode_utf8(b),
    decreases a.len(),
{
    if a.len() == 0 {
        assert(a + b =~= b);
        assert(encode_utf8(a) + encode_utf8(b) =~= encode_utf8(b));
    } else {
        assert((a + b).drop_first() =~= a.drop_first() + b);
        assert((a + b)[0] == a[0]);
        lemma_encode_concat(a.drop_first(), b);
        assert(encode_utf8(a + b) =~= encode_utf8(a) + encode_utf8(b));
    }
}

proof fn lemma_encode_ascii_char(c: char)
    requires
        (c as u32) < 128,
    ensures
        encode_utf8(seq![c]).len() == 1,
{
    let e = Seq::<char>::empty();
    assert(seq![c].drop_first() =~= e);
    assert(seq![c][0] == c);
    assert(encode_utf8(e).len() == 0);
    assert(encode_scalar(c as u32).len() == 1);
    assert(encode_utf8(seq![c]) == encode_scalar(c as u32) + encode_utf8(e));
}

/// When every symbol without a rule is a single byte, the size the budget
/// predicts for a pass is exactly the byte length of what the pass builds.
pub proof fn lemma_projection_exact(s: Seq<char>, rules: Map<char, Seq<char>>)
    requires
        unruled_are_ascii(s, rules),
        rule_lengths_fit(rules),
    ensures
        projected_len(s, rules) == encode_utf8(rewrite(s, rules)).len(),
    decreases s.len(),
{
    if s.len() > 0 {
        let dl = s.drop_last();
        let c = s.last();
        assert forall|i: int| 0 <= i < dl.len() implies (rules.contains_key(#[trigger] dl[i]) || (dl[i] as u32) < 128) by {
            assert(dl[i] == s[i]);
        }
        lemma_projection_exact(dl, rules);
        lemma_encode_concat(rewrite(dl, rules), replacement(rules, c));
        assert(rules.contains_key(s[s.len() - 1]) || (s[s.len() - 1] as u32) < 128);
        if rules.contains_key(c) {
            assert(encode_utf8(rules[c]).len() <= usize::MAX);
        } else {
            lemma_encode_ascii_char(c);
        }
    }
}

proof fn lemma_rewrite_stays_ascii(s: Seq<char>, rules: Map<char, Seq<char>>)
    requires
        unruled_are_ascii(s, rules),
        forall|c: char| rules.contains_key(c) ==> unruled_are_ascii(#[trigger] rules[c], rules),
    ensures
        unruled_are_ascii(rewrite(s, rules), rules),
    decreases s.len(),
{
    if s.len() > 0 {
        let dl = s.drop_last();
        let c = s.last();
        assert forall|i: int| 0 <= i < dl.len() implies (rules.contains_key(#[trigger] dl[i]) || (dl[i] as u32) < 128) by {
            assert(dl[i] == s[i]);
        }
        lemma_rewrite_stays_ascii(dl, rules);
        let head = rewrite(dl, rules);
        let rep = replacement(rules, c);
        let r = rewrite(s, rules);
        assert(r == head + rep);
        assert(rules.contains_key(s[s.len() - 1]) || (s[s.len() - 1] as u32) < 128);
        if rules.contains_key(c) {
            assert(unruled_are_ascii(rules[c], rules));
        }
        assert forall|i: int| 0 <= i < r.len() implies (rules.contains_key(#[trigger] r[i]) || (r[i] as u32) < 128) by {
            if i < head.len() {
                assert(r[i] == head[i]);
            } else {
                assert(r[i] == rep[i - head.len()]);
            }
        }
    }
}

proof fn lemma_iterate_stays_ascii(start: Seq<char>, rules: Map<char, Seq<char>>, n: nat)
    requires
        ascii_closed(start, rules),
    ensures
        unruled_are_ascii(iterate(start, rules, n), rules),
    decreases n,
{
    if n > 0 {
        lemma_iterate_stays_ascii(start, rules, (n - 1) as nat);
        lemma_rewrite_stays_ascii(iterate(start, rules, (n - 1) as nat), rules);
    }
}

proof fn lemma_within_budget(start: Seq<char>, rules: Map<char, Seq<char>>, done: nat)
    requires
        byte_len(start) <= MAX_LEN,
        ascii_closed(start, rules),
        rule_lengths_fit(rules),
        forall|k: nat| k < done ==> projected_len(#[trigger] iterate(start, rules, k), rules) <= MAX_LEN,
    ensures
        byte_len(iterate(start, rules, done)) <= MAX_LEN,
{
    if done > 0 {
        let prev = iterate(start, rules, (done - 1) as nat);
        assert(projected_len(prev, rules) <= MAX_LEN);
        lemma_iterate_stays_ascii(start, rules, (done - 1) as nat);
        lemma_projection_exact(prev, rules);
    }
}

/// Result of expanding a grammar, including whether the budget stopped it.
pub struct Expansion {
    pub string: String,
    /// Iterations actually completed before the budget stopped us.
    pub iterations_done: u32,
    pub truncated: bool,
}

/// Whether the next pass over `s` stays within `MAX_LEN`.
fn next_pass_fits(s: &String, rules: &Rules) -> (ok: bool)
    ensures
        ok == (projected_len(s@, rules@) <= MAX_LEN),
{
    let cap: usize = MAX_LEN + 1;
    let mut projected: usize = 0;
    for c in it: s.as_str().chars()
        invariant
            it.seq() == s@,
            projected as int == if projected_len(s@.take(it.index() as int), rules@) < cap {
                projected_len(s@.take(it.index() as int), rules@) as int
            } else {
                cap as int
            },
    {
        let ghost i = it.index() as int;
        assert(s@.take(i + 1).drop_last() =~= s@.take(i));
        assert(s@.take(i + 1).last() == c);
        let add: usize = match rules.get(c) {
            Some(r) => {
                let rs = r.as_str();
                assert(rs.spec_bytes() == encode_utf8(rules@[c]));
                rs.len()
            },
            None => 1,
        };
        assert(add == symbol_cost(rules@, c));
        assert(projected_len(s@.take(i + 1), rules@) == projected_len(s@.take(i), rules@) + add);
        if projected == cap || add >= cap - projected {
            projected = cap;
        } else {
            projected = projected + add;
        }
    }
    assert(s@.take(s@.len() as int) =~= s@);
    projected < cap
}

/// One rewrite pass over `s`.
fn rewrite_once(s: &String, rules: &Rules) -> (r: String)
    ensures
        r@ == rewrite(s@, rules@),
{
    let mut next = String::new();
    for c in it: s.as_str().chars()
        invariant
            it.seq() == s@,
            next@ == rewrite(s@.take(it.index() as int), rules@),
    {
        let ghost i = it.index() as int;
        assert(s@.take(i + 1).drop_last() =~= s@.take(i));
        assert(s@.take(i + 1).last() == c);
        match rules.get(c) {
            Some(r) => next.append(r.as_str()),
            None => push_char(&mut next, c),
        }
    }
    assert(s@.take(s@.len() as int) =~= s@);
    next
}

/// Run `iterations` rewrite passes over `start`.
///
/// Before each pass the size of its result is predicted; a pass that would
/// exceed `MAX_LEN` is not started, so the result is always a complete pass.
pub fn expand(start: &str, rules: &Rules, iterations: u32) -> (e: Expansion)
    ensures
        e.iterations_done <= iterations,
        e.truncated <==> e.iterations_done < iterations,
        e.string@ == iterate(start@, rules@, e.iterations_done as nat),
        forall|k: nat| k < e.iterations_done ==> projected_len(#[trigger] iterate(start@, rules@, k), rules@) <= MAX_LEN,
        e.truncated ==> projected_len(e.string@, rules@) > MAX_LEN,
        byte_len(start@) <= MAX_LEN && ascii_closed(start@, rules@) && rule_lengths_fit(rules@)
            ==> byte_len(e.string@) <= MAX_LEN,
{
    let mut current: String = start.to_owned();
    let mut done: u32 = 0;
    while done < iterations
        invariant
            done <= iterations,
            current@ == iterate(start@, rules@, done as nat),
            forall|k: nat| k < done ==> projected_len(#[trigger] iterate(start@, rules@, k), rules@) <= MAX_LEN,
        decreases iterations - done,
    {
        if !next_pass_fits(&current, rules) {
            proof {
                if byte_len(start@) <= MAX_LEN && ascii_closed(start@, rules@) && rule_lengths_fit(rules@) {
                    lemma_within_budget(start@, rules@, done as nat);
                }
            }
            return Expansion { string: current, iterations_done: done, truncated: true };
        }
        current = rewrite_once(&current, rules);
        done = done + 1;
    }
    proof {
        if byte_len(start@) <= MAX_LEN && ascii_closed(start@, rules@) && rule_lengths_fit(rules@) {
            lemma_within_budget(start@, rules@, done as nat);
        }
    }
    Expansion { string: current, iterations_done: done, truncated: false }
}


/// The rule table that a list of string-keyed rules denotes: entries whose
/// key is exactly one symbol, later entries overriding earlier ones; keys of
/// any other length are ignored.
pub open spec fn compiled_rules(raw: Seq<(String, String)>) -> Map<char, Seq<char>>
    decreases raw.len(),
{
    if raw.len() == 0 {
        Map::empty()
    } else {
        let earlier = compiled_rules(raw.drop_last());
        let entry = raw.last();
        if entry.0@.len() == 1 {
            earlier.insert(entry.0@[0], entry.1@)
        } else {
            earlier
        }
    }
}

/// Convert the string-keyed rule table of a species file into the
/// symbol-keyed table that `expand` uses. Multi-character keys are ignored:
/// this is a context-free, single-symbol L-system.
pub fn compile_rules(raw: &Vec<(String, String)>) -> (out: Rules)
    ensures
        out@ == compiled_rules(raw@),
{
    let mut out = Rules::new();
    let mut i: usize = 0;
    while i < raw.len()
        invariant
            i <= raw@.len(),
            out@ == compiled_rules(raw@.take(i as int)),
        decreases raw@.len() - i,
    {
        assert(raw@.take(i + 1).drop_last() =~= raw@.take(i as int));
        let key = chars_of(raw[i].0.as_str());
        if key.len() == 1 {
            out.insert(key[0], raw[i].1.clone());
        }
        i += 1;
    }
    assert(raw@.take(raw@.len() as int) =~= raw@);
    out
}

/// Rewriting is simultaneous and context-free: a pass over a concatenation is
/// the concatenation of the passes over its parts.
pub proof fn lemma_rewrite_concat(a: Seq<char>, b: Seq<char>, rules: Map<char, Seq<char>>)
    ensures
        rewrite(a + b, rules) == rewrite(a, rules) + rewrite(b, rules),
    decreases b.len(),
{
    if b.len() == 0 {
        assert(a + b =~= a);
        assert(rewrite(a, rules) + rewrite(b, rules) =~= rewrite(a, rules));
    } else {
        assert((a + b).drop_last() =~= a + b.drop_last());
        assert((a + b).last() == b.last());
        lemma_rewrite_concat(a, b.drop_last(), rules);
        assert(rewrite(a + b, rules) =~= rewrite(a, rules) + rewrite(b, rules));
    }
}

/// A symbol with no rule maps to itself: a string none of whose symbols has a
/// rule is left unchanged by a pass.
pub proof fn lemma_unruled_symbols_pass_through(s: Seq<char>, rules: Map<char, Seq<char>>)
    requires
        forall|i: int| 0 <= i < s.len() ==> !rules.contains_key(#[trigger] s[i]),
    ensures
        rewrite(s, rules) == s,
    decreases s.len(),
{
    if s.len() > 0 {
        assert forall|i: int| 0 <= i < s.drop_last().len() implies !rules.contains_key(#[trigger] s.drop_last()[i]) by {
            assert(s.drop_last()[i] == s[i]);
        }
        lemma_unruled_symbols_pass_through(s.drop_last(), rules);
        assert(!rules.contains_key(s[s.len() - 1]));
        assert(rewrite(s, rules) =~= s);
    }
}

/// Passes compose: `m` passes over the result of `n` passes are `n + m`
/// passes over the start.
pub proof fn lemma_iterate_adds(start: Seq<char>, rules: Map<char, Seq<char>>, n: nat, m: nat)
    ensures
        iterate(iterate(start, rules, n), rules, m) == iterate(start, rules, n + m),
    decreases m,
{
    if m > 0 {
        lemma_iterate_adds(start, rules, n, (m - 1) as nat);
        assert((n + m - 1) as nat == n + (m - 1) as nat);
    }
}

} // verus!
