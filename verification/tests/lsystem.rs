use xunfollow::lsystem::{compile_rules, expand, Rules, MAX_LEN};

fn rules(pairs: &[(char, &str)]) -> Rules {
    let mut r = Rules::new();
    for (c, s) in pairs {
        r.insert(*c, s.to_string());
    }
    r
}

#[test]
fn lindenmayers_algae() {
    let r = rules(&[('A', "AB"), ('B', "A")]);
    assert_eq!(expand("A", &r, 0).string, "A");
    assert_eq!(expand("A", &r, 1).string, "AB");
    assert_eq!(expand("A", &r, 2).string, "ABA");
    assert_eq!(expand("A", &r, 3).string, "ABAAB");
    assert_eq!(expand("A", &r, 5).string, "ABAABABAABAAB");
}

#[test]
fn symbols_without_rules_pass_through() {
    let r = rules(&[('F', "FF")]);
    assert_eq!(expand("F[+F]", &r, 1).string, "FF[+FF]");
}

#[test]
fn budget_stops_runaway_growth() {
    let r = rules(&[('F', "FFFF")]);
    let e = expand("F", &r, 30);
    assert!(e.truncated);
    assert!(e.string.len() <= MAX_LEN);
    assert!(e.iterations_done < 30);
}

#[test]
fn budget_stops_at_last_complete_pass() {
    // 4^9 = 262144 fits, 4^10 would not.
    let r = rules(&[('F', "FFFF")]);
    let e = expand("F", &r, 30);
    assert_eq!(e.iterations_done, 9);
    assert_eq!(e.string.len(), 262_144);
    assert!(e.string.chars().all(|c| c == 'F'));
}

#[test]
fn expansion_within_budget_is_not_truncated() {
    let r = rules(&[('F', "FF")]);
    let e = expand("F", &r, 4);
    assert!(!e.truncated);
    assert_eq!(e.iterations_done, 4);
    assert_eq!(e.string, "F".repeat(16));
}

#[test]
fn budget_counts_rule_bytes() {
    // One pass of a 400_001-byte rule is refused before it is built.
    let r = rules(&[('X', &"a".repeat(400_001))]);
    let e = expand("X", &r, 1);
    assert!(e.truncated);
    assert_eq!(e.iterations_done, 0);
    assert_eq!(e.string, "X");
    // Exactly at the budget is allowed.
    let r = rules(&[('X', &"a".repeat(400_000))]);
    let e = expand("X", &r, 1);
    assert!(!e.truncated);
    assert_eq!(e.string.len(), 400_000);
}

#[test]
fn passes_compose() {
    let r = rules(&[('X', "F[+X]F[-X]+X"), ('F', "FF")]);
    let two = expand("X", &r, 2).string;
    let one_then_one = expand(&expand("X", &r, 1).string, &r, 1).string;
    assert_eq!(two, one_then_one);
}

#[test]
fn rewrite_is_context_free() {
    let r = rules(&[('A', "AB"), ('B', "A")]);
    let whole = expand("AB", &r, 1).string;
    let parts = expand("A", &r, 1).string + &expand("B", &r, 1).string;
    assert_eq!(whole, parts);
}

#[test]
fn later_rule_replaces_earlier() {
    let mut r = Rules::new();
    r.insert('F', "FF".to_string());
    r.insert('F', "G".to_string());
    assert_eq!(r.get('F').map(|s| s.as_str()), Some("G"));
    assert_eq!(r.get('X'), None);
    assert_eq!(expand("F", &r, 1).string, "G");
}

#[test]
fn compile_rules_keeps_single_symbol_keys() {
    let raw = vec![
        ("X".to_string(), "F[+X]".to_string()),
        ("FF".to_string(), "ignored".to_string()),
        ("".to_string(), "ignored".to_string()),
        ("F".to_string(), "FF".to_string()),
    ];
    let r = compile_rules(&raw);
    assert_eq!(r.get('X').map(|s| s.as_str()), Some("F[+X]"));
    assert_eq!(r.get('F').map(|s| s.as_str()), Some("FF"));
    assert_eq!(expand("X", &r, 1).string, "F[+X]");
}

#[test]
fn compile_rules_multibyte_key_is_one_symbol() {
    let raw = vec![("é".to_string(), "ab".to_string())];
    let r = compile_rules(&raw);
    assert_eq!(expand("éé", &r, 1).string, "abab");
}
