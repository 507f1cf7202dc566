//! Matching a grammar one character at a time over a tree of rule nodes.
use indextree::{Arena, NodeId};
use xml_oxide::parser::{Parser, ParsingRule, RuleType};
use xml_oxide::tree::{new_char, new_tree, PNode, StateType};

fn rule(name: &str, t: RuleType, parts: &[&str], chars: &[char]) -> ParsingRule {
    let mut r = ParsingRule::new(name.to_string(), t);
    r.children_names = parts.iter().map(|s| s.to_string()).collect();
    r.expected_chars = chars.to_vec();
    r
}

/// 'a', "bc", 'a' "bc", 'a' | "bc", 'a'?, not 'a', [x-z] - 'y', 'a' & 'a'
fn grammar() -> Parser {
    let mut xz = rule("[x-z]", RuleType::Chars, &[], &[]);
    xz.expected_char_ranges = vec![('x', 'z')];
    let rule_vec = vec![
        rule("a", RuleType::Chars, &[], &['a']),
        rule("bc", RuleType::CharSequence, &[], &['b', 'c']),
        rule("a bc", RuleType::Sequence, &["a", "bc"], &[]),
        rule("a | bc", RuleType::Or, &["a", "bc"], &[]),
        rule("a?", RuleType::Optional, &["a"], &[]),
        rule("!a", RuleType::Not, &["a"], &[]),
        xz,
        rule("y", RuleType::Chars, &[], &['y']),
        rule("[x-z] - y", RuleType::WithException, &["[x-z]", "y"], &[]),
        rule("[^a]", RuleType::CharsNot, &[], &['a']),
    ];
    let rule_registry = rule_vec
        .iter()
        .enumerate()
        .map(|(i, r)| (r.rule_name.clone(), i))
        .collect();
    Parser { rule_vec, rule_registry }
}

fn start(arena: &mut Arena<PNode>, p: &Parser, name: &str) -> NodeId {
    let t = p.rule_vec.iter().find(|r| r.rule_name == name).unwrap().rule_type;
    arena.new_node(PNode {
        rulename: name.to_string(),
        ruletype: t,
        state: StateType::Init,
        current_sequence: 0,
    })
}

fn feed(p: &Parser, arena: &mut Arena<PNode>, id: NodeId, c: char) -> Option<(StateType, bool)> {
    let mut peeked = 0;
    new_char(p, id, arena, c, &vec![], &mut peeked, 64)
}

#[test]
fn a_character_rule_passes_or_fails_by_its_class() {
    let p = grammar();
    let mut arena = Arena::new();
    let a = start(&mut arena, &p, "a");
    assert_eq!(feed(&p, &mut arena, a, 'a'), Some((StateType::Pass, true)));
    assert_eq!(arena[a].get().state, StateType::Pass);
    let a2 = start(&mut arena, &p, "a");
    assert_eq!(feed(&p, &mut arena, a2, 'b'), Some((StateType::Fail, false)));
    assert_eq!(arena[a2].get().state, StateType::Fail);
    let not_a = start(&mut arena, &p, "[^a]");
    assert_eq!(feed(&p, &mut arena, not_a, 'b'), Some((StateType::Pass, true)));
    let xz = start(&mut arena, &p, "[x-z]");
    assert_eq!(feed(&p, &mut arena, xz, 'y'), Some((StateType::Pass, true)));
}

#[test]
fn a_decided_node_keeps_its_state() {
    let p = grammar();
    let mut arena = Arena::new();
    let a = start(&mut arena, &p, "a");
    feed(&p, &mut arena, a, 'a');
    assert_eq!(feed(&p, &mut arena, a, 'q'), Some((StateType::Pass, false)));
    assert_eq!(arena[a].get().state, StateType::Pass);
}

#[test]
fn a_character_sequence_waits_until_its_last_character() {
    let p = grammar();
    let mut arena = Arena::new();
    let bc = start(&mut arena, &p, "bc");
    assert_eq!(feed(&p, &mut arena, bc, 'b'), Some((StateType::Wait, true)));
    assert_eq!(arena[bc].get().current_sequence, 1);
    assert_eq!(feed(&p, &mut arena, bc, 'c'), Some((StateType::Pass, true)));
    assert_eq!(arena[bc].get().current_sequence, 2);
    let bc2 = start(&mut arena, &p, "bc");
    assert_eq!(feed(&p, &mut arena, bc2, 'x'), Some((StateType::Fail, true)));
}

#[test]
fn a_sequence_hands_each_character_to_its_open_part() {
    let p = grammar();
    let mut arena = Arena::new();
    let s = start(&mut arena, &p, "a bc");
    assert_eq!(feed(&p, &mut arena, s, 'a'), Some((StateType::Wait, true)));
    assert_eq!(s.children(&arena).count(), 2);
    assert_eq!(feed(&p, &mut arena, s, 'b'), Some((StateType::Wait, true)));
    assert_eq!(feed(&p, &mut arena, s, 'c'), Some((StateType::Pass, true)));
    // the parts were made once
    assert_eq!(s.children(&arena).count(), 2);
    let s2 = start(&mut arena, &p, "a bc");
    assert_eq!(feed(&p, &mut arena, s2, 'b'), Some((StateType::Fail, false)));
}

#[test]
fn alternatives_options_negations_and_exceptions() {
    let p = grammar();
    let mut arena = Arena::new();
    let or = start(&mut arena, &p, "a | bc");
    assert_eq!(feed(&p, &mut arena, or, 'a'), Some((StateType::Pass, true)));
    let or2 = start(&mut arena, &p, "a | bc");
    assert_eq!(feed(&p, &mut arena, or2, 'b'), Some((StateType::Wait, true)));
    let opt = start(&mut arena, &p, "a?");
    assert_eq!(feed(&p, &mut arena, opt, 'x'), Some((StateType::Pass, false)));
    let not = start(&mut arena, &p, "!a");
    assert_eq!(feed(&p, &mut arena, not, 'a'), Some((StateType::Fail, true)));
    let ex = start(&mut arena, &p, "[x-z] - y");
    assert_eq!(feed(&p, &mut arena, ex, 'x'), Some((StateType::Pass, true)));
    let ex2 = start(&mut arena, &p, "[x-z] - y");
    assert_eq!(feed(&p, &mut arena, ex2, 'y'), Some((StateType::Fail, false)));
}

#[test]
fn a_walk_deeper_than_allowed_gives_nothing() {
    let p = grammar();
    let mut arena = Arena::new();
    let s = start(&mut arena, &p, "a bc");
    let mut peeked = 0;
    assert_eq!(new_char(&p, s, &mut arena, 'a', &vec![], &mut peeked, 0), None);
}

#[test]
fn a_tree_starts_from_a_named_rule() {
    let p = grammar();
    assert!(new_tree(&p, &"nothing".to_string()).is_none());
    let (mut arena, root) = new_tree(&p, &"a bc".to_string()).unwrap();
    assert_eq!(arena[root].get().rulename, "a bc");
    assert_eq!(arena[root].get().state, StateType::Init);
    assert_eq!(root.children(&arena).count(), 0);
    assert_eq!(feed(&p, &mut arena, root, 'a'), Some((StateType::Wait, true)));
    assert_eq!(arena[root].get().current_sequence, 1);
}

#[test]
fn an_alternative_with_two_passing_parts_waits() {
    let mut p = grammar();
    p.rule_vec.push(rule("a | a", RuleType::Or, &["a", "a"], &[]));
    p.rule_registry.push(("a | a".to_string(), p.rule_vec.len() - 1));
    let (mut arena, root) = new_tree(&p, &"a | a".to_string()).unwrap();
    assert_eq!(feed(&p, &mut arena, root, 'a'), Some((StateType::Wait, true)));
    assert_eq!(arena[root].get().state, StateType::Wait);
}

#[test]
fn an_exception_looks_ahead_while_its_excluded_part_waits() {
    let mut p = grammar();
    p.rule_vec.push(rule("[^a] - bc", RuleType::WithException, &["[^a]", "bc"], &[]));
    p.rule_registry.push(("[^a] - bc".to_string(), p.rule_vec.len() - 1));
    let (mut arena, root) = new_tree(&p, &"[^a] - bc".to_string()).unwrap();
    let mut peeked = 0;
    assert_eq!(
        new_char(&p, root, &mut arena, 'b', &vec!['c'], &mut peeked, 64),
        Some((StateType::Fail, false))
    );
    assert_eq!(peeked, 1);
    let (mut arena, root) = new_tree(&p, &"[^a] - bc".to_string()).unwrap();
    let mut peeked = 0;
    assert_eq!(
        new_char(&p, root, &mut arena, 'b', &vec!['x'], &mut peeked, 64),
        Some((StateType::Pass, true))
    );
    assert_eq!(peeked, 1);
    let (mut arena, root) = new_tree(&p, &"[^a] - bc".to_string()).unwrap();
    let mut peeked = 0;
    assert_eq!(new_char(&p, root, &mut arena, 'b', &vec![], &mut peeked, 64), None);
}
