//! Running a grammar held as rules over characters.
use xml_oxide::parser::{
    lookup, parse_with_rule, parse_with_rule_bounded, prepare_rules, LogCalls,
    ParsingPassLogStream, ParsingResult, ParsingRule, RuleType,
};

/// Remembers what it is told.
#[derive(Default)]
struct Log {
    tried: Vec<(String, usize)>,
    passed: Vec<(String, usize, usize)>,
}

impl ParsingPassLogStream for Log {
    /// The record of calls is a view for proofs; nothing runs it.
    fn calls(&self) -> LogCalls {
        unreachable!()
    }

    fn try_rule(&mut self, rule_name: String, starting_pos: usize) {
        self.tried.push((rule_name, starting_pos));
    }

    fn pass(&mut self, rule_name: String, _chars: &Vec<char>, starting_pos: usize, ending_pos: usize) {
        self.passed.push((rule_name, starting_pos, ending_pos));
    }
}

fn chars_rule(name: &str, chars: &str) -> ParsingRule {
    let mut r = ParsingRule::new(name.to_string(), RuleType::Chars);
    r.expected_chars = chars.chars().collect();
    r
}

fn parent(name: &str, t: RuleType, children: Vec<usize>) -> ParsingRule {
    let mut r = ParsingRule::new(name.to_string(), t);
    r.children = children;
    r
}

/// 0: 'a'  1: 'a'*  2: "bc"  3: 'a'* "bc"  4: 'a' | "bc"  5: 'a'?
/// 6: [x-z] - 'y'  7: not 'a'  8: ('a'?)*
fn grammar() -> Vec<ParsingRule> {
    let mut bc = ParsingRule::new("bc".to_string(), RuleType::CharSequence);
    bc.expected_chars = vec!['b', 'c'];
    let mut xz = ParsingRule::new("[x-z]".to_string(), RuleType::Chars);
    xz.expected_char_ranges = vec![('x', 'z')];
    let y = chars_rule("y", "y");
    let mut not_a = ParsingRule::new("[^a]".to_string(), RuleType::CharsNot);
    not_a.expected_chars = vec!['a'];
    vec![
        chars_rule("a", "a"),
        parent("a*", RuleType::ZeroOrMore, vec![0]),
        bc,
        parent("a* bc", RuleType::Sequence, vec![1, 2]),
        parent("a | bc", RuleType::Or, vec![0, 2]),
        parent("a?", RuleType::Optional, vec![0]),
        parent("[x-z] - y", RuleType::WithException, vec![9, 10]),
        not_a,
        parent("(a?)*", RuleType::ZeroOrMore, vec![5]),
        xz,
        y,
    ]
}

fn run(rule: usize, input: &str) -> (Log, ParsingResult, Vec<(usize, usize, bool)>) {
    let rules = grammar();
    let chars: Vec<char> = input.chars().collect();
    let mut resume = vec![];
    let mut state = vec![];
    let (log, res) = parse_with_rule(
        &rules,
        &rules[rule],
        &chars,
        0,
        0,
        &mut resume,
        &mut state,
        Log::default(),
    );
    (log, res, state)
}

fn result(r: &ParsingResult) -> String {
    match r {
        ParsingResult::Pass(s, e) => format!("Pass({}, {})", s, e),
        ParsingResult::Fail => "Fail".to_string(),
        ParsingResult::EOF => "EOF".to_string(),
    }
}

#[test]
fn single_characters() {
    assert_eq!(result(&run(0, "a").1), "Pass(0, 1)");
    assert_eq!(result(&run(0, "b").1), "Fail");
    assert_eq!(result(&run(0, "").1), "EOF");
    assert_eq!(result(&run(7, "b").1), "Pass(0, 1)");
    assert_eq!(result(&run(7, "a").1), "Fail");
    assert_eq!(result(&run(9, "y").1), "Pass(0, 1)");
    assert_eq!(result(&run(9, "w").1), "Fail");
}

#[test]
fn character_sequences() {
    assert_eq!(result(&run(2, "bcd").1), "Pass(0, 2)");
    assert_eq!(result(&run(2, "bd").1), "Fail");
    assert_eq!(result(&run(2, "b").1), "EOF");
}

#[test]
fn repetitions_and_sequences() {
    assert_eq!(result(&run(1, "aab").1), "Pass(0, 2)");
    assert_eq!(result(&run(1, "aa").1), "EOF");
    let (log, res, state) = run(3, "aabc");
    assert_eq!(result(&res), "Pass(0, 4)");
    assert!(state.is_empty());
    assert_eq!(log.passed.last().unwrap(), &("a* bc".to_string(), 0, 4));
    assert_eq!(log.tried[0], ("a* bc".to_string(), 0));
    let (_, res, state) = run(3, "aax");
    assert_eq!(result(&res), "Fail");
    assert!(state.is_empty());
    // the sequence keeps its place on the state stack when the input ends
    let (_, res, state) = run(3, "ab");
    assert_eq!(result(&res), "EOF");
    assert_eq!(state, vec![(1, 1, true)]);
}

#[test]
fn alternatives_options_and_exceptions() {
    assert_eq!(result(&run(4, "bc").1), "Pass(0, 2)");
    assert_eq!(result(&run(4, "x").1), "Fail");
    let (_, res, state) = run(4, "b");
    assert_eq!(result(&res), "EOF");
    assert_eq!(state, vec![(1, 0, true)]);
    assert_eq!(result(&run(5, "b").1), "Pass(0, 0)");
    assert_eq!(result(&run(5, "a").1), "Pass(0, 1)");
    assert_eq!(result(&run(6, "x").1), "Pass(0, 1)");
    assert_eq!(result(&run(6, "y").1), "Fail");
}

#[test]
fn resuming_a_sequence() {
    let rules = grammar();
    let chars: Vec<char> = "abc".chars().collect();
    let mut resume = vec![(1, 1, true)];
    let mut state = vec![];
    let (_, res) = parse_with_rule(&rules, &rules[3], &chars, 0, 0, &mut resume, &mut state, Log::default());
    assert_eq!(result(&res), "Pass(0, 3)");
    assert!(resume.is_empty());
}

#[test]
fn a_run_without_end_runs_out_of_steps() {
    let rules = grammar();
    let chars: Vec<char> = "b".chars().collect();
    let mut resume = vec![];
    let mut state = vec![];
    let (_, res) = parse_with_rule_bounded(
        &rules, &rules[8], &chars, 0, 0, &mut resume, &mut state, Log::default(), 1000,
    );
    assert!(res.is_none());
    let (_, res) = parse_with_rule_bounded(
        &rules, &rules[3], &chars, 0, 0, &mut resume, &mut state, Log::default(), 1000,
    );
    assert_eq!(result(&res.unwrap()), "EOF");
}

#[test]
fn a_larger_budget_gives_the_same_result() {
    let rules = grammar();
    let chars: Vec<char> = "aabcx".chars().collect();
    for fuel in [10usize, 100, 10000] {
        let (_, res) = parse_with_rule_bounded(
            &rules, &rules[3], &chars, 0, 0, &mut vec![], &mut vec![], Log::default(), fuel,
        );
        assert_eq!(result(&res.unwrap()), "Pass(0, 4)");
    }
    let (_, res) = parse_with_rule_bounded(
        &rules, &rules[3], &chars, 0, 0, &mut vec![], &mut vec![], Log::default(), 2,
    );
    assert!(res.is_none());
}

#[test]
fn the_xml_grammar_takes_a_comment() {
    let p = prepare_rules();
    let comment = lookup(&p.rule_registry, &"Comment".to_string()).unwrap();
    let chars: Vec<char> = "<!-- x -->a".chars().collect();
    let mut resume = vec![];
    let mut state = vec![];
    let (log, res) = parse_with_rule(
        &p.rule_vec,
        &p.rule_vec[comment],
        &chars,
        0,
        0,
        &mut resume,
        &mut state,
        Log::default(),
    );
    assert_eq!(result(&res), "Pass(0, 10)");
    assert!(log.passed.contains(&("'-->'".to_string(), 7, 10)));

    let chars: Vec<char> = "<!-- x --->".chars().collect();
    let (_, res) = parse_with_rule(
        &p.rule_vec,
        &p.rule_vec[comment],
        &chars,
        0,
        0,
        &mut vec![],
        &mut vec![],
        Log::default(),
    );
    assert_eq!(result(&res), "Fail");
}

#[test]
fn the_logger_hears_each_try_and_each_pass() {
    let (log, _, _) = run(0, "a");
    assert_eq!(log.tried, vec![("a".to_string(), 0)]);
    assert_eq!(log.passed, vec![("a".to_string(), 0, 1)]);
    let (log, _, _) = run(0, "b");
    assert_eq!(log.tried, vec![("a".to_string(), 0)]);
    assert!(log.passed.is_empty());
    let (log, _, _) = run(2, "bd");
    assert_eq!(log.tried, vec![("bc".to_string(), 0)]);
    assert!(log.passed.is_empty());
    let (log, _, _) = run(5, "b");
    assert_eq!(log.tried, vec![("a?".to_string(), 0), ("a".to_string(), 0)]);
    assert_eq!(log.passed, vec![("a?".to_string(), 0, 0)]);
}
