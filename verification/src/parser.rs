//! A grammar held as data: named rules that refer to their parts by name,
//! and the XML grammar written that way.
use vstd::prelude::*;
use vstd::string::StringExecFns;

verus! {

/// How a rule combines its parts.
#[derive(PartialEq, Eq, Debug, Clone, Copy, Structural)]
pub enum RuleType {
    And,
    Not,
    Sequence,
    Or,
    /// one character out of the expected characters and ranges
    Chars,
    /// the expected characters one after another
    CharSequence,
    /// one character that is none of the expected ones
    CharsNot,
    ZeroOrMore,
    /// the first part, where the second does not match
    WithException,
    Optional,
}

/// A rule of the grammar: its name, how it combines its parts, the names of
/// its parts (and their places in the rule list once resolved), and the
/// characters it expects.
#[derive(Debug)]
pub struct ParsingRule {
    pub rule_name: String,
    pub rule_type: RuleType,
    pub children: Vec<usize>,
    pub children_names: Vec<String>,
    pub expected_char_ranges: Vec<(char, char)>,
    pub expected_chars: Vec<char>,
    pub is_chunkable: bool,
}

/// What a rule holds.
#[verifier::ext_equal]
pub struct RuleView {
    pub rule_name: Seq<char>,
    pub rule_type: RuleType,
    pub children: Seq<usize>,
    pub children_names: Seq<Seq<char>>,
    pub expected_char_ranges: Seq<(char, char)>,
    pub expected_chars: Seq<char>,
    pub is_chunkable: bool,
}

/// The characters of each string.
pub open spec fn strings_view(v: Seq<String>) -> Seq<Seq<char>> {
    v.map_values(|s: String| s@)
}

impl View for ParsingRule {
    type V = RuleView;

    open spec fn view(&self) -> RuleView {
        RuleView {
            rule_name: self.rule_name@,
            rule_type: self.rule_type,
            children: self.children@,
            children_names: strings_view(self.children_names@),
            expected_char_ranges: self.expected_char_ranges@,
            expected_chars: self.expected_chars@,
            is_chunkable: self.is_chunkable,
        }
    }
}

/// A copy of each string, in order.
pub fn copy_strings(v: &Vec<String>) -> (r: Vec<String>)
    ensures
        strings_view(r@) == strings_view(v@),
{
    let mut r: Vec<String> = Vec::new();
    let mut i: usize = 0;
    while i < v.len()
        invariant
            i <= v.len(),
            r.len() == i,
            forall|j: int| 0 <= j < i ==> (#[trigger] r@[j])@ == v@[j]@,
        decreases v.len() - i,
    {
        r.push(v[i].clone());
        i = i + 1;
    }
    assert(strings_view(r@) =~= strings_view(v@));
    r
}

fn copy_vec<T: Copy>(v: &Vec<T>) -> (r: Vec<T>)
    ensures
        r@ == v@,
{
    let mut r: Vec<T> = Vec::new();
    let mut i: usize = 0;
    while i < v.len()
        invariant
            i <= v.len(),
            r@ == v@.take(i as int),
        decreases v.len() - i,
    {
        r.push(v[i]);
        i = i + 1;
        assert(r@ =~= v@.take(i as int));
    }
    assert(v@.take(v.len() as int) =~= v@);
    r
}

impl ParsingRule {
    /// A rule with this name and type, no parts and no expected characters;
    /// it may be taken in chunks.
    pub fn new(rule_name: String, rule_type: RuleType) -> (r: ParsingRule)
        ensures
            r@ == (RuleView {
                rule_name: rule_name@,
                rule_type,
                children: Seq::empty(),
                children_names: Seq::empty(),
                expected_char_ranges: Seq::empty(),
                expected_chars: Seq::empty(),
                is_chunkable: true,
            }),
            r.children_names@ == Seq::<String>::empty(),
    {
        let r = ParsingRule {
            rule_name: rule_name,
            rule_type: rule_type,
            children: Vec::new(),
            children_names: Vec::new(),
            expected_char_ranges: Vec::new(),
            expected_chars: Vec::new(),
            is_chunkable: true,
        };
        assert(r@.children_names =~= Seq::empty());
        r
    }

    /// A copy of the rule.
    pub fn clone_rule(&self) -> (r: ParsingRule)
        ensures
            r@ == self@,
    {
        ParsingRule {
            rule_name: self.rule_name.clone(),
            rule_type: self.rule_type,
            children: copy_vec(&self.children),
            children_names: copy_strings(&self.children_names),
            expected_char_ranges: copy_vec(&self.expected_char_ranges),
            expected_chars: copy_vec(&self.expected_chars),
            is_chunkable: self.is_chunkable,
        }
    }
}

/// A grammar: its rules, and the place of each rule by name.
pub struct Parser {
    pub rule_vec: Vec<ParsingRule>,
    /// each rule name with the place of its rule in `rule_vec`; no name
    /// occurs twice
    pub rule_registry: Vec<(String, usize)>,
}

/// What a grammar holds.
pub struct GrammarView {
    pub rules: Seq<RuleView>,
    pub registry: Seq<(Seq<char>, usize)>,
}

pub open spec fn rules_view(v: Seq<ParsingRule>) -> Seq<RuleView> {
    v.map_values(|r: ParsingRule| r@)
}

pub open spec fn registry_view(v: Seq<(String, usize)>) -> Seq<(Seq<char>, usize)> {
    v.map_values(|e: (String, usize)| (e.0@, e.1))
}

impl View for Parser {
    type V = GrammarView;

    open spec fn view(&self) -> GrammarView {
        GrammarView { rules: rules_view(self.rule_vec@), registry: registry_view(self.rule_registry@) }
    }
}

/// The place registered for `name` among the first `n` registry entries
/// (the last one when the name occurs more than once).
pub open spec fn lookup_name(registry: Seq<(Seq<char>, usize)>, name: Seq<char>, n: int) -> Option<
    usize,
>
    decreases n,
{
    if n <= 0 {
        None
    } else if registry[n - 1].0 == name {
        Some(registry[n - 1].1)
    } else {
        lookup_name(registry, name, n - 1)
    }
}

/// The place registered for `name`.
pub open spec fn place_of(g: GrammarView, name: Seq<char>) -> Option<usize> {
    lookup_name(g.registry, name, g.registry.len() as int)
}

/// Every registry entry names the rule at its place, and no name is
/// registered twice.
pub open spec fn registry_wf(g: GrammarView) -> bool {
    &&& forall|i: int|
        0 <= i < g.registry.len() ==> (#[trigger] g.registry[i]).1 < g.rules.len()
            && g.rules[g.registry[i].1 as int].rule_name == g.registry[i].0
    &&& forall|i: int, j: int|
        0 <= i < j < g.registry.len() ==> (#[trigger] g.registry[i]).0 != (
        #[trigger] g.registry[j]).0
}

/// The registry is sound and every part of every rule is registered.
pub open spec fn grammar_wf(g: GrammarView) -> bool {
    &&& registry_wf(g)
    &&& forall|k: int, c: int|
        0 <= k < g.rules.len() && 0 <= c < g.rules[k].children_names.len() ==> place_of(
            g,
            #[trigger] g.rules[k].children_names[c],
        ) is Some
}

/// The place registered for `name` (see `lookup_name`).
pub fn lookup(registry: &Vec<(String, usize)>, name: &String) -> (r: Option<usize>)
    ensures
        r == lookup_name(registry_view(registry@), name@, registry.len() as int),
{
    let mut n = registry.len();
    while n > 0
        invariant
            n <= registry.len(),
            lookup_name(registry_view(registry@), name@, n as int) == lookup_name(
                registry_view(registry@),
                name@,
                registry.len() as int,
            ),
        decreases n,
    {
        if registry[n - 1].0 == *name {
            return Some(registry[n - 1].1);
        }
        n = n - 1;
    }
    None
}

/// The results of `parse_with_rule`: the rule matched the characters from
/// the first to the second position, it did not match, or the characters
/// ran out.
pub enum ParsingResult {
    Pass(usize, usize),
    Fail,
    EOF,
}

/// What a user of `parse_with_rule` hears of its progress: each rule it
/// tries, and each rule that passes with the characters it took.
pub trait ParsingPassLogStream {
    /// The calls made on this logger so far, in order. It is a view for
    /// proofs only: compiled code never calls it.
    spec fn calls(&self) -> LogCalls;

    /// `rule_name` is about to be tried at `starting_pos`.
    fn try_rule(&mut self, rule_name: String, starting_pos: usize)
        ensures
            final(self).calls() == old(self).calls().push(LogCall::Try(rule_name@, starting_pos)),
    ;

    /// `rule_name` matched `chars` from `starting_pos` to `ending_pos`.
    fn pass(&mut self, rule_name: String, chars: &Vec<char>, starting_pos: usize, ending_pos: usize)
        ensures
            final(self).calls() == old(self).calls().push(
                LogCall::Pass(rule_name@, chars@, starting_pos, ending_pos),
            ),
    ;
}


/// No two rules share a name.
pub open spec fn unique_names(rules: Seq<RuleView>) -> bool {
    forall|i: int, j: int|
        0 <= i < j < rules.len() ==> (#[trigger] rules[i]).rule_name != (#[trigger] rules[j]).rule_name
}

/// The list with `rule` added: it replaces the rule of the same name in its
/// place, or goes at the end when there is none.
pub open spec fn with_rule(rules: Seq<RuleView>, rule: RuleView) -> Seq<RuleView> {
    let i = index_of_name(rules, rule.rule_name, rules.len() as int);
    if i < 0 {
        rules.push(rule)
    } else {
        rules.update(i, rule)
    }
}

/// The place of the last rule among the first `n` with this name, or -1.
pub open spec fn index_of_name(rules: Seq<RuleView>, name: Seq<char>, n: int) -> int
    decreases n,
{
    if n <= 0 {
        -1
    } else if rules[n - 1].rule_name == name {
        n - 1
    } else {
        index_of_name(rules, name, n - 1)
    }
}

pub(crate) proof fn lemma_index_of_name(rules: Seq<RuleView>, name: Seq<char>, n: int)
    requires
        0 <= n <= rules.len(),
    ensures
        -1 <= index_of_name(rules, name, n) < n,
        index_of_name(rules, name, n) >= 0 ==> rules[index_of_name(rules, name, n)].rule_name
            == name,
        index_of_name(rules, name, n) < 0 ==> forall|i: int|
            0 <= i < n ==> (#[trigger] rules[i]).rule_name != name,
    decreases n,
{
    if n > 0 {
        lemma_index_of_name(rules, name, n - 1);
    }
}

/// No rule has its parts resolved yet.
pub open spec fn no_children(rules: Seq<RuleView>) -> bool {
    forall|k: int| 0 <= k < rules.len() ==> (#[trigger] rules[k]).children.len() == 0
}

/// Add a rule to the list (see `with_rule`).
pub fn insert_rule(rules: &mut Vec<ParsingRule>, rule: ParsingRule)
    requires
        unique_names(rules_view(old(rules)@)),
    ensures
        unique_names(rules_view(final(rules)@)),
        rules_view(final(rules)@) == with_rule(rules_view(old(rules)@), rule@),
        no_children(rules_view(old(rules)@)) && rule@.children.len() == 0 ==> no_children(
            rules_view(final(rules)@),
        ),
{
    let ghost before = rules_view(rules@);
    let ghost rv = rule@;
    proof {
        lemma_index_of_name(before, rv.rule_name, before.len() as int);
    }
    let mut n = rules.len();
    while n > 0
        invariant
            n <= rules.len(),
            before == rules_view(rules@),
            index_of_name(before, rv.rule_name, n as int) == index_of_name(
                before,
                rv.rule_name,
                before.len() as int,
            ),
            rv == rule@,
            before == rules_view(old(rules)@),
            unique_names(before),
        decreases n,
    {
        if rules[n - 1].rule_name == rule.rule_name {
            assert(before[n - 1].rule_name == rv.rule_name);
            assert(index_of_name(before, rv.rule_name, n as int) == n - 1);
            rules.set(n - 1, rule);
            assert(rules_view(rules@) =~= before.update(n - 1, rv));
            assert forall|i: int| 0 <= i < before.len() implies (#[trigger] rules_view(
                rules@,
            )[i]).rule_name == before[i].rule_name by {
                if i == n - 1 {
                    assert(rules_view(rules@)[i] == rv);
                }
            }
            assert forall|i: int, j: int|
                0 <= i < j < rules_view(rules@).len() implies (#[trigger] rules_view(
                rules@,
            )[i]).rule_name != (#[trigger] rules_view(rules@)[j]).rule_name by {
                assert(before[i].rule_name != before[j].rule_name);
            }
            return;
        }
        n = n - 1;
    }
    rules.push(rule);
    assert(rules_view(rules@) =~= before.push(rv));
}

/// A rule with no resolved parts, as the XML grammar writes it.
pub open spec fn rule_spec(
    rule_name: Seq<char>,
    rule_type: RuleType,
    children_names: Seq<Seq<char>>,
    expected_char_ranges: Seq<(char, char)>,
    expected_chars: Seq<char>,
    is_chunkable: bool,
) -> RuleView {
    RuleView {
        rule_name,
        rule_type,
        children: Seq::empty(),
        children_names,
        expected_char_ranges,
        expected_chars,
        is_chunkable,
    }
}

/// The list with each of `l` added in turn (see `with_rule`).
pub open spec fn add_rules(s: Seq<RuleView>, l: Seq<RuleView>) -> Seq<RuleView>
    decreases l.len(),
{
    if l.len() == 0 {
        s
    } else {
        with_rule(add_rules(s, l.drop_last()), l.last())
    }
}

proof fn lemma_add_rules_empty(s: Seq<RuleView>, l: Seq<RuleView>)
    ensures
        add_rules(s, l.take(0)) == s,
{
    assert(l.take(0).len() == 0);
}

proof fn lemma_add_rules_step(s: Seq<RuleView>, l: Seq<RuleView>, i: int)
    requires
        0 <= i < l.len(),
    ensures
        add_rules(s, l.take(i + 1)) == with_rule(add_rules(s, l.take(i)), l[i]),
{
    assert(l.take(i + 1).drop_last() =~= l.take(i));
    assert(l.take(i + 1).last() == l[i]);
}

proof fn lemma_add_rules_all(s: Seq<RuleView>, l: Seq<RuleView>)
    ensures
        add_rules(s, l.take(l.len() as int)) == add_rules(s, l),
{
    assert(l.take(l.len() as int) =~= l);
}

/// The rules that part 1 of the XML grammar adds, in order (a rule replaces
/// an earlier one of the same name).
pub open spec fn part_1_rules() -> Seq<RuleView> {
    seq![
        rule_spec("'"@, RuleType::Chars, seq![], seq![], seq!['\''], true),
        rule_spec("\""@, RuleType::Chars, seq![], seq![], seq!['"'], true),
        rule_spec("<"@, RuleType::Chars, seq![], seq![], seq!['<'], true),
        rule_spec(">"@, RuleType::Chars, seq![], seq![], seq!['>'], true),
        rule_spec("'</'"@, RuleType::CharSequence, seq![], seq![], seq!['<', '/'], true),
        rule_spec("'%'"@, RuleType::Chars, seq![], seq![], seq!['%'], true),
        rule_spec("'&'"@, RuleType::Chars, seq![], seq![], seq!['&'], true),
        rule_spec("';'"@, RuleType::Chars, seq![], seq![], seq![';'], true),
        rule_spec("[^<&]"@, RuleType::CharsNot, seq![], seq![], seq!['<', '&'], true),
        rule_spec("[^<&]*"@, RuleType::ZeroOrMore, seq!["[^<&]"@], seq![], seq![], true),
        rule_spec("[^<&\"]"@, RuleType::CharsNot, seq![], seq![], seq!['<', '&', '\"'], true),
        rule_spec("[^<&\"]*"@, RuleType::ZeroOrMore, seq!["[^<&\"]"@], seq![], seq![], true),
    ]
}

fn rules_part_1(rules: &mut Vec<ParsingRule>)
    requires
        unique_names(rules_view(old(rules)@)),
        no_children(rules_view(old(rules)@)),
    ensures
        unique_names(rules_view(final(rules)@)),
        no_children(rules_view(final(rules)@)),
        rules_view(final(rules)@) == add_rules(rules_view(old(rules)@), part_1_rules()),
{
    let ghost s0 = rules_view(rules@);
    proof {
        lemma_add_rules_empty(s0, part_1_rules());
    }
    let mut r_apos_char = ParsingRule::new(String::from_str("'"), RuleType::Chars);
    r_apos_char.expected_chars.push('\'');
    assert(r_apos_char@ =~= part_1_rules()[0]);
    insert_rule(rules, r_apos_char);
    proof {
        lemma_add_rules_step(s0, part_1_rules(), 0);
    }
    let mut r_quote_char = ParsingRule::new(String::from_str("\""), RuleType::Chars);
    r_quote_char.expected_chars.push('"');
    assert(r_quote_char@ =~= part_1_rules()[1]);
    insert_rule(rules, r_quote_char);
    proof {
        lemma_add_rules_step(s0, part_1_rules(), 1);
    }
    let mut r_char_lt = ParsingRule::new(String::from_str("<"), RuleType::Chars);
    r_char_lt.expected_chars.push('<');
    assert(r_char_lt@ =~= part_1_rules()[2]);
    insert_rule(rules, r_char_lt);
    proof {
        lemma_add_rules_step(s0, part_1_rules(), 2);
    }
    let mut r_char_bt = ParsingRule::new(String::from_str(">"), RuleType::Chars);
    r_char_bt.expected_chars.push('>');
    assert(r_char_bt@ =~= part_1_rules()[3]);
    insert_rule(rules, r_char_bt);
    proof {
        lemma_add_rules_step(s0, part_1_rules(), 3);
    }
    let mut r_end_tag_token = ParsingRule::new(String::from_str("'</'"), RuleType::CharSequence);
    r_end_tag_token.expected_chars.push('<');
    r_end_tag_token.expected_chars.push('/');
    assert(r_end_tag_token@ =~= part_1_rules()[4]);
    insert_rule(rules, r_end_tag_token);
    proof {
        lemma_add_rules_step(s0, part_1_rules(), 4);
    }
    let mut r_percent_char = ParsingRule::new(String::from_str("'%'"), RuleType::Chars);
    r_percent_char.expected_chars.push('%');
    assert(r_percent_char@ =~= part_1_rules()[5]);
    insert_rule(rules, r_percent_char);
    proof {
        lemma_add_rules_step(s0, part_1_rules(), 5);
    }
    let mut r_ampersand_char = ParsingRule::new(String::from_str("'&'"), RuleType::Chars);
    r_ampersand_char.expected_chars.push('&');
    assert(r_ampersand_char@ =~= part_1_rules()[6]);
    insert_rule(rules, r_ampersand_char);
    proof {
        lemma_add_rules_step(s0, part_1_rules(), 6);
    }
    let mut r_semicolon_char = ParsingRule::new(String::from_str("';'"), RuleType::Chars);
    r_semicolon_char.expected_chars.push(';');
    assert(r_semicolon_char@ =~= part_1_rules()[7]);
    insert_rule(rules, r_semicolon_char);
    proof {
        lemma_add_rules_step(s0, part_1_rules(), 7);
    }
    let mut r_not_ltor_amp = ParsingRule::new(String::from_str("[^<&]"), RuleType::CharsNot);
    r_not_ltor_amp.expected_chars.push('<');
    r_not_ltor_amp.expected_chars.push('&');
    assert(r_not_ltor_amp@ =~= part_1_rules()[8]);
    insert_rule(rules, r_not_ltor_amp);
    proof {
        lemma_add_rules_step(s0, part_1_rules(), 8);
    }
    let mut r_not_ltor_amp_zero_or_more = ParsingRule::new(String::from_str("[^<&]*"), RuleType::ZeroOrMore);
    r_not_ltor_amp_zero_or_more.children_names.push(String::from_str("[^<&]"));
    assert(r_not_ltor_amp_zero_or_more@ =~= part_1_rules()[9]);
    insert_rule(rules, r_not_ltor_amp_zero_or_more);
    proof {
        lemma_add_rules_step(s0, part_1_rules(), 9);
    }
    let mut r_not_lt_amp_quote = ParsingRule::new(String::from_str("[^<&\"]"), RuleType::CharsNot);
    r_not_lt_amp_quote.expected_chars.push('<');
    r_not_lt_amp_quote.expected_chars.push('&');
    r_not_lt_amp_quote.expected_chars.push('\"');
    assert(r_not_lt_amp_quote@ =~= part_1_rules()[10]);
    insert_rule(rules, r_not_lt_amp_quote);
    proof {
        lemma_add_rules_step(s0, part_1_rules(), 10);
    }
    let mut r_not_lt_amp_quote_zom = ParsingRule::new(String::from_str("[^<&\"]*"), RuleType::ZeroOrMore);
    r_not_lt_amp_quote_zom.children_names.push(String::from_str("[^<&\"]"));
    assert(r_not_lt_amp_quote_zom@ =~= part_1_rules()[11]);
    insert_rule(rules, r_not_lt_amp_quote_zom);
    proof {
        lemma_add_rules_step(s0, part_1_rules(), 11);
    }

    proof {
        lemma_add_rules_all(s0, part_1_rules());
    }
}

/// The rules that part 2 of the XML grammar adds, in order (a rule replaces
/// an earlier one of the same name).
pub open spec fn part_2_rules() -> Seq<RuleView> {
    seq![
        rule_spec("']]>'"@, RuleType::CharSequence, seq![], seq![], seq![']', ']', '>'], true),
        rule_spec("document"@, RuleType::Sequence, seq!["XMLDecl?"@, "S?"@, "element"@], seq![], seq![], true),
        rule_spec("Char"@, RuleType::Chars, seq![], seq![('\u{20}', '\u{D7FF}'), ('\u{E000}', '\u{FFFD}'), ('\u{10000}', '\u{10FFFF}')], seq!['\u{9}', '\u{A}', '\u{D}'], true),
        rule_spec("Char?"@, RuleType::Optional, seq!["Char"@], seq![], seq![], true),
        rule_spec("Char*"@, RuleType::ZeroOrMore, seq!["Char"@], seq![], seq![], true),
        rule_spec("S_single"@, RuleType::Chars, seq![], seq![], seq!['\x20', '\x09', '\x0D', '\x0A'], true),
        rule_spec("S_single*"@, RuleType::ZeroOrMore, seq!["S_single"@], seq![], seq![], true),
        rule_spec("S"@, RuleType::Sequence, seq!["S_single"@, "S_single*"@], seq![], seq![], true),
        rule_spec("S?"@, RuleType::Optional, seq!["S"@], seq![], seq![], true),
        rule_spec("NameStartChar"@, RuleType::Chars, seq![], seq![('A', 'Z'), ('a', 'z'), ('\u{C0}', '\u{D6}'), ('\u{D8}', '\u{F6}'), ('\u{F8}', '\u{2FF}'), ('\u{370}', '\u{37D}'), ('\u{37F}', '\u{1FFF}'), ('\u{200C}', '\u{200D}'), ('\u{2070}', '\u{218F}'), ('\u{2C00}', '\u{2FEF}'), ('\u{3001}', '\u{D7FF}'), ('\u{F900}', '\u{FDCF}'), ('\u{FDF0}', '\u{FFFD}'), ('\u{10000}', '\u{EFFFF}')], seq![':', '_'], true),
        rule_spec("NameCharExtra"@, RuleType::Chars, seq![], seq![('0', '9'), ('a', 'z'), ('\u{0300}', '\u{036F}'), ('\u{203F}', '\u{2040}')], seq!['-', '.', '\u{B7}'], true),
        rule_spec("NameChar"@, RuleType::Or, seq!["NameStartChar"@, "NameCharExtra"@], seq![], seq![], true),
    ]
}

fn rules_part_2(rules: &mut Vec<ParsingRule>)
    requires
        unique_names(rules_view(old(rules)@)),
        no_children(rules_view(old(rules)@)),
    ensures
        unique_names(rules_view(final(rules)@)),
        no_children(rules_view(final(rules)@)),
        rules_view(final(rules)@) == add_rules(rules_view(old(rules)@), part_2_rules()),
{
    let ghost s0 = rules_view(rules@);
    proof {
        lemma_add_rules_empty(s0, part_2_rules());
    }
    let mut r_cdata_end = ParsingRule::new(String::from_str("']]>'"), RuleType::CharSequence);
    r_cdata_end.expected_chars.push(']');
    r_cdata_end.expected_chars.push(']');
    r_cdata_end.expected_chars.push('>');
    assert(r_cdata_end@ =~= part_2_rules()[0]);
    insert_rule(rules, r_cdata_end);
    proof {
        lemma_add_rules_step(s0, part_2_rules(), 0);
    }
    // [1] document ::= prolog element Misc*
    let mut r_document = ParsingRule::new(String::from_str("document"), RuleType::Sequence);
    r_document.children_names.push(String::from_str("XMLDecl?"));
    r_document.children_names.push(String::from_str("S?"));
    r_document.children_names.push(String::from_str("element"));
    assert(r_document@ =~= part_2_rules()[1]);
    insert_rule(rules, r_document);
    proof {
        lemma_add_rules_step(s0, part_2_rules(), 1);
    }
    // [2] Char ::= #x9 | #xA | #xD | [#x20-#xD7FF] | [#xE000-#xFFFD] | [#x10000-#x10FFFF]
    let mut r_char = ParsingRule::new(String::from_str("Char"), RuleType::Chars);
    r_char.expected_chars.push('\u{9}');
    r_char.expected_chars.push('\u{A}');
    r_char.expected_chars.push('\u{D}');
    r_char.expected_char_ranges.push(('\u{20}', '\u{D7FF}'));
    r_char.expected_char_ranges.push(('\u{E000}', '\u{FFFD}'));
    r_char.expected_char_ranges.push(('\u{10000}', '\u{10FFFF}'));
    assert(r_char@ =~= part_2_rules()[2]);
    insert_rule(rules, r_char);
    proof {
        lemma_add_rules_step(s0, part_2_rules(), 2);
    }
    let mut r_char_optional = ParsingRule::new(String::from_str("Char?"), RuleType::Optional);
    r_char_optional.children_names.push(String::from_str("Char"));
    assert(r_char_optional@ =~= part_2_rules()[3]);
    insert_rule(rules, r_char_optional);
    proof {
        lemma_add_rules_step(s0, part_2_rules(), 3);
    }
    let mut r_char_zom = ParsingRule::new(String::from_str("Char*"), RuleType::ZeroOrMore);
    r_char_zom.children_names.push(String::from_str("Char"));
    assert(r_char_zom@ =~= part_2_rules()[4]);
    insert_rule(rules, r_char_zom);
    proof {
        lemma_add_rules_step(s0, part_2_rules(), 4);
    }
    // [3] S ::= (#x20 | #x9 | #xD | #xA)+
    let mut r_s_single = ParsingRule::new(String::from_str("S_single"), RuleType::Chars);
    r_s_single.expected_chars.push('\x20');
    r_s_single.expected_chars.push('\x09');
    r_s_single.expected_chars.push('\x0D');
    r_s_single.expected_chars.push('\x0A');
    assert(r_s_single@ =~= part_2_rules()[5]);
    insert_rule(rules, r_s_single);
    proof {
        lemma_add_rules_step(s0, part_2_rules(), 5);
    }
    let mut r_s_zero_or_more = ParsingRule::new(String::from_str("S_single*"), RuleType::ZeroOrMore);
    r_s_zero_or_more.children_names.push(String::from_str("S_single"));
    assert(r_s_zero_or_more@ =~= part_2_rules()[6]);
    insert_rule(rules, r_s_zero_or_more);
    proof {
        lemma_add_rules_step(s0, part_2_rules(), 6);
    }
    let mut r_s = ParsingRule::new(String::from_str("S"), RuleType::Sequence);
    r_s.children_names.push(String::from_str("S_single"));
    r_s.children_names.push(String::from_str("S_single*"));
    assert(r_s@ =~= part_2_rules()[7]);
    insert_rule(rules, r_s);
    proof {
        lemma_add_rules_step(s0, part_2_rules(), 7);
    }
    let mut r_s_optional = ParsingRule::new(String::from_str("S?"), RuleType::Optional);
    r_s_optional.children_names.push(String::from_str("S"));
    assert(r_s_optional@ =~= part_2_rules()[8]);
    insert_rule(rules, r_s_optional);
    proof {
        lemma_add_rules_step(s0, part_2_rules(), 8);
    }
    // [4] NameStartChar ::= ":" | [A-Z] | "_" | [a-z] | [#xC0-#xD6] | [#xD8-#xF6] |
    // [#xF8-#x2FF] | [#x370-#x37D] | [#x37F-#x1FFF] | [#x200C-#x200D] | [#x2070-#x218F] |
    // [#x2C00-#x2FEF] | [#x3001-#xD7FF] | [#xF900-#xFDCF] | [#xFDF0-#xFFFD] | [#x10000-#xEFFFF]
    let mut r_name_start_char = ParsingRule::new(String::from_str("NameStartChar"), RuleType::Chars);
    r_name_start_char.expected_char_ranges.push(('A', 'Z'));
    r_name_start_char.expected_char_ranges.push(('a', 'z'));
    r_name_start_char.expected_char_ranges.push(('\u{C0}', '\u{D6}'));
    r_name_start_char.expected_char_ranges.push(('\u{D8}', '\u{F6}'));
    r_name_start_char.expected_char_ranges.push(('\u{F8}', '\u{2FF}'));
    r_name_start_char.expected_char_ranges.push(('\u{370}', '\u{37D}'));
    r_name_start_char.expected_char_ranges.push(('\u{37F}', '\u{1FFF}'));
    r_name_start_char.expected_char_ranges.push(('\u{200C}', '\u{200D}'));
    r_name_start_char.expected_char_ranges.push(('\u{2070}', '\u{218F}'));
    r_name_start_char.expected_char_ranges.push(('\u{2C00}', '\u{2FEF}'));
    r_name_start_char.expected_char_ranges.push(('\u{3001}', '\u{D7FF}'));
    r_name_start_char.expected_char_ranges.push(('\u{F900}', '\u{FDCF}'));
    r_name_start_char.expected_char_ranges.push(('\u{FDF0}', '\u{FFFD}'));
    r_name_start_char.expected_char_ranges.push(('\u{10000}', '\u{EFFFF}'));
    r_name_start_char.expected_chars.push(':');
    r_name_start_char.expected_chars.push('_');
    assert(r_name_start_char@ =~= part_2_rules()[9]);
    insert_rule(rules, r_name_start_char);
    proof {
        lemma_add_rules_step(s0, part_2_rules(), 9);
    }
    // [4a] NameChar ::= NameStartChar | "-" | "." | [0-9] | #xB7 | [#x0300-#x036F] | [#x203F-#x2040]
    let mut r_name_char_extra_rule = ParsingRule::new(String::from_str("NameCharExtra"), RuleType::Chars);
    r_name_char_extra_rule.expected_char_ranges.push(('0', '9'));
    r_name_char_extra_rule.expected_char_ranges.push(('a', 'z'));
    r_name_char_extra_rule.expected_char_ranges.push(('\u{0300}', '\u{036F}'));
    r_name_char_extra_rule.expected_char_ranges.push(('\u{203F}', '\u{2040}'));
    r_name_char_extra_rule.expected_chars.push('-');
    r_name_char_extra_rule.expected_chars.push('.');
    r_name_char_extra_rule.expected_chars.push('\u{B7}');
    assert(r_name_char_extra_rule@ =~= part_2_rules()[10]);
    insert_rule(rules, r_name_char_extra_rule);
    proof {
        lemma_add_rules_step(s0, part_2_rules(), 10);
    }
    let mut r_name_char = ParsingRule::new(String::from_str("NameChar"), RuleType::Or);
    r_name_char.children_names.push(String::from_str("NameStartChar"));
    r_name_char.children_names.push(String::from_str("NameCharExtra"));
    assert(r_name_char@ =~= part_2_rules()[11]);
    insert_rule(rules, r_name_char);
    proof {
        lemma_add_rules_step(s0, part_2_rules(), 11);
    }

    proof {
        lemma_add_rules_all(s0, part_2_rules());
    }
}

/// The rules that part 3 of the XML grammar adds, in order (a rule replaces
/// an earlier one of the same name).
pub open spec fn part_3_rules() -> Seq<RuleView> {
    seq![
        rule_spec("NameChar*"@, RuleType::ZeroOrMore, seq!["NameChar"@], seq![], seq![], true),
        rule_spec("Name"@, RuleType::Sequence, seq!["NameStartChar"@, "NameChar*"@], seq![], seq![], true),
        rule_spec("([^<&\"] | Reference)"@, RuleType::Or, seq!["[^<&\"]"@, "ReferenceInAttrVal"@], seq![], seq![], true),
        rule_spec("([^<&\"] | Reference)*"@, RuleType::ZeroOrMore, seq!["([^<&\"] | Reference)"@], seq![], seq![], true),
        rule_spec("AttValue_alt_1"@, RuleType::Sequence, seq!["\""@, "([^<&\"] | Reference)*"@, "\""@], seq![], seq![], true),
        rule_spec("[^<&']"@, RuleType::CharsNot, seq![], seq![], seq!['<', '&', '\''], true),
        rule_spec("([^<&'] | Reference)"@, RuleType::Or, seq!["[^<&']"@, "ReferenceInAttrVal"@], seq![], seq![], true),
        rule_spec("([^<&'] | Reference)*"@, RuleType::ZeroOrMore, seq!["([^<&'] | Reference)"@], seq![], seq![], true),
        rule_spec("AttValue_alt_2"@, RuleType::Sequence, seq!["'"@, "([^<&'] | Reference)*"@, "'"@], seq![], seq![], true),
        rule_spec("AttValue"@, RuleType::Or, seq!["AttValue_alt_1"@, "AttValue_alt_2"@], seq![], seq![], true),
        rule_spec("([^<&] - ']]>')"@, RuleType::WithException, seq!["[^<&]"@, "']]>'"@], seq![], seq![], true),
        rule_spec("([^<&] - ']]>')*"@, RuleType::ZeroOrMore, seq!["([^<&] - ']]>')"@], seq![], seq![], true),
        rule_spec("([^<&] - ']]>')* ']]>' [^<&]*"@, RuleType::Sequence, seq!["([^<&] - ']]>')*"@, "']]>'"@, "[^<&]*"@], seq![], seq![], true),
        rule_spec("CharData"@, RuleType::WithException, seq!["[^<&]*"@, "([^<&] - ']]>')* ']]>' [^<&]*"@], seq![], seq![], true),
        rule_spec("CharData?"@, RuleType::Optional, seq!["CharData"@], seq![], seq![], true),
    ]
}

fn rules_part_3(rules: &mut Vec<ParsingRule>)
    requires
        unique_names(rules_view(old(rules)@)),
        no_children(rules_view(old(rules)@)),
    ensures
        unique_names(rules_view(final(rules)@)),
        no_children(rules_view(final(rules)@)),
        rules_view(final(rules)@) == add_rules(rules_view(old(rules)@), part_3_rules()),
{
    let ghost s0 = rules_view(rules@);
    proof {
        lemma_add_rules_empty(s0, part_3_rules());
    }
    let mut r_name_char_zero_or_more = ParsingRule::new(String::from_str("NameChar*"), RuleType::ZeroOrMore);
    r_name_char_zero_or_more.children_names.push(String::from_str("NameChar"));
    assert(r_name_char_zero_or_more@ =~= part_3_rules()[0]);
    insert_rule(rules, r_name_char_zero_or_more);
    proof {
        lemma_add_rules_step(s0, part_3_rules(), 0);
    }
    let mut r_name = ParsingRule::new(String::from_str("Name"), RuleType::Sequence);
    r_name.children_names.push(String::from_str("NameStartChar"));
    r_name.children_names.push(String::from_str("NameChar*"));
    assert(r_name@ =~= part_3_rules()[1]);
    insert_rule(rules, r_name);
    proof {
        lemma_add_rules_step(s0, part_3_rules(), 1);
    }
    // [10] AttValue ::= '"' ([^<&"] | Reference)* '"' | "'" ([^<&'] | Reference)* "'"
    let mut r_att_value_char_or_ref = ParsingRule::new(String::from_str("([^<&\"] | Reference)"), RuleType::Or);
    r_att_value_char_or_ref.children_names.push(String::from_str("[^<&\"]"));
    r_att_value_char_or_ref.children_names.push(String::from_str("ReferenceInAttrVal"));
    assert(r_att_value_char_or_ref@ =~= part_3_rules()[2]);
    insert_rule(rules, r_att_value_char_or_ref);
    proof {
        lemma_add_rules_step(s0, part_3_rules(), 2);
    }
    let mut r_att_value_char_or_ref_zom = ParsingRule::new(String::from_str("([^<&\"] | Reference)*"), RuleType::ZeroOrMore);
    r_att_value_char_or_ref_zom.children_names.push(String::from_str("([^<&\"] | Reference)"));
    assert(r_att_value_char_or_ref_zom@ =~= part_3_rules()[3]);
    insert_rule(rules, r_att_value_char_or_ref_zom);
    proof {
        lemma_add_rules_step(s0, part_3_rules(), 3);
    }
    let mut r_att_value_alt_1 = ParsingRule::new(String::from_str("AttValue_alt_1"), RuleType::Sequence);
    r_att_value_alt_1.children_names.push(String::from_str("\""));
    r_att_value_alt_1.children_names.push(String::from_str("([^<&\"] | Reference)*"));
    r_att_value_alt_1.children_names.push(String::from_str("\""));
    assert(r_att_value_alt_1@ =~= part_3_rules()[4]);
    insert_rule(rules, r_att_value_alt_1);
    proof {
        lemma_add_rules_step(s0, part_3_rules(), 4);
    }
    let mut r_not_lt_amp_apos = ParsingRule::new(String::from_str("[^<&']"), RuleType::CharsNot);
    r_not_lt_amp_apos.expected_chars.push('<');
    r_not_lt_amp_apos.expected_chars.push('&');
    r_not_lt_amp_apos.expected_chars.push('\'');
    assert(r_not_lt_amp_apos@ =~= part_3_rules()[5]);
    insert_rule(rules, r_not_lt_amp_apos);
    proof {
        lemma_add_rules_step(s0, part_3_rules(), 5);
    }
    let mut r_att_value_apos_char_or_ref = ParsingRule::new(String::from_str("([^<&'] | Reference)"), RuleType::Or);
    r_att_value_apos_char_or_ref.children_names.push(String::from_str("[^<&']"));
    r_att_value_apos_char_or_ref.children_names.push(String::from_str("ReferenceInAttrVal"));
    assert(r_att_value_apos_char_or_ref@ =~= part_3_rules()[6]);
    insert_rule(rules, r_att_value_apos_char_or_ref);
    proof {
        lemma_add_rules_step(s0, part_3_rules(), 6);
    }
    let mut r_att_value_apos_char_or_ref_zom = ParsingRule::new(String::from_str("([^<&'] | Reference)*"), RuleType::ZeroOrMore);
    r_att_value_apos_char_or_ref_zom.children_names.push(String::from_str("([^<&'] | Reference)"));
    assert(r_att_value_apos_char_or_ref_zom@ =~= part_3_rules()[7]);
    insert_rule(rules, r_att_value_apos_char_or_ref_zom);
    proof {
        lemma_add_rules_step(s0, part_3_rules(), 7);
    }
    let mut r_att_value_alt_2 = ParsingRule::new(String::from_str("AttValue_alt_2"), RuleType::Sequence);
    r_att_value_alt_2.children_names.push(String::from_str("'"));
    r_att_value_alt_2.children_names.push(String::from_str("([^<&'] | Reference)*"));
    r_att_value_alt_2.children_names.push(String::from_str("'"));
    assert(r_att_value_alt_2@ =~= part_3_rules()[8]);
    insert_rule(rules, r_att_value_alt_2);
    proof {
        lemma_add_rules_step(s0, part_3_rules(), 8);
    }
    let mut r_att_value = ParsingRule::new(String::from_str("AttValue"), RuleType::Or);
    r_att_value.children_names.push(String::from_str("AttValue_alt_1"));
    r_att_value.children_names.push(String::from_str("AttValue_alt_2"));
    assert(r_att_value@ =~= part_3_rules()[9]);
    insert_rule(rules, r_att_value);
    proof {
        lemma_add_rules_step(s0, part_3_rules(), 9);
    }
    // [14] CharData ::= [^<&]* - ([^<&]* ']]>' [^<&]*)
    let mut r_char_data_single_before_exception = ParsingRule::new(String::from_str("([^<&] - ']]>')"), RuleType::WithException);
    r_char_data_single_before_exception.children_names.push(String::from_str("[^<&]"));
    r_char_data_single_before_exception.children_names.push(String::from_str("']]>'"));
    assert(r_char_data_single_before_exception@ =~= part_3_rules()[10]);
    insert_rule(rules, r_char_data_single_before_exception);
    proof {
        lemma_add_rules_step(s0, part_3_rules(), 10);
    }
    let mut r_char_data_before_exception = ParsingRule::new(String::from_str("([^<&] - ']]>')*"), RuleType::ZeroOrMore);
    r_char_data_before_exception.children_names.push(String::from_str("([^<&] - ']]>')"));
    assert(r_char_data_before_exception@ =~= part_3_rules()[11]);
    insert_rule(rules, r_char_data_before_exception);
    proof {
        lemma_add_rules_step(s0, part_3_rules(), 11);
    }
    let mut r_char_data_exception = ParsingRule::new(String::from_str("([^<&] - ']]>')* ']]>' [^<&]*"), RuleType::Sequence);
    r_char_data_exception.children_names.push(String::from_str("([^<&] - ']]>')*"));
    r_char_data_exception.children_names.push(String::from_str("']]>'"));
    r_char_data_exception.children_names.push(String::from_str("[^<&]*"));
    assert(r_char_data_exception@ =~= part_3_rules()[12]);
    insert_rule(rules, r_char_data_exception);
    proof {
        lemma_add_rules_step(s0, part_3_rules(), 12);
    }
    let mut r_char_data = ParsingRule::new(String::from_str("CharData"), RuleType::WithException);
    r_char_data.children_names.push(String::from_str("[^<&]*"));
    r_char_data.children_names.push(String::from_str("([^<&] - ']]>')* ']]>' [^<&]*"));
    assert(r_char_data@ =~= part_3_rules()[13]);
    insert_rule(rules, r_char_data);
    proof {
        lemma_add_rules_step(s0, part_3_rules(), 13);
    }
    let mut r_char_data_optional = ParsingRule::new(String::from_str("CharData?"), RuleType::Optional);
    r_char_data_optional.children_names.push(String::from_str("CharData"));
    assert(r_char_data_optional@ =~= part_3_rules()[14]);
    insert_rule(rules, r_char_data_optional);
    proof {
        lemma_add_rules_step(s0, part_3_rules(), 14);
    }

    proof {
        lemma_add_rules_all(s0, part_3_rules());
    }
}

/// The rules that part 4 of the XML grammar adds, in order (a rule replaces
/// an earlier one of the same name).
pub open spec fn part_4_rules() -> Seq<RuleView> {
    seq![
        rule_spec("'<!--'"@, RuleType::CharSequence, seq![], seq![], seq!['<', '!', '-', '-'], true),
        rule_spec("'-->'"@, RuleType::CharSequence, seq![], seq![], seq!['-', '-', '>'], true),
        rule_spec("'--'"@, RuleType::CharSequence, seq![], seq![], seq!['-', '-'], true),
        rule_spec("(Char - '--')"@, RuleType::WithException, seq!["Char"@, "'--'"@], seq![], seq![], true),
        rule_spec("(Char - '--')*"@, RuleType::ZeroOrMore, seq!["(Char - '--')"@], seq![], seq![], true),
        rule_spec("Comment"@, RuleType::Sequence, seq!["'<!--'"@, "(Char - '--')*"@, "'-->'"@], seq![], seq![], true),
        rule_spec("CDSect"@, RuleType::Sequence, seq!["CDStart"@, "CData"@, "CDEnd"@], seq![], seq![], true),
        rule_spec("CDStart"@, RuleType::CharSequence, seq![], seq![], seq!['<', '!', '[', 'C', 'D', 'A', 'T', 'A', '['], true),
        rule_spec("(Char - ']]>')"@, RuleType::WithException, seq!["Char"@, "']]>'"@], seq![], seq![], true),
        rule_spec("CData"@, RuleType::ZeroOrMore, seq!["(Char - ']]>')"@], seq![], seq![], true),
        rule_spec("CDEnd"@, RuleType::CharSequence, seq![], seq![], seq![']', ']', '>'], true),
        rule_spec("'<?xml'"@, RuleType::CharSequence, seq![], seq![], seq!['<', '?', 'x', 'm', 'l'], true),
    ]
}

fn rules_part_4(rules: &mut Vec<ParsingRule>)
    requires
        unique_names(rules_view(old(rules)@)),
        no_children(rules_view(old(rules)@)),
    ensures
        unique_names(rules_view(final(rules)@)),
        no_children(rules_view(final(rules)@)),
        rules_view(final(rules)@) == add_rules(rules_view(old(rules)@), part_4_rules()),
{
    let ghost s0 = rules_view(rules@);
    proof {
        lemma_add_rules_empty(s0, part_4_rules());
    }
    // [15] Comment ::= '<!--' ((Char - '-') | ('-' (Char - '-')))* '-->'
    let mut r_comment_start = ParsingRule::new(String::from_str("'<!--'"), RuleType::CharSequence);
    r_comment_start.expected_chars.push('<');
    r_comment_start.expected_chars.push('!');
    r_comment_start.expected_chars.push('-');
    r_comment_start.expected_chars.push('-');
    assert(r_comment_start@ =~= part_4_rules()[0]);
    insert_rule(rules, r_comment_start);
    proof {
        lemma_add_rules_step(s0, part_4_rules(), 0);
    }
    let mut r_comment_end = ParsingRule::new(String::from_str("'-->'"), RuleType::CharSequence);
    r_comment_end.expected_chars.push('-');
    r_comment_end.expected_chars.push('-');
    r_comment_end.expected_chars.push('>');
    assert(r_comment_end@ =~= part_4_rules()[1]);
    insert_rule(rules, r_comment_end);
    proof {
        lemma_add_rules_step(s0, part_4_rules(), 1);
    }
    let mut r_comment_2hyphen = ParsingRule::new(String::from_str("'--'"), RuleType::CharSequence);
    r_comment_2hyphen.expected_chars.push('-');
    r_comment_2hyphen.expected_chars.push('-');
    assert(r_comment_2hyphen@ =~= part_4_rules()[2]);
    insert_rule(rules, r_comment_2hyphen);
    proof {
        lemma_add_rules_step(s0, part_4_rules(), 2);
    }
    let mut r_comment_inside = ParsingRule::new(String::from_str("(Char - '--')"), RuleType::WithException);
    r_comment_inside.children_names.push(String::from_str("Char"));
    r_comment_inside.children_names.push(String::from_str("'--'"));
    assert(r_comment_inside@ =~= part_4_rules()[3]);
    insert_rule(rules, r_comment_inside);
    proof {
        lemma_add_rules_step(s0, part_4_rules(), 3);
    }
    let mut r_comment_inside_zom = ParsingRule::new(String::from_str("(Char - '--')*"), RuleType::ZeroOrMore);
    r_comment_inside_zom.children_names.push(String::from_str("(Char - '--')"));
    assert(r_comment_inside_zom@ =~= part_4_rules()[4]);
    insert_rule(rules, r_comment_inside_zom);
    proof {
        lemma_add_rules_step(s0, part_4_rules(), 4);
    }
    let mut r_comment = ParsingRule::new(String::from_str("Comment"), RuleType::Sequence);
    r_comment.children_names.push(String::from_str("'<!--'"));
    r_comment.children_names.push(String::from_str("(Char - '--')*"));
    r_comment.children_names.push(String::from_str("'-->'"));
    assert(r_comment@ =~= part_4_rules()[5]);
    insert_rule(rules, r_comment);
    proof {
        lemma_add_rules_step(s0, part_4_rules(), 5);
    }
    // [18] CDSect ::= CDStart CData CDEnd
    let mut r_cdsect = ParsingRule::new(String::from_str("CDSect"), RuleType::Sequence);
    r_cdsect.children_names.push(String::from_str("CDStart"));
    r_cdsect.children_names.push(String::from_str("CData"));
    r_cdsect.children_names.push(String::from_str("CDEnd"));
    assert(r_cdsect@ =~= part_4_rules()[6]);
    insert_rule(rules, r_cdsect);
    proof {
        lemma_add_rules_step(s0, part_4_rules(), 6);
    }
    // [19] CDStart ::= '<![CDATA['
    let mut r_cdstart = ParsingRule::new(String::from_str("CDStart"), RuleType::CharSequence);
    r_cdstart.expected_chars.push('<');
    r_cdstart.expected_chars.push('!');
    r_cdstart.expected_chars.push('[');
    r_cdstart.expected_chars.push('C');
    r_cdstart.expected_chars.push('D');
    r_cdstart.expected_chars.push('A');
    r_cdstart.expected_chars.push('T');
    r_cdstart.expected_chars.push('A');
    r_cdstart.expected_chars.push('[');
    assert(r_cdstart@ =~= part_4_rules()[7]);
    insert_rule(rules, r_cdstart);
    proof {
        lemma_add_rules_step(s0, part_4_rules(), 7);
    }
    // [20] CData ::= (Char* - (Char* ']]>' Char*))
    let mut r_cdata_single_with_exception = ParsingRule::new(String::from_str("(Char - ']]>')"), RuleType::WithException);
    r_cdata_single_with_exception.children_names.push(String::from_str("Char"));
    r_cdata_single_with_exception.children_names.push(String::from_str("']]>'"));
    assert(r_cdata_single_with_exception@ =~= part_4_rules()[8]);
    insert_rule(rules, r_cdata_single_with_exception);
    proof {
        lemma_add_rules_step(s0, part_4_rules(), 8);
    }
    let mut r_cdata = ParsingRule::new(String::from_str("CData"), RuleType::ZeroOrMore);
    r_cdata.children_names.push(String::from_str("(Char - ']]>')"));
    assert(r_cdata@ =~= part_4_rules()[9]);
    insert_rule(rules, r_cdata);
    proof {
        lemma_add_rules_step(s0, part_4_rules(), 9);
    }
    // [21] CDEnd ::= ']]>'
    let mut r_cdend = ParsingRule::new(String::from_str("CDEnd"), RuleType::CharSequence);
    r_cdend.expected_chars.push(']');
    r_cdend.expected_chars.push(']');
    r_cdend.expected_chars.push('>');
    assert(r_cdend@ =~= part_4_rules()[10]);
    insert_rule(rules, r_cdend);
    proof {
        lemma_add_rules_step(s0, part_4_rules(), 10);
    }
    // [23] XMLDecl ::= '<?xml' VersionInfo EncodingDecl? SDDecl? S? '?>'
    let mut r_xmldecl_start = ParsingRule::new(String::from_str("'<?xml'"), RuleType::CharSequence);
    r_xmldecl_start.expected_chars.push('<');
    r_xmldecl_start.expected_chars.push('?');
    r_xmldecl_start.expected_chars.push('x');
    r_xmldecl_start.expected_chars.push('m');
    r_xmldecl_start.expected_chars.push('l');
    assert(r_xmldecl_start@ =~= part_4_rules()[11]);
    insert_rule(rules, r_xmldecl_start);
    proof {
        lemma_add_rules_step(s0, part_4_rules(), 11);
    }

    proof {
        lemma_add_rules_all(s0, part_4_rules());
    }
}

/// The rules that part 5 of the XML grammar adds, in order (a rule replaces
/// an earlier one of the same name).
pub open spec fn part_5_rules() -> Seq<RuleView> {
    seq![
        rule_spec("'?>'"@, RuleType::CharSequence, seq![], seq![], seq!['?', '>'], true),
        rule_spec("XMLDecl"@, RuleType::Sequence, seq!["'<?xml'"@, "VersionInfo"@, "EncodingDecl?"@, "S?"@, "'?>'"@], seq![], seq![], true),
        rule_spec("XMLDecl?"@, RuleType::Optional, seq!["XMLDecl"@], seq![], seq![], true),
        rule_spec("'version'"@, RuleType::CharSequence, seq![], seq![], seq!['v', 'e', 'r', 's', 'i', 'o', 'n'], true),
        rule_spec("\"'\" VersionNum \"'\""@, RuleType::Sequence, seq!["'"@, "VersionNum"@, "'"@], seq![], seq![], true),
        rule_spec("'\"' VersionNum '\"'"@, RuleType::Sequence, seq!["\""@, "VersionNum"@, "\""@], seq![], seq![], true),
        rule_spec("VersionInfo_VersionNum"@, RuleType::Or, seq!["\"'\" VersionNum \"'\""@, "'\"' VersionNum '\"'"@], seq![], seq![], true),
        rule_spec("VersionInfo"@, RuleType::Sequence, seq!["S"@, "'version'"@, "Eq"@, "VersionInfo_VersionNum"@], seq![], seq![], true),
        rule_spec("'='"@, RuleType::Chars, seq![], seq![], seq!['='], true),
        rule_spec("Eq"@, RuleType::Sequence, seq!["S?"@, "'='"@, "S?"@], seq![], seq![], true),
        rule_spec("'1.'"@, RuleType::CharSequence, seq![], seq![], seq!['1', '.'], true),
        rule_spec("[0-9]"@, RuleType::Chars, seq![], seq![('0', '9')], seq![], true),
    ]
}

fn rules_part_5(rules: &mut Vec<ParsingRule>)
    requires
        unique_names(rules_view(old(rules)@)),
        no_children(rules_view(old(rules)@)),
    ensures
        unique_names(rules_view(final(rules)@)),
        no_children(rules_view(final(rules)@)),
        rules_view(final(rules)@) == add_rules(rules_view(old(rules)@), part_5_rules()),
{
    let ghost s0 = rules_view(rules@);
    proof {
        lemma_add_rules_empty(s0, part_5_rules());
    }
    let mut r_xmldecl_end = ParsingRule::new(String::from_str("'?>'"), RuleType::CharSequence);
    r_xmldecl_end.expected_chars.push('?');
    r_xmldecl_end.expected_chars.push('>');
    assert(r_xmldecl_end@ =~= part_5_rules()[0]);
    insert_rule(rules, r_xmldecl_end);
    proof {
        lemma_add_rules_step(s0, part_5_rules(), 0);
    }
    let mut r_xmldecl = ParsingRule::new(String::from_str("XMLDecl"), RuleType::Sequence);
    r_xmldecl.children_names.push(String::from_str("'<?xml'"));
    r_xmldecl.children_names.push(String::from_str("VersionInfo"));
    r_xmldecl.children_names.push(String::from_str("EncodingDecl?"));
    r_xmldecl.children_names.push(String::from_str("S?"));
    r_xmldecl.children_names.push(String::from_str("'?>'"));
    assert(r_xmldecl@ =~= part_5_rules()[1]);
    insert_rule(rules, r_xmldecl);
    proof {
        lemma_add_rules_step(s0, part_5_rules(), 1);
    }
    let mut r_xmldecl_optional = ParsingRule::new(String::from_str("XMLDecl?"), RuleType::Optional);
    r_xmldecl_optional.children_names.push(String::from_str("XMLDecl"));
    assert(r_xmldecl_optional@ =~= part_5_rules()[2]);
    insert_rule(rules, r_xmldecl_optional);
    proof {
        lemma_add_rules_step(s0, part_5_rules(), 2);
    }
    // [24] VersionInfo ::= S 'version' Eq ("'" VersionNum "'" | '"' VersionNum '"')
    let mut r_version_info_version = ParsingRule::new(String::from_str("'version'"), RuleType::CharSequence);
    r_version_info_version.expected_chars.push('v');
    r_version_info_version.expected_chars.push('e');
    r_version_info_version.expected_chars.push('r');
    r_version_info_version.expected_chars.push('s');
    r_version_info_version.expected_chars.push('i');
    r_version_info_version.expected_chars.push('o');
    r_version_info_version.expected_chars.push('n');
    assert(r_version_info_version@ =~= part_5_rules()[3]);
    insert_rule(rules, r_version_info_version);
    proof {
        lemma_add_rules_step(s0, part_5_rules(), 3);
    }
    let mut r_version_info_vnum1 = ParsingRule::new(String::from_str("\"'\" VersionNum \"'\""), RuleType::Sequence);
    r_version_info_vnum1.children_names.push(String::from_str("'"));
    r_version_info_vnum1.children_names.push(String::from_str("VersionNum"));
    r_version_info_vnum1.children_names.push(String::from_str("'"));
    assert(r_version_info_vnum1@ =~= part_5_rules()[4]);
    insert_rule(rules, r_version_info_vnum1);
    proof {
        lemma_add_rules_step(s0, part_5_rules(), 4);
    }
    let mut r_version_info_vnum2 = ParsingRule::new(String::from_str("'\"' VersionNum '\"'"), RuleType::Sequence);
    r_version_info_vnum2.children_names.push(String::from_str("\""));
    r_version_info_vnum2.children_names.push(String::from_str("VersionNum"));
    r_version_info_vnum2.children_names.push(String::from_str("\""));
    assert(r_version_info_vnum2@ =~= part_5_rules()[5]);
    insert_rule(rules, r_version_info_vnum2);
    proof {
        lemma_add_rules_step(s0, part_5_rules(), 5);
    }
    let mut r_version_info_vnum = ParsingRule::new(String::from_str("VersionInfo_VersionNum"), RuleType::Or);
    r_version_info_vnum.children_names.push(String::from_str("\"'\" VersionNum \"'\""));
    r_version_info_vnum.children_names.push(String::from_str("'\"' VersionNum '\"'"));
    assert(r_version_info_vnum@ =~= part_5_rules()[6]);
    insert_rule(rules, r_version_info_vnum);
    proof {
        lemma_add_rules_step(s0, part_5_rules(), 6);
    }
    let mut r_version_info = ParsingRule::new(String::from_str("VersionInfo"), RuleType::Sequence);
    r_version_info.children_names.push(String::from_str("S"));
    r_version_info.children_names.push(String::from_str("'version'"));
    r_version_info.children_names.push(String::from_str("Eq"));
    r_version_info.children_names.push(String::from_str("VersionInfo_VersionNum"));
    assert(r_version_info@ =~= part_5_rules()[7]);
    insert_rule(rules, r_version_info);
    proof {
        lemma_add_rules_step(s0, part_5_rules(), 7);
    }
    // [25] Eq ::= S? '=' S?
    let mut r_equals_char_rule = ParsingRule::new(String::from_str("'='"), RuleType::Chars);
    r_equals_char_rule.expected_chars.push('=');
    assert(r_equals_char_rule@ =~= part_5_rules()[8]);
    insert_rule(rules, r_equals_char_rule);
    proof {
        lemma_add_rules_step(s0, part_5_rules(), 8);
    }
    let mut r__eq = ParsingRule::new(String::from_str("Eq"), RuleType::Sequence);
    r__eq.children_names.push(String::from_str("S?"));
    r__eq.children_names.push(String::from_str("'='"));
    r__eq.children_names.push(String::from_str("S?"));
    assert(r__eq@ =~= part_5_rules()[9]);
    insert_rule(rules, r__eq);
    proof {
        lemma_add_rules_step(s0, part_5_rules(), 9);
    }
    // [26] VersionNum ::= '1.' [0-9]+
    let mut r_version_num_1 = ParsingRule::new(String::from_str("'1.'"), RuleType::CharSequence);
    r_version_num_1.expected_chars.push('1');
    r_version_num_1.expected_chars.push('.');
    assert(r_version_num_1@ =~= part_5_rules()[10]);
    insert_rule(rules, r_version_num_1);
    proof {
        lemma_add_rules_step(s0, part_5_rules(), 10);
    }
    let mut r_version_num_09 = ParsingRule::new(String::from_str("[0-9]"), RuleType::Chars);
    r_version_num_09.expected_char_ranges.push(('0', '9'));
    assert(r_version_num_09@ =~= part_5_rules()[11]);
    insert_rule(rules, r_version_num_09);
    proof {
        lemma_add_rules_step(s0, part_5_rules(), 11);
    }

    proof {
        lemma_add_rules_all(s0, part_5_rules());
    }
}

/// The rules that part 6 of the XML grammar adds, in order (a rule replaces
/// an earlier one of the same name).
pub open spec fn part_6_rules() -> Seq<RuleView> {
    seq![
        rule_spec("[0-9]*"@, RuleType::ZeroOrMore, seq!["[0-9]"@], seq![], seq![], true),
        rule_spec("[0-9]+"@, RuleType::Sequence, seq!["[0-9]"@, "[0-9]*"@], seq![], seq![], true),
        rule_spec("VersionNum"@, RuleType::Sequence, seq!["'1.'"@, "[0-9]+"@], seq![], seq![], true),
        rule_spec("STag content ETag"@, RuleType::Sequence, seq!["STag"@, "content?"@, "ETag"@], seq![], seq![], true),
        rule_spec("element"@, RuleType::Or, seq!["EmptyElemTag"@, "STag content ETag"@], seq![], seq![], true),
        rule_spec("STag"@, RuleType::Sequence, seq!["<"@, "Name"@, "(S Attribute)*"@, "S?"@, ">"@], seq![], seq![], false),
        rule_spec("Attribute"@, RuleType::Sequence, seq!["Name"@, "Eq"@, "AttValue"@], seq![], seq![], true),
        rule_spec("Attribute?"@, RuleType::Optional, seq!["Attribute"@], seq![], seq![], true),
        rule_spec("(S Attribute)"@, RuleType::Sequence, seq!["S"@, "Attribute"@], seq![], seq![], true),
        rule_spec("(S Attribute)*"@, RuleType::ZeroOrMore, seq!["(S Attribute)"@], seq![], seq![], true),
        rule_spec("ETag"@, RuleType::Sequence, seq!["'</'"@, "Name"@, "S?"@, ">"@], seq![], seq![], false),
        rule_spec("(element | Reference | CDSect | PI | Comment)"@, RuleType::Or, seq!["Reference"@, "CDSect"@, "Comment"@, "element"@], seq![], seq![], true),
    ]
}

fn rules_part_6(rules: &mut Vec<ParsingRule>)
    requires
        unique_names(rules_view(old(rules)@)),
        no_children(rules_view(old(rules)@)),
    ensures
        unique_names(rules_view(final(rules)@)),
        no_children(rules_view(final(rules)@)),
        rules_view(final(rules)@) == add_rules(rules_view(old(rules)@), part_6_rules()),
{
    let ghost s0 = rules_view(rules@);
    proof {
        lemma_add_rules_empty(s0, part_6_rules());
    }
    let mut r_version_num_09_zom = ParsingRule::new(String::from_str("[0-9]*"), RuleType::ZeroOrMore);
    r_version_num_09_zom.children_names.push(String::from_str("[0-9]"));
    assert(r_version_num_09_zom@ =~= part_6_rules()[0]);
    insert_rule(rules, r_version_num_09_zom);
    proof {
        lemma_add_rules_step(s0, part_6_rules(), 0);
    }
    let mut r_version_num_09_oom = ParsingRule::new(String::from_str("[0-9]+"), RuleType::Sequence);
    r_version_num_09_oom.children_names.push(String::from_str("[0-9]"));
    r_version_num_09_oom.children_names.push(String::from_str("[0-9]*"));
    assert(r_version_num_09_oom@ =~= part_6_rules()[1]);
    insert_rule(rules, r_version_num_09_oom);
    proof {
        lemma_add_rules_step(s0, part_6_rules(), 1);
    }
    let mut r_version_num = ParsingRule::new(String::from_str("VersionNum"), RuleType::Sequence);
    r_version_num.children_names.push(String::from_str("'1.'"));
    r_version_num.children_names.push(String::from_str("[0-9]+"));
    assert(r_version_num@ =~= part_6_rules()[2]);
    insert_rule(rules, r_version_num);
    proof {
        lemma_add_rules_step(s0, part_6_rules(), 2);
    }
    // [39] element ::= EmptyElemTag | STag content ETag
    let mut r_element_notempty = ParsingRule::new(String::from_str("STag content ETag"), RuleType::Sequence);
    r_element_notempty.children_names.push(String::from_str("STag"));
    r_element_notempty.children_names.push(String::from_str("content?"));
    r_element_notempty.children_names.push(String::from_str("ETag"));
    assert(r_element_notempty@ =~= part_6_rules()[3]);
    insert_rule(rules, r_element_notempty);
    proof {
        lemma_add_rules_step(s0, part_6_rules(), 3);
    }
    let mut r_element = ParsingRule::new(String::from_str("element"), RuleType::Or);
    r_element.children_names.push(String::from_str("EmptyElemTag"));
    r_element.children_names.push(String::from_str("STag content ETag"));
    assert(r_element@ =~= part_6_rules()[4]);
    insert_rule(rules, r_element);
    proof {
        lemma_add_rules_step(s0, part_6_rules(), 4);
    }
    // [40] STag ::= '<' Name (S Attribute)* S? '>'
    let mut r_stag = ParsingRule::new(String::from_str("STag"), RuleType::Sequence);
    r_stag.is_chunkable = false;
    r_stag.children_names.push(String::from_str("<"));
    r_stag.children_names.push(String::from_str("Name"));
    r_stag.children_names.push(String::from_str("(S Attribute)*"));
    r_stag.children_names.push(String::from_str("S?"));
    r_stag.children_names.push(String::from_str(">"));
    assert(r_stag@ =~= part_6_rules()[5]);
    insert_rule(rules, r_stag);
    proof {
        lemma_add_rules_step(s0, part_6_rules(), 5);
    }
    // [41] Attribute ::= Name Eq AttValue
    let mut r_attribute = ParsingRule::new(String::from_str("Attribute"), RuleType::Sequence);
    r_attribute.children_names.push(String::from_str("Name"));
    r_attribute.children_names.push(String::from_str("Eq"));
    r_attribute.children_names.push(String::from_str("AttValue"));
    assert(r_attribute@ =~= part_6_rules()[6]);
    insert_rule(rules, r_attribute);
    proof {
        lemma_add_rules_step(s0, part_6_rules(), 6);
    }
    let mut r_attribute_optional = ParsingRule::new(String::from_str("Attribute?"), RuleType::Optional);
    r_attribute_optional.children_names.push(String::from_str("Attribute"));
    assert(r_attribute_optional@ =~= part_6_rules()[7]);
    insert_rule(rules, r_attribute_optional);
    proof {
        lemma_add_rules_step(s0, part_6_rules(), 7);
    }
    let mut r_attribute_after_s = ParsingRule::new(String::from_str("(S Attribute)"), RuleType::Sequence);
    r_attribute_after_s.children_names.push(String::from_str("S"));
    r_attribute_after_s.children_names.push(String::from_str("Attribute"));
    assert(r_attribute_after_s@ =~= part_6_rules()[8]);
    insert_rule(rules, r_attribute_after_s);
    proof {
        lemma_add_rules_step(s0, part_6_rules(), 8);
    }
    let mut r_attribute_after_s_zom = ParsingRule::new(String::from_str("(S Attribute)*"), RuleType::ZeroOrMore);
    r_attribute_after_s_zom.children_names.push(String::from_str("(S Attribute)"));
    assert(r_attribute_after_s_zom@ =~= part_6_rules()[9]);
    insert_rule(rules, r_attribute_after_s_zom);
    proof {
        lemma_add_rules_step(s0, part_6_rules(), 9);
    }
    // [42] ETag ::= '</' Name S? '>'
    let mut r_etag = ParsingRule::new(String::from_str("ETag"), RuleType::Sequence);
    r_etag.is_chunkable = false;
    r_etag.children_names.push(String::from_str("'</'"));
    r_etag.children_names.push(String::from_str("Name"));
    r_etag.children_names.push(String::from_str("S?"));
    r_etag.children_names.push(String::from_str(">"));
    assert(r_etag@ =~= part_6_rules()[10]);
    insert_rule(rules, r_etag);
    proof {
        lemma_add_rules_step(s0, part_6_rules(), 10);
    }
    // [43] content ::= CharData? ((element | Reference | CDSect | PI | Comment) CharData?)*
    let mut r_content_inside = ParsingRule::new(String::from_str("(element | Reference | CDSect | PI | Comment)"), RuleType::Or);
    r_content_inside.children_names.push(String::from_str("Reference"));
    r_content_inside.children_names.push(String::from_str("CDSect"));
    r_content_inside.children_names.push(String::from_str("Comment"));
    r_content_inside.children_names.push(String::from_str("element"));
    assert(r_content_inside@ =~= part_6_rules()[11]);
    insert_rule(rules, r_content_inside);
    proof {
        lemma_add_rules_step(s0, part_6_rules(), 11);
    }

    proof {
        lemma_add_rules_all(s0, part_6_rules());
    }
}

/// The rules that part 7 of the XML grammar adds, in order (a rule replaces
/// an earlier one of the same name).
pub open spec fn part_7_rules() -> Seq<RuleView> {
    seq![
        rule_spec("(content_inside CharData?)"@, RuleType::Sequence, seq!["(element | Reference | CDSect | PI | Comment)"@, "CharData?"@], seq![], seq![], true),
        rule_spec("(content_inside CharData?)*"@, RuleType::ZeroOrMore, seq!["(content_inside CharData?)"@], seq![], seq![], true),
        rule_spec("content"@, RuleType::Sequence, seq!["CharData?"@, "(content_inside CharData?)*"@], seq![], seq![], true),
        rule_spec("content?"@, RuleType::Optional, seq!["content"@], seq![], seq![], true),
        rule_spec("'/>'"@, RuleType::CharSequence, seq![], seq![], seq!['/', '>'], true),
        rule_spec("EmptyElemTag"@, RuleType::Sequence, seq!["<"@, "Name"@, "(S Attribute)*"@, "S?"@, "'/>'"@], seq![], seq![], false),
        rule_spec("'&#'"@, RuleType::CharSequence, seq![], seq![], seq!['&', '#'], true),
        rule_spec("'&#x'"@, RuleType::CharSequence, seq![], seq![], seq!['&', '#', 'x'], true),
        rule_spec("[0-9]"@, RuleType::Chars, seq![], seq![('0', '9')], seq![], true),
        rule_spec("[0-9]*"@, RuleType::ZeroOrMore, seq!["[0-9]"@], seq![], seq![], true),
        rule_spec("[0-9]+"@, RuleType::Sequence, seq!["[0-9]"@, "[0-9]*"@], seq![], seq![], true),
        rule_spec("CharRef_alt_1"@, RuleType::Sequence, seq!["'&#'"@, "[0-9]+"@, "';'"@], seq![], seq![], true),
    ]
}

fn rules_part_7(rules: &mut Vec<ParsingRule>)
    requires
        unique_names(rules_view(old(rules)@)),
        no_children(rules_view(old(rules)@)),
    ensures
        unique_names(rules_view(final(rules)@)),
        no_children(rules_view(final(rules)@)),
        rules_view(final(rules)@) == add_rules(rules_view(old(rules)@), part_7_rules()),
{
    let ghost s0 = rules_view(rules@);
    proof {
        lemma_add_rules_empty(s0, part_7_rules());
    }
    let mut r_content_inside_and_char_data = ParsingRule::new(String::from_str("(content_inside CharData?)"), RuleType::Sequence);
    r_content_inside_and_char_data.children_names.push(String::from_str("(element | Reference | CDSect | PI | Comment)"));
    r_content_inside_and_char_data.children_names.push(String::from_str("CharData?"));
    assert(r_content_inside_and_char_data@ =~= part_7_rules()[0]);
    insert_rule(rules, r_content_inside_and_char_data);
    proof {
        lemma_add_rules_step(s0, part_7_rules(), 0);
    }
    let mut r_content_inside_and_char_data_zom = ParsingRule::new(String::from_str("(content_inside CharData?)*"), RuleType::ZeroOrMore);
    r_content_inside_and_char_data_zom.children_names.push(String::from_str("(content_inside CharData?)"));
    assert(r_content_inside_and_char_data_zom@ =~= part_7_rules()[1]);
    insert_rule(rules, r_content_inside_and_char_data_zom);
    proof {
        lemma_add_rules_step(s0, part_7_rules(), 1);
    }
    let mut r_content = ParsingRule::new(String::from_str("content"), RuleType::Sequence);
    r_content.children_names.push(String::from_str("CharData?"));
    r_content.children_names.push(String::from_str("(content_inside CharData?)*"));
    assert(r_content@ =~= part_7_rules()[2]);
    insert_rule(rules, r_content);
    proof {
        lemma_add_rules_step(s0, part_7_rules(), 2);
    }
    let mut r_content2 = ParsingRule::new(String::from_str("content?"), RuleType::Optional);
    r_content2.children_names.push(String::from_str("content"));
    assert(r_content2@ =~= part_7_rules()[3]);
    insert_rule(rules, r_content2);
    proof {
        lemma_add_rules_step(s0, part_7_rules(), 3);
    }
    // [44] EmptyElemTag ::= '<' Name (S Attribute)* S? '/>'
    let mut r_empty_elem_tag_end = ParsingRule::new(String::from_str("'/>'"), RuleType::CharSequence);
    r_empty_elem_tag_end.expected_chars.push('/');
    r_empty_elem_tag_end.expected_chars.push('>');
    assert(r_empty_elem_tag_end@ =~= part_7_rules()[4]);
    insert_rule(rules, r_empty_elem_tag_end);
    proof {
        lemma_add_rules_step(s0, part_7_rules(), 4);
    }
    let mut r_empty_elem_tag = ParsingRule::new(String::from_str("EmptyElemTag"), RuleType::Sequence);
    r_empty_elem_tag.is_chunkable = false;
    r_empty_elem_tag.children_names.push(String::from_str("<"));
    r_empty_elem_tag.children_names.push(String::from_str("Name"));
    r_empty_elem_tag.children_names.push(String::from_str("(S Attribute)*"));
    r_empty_elem_tag.children_names.push(String::from_str("S?"));
    r_empty_elem_tag.children_names.push(String::from_str("'/>'"));
    assert(r_empty_elem_tag@ =~= part_7_rules()[5]);
    insert_rule(rules, r_empty_elem_tag);
    proof {
        lemma_add_rules_step(s0, part_7_rules(), 5);
    }
    // [66] CharRef ::= '&#' [0-9]+ ';' | '&#x' [0-9a-fA-F]+ ';'
    let mut r_char_ref_ampdial = ParsingRule::new(String::from_str("'&#'"), RuleType::CharSequence);
    r_char_ref_ampdial.expected_chars.push('&');
    r_char_ref_ampdial.expected_chars.push('#');
    assert(r_char_ref_ampdial@ =~= part_7_rules()[6]);
    insert_rule(rules, r_char_ref_ampdial);
    proof {
        lemma_add_rules_step(s0, part_7_rules(), 6);
    }
    let mut r_char_ref_ampx = ParsingRule::new(String::from_str("'&#x'"), RuleType::CharSequence);
    r_char_ref_ampx.expected_chars.push('&');
    r_char_ref_ampx.expected_chars.push('#');
    r_char_ref_ampx.expected_chars.push('x');
    assert(r_char_ref_ampx@ =~= part_7_rules()[7]);
    insert_rule(rules, r_char_ref_ampx);
    proof {
        lemma_add_rules_step(s0, part_7_rules(), 7);
    }
    let mut r_char_ref_09 = ParsingRule::new(String::from_str("[0-9]"), RuleType::Chars);
    r_char_ref_09.expected_char_ranges.push(('0', '9'));
    assert(r_char_ref_09@ =~= part_7_rules()[8]);
    insert_rule(rules, r_char_ref_09);
    proof {
        lemma_add_rules_step(s0, part_7_rules(), 8);
    }
    let mut r_char_ref_09_zom = ParsingRule::new(String::from_str("[0-9]*"), RuleType::ZeroOrMore);
    r_char_ref_09_zom.children_names.push(String::from_str("[0-9]"));
    assert(r_char_ref_09_zom@ =~= part_7_rules()[9]);
    insert_rule(rules, r_char_ref_09_zom);
    proof {
        lemma_add_rules_step(s0, part_7_rules(), 9);
    }
    let mut r_char_ref_09_oom = ParsingRule::new(String::from_str("[0-9]+"), RuleType::Sequence);
    r_char_ref_09_oom.children_names.push(String::from_str("[0-9]"));
    r_char_ref_09_oom.children_names.push(String::from_str("[0-9]*"));
    assert(r_char_ref_09_oom@ =~= part_7_rules()[10]);
    insert_rule(rules, r_char_ref_09_oom);
    proof {
        lemma_add_rules_step(s0, part_7_rules(), 10);
    }
    let mut r_char_ref_alt_1 = ParsingRule::new(String::from_str("CharRef_alt_1"), RuleType::Sequence);
    r_char_ref_alt_1.children_names.push(String::from_str("'&#'"));
    r_char_ref_alt_1.children_names.push(String::from_str("[0-9]+"));
    r_char_ref_alt_1.children_names.push(String::from_str("';'"));
    assert(r_char_ref_alt_1@ =~= part_7_rules()[11]);
    insert_rule(rules, r_char_ref_alt_1);
    proof {
        lemma_add_rules_step(s0, part_7_rules(), 11);
    }

    proof {
        lemma_add_rules_all(s0, part_7_rules());
    }
}

/// The rules that part 8 of the XML grammar adds, in order (a rule replaces
/// an earlier one of the same name).
pub open spec fn part_8_rules() -> Seq<RuleView> {
    seq![
        rule_spec("[0-9a-fA-F]"@, RuleType::Chars, seq![], seq![('0', '9'), ('a', 'f'), ('A', 'F')], seq![], true),
        rule_spec("[0-9a-fA-F]*"@, RuleType::ZeroOrMore, seq!["[0-9a-fA-F]"@], seq![], seq![], true),
        rule_spec("[0-9a-fA-F]+"@, RuleType::Sequence, seq!["[0-9a-fA-F]"@, "[0-9a-fA-F]*"@], seq![], seq![], true),
        rule_spec("CharRef_alt_2"@, RuleType::Sequence, seq!["'&#x'"@, "[0-9a-fA-F]+"@, "';'"@], seq![], seq![], true),
        rule_spec("CharRef"@, RuleType::Or, seq!["CharRef_alt_1"@, "CharRef_alt_2"@], seq![], seq![], true),
        rule_spec("Reference"@, RuleType::Or, seq!["EntityRef"@, "CharRef"@], seq![], seq![], true),
        rule_spec("ReferenceInAttrVal"@, RuleType::Or, seq!["EntityRef"@, "CharRef"@], seq![], seq![], true),
        rule_spec("EntityRef"@, RuleType::Sequence, seq!["'&'"@, "Name"@, "';'"@], seq![], seq![], true),
        rule_spec("PEReference"@, RuleType::Sequence, seq!["'%'"@, "Name"@, "';'"@], seq![], seq![], true),
        rule_spec("'encoding'"@, RuleType::CharSequence, seq![], seq![], seq!['e', 'n', 'c', 'o', 'd', 'i', 'n', 'g'], true),
        rule_spec("EncodingDecl_encname_1"@, RuleType::Sequence, seq!["\""@, "EncName"@, "\""@], seq![], seq![], true),
        rule_spec("EncodingDecl_encname_2"@, RuleType::Sequence, seq!["'"@, "EncName"@, "'"@], seq![], seq![], true),
    ]
}

fn rules_part_8(rules: &mut Vec<ParsingRule>)
    requires
        unique_names(rules_view(old(rules)@)),
        no_children(rules_view(old(rules)@)),
    ensures
        unique_names(rules_view(final(rules)@)),
        no_children(rules_view(final(rules)@)),
        rules_view(final(rules)@) == add_rules(rules_view(old(rules)@), part_8_rules()),
{
    let ghost s0 = rules_view(rules@);
    proof {
        lemma_add_rules_empty(s0, part_8_rules());
    }
    let mut r_char_ref_09af = ParsingRule::new(String::from_str("[0-9a-fA-F]"), RuleType::Chars);
    r_char_ref_09af.expected_char_ranges.push(('0', '9'));
    r_char_ref_09af.expected_char_ranges.push(('a', 'f'));
    r_char_ref_09af.expected_char_ranges.push(('A', 'F'));
    assert(r_char_ref_09af@ =~= part_8_rules()[0]);
    insert_rule(rules, r_char_ref_09af);
    proof {
        lemma_add_rules_step(s0, part_8_rules(), 0);
    }
    let mut r_char_ref_09af_zom = ParsingRule::new(String::from_str("[0-9a-fA-F]*"), RuleType::ZeroOrMore);
    r_char_ref_09af_zom.children_names.push(String::from_str("[0-9a-fA-F]"));
    assert(r_char_ref_09af_zom@ =~= part_8_rules()[1]);
    insert_rule(rules, r_char_ref_09af_zom);
    proof {
        lemma_add_rules_step(s0, part_8_rules(), 1);
    }
    let mut r_char_ref_09af_oom = ParsingRule::new(String::from_str("[0-9a-fA-F]+"), RuleType::Sequence);
    r_char_ref_09af_oom.children_names.push(String::from_str("[0-9a-fA-F]"));
    r_char_ref_09af_oom.children_names.push(String::from_str("[0-9a-fA-F]*"));
    assert(r_char_ref_09af_oom@ =~= part_8_rules()[2]);
    insert_rule(rules, r_char_ref_09af_oom);
    proof {
        lemma_add_rules_step(s0, part_8_rules(), 2);
    }
    let mut r_char_ref_alt_2 = ParsingRule::new(String::from_str("CharRef_alt_2"), RuleType::Sequence);
    r_char_ref_alt_2.children_names.push(String::from_str("'&#x'"));
    r_char_ref_alt_2.children_names.push(String::from_str("[0-9a-fA-F]+"));
    r_char_ref_alt_2.children_names.push(String::from_str("';'"));
    assert(r_char_ref_alt_2@ =~= part_8_rules()[3]);
    insert_rule(rules, r_char_ref_alt_2);
    proof {
        lemma_add_rules_step(s0, part_8_rules(), 3);
    }
    let mut r_char_ref = ParsingRule::new(String::from_str("CharRef"), RuleType::Or);
    r_char_ref.children_names.push(String::from_str("CharRef_alt_1"));
    r_char_ref.children_names.push(String::from_str("CharRef_alt_2"));
    assert(r_char_ref@ =~= part_8_rules()[4]);
    insert_rule(rules, r_char_ref);
    proof {
        lemma_add_rules_step(s0, part_8_rules(), 4);
    }
    // [67] Reference ::= EntityRef | CharRef
    let mut r_reference = ParsingRule::new(String::from_str("Reference"), RuleType::Or);
    r_reference.children_names.push(String::from_str("EntityRef"));
    r_reference.children_names.push(String::from_str("CharRef"));
    assert(r_reference@ =~= part_8_rules()[5]);
    insert_rule(rules, r_reference);
    proof {
        lemma_add_rules_step(s0, part_8_rules(), 5);
    }
    // [67.5] Reference in AttVal ::= EntityRef | CharRef
    let mut r_reference_in_attr_val = ParsingRule::new(String::from_str("ReferenceInAttrVal"), RuleType::Or);
    r_reference_in_attr_val.children_names.push(String::from_str("EntityRef"));
    r_reference_in_attr_val.children_names.push(String::from_str("CharRef"));
    assert(r_reference_in_attr_val@ =~= part_8_rules()[6]);
    insert_rule(rules, r_reference_in_attr_val);
    proof {
        lemma_add_rules_step(s0, part_8_rules(), 6);
    }
    // [68] EntityRef ::= '&' Name ';'
    let mut r_entity_ref = ParsingRule::new(String::from_str("EntityRef"), RuleType::Sequence);
    r_entity_ref.children_names.push(String::from_str("'&'"));
    r_entity_ref.children_names.push(String::from_str("Name"));
    r_entity_ref.children_names.push(String::from_str("';'"));
    assert(r_entity_ref@ =~= part_8_rules()[7]);
    insert_rule(rules, r_entity_ref);
    proof {
        lemma_add_rules_step(s0, part_8_rules(), 7);
    }
    // [69] PEReference ::= '%' Name ';'
    let mut r_pereference = ParsingRule::new(String::from_str("PEReference"), RuleType::Sequence);
    r_pereference.children_names.push(String::from_str("'%'"));
    r_pereference.children_names.push(String::from_str("Name"));
    r_pereference.children_names.push(String::from_str("';'"));
    assert(r_pereference@ =~= part_8_rules()[8]);
    insert_rule(rules, r_pereference);
    proof {
        lemma_add_rules_step(s0, part_8_rules(), 8);
    }
    // [80] EncodingDecl EncodingDecl	   ::=   	S 'encoding' Eq ('"' EncName '"' | "'" EncName "'" )
    let mut r_encoding_decl_encoding = ParsingRule::new(String::from_str("'encoding'"), RuleType::CharSequence);
    r_encoding_decl_encoding.expected_chars.push('e');
    r_encoding_decl_encoding.expected_chars.push('n');
    r_encoding_decl_encoding.expected_chars.push('c');
    r_encoding_decl_encoding.expected_chars.push('o');
    r_encoding_decl_encoding.expected_chars.push('d');
    r_encoding_decl_encoding.expected_chars.push('i');
    r_encoding_decl_encoding.expected_chars.push('n');
    r_encoding_decl_encoding.expected_chars.push('g');
    assert(r_encoding_decl_encoding@ =~= part_8_rules()[9]);
    insert_rule(rules, r_encoding_decl_encoding);
    proof {
        lemma_add_rules_step(s0, part_8_rules(), 9);
    }
    let mut r_encoding_decl_encname_1 = ParsingRule::new(String::from_str("EncodingDecl_encname_1"), RuleType::Sequence);
    r_encoding_decl_encname_1.children_names.push(String::from_str("\""));
    r_encoding_decl_encname_1.children_names.push(String::from_str("EncName"));
    r_encoding_decl_encname_1.children_names.push(String::from_str("\""));
    assert(r_encoding_decl_encname_1@ =~= part_8_rules()[10]);
    insert_rule(rules, r_encoding_decl_encname_1);
    proof {
        lemma_add_rules_step(s0, part_8_rules(), 10);
    }
    let mut r_encoding_decl_encname_2 = ParsingRule::new(String::from_str("EncodingDecl_encname_2"), RuleType::Sequence);
    r_encoding_decl_encname_2.children_names.push(String::from_str("'"));
    r_encoding_decl_encname_2.children_names.push(String::from_str("EncName"));
    r_encoding_decl_encname_2.children_names.push(String::from_str("'"));
    assert(r_encoding_decl_encname_2@ =~= part_8_rules()[11]);
    insert_rule(rules, r_encoding_decl_encname_2);
    proof {
        lemma_add_rules_step(s0, part_8_rules(), 11);
    }

    proof {
        lemma_add_rules_all(s0, part_8_rules());
    }
}

/// The rules that part 9 of the XML grammar adds, in order (a rule replaces
/// an earlier one of the same name).
pub open spec fn part_9_rules() -> Seq<RuleView> {
    seq![
        rule_spec("EncodingDecl_encname"@, RuleType::Or, seq!["EncodingDecl_encname_1"@, "EncodingDecl_encname_2"@], seq![], seq![], true),
        rule_spec("EncodingDecl"@, RuleType::Sequence, seq!["S"@, "'encoding'"@, "Eq"@, "EncodingDecl_encname"@], seq![], seq![], true),
        rule_spec("EncodingDecl?"@, RuleType::Optional, seq!["EncodingDecl"@], seq![], seq![], true),
        rule_spec("[A-Za-z]"@, RuleType::Chars, seq![], seq![('a', 'z'), ('A', 'Z')], seq![], true),
        rule_spec("[A-Za-z0-9._]"@, RuleType::Chars, seq![], seq![('a', 'z'), ('A', 'Z'), ('0', '9')], seq!['.', '_'], true),
        rule_spec("-"@, RuleType::Chars, seq![], seq![], seq!['-'], true),
        rule_spec("([A-Za-z0-9._] | '-')"@, RuleType::Or, seq!["-"@, "[A-Za-z0-9._]"@], seq![], seq![], true),
        rule_spec("([A-Za-z0-9._] | '-')*"@, RuleType::ZeroOrMore, seq!["([A-Za-z0-9._] | '-')"@], seq![], seq![], true),
        rule_spec("EncName"@, RuleType::Sequence, seq!["[A-Za-z]"@, "([A-Za-z0-9._] | '-')*"@], seq![], seq![], true),
    ]
}

fn rules_part_9(rules: &mut Vec<ParsingRule>)
    requires
        unique_names(rules_view(old(rules)@)),
        no_children(rules_view(old(rules)@)),
    ensures
        unique_names(rules_view(final(rules)@)),
        no_children(rules_view(final(rules)@)),
        rules_view(final(rules)@) == add_rules(rules_view(old(rules)@), part_9_rules()),
{
    let ghost s0 = rules_view(rules@);
    proof {
        lemma_add_rules_empty(s0, part_9_rules());
    }
    let mut r_encoding_decl_encname = ParsingRule::new(String::from_str("EncodingDecl_encname"), RuleType::Or);
    r_encoding_decl_encname.children_names.push(String::from_str("EncodingDecl_encname_1"));
    r_encoding_decl_encname.children_names.push(String::from_str("EncodingDecl_encname_2"));
    assert(r_encoding_decl_encname@ =~= part_9_rules()[0]);
    insert_rule(rules, r_encoding_decl_encname);
    proof {
        lemma_add_rules_step(s0, part_9_rules(), 0);
    }
    let mut r_encoding_decl = ParsingRule::new(String::from_str("EncodingDecl"), RuleType::Sequence);
    r_encoding_decl.children_names.push(String::from_str("S"));
    r_encoding_decl.children_names.push(String::from_str("'encoding'"));
    r_encoding_decl.children_names.push(String::from_str("Eq"));
    r_encoding_decl.children_names.push(String::from_str("EncodingDecl_encname"));
    assert(r_encoding_decl@ =~= part_9_rules()[1]);
    insert_rule(rules, r_encoding_decl);
    proof {
        lemma_add_rules_step(s0, part_9_rules(), 1);
    }
    let mut r_encoding_decl_optional = ParsingRule::new(String::from_str("EncodingDecl?"), RuleType::Optional);
    r_encoding_decl_optional.children_names.push(String::from_str("EncodingDecl"));
    assert(r_encoding_decl_optional@ =~= part_9_rules()[2]);
    insert_rule(rules, r_encoding_decl_optional);
    proof {
        lemma_add_rules_step(s0, part_9_rules(), 2);
    }
    // [81] EncName
    let mut r_enc_name_az = ParsingRule::new(String::from_str("[A-Za-z]"), RuleType::Chars);
    r_enc_name_az.expected_char_ranges.push(('a', 'z'));
    r_enc_name_az.expected_char_ranges.push(('A', 'Z'));
    assert(r_enc_name_az@ =~= part_9_rules()[3]);
    insert_rule(rules, r_enc_name_az);
    proof {
        lemma_add_rules_step(s0, part_9_rules(), 3);
    }
    let mut r_enc_name_az09 = ParsingRule::new(String::from_str("[A-Za-z0-9._]"), RuleType::Chars);
    r_enc_name_az09.expected_char_ranges.push(('a', 'z'));
    r_enc_name_az09.expected_char_ranges.push(('A', 'Z'));
    r_enc_name_az09.expected_char_ranges.push(('0', '9'));
    r_enc_name_az09.expected_chars.push('.');
    r_enc_name_az09.expected_chars.push('_');
    assert(r_enc_name_az09@ =~= part_9_rules()[4]);
    insert_rule(rules, r_enc_name_az09);
    proof {
        lemma_add_rules_step(s0, part_9_rules(), 4);
    }
    let mut r_enc_name_hyphen = ParsingRule::new(String::from_str("-"), RuleType::Chars);
    r_enc_name_hyphen.expected_chars.push('-');
    assert(r_enc_name_hyphen@ =~= part_9_rules()[5]);
    insert_rule(rules, r_enc_name_hyphen);
    proof {
        lemma_add_rules_step(s0, part_9_rules(), 5);
    }
    let mut r_enc_name_part2_single = ParsingRule::new(String::from_str("([A-Za-z0-9._] | '-')"), RuleType::Or);
    r_enc_name_part2_single.children_names.push(String::from_str("-"));
    r_enc_name_part2_single.children_names.push(String::from_str("[A-Za-z0-9._]"));
    assert(r_enc_name_part2_single@ =~= part_9_rules()[6]);
    insert_rule(rules, r_enc_name_part2_single);
    proof {
        lemma_add_rules_step(s0, part_9_rules(), 6);
    }
    let mut r_enc_name_part2 = ParsingRule::new(String::from_str("([A-Za-z0-9._] | '-')*"), RuleType::ZeroOrMore);
    r_enc_name_part2.children_names.push(String::from_str("([A-Za-z0-9._] | '-')"));
    assert(r_enc_name_part2@ =~= part_9_rules()[7]);
    insert_rule(rules, r_enc_name_part2);
    proof {
        lemma_add_rules_step(s0, part_9_rules(), 7);
    }
    let mut r_enc_name = ParsingRule::new(String::from_str("EncName"), RuleType::Sequence);
    r_enc_name.children_names.push(String::from_str("[A-Za-z]"));
    r_enc_name.children_names.push(String::from_str("([A-Za-z0-9._] | '-')*"));
    assert(r_enc_name@ =~= part_9_rules()[8]);
    insert_rule(rules, r_enc_name);
    proof {
        lemma_add_rules_step(s0, part_9_rules(), 8);
    }

    proof {
        lemma_add_rules_all(s0, part_9_rules());
    }
}

/// The rules of the XML grammar, before their parts are resolved: those of
/// the nine parts, added in turn.
pub open spec fn xml_rules() -> Seq<RuleView> {
    add_rules(
        add_rules(
            add_rules(
                add_rules(
                    add_rules(
                        add_rules(
                            add_rules(
                                add_rules(add_rules(Seq::empty(), part_1_rules()), part_2_rules()),
                                part_3_rules(),
                            ),
                            part_4_rules(),
                        ),
                        part_5_rules(),
                    ),
                    part_6_rules(),
                ),
                part_7_rules(),
            ),
            part_8_rules(),
        ),
        part_9_rules(),
    )
}

/// The registry of the XML grammar: each rule's name with its place.
pub open spec fn xml_registry() -> Seq<(Seq<char>, usize)> {
    Seq::new(xml_rules().len(), |i: int| (xml_rules()[i].rule_name, i as usize))
}

/// The XML grammar: its rules, each registered by name at its place, with
/// the places of their parts resolved.
pub open spec fn xml_grammar() -> GrammarView {
    GrammarView {
        rules: Seq::new(
            xml_rules().len(),
            |i: int|
                RuleView {
                    children: resolved_children(
                        GrammarView { rules: Seq::empty(), registry: xml_registry() },
                        xml_rules()[i].children_names,
                    ),
                    ..xml_rules()[i]
                },
        ),
        registry: xml_registry(),
    }
}

/// The XML grammar as rules, each registered by name, with the places of
/// their parts resolved (a part whose name no rule has stays unresolved).
pub fn prepare_rules() -> (p: Parser)
    ensures
        registry_of(p@),
        unique_names(p@.rules),
        resolved(p@),
        p@ == xml_grammar(),
{
    let mut rules: Vec<ParsingRule> = Vec::new();
    assert(rules_view(rules@) =~= Seq::empty());
    rules_part_1(&mut rules);
    rules_part_2(&mut rules);
    rules_part_3(&mut rules);
    rules_part_4(&mut rules);
    rules_part_5(&mut rules);
    rules_part_6(&mut rules);
    rules_part_7(&mut rules);
    rules_part_8(&mut rules);
    rules_part_9(&mut rules);
    assert(rules_view(rules@) == xml_rules());
    let p = register_and_resolve(rules);
    proof {
        assert(p@.registry =~= xml_registry());
        assert forall|k: int| 0 <= k < p@.rules.len() implies #[trigger] p@.rules[k]
            == xml_grammar().rules[k] by {
            lemma_resolved_children_registry(
                p@,
                GrammarView { rules: Seq::empty(), registry: xml_registry() },
                p@.rules[k].children_names,
            );
        }
        assert(p@.rules =~= xml_grammar().rules);
    }
    p
}

/// The registry holds each rule's name with its place, in order.
pub open spec fn registry_of(g: GrammarView) -> bool {
    &&& g.registry.len() == g.rules.len()
    &&& forall|i: int|
        0 <= i < g.rules.len() ==> #[trigger] g.registry[i] == (g.rules[i].rule_name, i as usize)
}

/// The places of the registered names among `names`, in order; names that
/// are not registered are passed over.
pub open spec fn resolved_children(g: GrammarView, names: Seq<Seq<char>>) -> Seq<usize>
    decreases names.len(),
{
    if names.len() == 0 {
        Seq::empty()
    } else {
        let front = resolved_children(g, names.drop_last());
        match place_of(g, names.last()) {
            Some(i) => front.push(i),
            None => front,
        }
    }
}

/// Each rule's parts are resolved.
pub open spec fn resolved(g: GrammarView) -> bool {
    forall|k: int|
        0 <= k < g.rules.len() ==> (#[trigger] g.rules[k]).children == resolved_children(
            g,
            g.rules[k].children_names,
        )
}

/// The places of the registered names among `names`.
fn resolve_names(registry: &Vec<(String, usize)>, names: &Vec<String>) -> (r: Vec<usize>)
    ensures
        r@ == resolved_children(
            GrammarView { rules: Seq::empty(), registry: registry_view(registry@) },
            strings_view(names@),
        ),
{
    let ghost g = GrammarView { rules: Seq::empty(), registry: registry_view(registry@) };
    let mut r: Vec<usize> = Vec::new();
    let mut i: usize = 0;
    while i < names.len()
        invariant
            i <= names.len(),
            g == (GrammarView { rules: Seq::empty(), registry: registry_view(registry@) }),
            r@ == resolved_children(g, strings_view(names@).take(i as int)),
        decreases names.len() - i,
    {
        assert(strings_view(names@).take(i + 1).drop_last() =~= strings_view(names@).take(
            i as int,
        ));
        match lookup(registry, &names[i]) {
            Some(k) => {
                r.push(k);
            },
            None => {},
        }
        i = i + 1;
    }
    assert(strings_view(names@).take(names.len() as int) =~= strings_view(names@));
    r
}

/// The resolved parts depend only on the registry.
proof fn lemma_resolved_children_registry(g: GrammarView, h: GrammarView, names: Seq<Seq<char>>)
    requires
        g.registry == h.registry,
    ensures
        resolved_children(g, names) == resolved_children(h, names),
    decreases names.len(),
{
    if names.len() > 0 {
        lemma_resolved_children_registry(g, h, names.drop_last());
    }
}

/// Register every rule by name at its place, and resolve the parts of each.
fn register_and_resolve(rules: Vec<ParsingRule>) -> (p: Parser)
    requires
        no_children(rules_view(rules@)),
        unique_names(rules_view(rules@)),
    ensures
        registry_of(p@),
        unique_names(p@.rules),
        resolved(p@),
        p@.rules.len() == rules.len(),
        forall|k: int|
            0 <= k < rules.len() ==> (#[trigger] p@.rules[k]) == (RuleView {
                children: p@.rules[k].children,
                ..rules@[k]@
            }),
{
    let mut rules = rules;
    let ghost orig = rules_view(rules@);
    let mut registry: Vec<(String, usize)> = Vec::new();
    let mut i: usize = 0;
    while i < rules.len()
        invariant
            i <= rules.len(),
            registry.len() == i,
            forall|j: int|
                0 <= j < i ==> #[trigger] registry_view(registry@)[j] == (
                rules_view(rules@)[j].rule_name,
                j as usize,
            ),
        decreases rules.len() - i,
    {
        let ghost before = registry_view(registry@);
        registry.push((rules[i].rule_name.clone(), i));
        assert(registry_view(registry@) =~= before.push((rules@[i as int]@.rule_name, i)));
        i = i + 1;
    }
    let ghost reg = registry_view(registry@);
    let mut k: usize = 0;
    while k < rules.len()
        invariant
            k <= rules.len(),
            rules.len() == orig.len(),
            reg == registry_view(registry@),
            forall|j: int|
                0 <= j < rules.len() ==> (#[trigger] rules_view(rules@)[j]).rule_name
                    == orig[j].rule_name && rules_view(rules@)[j].children_names
                    == orig[j].children_names,
            forall|j: int|
                0 <= j < rules.len() ==> (#[trigger] rules_view(rules@)[j]) == (RuleView {
                    children: rules_view(rules@)[j].children,
                    ..orig[j]
                }),
            forall|j: int|
                0 <= j < k ==> (#[trigger] rules_view(rules@)[j]).children == resolved_children(
                    GrammarView { rules: Seq::empty(), registry: reg },
                    orig[j].children_names,
                ),
        decreases rules.len() - k,
    {
        let resolved_k = resolve_names(&registry, &rules[k].children_names);
        let ghost before = rules_view(rules@);
        let ghost rv = RuleView { children: resolved_k@, ..before[k as int] };
        rules[k].children = resolved_k;
        assert(rules@[k as int]@ == rv);
        assert(rules_view(rules@) =~= before.update(k as int, rv));
        k = k + 1;
    }
    let p = Parser { rule_vec: rules, rule_registry: registry };
    proof {
        assert forall|i: int, j: int| 0 <= i < j < p@.rules.len() implies (
        #[trigger] p@.rules[i]).rule_name != (#[trigger] p@.rules[j]).rule_name by {
            assert(orig[i].rule_name != orig[j].rule_name);
        }
        assert forall|j: int| 0 <= j < p@.rules.len() implies (#[trigger] p@.rules[j]).children
            == resolved_children(p@, p@.rules[j].children_names) by {
            lemma_resolved_children_registry(
                GrammarView { rules: Seq::empty(), registry: reg },
                p@,
                orig[j].children_names,
            );
        }
    }
    p
}


/* ---------------------------------------------------------------------- */
/* running a rule over characters                                           */

/// Where a sequence or an alternative stands: the part it is at, the
/// position that part starts at, and whether the place can be given up
/// without going back.
pub type StateEntry = (usize, usize, bool);

/// The stack without its last entry (unchanged when it is empty).
pub open spec fn popped(s: Seq<StateEntry>) -> Seq<StateEntry> {
    if s.len() > 0 {
        s.drop_last()
    } else {
        s
    }
}

/// The character lies in the range (ends included).
pub open spec fn in_range(range: (char, char), c: char) -> bool {
    range.0 as u32 <= c as u32 <= range.1 as u32
}

/// The character lies in one of the ranges.
pub open spec fn in_ranges(ranges: Seq<(char, char)>, c: char) -> bool {
    exists|i: int| 0 <= i < ranges.len() && #[trigger] in_range(ranges[i], c)
}

/// The expected characters `exp[k..]` against `chars[start + k..]`: they all
/// match (`Pass`), one differs (`Fail`), or the characters run out (`EOF`).
pub open spec fn char_sequence(chars: Seq<char>, start: int, exp: Seq<char>, k: int) -> ParsingResult
    decreases exp.len() - k,
{
    if k >= exp.len() {
        ParsingResult::Pass(0, 0)
    } else if start + k >= chars.len() {
        ParsingResult::EOF
    } else if chars[start + k] == exp[k] {
        char_sequence(chars, start, exp, k + 1)
    } else {
        ParsingResult::Fail
    }
}

/// Every part of the rule is a place in a list of `n` rules, and a rule
/// that always looks at its first (or second) part has it.
pub open spec fn rule_ok(rule: ParsingRule, n: int) -> bool {
    &&& forall|c: int| 0 <= c < rule.children@.len() ==> #[trigger] rule.children@[c] < n
    &&& (rule.rule_type == RuleType::ZeroOrMore || rule.rule_type == RuleType::Optional)
        ==> rule.children@.len() >= 1
    &&& rule.rule_type == RuleType::WithException ==> rule.children@.len() >= 2
}

/// Every rule of the list is fine (see `rule_ok`).
pub open spec fn rules_ok(rules: Seq<ParsingRule>) -> bool {
    forall|k: int| 0 <= k < rules.len() ==> #[trigger] rule_ok(rules[k], rules.len() as int)
}

/// Every position on the resume stack is at least `offset`.
pub open spec fn resume_ok(resume: Seq<StateEntry>, offset: usize) -> bool {
    forall|i: int| 0 <= i < resume.len() ==> offset <= (#[trigger] resume[i]).1
}

/// What running `rule` from `pos` gives, with the resume stack and the
/// state stack after it; `None` when it takes more than `fuel` nested
/// steps (a call inside a call, or one more round of a repetition).
pub open spec fn run(
    rules: Seq<ParsingRule>,
    rule: ParsingRule,
    chars: Seq<char>,
    pos: usize,
    offset: usize,
    resume: Seq<StateEntry>,
    st: Seq<StateEntry>,
    fuel: nat,
) -> Option<(ParsingResult, Seq<StateEntry>, Seq<StateEntry>)>
    decreases fuel, 1nat,
{
    if fuel == 0 {
        None
    } else {
        let f = (fuel - 1) as nat;
        let i = pos - offset;
        match rule.rule_type {
            RuleType::Chars => if i >= chars.len() {
                Some((ParsingResult::EOF, resume, st))
            } else if in_ranges(rule.expected_char_ranges@, chars[i]) || rule.expected_chars@.contains(
                chars[i],
            ) {
                Some((ParsingResult::Pass(pos, (pos + 1) as usize), resume, st))
            } else {
                Some((ParsingResult::Fail, resume, st))
            },
            RuleType::CharsNot => if i >= chars.len() {
                Some((ParsingResult::EOF, resume, st))
            } else if in_ranges(rule.expected_char_ranges@, chars[i]) || rule.expected_chars@.contains(
                chars[i],
            ) {
                Some((ParsingResult::Fail, resume, st))
            } else {
                Some((ParsingResult::Pass(pos, (pos + 1) as usize), resume, st))
            },
            RuleType::CharSequence => match char_sequence(chars, i, rule.expected_chars@, 0) {
                ParsingResult::Pass(_, _) => Some(
                    (
                        ParsingResult::Pass(pos, (pos + rule.expected_chars@.len()) as usize),
                        resume,
                        st,
                    ),
                ),
                other => Some((other, resume, st)),
            },
            RuleType::ZeroOrMore => run_zom(
                rules,
                rules[rule.children@[0] as int],
                chars,
                pos,
                pos,
                offset,
                resume,
                st,
                f,
            ),
            RuleType::Sequence => if resume.len() > 0 {
                run_seq(
                    rules,
                    rule,
                    chars,
                    pos,
                    resume.last().0 as int,
                    resume.last().1,
                    offset,
                    resume.drop_last(),
                    st,
                    f,
                )
            } else {
                run_seq(rules, rule, chars, pos, 0, pos, offset, resume, st, f)
            },
            RuleType::Or => if resume.len() > 0 {
                run_or(
                    rules,
                    rule,
                    chars,
                    resume.last().0 as int,
                    resume.last().1,
                    offset,
                    resume.drop_last(),
                    st,
                    f,
                )
            } else {
                run_or(rules, rule, chars, 0, pos, offset, resume, st, f)
            },
            RuleType::WithException => match run(
                rules,
                rules[rule.children@[0] as int],
                chars,
                pos,
                offset,
                resume,
                st,
                f,
            ) {
                Some((ParsingResult::Pass(s, e), r1, s1)) => match run(
                    rules,
                    rules[rule.children@[1] as int],
                    chars,
                    pos,
                    offset,
                    r1,
                    s1,
                    f,
                ) {
                    Some((ParsingResult::Fail, r2, s2)) => Some((ParsingResult::Pass(s, e), r2, s2)),
                    Some((ParsingResult::Pass(_, _), r2, s2)) => Some((ParsingResult::Fail, r2, s2)),
                    other => other,
                },
                other => other,
            },
            RuleType::Optional => match run(
                rules,
                rules[rule.children@[0] as int],
                chars,
                pos,
                offset,
                resume,
                st,
                f,
            ) {
                Some((ParsingResult::Fail, r1, s1)) => Some((ParsingResult::Pass(pos, pos), r1, s1)),
                other => other,
            },
            _ => Some((ParsingResult::Fail, resume, st)),
        }
    }
}

/// A repetition of `child` that began at `start` and stands at `cur`.
pub open spec fn run_zom(
    rules: Seq<ParsingRule>,
    child: ParsingRule,
    chars: Seq<char>,
    start: usize,
    cur: usize,
    offset: usize,
    resume: Seq<StateEntry>,
    st: Seq<StateEntry>,
    fuel: nat,
) -> Option<(ParsingResult, Seq<StateEntry>, Seq<StateEntry>)>
    decreases fuel, 0nat,
{
    if fuel == 0 {
        None
    } else {
        match run(rules, child, chars, cur, offset, resume, st, (fuel - 1) as nat) {
            Some((ParsingResult::Fail, r1, s1)) => Some((ParsingResult::Pass(start, cur), r1, s1)),
            Some((ParsingResult::Pass(_, e), r1, s1)) => run_zom(
                rules,
                child,
                chars,
                start,
                e,
                offset,
                r1,
                s1,
                (fuel - 1) as nat,
            ),
            other => other,
        }
    }
}

/// The parts of the sequence `rule` from the `k`-th on, the first of them at
/// `cur`; the sequence began at `start`.
pub open spec fn run_seq(
    rules: Seq<ParsingRule>,
    rule: ParsingRule,
    chars: Seq<char>,
    start: usize,
    k: int,
    cur: usize,
    offset: usize,
    resume: Seq<StateEntry>,
    st: Seq<StateEntry>,
    fuel: nat,
) -> Option<(ParsingResult, Seq<StateEntry>, Seq<StateEntry>)>
    decreases fuel, 0nat,
{
    if k >= rule.children@.len() {
        Some((ParsingResult::Pass(start, cur), resume, st))
    } else if fuel == 0 {
        None
    } else {
        let pushed = st.push((k as usize, cur, rule.is_chunkable));
        match run(
            rules,
            rules[rule.children@[k] as int],
            chars,
            cur,
            offset,
            resume,
            pushed,
            (fuel - 1) as nat,
        ) {
            Some((ParsingResult::Fail, r1, s1)) => Some((ParsingResult::Fail, r1, popped(s1))),
            Some((ParsingResult::Pass(_, e), r1, s1)) => run_seq(
                rules,
                rule,
                chars,
                start,
                k + 1,
                e,
                offset,
                r1,
                popped(s1),
                (fuel - 1) as nat,
            ),
            other => other,
        }
    }
}

/// The alternatives of `rule` from the `k`-th on, each tried at `at`.
pub open spec fn run_or(
    rules: Seq<ParsingRule>,
    rule: ParsingRule,
    chars: Seq<char>,
    k: int,
    at: usize,
    offset: usize,
    resume: Seq<StateEntry>,
    st: Seq<StateEntry>,
    fuel: nat,
) -> Option<(ParsingResult, Seq<StateEntry>, Seq<StateEntry>)>
    decreases fuel, 0nat,
{
    if k >= rule.children@.len() {
        Some((ParsingResult::Fail, resume, st))
    } else if fuel == 0 {
        None
    } else {
        let pushed = st.push((k as usize, at, k == rule.children@.len() - 1));
        match run(
            rules,
            rules[rule.children@[k] as int],
            chars,
            at,
            offset,
            resume,
            pushed,
            (fuel - 1) as nat,
        ) {
            Some((ParsingResult::Pass(s, e), r1, s1)) => Some(
                (ParsingResult::Pass(s, e), r1, popped(s1)),
            ),
            Some((ParsingResult::Fail, r1, s1)) => run_or(
                rules,
                rule,
                chars,
                k + 1,
                at,
                offset,
                r1,
                popped(s1),
                (fuel - 1) as nat,
            ),
            other => other,
        }
    }
}

pub(crate) fn in_ranges_exec(ranges: &Vec<(char, char)>, c: char) -> (r: bool)
    ensures
        r == in_ranges(ranges@, c),
{
    let mut i: usize = 0;
    while i < ranges.len()
        invariant
            i <= ranges.len(),
            forall|j: int| 0 <= j < i ==> !#[trigger] in_range(ranges@[j], c),
        decreases ranges.len() - i,
    {
        let range = ranges[i];
        if (range.0 as u32) <= (c as u32) && (c as u32) <= (range.1 as u32) {
            assert(in_range(ranges@[i as int], c));
            return true;
        }
        i = i + 1;
    }
    false
}

pub(crate) fn contains_char(v: &Vec<char>, c: char) -> (r: bool)
    ensures
        r == v@.contains(c),
{
    let mut i: usize = 0;
    while i < v.len()
        invariant
            i <= v.len(),
            forall|j: int| 0 <= j < i ==> v@[j] != c,
        decreases v.len() - i,
    {
        if v[i] == c {
            assert(v@[i as int] == c);
            return true;
        }
        i = i + 1;
    }
    false
}

/// Run `rule` over the characters from `starting_pos` on (`offset` is the
/// position of `char_vector[0]`), telling `logger` what is tried and what
/// passes, with at most `fuel` nested steps (see `run`); `None` when they do
/// not suffice. `state_vec` records where sequences and alternatives stand;
/// each sequence or alternative first resumes where the last entry of
/// `resume_state_vec` says, and takes that entry away.
#[verifier::loop_isolation(false)]
#[verifier::rlimit(100)]
#[verifier::spinoff_prover]
pub fn parse_with_rule_bounded<T: ParsingPassLogStream>(
    rule_vec: &Vec<ParsingRule>,
    rule: &ParsingRule,
    char_vector: &Vec<char>,
    starting_pos: usize,
    offset: usize,
    resume_state_vec: &mut Vec<StateEntry>,
    state_vec: &mut Vec<StateEntry>,
    logger: T,
    fuel: usize,
) -> (r: (T, Option<ParsingResult>))
    requires
        rules_ok(rule_vec@),
        rule_ok(*rule, rule_vec.len() as int),
        offset <= starting_pos,
        offset + char_vector.len() <= usize::MAX,
        resume_ok(old(resume_state_vec)@, offset),
    ensures
        resume_ok(final(resume_state_vec)@, offset),
        match run(
            rule_vec@,
            *rule,
            char_vector@,
            starting_pos,
            offset,
            old(resume_state_vec)@,
            old(state_vec)@,
            fuel as nat,
        ) {
            Some((res, rs, ss)) => r.1 == Some(res) && final(resume_state_vec)@ == rs && final(state_vec)@ == ss,
            None => r.1 is None,
        },
        r.1 matches Some(ParsingResult::Pass(_, e)) ==> offset <= e,
        r.0.calls() == logger.calls() + run_log(
            rule_vec@,
            *rule,
            char_vector@,
            starting_pos,
            offset,
            old(resume_state_vec)@,
            old(state_vec)@,
            fuel as nat,
        ),
    decreases fuel,
{
    let ghost target = run(
        rule_vec@,
        *rule,
        char_vector@,
        starting_pos,
        offset,
        resume_state_vec@,
        state_vec@,
        fuel as nat,
    );
    let ghost log0 = logger.calls();
    let ghost target_log = log0 + run_log(
        rule_vec@,
        *rule,
        char_vector@,
        starting_pos,
        offset,
        resume_state_vec@,
        state_vec@,
        fuel as nat,
    );
    let mut logger = logger;
    logger.try_rule(rule.rule_name.clone(), starting_pos);
    let ghost tried = seq![LogCall::Try(rule.rule_name@, starting_pos)];
    assert(logger.calls() =~= log0 + tried);
    if fuel == 0 {
        return (logger, None);
    }
    let f = fuel - 1;
    match rule.rule_type {
        RuleType::Chars => {
            if starting_pos - offset >= char_vector.len() {
                return (logger, Some(ParsingResult::EOF));
            }
            let c = char_vector[starting_pos - offset];
            if in_ranges_exec(&rule.expected_char_ranges, c) || contains_char(
                &rule.expected_chars,
                c,
            ) {
                logger.pass(rule.rule_name.clone(), char_vector, starting_pos, starting_pos + 1);
                return (logger, Some(ParsingResult::Pass(starting_pos, starting_pos + 1)));
            }
            (logger, Some(ParsingResult::Fail))
        },
        RuleType::CharsNot => {
            if starting_pos - offset >= char_vector.len() {
                return (logger, Some(ParsingResult::EOF));
            }
            let c = char_vector[starting_pos - offset];
            if in_ranges_exec(&rule.expected_char_ranges, c) || contains_char(
                &rule.expected_chars,
                c,
            ) {
                return (logger, Some(ParsingResult::Fail));
            }
            logger.pass(rule.rule_name.clone(), char_vector, starting_pos, starting_pos + 1);
            (logger, Some(ParsingResult::Pass(starting_pos, starting_pos + 1)))
        },
        RuleType::CharSequence => {
            let ghost i0 = starting_pos - offset;
            let mut new_starting_pos = starting_pos;
            let mut k: usize = 0;
            while k < rule.expected_chars.len()
                invariant
                    offset <= starting_pos,
                    offset + char_vector.len() <= usize::MAX,
                    i0 == starting_pos - offset,
                    k <= rule.expected_chars.len(),
                    new_starting_pos == starting_pos + k,
                    char_sequence(char_vector@, i0, rule.expected_chars@, 0) == char_sequence(
                        char_vector@,
                        i0,
                        rule.expected_chars@,
                        k as int,
                    ),
                decreases rule.expected_chars.len() - k,
            {
                if new_starting_pos - offset >= char_vector.len() {
                    return (logger, Some(ParsingResult::EOF));
                }
                let c = char_vector[new_starting_pos - offset];
                if rule.expected_chars[k] == c {
                    new_starting_pos = new_starting_pos + 1;
                    k = k + 1;
                } else {
                    return (logger, Some(ParsingResult::Fail));
                }
            }
            logger.pass(rule.rule_name.clone(), char_vector, starting_pos, new_starting_pos);
            (logger, Some(ParsingResult::Pass(starting_pos, new_starting_pos)))
        },
        RuleType::ZeroOrMore => {
            let idx = rule.children[0];
            let child = &rule_vec[idx];
            assert(rule_ok(rule_vec@[idx as int], rule_vec.len() as int));
            let mut cur = starting_pos;
            let mut g = f;
            loop
                invariant
                    rules_ok(rule_vec@),
                    rule_ok(*child, rule_vec.len() as int),
                    offset <= starting_pos,
                    offset <= cur,
                    offset + char_vector.len() <= usize::MAX,
                    resume_ok(resume_state_vec@, offset),
                    g <= f,
                    run_zom(
                        rule_vec@,
                        *child,
                        char_vector@,
                        starting_pos,
                        cur,
                        offset,
                        resume_state_vec@,
                        state_vec@,
                        g as nat,
                    ) == target,
                    logger.calls() + zom_log(
                        rule_vec@,
                        rule.rule_name@,
                        *child,
                        char_vector@,
                        starting_pos,
                        cur,
                        offset,
                        resume_state_vec@,
                        state_vec@,
                        g as nat,
                    ) == target_log,
                decreases g,
            {
                if g == 0 {
                    assert(logger.calls() =~= target_log);
                    return (logger, None);
                }
                let ghost before = logger.calls();
                let (lg, res) = parse_with_rule_bounded(
                    rule_vec,
                    child,
                    char_vector,
                    cur,
                    offset,
                    resume_state_vec,
                    state_vec,
                    logger,
                    g - 1,
                );
                logger = lg;
                match res {
                    None => {
                        return (logger, None);
                    },
                    Some(ParsingResult::Fail) => {
                        logger.pass(rule.rule_name.clone(), char_vector, starting_pos, cur);
                        assert(logger.calls() =~= target_log);
                        return (logger, Some(ParsingResult::Pass(starting_pos, cur)));
                    },
                    Some(ParsingResult::Pass(_, e)) => {
                        proof {
                            vstd::seq_lib::lemma_concat_associative(
                                before,
                                logger.calls().subrange(before.len() as int, logger.calls().len() as int),
                                zom_log(
                                    rule_vec@,
                                    rule.rule_name@,
                                    *child,
                                    char_vector@,
                                    starting_pos,
                                    e,
                                    offset,
                                    resume_state_vec@,
                                    state_vec@,
                                    (g - 1) as nat,
                                ),
                            );
                            assert(logger.calls() =~= before + logger.calls().subrange(
                                before.len() as int,
                                logger.calls().len() as int,
                            ));
                        }
                        cur = e;
                        g = g - 1;
                    },
                    Some(ParsingResult::EOF) => {
                        return (logger, Some(ParsingResult::EOF));
                    },
                }
            }
        },
        RuleType::Sequence => {
            let (mut k, mut cur) = match resume_state_vec.pop() {
                Some((no, p, _)) => (no, p),
                None => (0usize, starting_pos),
            };
            let mut g = f;
            while k < rule.children.len()
                invariant
                    rules_ok(rule_vec@),
                    rule_ok(*rule, rule_vec.len() as int),
                    offset <= starting_pos,
                    offset <= cur,
                    offset + char_vector.len() <= usize::MAX,
                    resume_ok(resume_state_vec@, offset),
                    g <= f,
                    run_seq(
                        rule_vec@,
                        *rule,
                        char_vector@,
                        starting_pos,
                        k as int,
                        cur,
                        offset,
                        resume_state_vec@,
                        state_vec@,
                        g as nat,
                    ) == target,
                    logger.calls() + seq_log(
                        rule_vec@,
                        *rule,
                        char_vector@,
                        starting_pos,
                        k as int,
                        cur,
                        offset,
                        resume_state_vec@,
                        state_vec@,
                        g as nat,
                    ) == target_log,
                decreases g,
            {
                if g == 0 {
                    assert(logger.calls() =~= target_log);
                    return (logger, None);
                }
                let ghost before = logger.calls();
                state_vec.push((k, cur, rule.is_chunkable));
                let idx = rule.children[k];
                let child = &rule_vec[idx];
                assert(rule_ok(rule_vec@[idx as int], rule_vec.len() as int));
                let (lg, res) = parse_with_rule_bounded(
                    rule_vec,
                    child,
                    char_vector,
                    cur,
                    offset,
                    resume_state_vec,
                    state_vec,
                    logger,
                    g - 1,
                );
                logger = lg;
                match res {
                    None => {
                        return (logger, None);
                    },
                    Some(ParsingResult::Fail) => {
                        state_vec.pop();
                        return (logger, Some(ParsingResult::Fail));
                    },
                    Some(ParsingResult::Pass(_, e)) => {
                        cur = e;
                    },
                    Some(ParsingResult::EOF) => {
                        logger.pass(rule.rule_name.clone(), char_vector, starting_pos, 0);
                        assert(logger.calls() =~= target_log);
                        return (logger, Some(ParsingResult::EOF));
                    },
                }
                state_vec.pop();
                k = k + 1;
                g = g - 1;
                proof {
                    let rest = seq_log(
                        rule_vec@,
                        *rule,
                        char_vector@,
                        starting_pos,
                        k as int,
                        cur,
                        offset,
                        resume_state_vec@,
                        state_vec@,
                        g as nat,
                    );
                    let mid = logger.calls().subrange(before.len() as int, logger.calls().len() as int);
                    vstd::seq_lib::lemma_concat_associative(before, mid, rest);
                    assert(logger.calls() =~= before + mid);
                }
            }
            logger.pass(rule.rule_name.clone(), char_vector, starting_pos, cur);
            assert(logger.calls() =~= target_log);
            (logger, Some(ParsingResult::Pass(starting_pos, cur)))
        },
        RuleType::Or => {
            let (mut k, at) = match resume_state_vec.pop() {
                Some((no, p, _)) => (no, p),
                None => (0usize, starting_pos),
            };
            let mut g = f;
            while k < rule.children.len()
                invariant
                    rules_ok(rule_vec@),
                    rule_ok(*rule, rule_vec.len() as int),
                    offset <= at,
                    offset + char_vector.len() <= usize::MAX,
                    resume_ok(resume_state_vec@, offset),
                    g <= f,
                    run_or(
                        rule_vec@,
                        *rule,
                        char_vector@,
                        k as int,
                        at,
                        offset,
                        resume_state_vec@,
                        state_vec@,
                        g as nat,
                    ) == target,
                    logger.calls() + or_log(
                        rule_vec@,
                        *rule,
                        char_vector@,
                        k as int,
                        at,
                        offset,
                        resume_state_vec@,
                        state_vec@,
                        g as nat,
                    ) == target_log,
                decreases g,
            {
                if g == 0 {
                    assert(logger.calls() =~= target_log);
                    return (logger, None);
                }
                let ghost before = logger.calls();
                let no_backtrack_required = k == rule.children.len() - 1;
                state_vec.push((k, at, no_backtrack_required));
                let idx = rule.children[k];
                let child = &rule_vec[idx];
                assert(rule_ok(rule_vec@[idx as int], rule_vec.len() as int));
                let (lg, res) = parse_with_rule_bounded(
                    rule_vec,
                    child,
                    char_vector,
                    at,
                    offset,
                    resume_state_vec,
                    state_vec,
                    logger,
                    g - 1,
                );
                logger = lg;
                match res {
                    None => {
                        return (logger, None);
                    },
                    Some(ParsingResult::Pass(s, e)) => {
                        logger.pass(rule.rule_name.clone(), char_vector, s, e);
                        state_vec.pop();
                        assert(logger.calls() =~= target_log);
                        return (logger, Some(ParsingResult::Pass(s, e)));
                    },
                    Some(ParsingResult::Fail) => {},
                    Some(ParsingResult::EOF) => {
                        return (logger, Some(ParsingResult::EOF));
                    },
                }
                state_vec.pop();
                k = k + 1;
                g = g - 1;
                proof {
                    let rest = or_log(
                        rule_vec@,
                        *rule,
                        char_vector@,
                        k as int,
                        at,
                        offset,
                        resume_state_vec@,
                        state_vec@,
                        g as nat,
                    );
                    let mid = logger.calls().subrange(before.len() as int, logger.calls().len() as int);
                    vstd::seq_lib::lemma_concat_associative(before, mid, rest);
                    assert(logger.calls() =~= before + mid);
                }
            }
            assert(logger.calls() =~= target_log);
            (logger, Some(ParsingResult::Fail))
        },
        RuleType::WithException => {
            let i1 = rule.children[0];
            let i2 = rule.children[1];
            assert(rule_ok(rule_vec@[i1 as int], rule_vec.len() as int));
            assert(rule_ok(rule_vec@[i2 as int], rule_vec.len() as int));
            let (lg, res) = parse_with_rule_bounded(
                rule_vec,
                &rule_vec[i1],
                char_vector,
                starting_pos,
                offset,
                resume_state_vec,
                state_vec,
                logger,
                f,
            );
            match res {
                Some(ParsingResult::Pass(s, e)) => {
                    let (lg2, res2) = parse_with_rule_bounded(
                        rule_vec,
                        &rule_vec[i2],
                        char_vector,
                        starting_pos,
                        offset,
                        resume_state_vec,
                        state_vec,
                        lg,
                        f,
                    );
                    let mut logger = lg2;
                    match res2 {
                        Some(ParsingResult::Fail) => {
                            logger.pass(rule.rule_name.clone(), char_vector, s, e);
                            (logger, Some(ParsingResult::Pass(s, e)))
                        },
                        Some(ParsingResult::Pass(_, _)) => (logger, Some(ParsingResult::Fail)),
                        Some(ParsingResult::EOF) => (logger, Some(ParsingResult::EOF)),
                        None => (logger, None),
                    }
                },
                other => (lg, other),
            }
        },
        RuleType::Optional => {
            let i1 = rule.children[0];
            assert(rule_ok(rule_vec@[i1 as int], rule_vec.len() as int));
            let (lg, res) = parse_with_rule_bounded(
                rule_vec,
                &rule_vec[i1],
                char_vector,
                starting_pos,
                offset,
                resume_state_vec,
                state_vec,
                logger,
                f,
            );
            let mut logger = lg;
            match res {
                Some(ParsingResult::Pass(s, e)) => {
                    logger.pass(rule.rule_name.clone(), char_vector, s, e);
                    (logger, Some(ParsingResult::Pass(s, e)))
                },
                Some(ParsingResult::Fail) => {
                    logger.pass(rule.rule_name.clone(), char_vector, starting_pos, starting_pos);
                    (logger, Some(ParsingResult::Pass(starting_pos, starting_pos)))
                },
                Some(ParsingResult::EOF) => (logger, Some(ParsingResult::EOF)),
                None => (logger, None),
            }
        },
        _ => (logger, Some(ParsingResult::Fail)),
    }
}

/// Run `rule` over the characters from `starting_pos` on, where the run
/// ends (see `parse_with_rule_bounded`, `run` for what it gives and
/// `run_log` for what the logger is told). A grammar whose rules call one
/// another without taking a character (a repetition of what may match
/// nothing) never ends: such a run is left out by `requires`.
pub fn parse_with_rule<T: ParsingPassLogStream>(
    rule_vec: &Vec<ParsingRule>,
    rule: &ParsingRule,
    char_vector: &Vec<char>,
    starting_pos: usize,
    offset: usize,
    resume_state_vec: &mut Vec<StateEntry>,
    state_vec: &mut Vec<StateEntry>,
    logger: T,
) -> (r: (T, ParsingResult))
    requires
        rules_ok(rule_vec@),
        rule_ok(*rule, rule_vec.len() as int),
        offset <= starting_pos,
        offset + char_vector.len() <= usize::MAX,
        resume_ok(old(resume_state_vec)@, offset),
        run(
            rule_vec@,
            *rule,
            char_vector@,
            starting_pos,
            offset,
            old(resume_state_vec)@,
            old(state_vec)@,
            usize::MAX as nat,
        ) is Some,
    ensures
        run(
            rule_vec@,
            *rule,
            char_vector@,
            starting_pos,
            offset,
            old(resume_state_vec)@,
            old(state_vec)@,
            usize::MAX as nat,
        ) matches Some((res, rs, ss)) && r.1 == res && final(resume_state_vec)@ == rs && final(state_vec)@ == ss,
        r.0.calls() == logger.calls() + run_log(
            rule_vec@,
            *rule,
            char_vector@,
            starting_pos,
            offset,
            old(resume_state_vec)@,
            old(state_vec)@,
            usize::MAX as nat,
        ),
{
    let (logger, res) = parse_with_rule_bounded(
        rule_vec,
        rule,
        char_vector,
        starting_pos,
        offset,
        resume_state_vec,
        state_vec,
        logger,
        usize::MAX,
    );
    match res {
        Some(x) => (logger, x),
        None => (logger, ParsingResult::Fail),
    }
}

/// A run that ends within `fuel` nested steps gives the same result, and
/// leaves the same stacks, with any larger number of steps: the budget only
/// decides whether a run ends, never what it gives.
pub proof fn law_more_fuel_same_result(
    rules: Seq<ParsingRule>,
    rule: ParsingRule,
    chars: Seq<char>,
    pos: usize,
    offset: usize,
    resume: Seq<StateEntry>,
    st: Seq<StateEntry>,
    fuel: nat,
    more: nat,
)
    requires
        fuel <= more,
        run(rules, rule, chars, pos, offset, resume, st, fuel) is Some,
    ensures
        run(rules, rule, chars, pos, offset, resume, st, more) == run(
            rules,
            rule,
            chars,
            pos,
            offset,
            resume,
            st,
            fuel,
        ),
    decreases fuel, 1nat,
{
    let f = (fuel - 1) as nat;
    let m = (more - 1) as nat;
    match rule.rule_type {
        RuleType::ZeroOrMore => {
            lemma_zom_more_fuel(rules, rules[rule.children@[0] as int], chars, pos, pos, offset, resume, st, f, m);
        },
        RuleType::Sequence => {
            if resume.len() > 0 {
                lemma_seq_more_fuel(
                    rules,
                    rule,
                    chars,
                    pos,
                    resume.last().0 as int,
                    resume.last().1,
                    offset,
                    resume.drop_last(),
                    st,
                    f,
                    m,
                );
            } else {
                lemma_seq_more_fuel(rules, rule, chars, pos, 0, pos, offset, resume, st, f, m);
            }
        },
        RuleType::Or => {
            if resume.len() > 0 {
                lemma_or_more_fuel(
                    rules,
                    rule,
                    chars,
                    resume.last().0 as int,
                    resume.last().1,
                    offset,
                    resume.drop_last(),
                    st,
                    f,
                    m,
                );
            } else {
                lemma_or_more_fuel(rules, rule, chars, 0, pos, offset, resume, st, f, m);
            }
        },
        RuleType::WithException => {
            let first = rules[rule.children@[0] as int];
            let second = rules[rule.children@[1] as int];
            law_more_fuel_same_result(rules, first, chars, pos, offset, resume, st, f, m);
            if let Some((ParsingResult::Pass(_, _), r1, s1)) = run(rules, first, chars, pos, offset, resume, st, f) {
                law_more_fuel_same_result(rules, second, chars, pos, offset, r1, s1, f, m);
            }
        },
        RuleType::Optional => {
            law_more_fuel_same_result(rules, rules[rule.children@[0] as int], chars, pos, offset, resume, st, f, m);
        },
        _ => {},
    }
}

proof fn lemma_zom_more_fuel(
    rules: Seq<ParsingRule>,
    child: ParsingRule,
    chars: Seq<char>,
    start: usize,
    cur: usize,
    offset: usize,
    resume: Seq<StateEntry>,
    st: Seq<StateEntry>,
    fuel: nat,
    more: nat,
)
    requires
        fuel <= more,
        run_zom(rules, child, chars, start, cur, offset, resume, st, fuel) is Some,
    ensures
        run_zom(rules, child, chars, start, cur, offset, resume, st, more) == run_zom(
            rules,
            child,
            chars,
            start,
            cur,
            offset,
            resume,
            st,
            fuel,
        ),
    decreases fuel, 0nat,
{
    let f = (fuel - 1) as nat;
    let m = (more - 1) as nat;
    law_more_fuel_same_result(rules, child, chars, cur, offset, resume, st, f, m);
    if let Some((ParsingResult::Pass(_, e), r1, s1)) = run(rules, child, chars, cur, offset, resume, st, f) {
        lemma_zom_more_fuel(rules, child, chars, start, e, offset, r1, s1, f, m);
    }
}

proof fn lemma_seq_more_fuel(
    rules: Seq<ParsingRule>,
    rule: ParsingRule,
    chars: Seq<char>,
    start: usize,
    k: int,
    cur: usize,
    offset: usize,
    resume: Seq<StateEntry>,
    st: Seq<StateEntry>,
    fuel: nat,
    more: nat,
)
    requires
        fuel <= more,
        run_seq(rules, rule, chars, start, k, cur, offset, resume, st, fuel) is Some,
    ensures
        run_seq(rules, rule, chars, start, k, cur, offset, resume, st, more) == run_seq(
            rules,
            rule,
            chars,
            start,
            k,
            cur,
            offset,
            resume,
            st,
            fuel,
        ),
    decreases fuel, 0nat,
{
    if k < rule.children@.len() {
        let f = (fuel - 1) as nat;
        let m = (more - 1) as nat;
        let child = rules[rule.children@[k] as int];
        let pushed = st.push((k as usize, cur, rule.is_chunkable));
        law_more_fuel_same_result(rules, child, chars, cur, offset, resume, pushed, f, m);
        if let Some((ParsingResult::Pass(_, e), r1, s1)) = run(rules, child, chars, cur, offset, resume, pushed, f) {
            lemma_seq_more_fuel(rules, rule, chars, start, k + 1, e, offset, r1, popped(s1), f, m);
        }
    }
}

proof fn lemma_or_more_fuel(
    rules: Seq<ParsingRule>,
    rule: ParsingRule,
    chars: Seq<char>,
    k: int,
    at: usize,
    offset: usize,
    resume: Seq<StateEntry>,
    st: Seq<StateEntry>,
    fuel: nat,
    more: nat,
)
    requires
        fuel <= more,
        run_or(rules, rule, chars, k, at, offset, resume, st, fuel) is Some,
    ensures
        run_or(rules, rule, chars, k, at, offset, resume, st, more) == run_or(
            rules,
            rule,
            chars,
            k,
            at,
            offset,
            resume,
            st,
            fuel,
        ),
    decreases fuel, 0nat,
{
    if k < rule.children@.len() {
        let f = (fuel - 1) as nat;
        let m = (more - 1) as nat;
        let child = rules[rule.children@[k] as int];
        let pushed = st.push((k as usize, at, k == rule.children@.len() - 1));
        law_more_fuel_same_result(rules, child, chars, at, offset, resume, pushed, f, m);
        if let Some((ParsingResult::Fail, r1, s1)) = run(rules, child, chars, at, offset, resume, pushed, f) {
            lemma_or_more_fuel(rules, rule, chars, k + 1, at, offset, r1, popped(s1), f, m);
        }
    }
}

/// A run that passes or fails leaves the state stack as it found it: each
/// sequence or alternative takes away the entry it pushed; only a run that
/// runs out of characters leaves entries behind, to say where to resume.
pub proof fn law_state_stack_balanced(
    rules: Seq<ParsingRule>,
    rule: ParsingRule,
    chars: Seq<char>,
    pos: usize,
    offset: usize,
    resume: Seq<StateEntry>,
    st: Seq<StateEntry>,
    fuel: nat,
)
    ensures
        run(rules, rule, chars, pos, offset, resume, st, fuel) matches Some((res, _, s)) ==> (
        res !is EOF ==> s == st),
    decreases fuel, 1nat,
{
    if fuel > 0 {
        let f = (fuel - 1) as nat;
        match rule.rule_type {
            RuleType::ZeroOrMore => {
                lemma_zom_balanced(rules, rules[rule.children@[0] as int], chars, pos, pos, offset, resume, st, f);
            },
            RuleType::Sequence => {
                if resume.len() > 0 {
                    lemma_seq_balanced(
                        rules,
                        rule,
                        chars,
                        pos,
                        resume.last().0 as int,
                        resume.last().1,
                        offset,
                        resume.drop_last(),
                        st,
                        f,
                    );
                } else {
                    lemma_seq_balanced(rules, rule, chars, pos, 0, pos, offset, resume, st, f);
                }
            },
            RuleType::Or => {
                if resume.len() > 0 {
                    lemma_or_balanced(
                        rules,
                        rule,
                        chars,
                        resume.last().0 as int,
                        resume.last().1,
                        offset,
                        resume.drop_last(),
                        st,
                        f,
                    );
                } else {
                    lemma_or_balanced(rules, rule, chars, 0, pos, offset, resume, st, f);
                }
            },
            RuleType::WithException => {
                let first = rules[rule.children@[0] as int];
                let second = rules[rule.children@[1] as int];
                law_state_stack_balanced(rules, first, chars, pos, offset, resume, st, f);
                if let Some((ParsingResult::Pass(_, _), r1, s1)) = run(rules, first, chars, pos, offset, resume, st, f) {
                    law_state_stack_balanced(rules, second, chars, pos, offset, r1, s1, f);
                }
            },
            RuleType::Optional => {
                law_state_stack_balanced(rules, rules[rule.children@[0] as int], chars, pos, offset, resume, st, f);
            },
            _ => {},
        }
    }
}

proof fn lemma_zom_balanced(
    rules: Seq<ParsingRule>,
    child: ParsingRule,
    chars: Seq<char>,
    start: usize,
    cur: usize,
    offset: usize,
    resume: Seq<StateEntry>,
    st: Seq<StateEntry>,
    fuel: nat,
)
    ensures
        run_zom(rules, child, chars, start, cur, offset, resume, st, fuel) matches Some((res, _, s))
            ==> (res !is EOF ==> s == st),
    decreases fuel, 0nat,
{
    if fuel > 0 {
        let f = (fuel - 1) as nat;
        law_state_stack_balanced(rules, child, chars, cur, offset, resume, st, f);
        if let Some((ParsingResult::Pass(_, e), r1, s1)) = run(rules, child, chars, cur, offset, resume, st, f) {
            lemma_zom_balanced(rules, child, chars, start, e, offset, r1, s1, f);
        }
    }
}

proof fn lemma_seq_balanced(
    rules: Seq<ParsingRule>,
    rule: ParsingRule,
    chars: Seq<char>,
    start: usize,
    k: int,
    cur: usize,
    offset: usize,
    resume: Seq<StateEntry>,
    st: Seq<StateEntry>,
    fuel: nat,
)
    ensures
        run_seq(rules, rule, chars, start, k, cur, offset, resume, st, fuel) matches Some((res, _, s))
            ==> (res !is EOF ==> s == st),
    decreases fuel, 0nat,
{
    if k < rule.children@.len() && fuel > 0 {
        let f = (fuel - 1) as nat;
        let child = rules[rule.children@[k] as int];
        let pushed = st.push((k as usize, cur, rule.is_chunkable));
        law_state_stack_balanced(rules, child, chars, cur, offset, resume, pushed, f);
        assert(popped(pushed) =~= st);
        if let Some((ParsingResult::Pass(_, e), r1, s1)) = run(rules, child, chars, cur, offset, resume, pushed, f) {
            lemma_seq_balanced(rules, rule, chars, start, k + 1, e, offset, r1, popped(s1), f);
        }
    }
}

proof fn lemma_or_balanced(
    rules: Seq<ParsingRule>,
    rule: ParsingRule,
    chars: Seq<char>,
    k: int,
    at: usize,
    offset: usize,
    resume: Seq<StateEntry>,
    st: Seq<StateEntry>,
    fuel: nat,
)
    ensures
        run_or(rules, rule, chars, k, at, offset, resume, st, fuel) matches Some((res, _, s)) ==> (
        res !is EOF ==> s == st),
    decreases fuel, 0nat,
{
    if k < rule.children@.len() && fuel > 0 {
        let f = (fuel - 1) as nat;
        let child = rules[rule.children@[k] as int];
        let pushed = st.push((k as usize, at, k == rule.children@.len() - 1));
        law_state_stack_balanced(rules, child, chars, at, offset, resume, pushed, f);
        assert(popped(pushed) =~= st);
        if let Some((ParsingResult::Fail, r1, s1)) = run(rules, child, chars, at, offset, resume, pushed, f) {
            lemma_or_balanced(rules, rule, chars, k + 1, at, offset, r1, popped(s1), f);
        }
    }
}


/* ---------------------------------------------------------------------- */
/* what a logger hears of a run                                             */

/// One call that `parse_with_rule` makes on its logger: `try_rule` with a
/// rule's name and position, or `pass` with a rule's name, the characters,
/// and where the rule's match starts and ends.
pub ghost enum LogCall {
    Try(Seq<char>, usize),
    Pass(Seq<char>, Seq<char>, usize, usize),
}

/// What a logger has been told, in order (see
/// `ParsingPassLogStream::calls`).
pub type LogCalls = Seq<LogCall>;

/// The calls a run of `rule` from `pos` makes on its logger, in order (see
/// `run` for the run itself): first `try_rule` with the rule's name, then
/// what its parts make, then `pass` where the rule matches. A sequence that
/// runs out of characters says `pass` with `0` for its end.
pub open spec fn run_log(
    rules: Seq<ParsingRule>,
    rule: ParsingRule,
    chars: Seq<char>,
    pos: usize,
    offset: usize,
    resume: Seq<StateEntry>,
    st: Seq<StateEntry>,
    fuel: nat,
) -> Seq<LogCall>
    decreases fuel, 1nat,
{
    let name = rule.rule_name@;
    let tried = seq![LogCall::Try(name, pos)];
    if fuel == 0 {
        tried
    } else {
        let f = (fuel - 1) as nat;
        match rule.rule_type {
            RuleType::Chars | RuleType::CharsNot | RuleType::CharSequence => match run(
                rules,
                rule,
                chars,
                pos,
                offset,
                resume,
                st,
                fuel,
            ) {
                Some((ParsingResult::Pass(s, e), _, _)) => tried.push(LogCall::Pass(name, chars, s, e)),
                _ => tried,
            },
            RuleType::ZeroOrMore => tried + zom_log(
                rules,
                name,
                rules[rule.children@[0] as int],
                chars,
                pos,
                pos,
                offset,
                resume,
                st,
                f,
            ),
            RuleType::Sequence => if resume.len() > 0 {
                tried + seq_log(
                    rules,
                    rule,
                    chars,
                    pos,
                    resume.last().0 as int,
                    resume.last().1,
                    offset,
                    resume.drop_last(),
                    st,
                    f,
                )
            } else {
                tried + seq_log(rules, rule, chars, pos, 0, pos, offset, resume, st, f)
            },
            RuleType::Or => if resume.len() > 0 {
                tried + or_log(
                    rules,
                    rule,
                    chars,
                    resume.last().0 as int,
                    resume.last().1,
                    offset,
                    resume.drop_last(),
                    st,
                    f,
                )
            } else {
                tried + or_log(rules, rule, chars, 0, pos, offset, resume, st, f)
            },
            RuleType::WithException => {
                let first = rules[rule.children@[0] as int];
                let second = rules[rule.children@[1] as int];
                let l1 = run_log(rules, first, chars, pos, offset, resume, st, f);
                match run(rules, first, chars, pos, offset, resume, st, f) {
                    Some((ParsingResult::Pass(s, e), r1, s1)) => {
                        let l2 = run_log(rules, second, chars, pos, offset, r1, s1, f);
                        match run(rules, second, chars, pos, offset, r1, s1, f) {
                            Some((ParsingResult::Fail, _, _)) => tried + l1 + l2.push(
                                LogCall::Pass(name, chars, s, e),
                            ),
                            _ => tried + l1 + l2,
                        }
                    },
                    _ => tried + l1,
                }
            },
            RuleType::Optional => {
                let child = rules[rule.children@[0] as int];
                let l1 = run_log(rules, child, chars, pos, offset, resume, st, f);
                match run(rules, child, chars, pos, offset, resume, st, f) {
                    Some((ParsingResult::Pass(s, e), _, _)) => tried + l1.push(
                        LogCall::Pass(name, chars, s, e),
                    ),
                    Some((ParsingResult::Fail, _, _)) => tried + l1.push(
                        LogCall::Pass(name, chars, pos, pos),
                    ),
                    _ => tried + l1,
                }
            },
            _ => tried,
        }
    }
}

/// The calls of a repetition named `name` of `child` that began at `start`
/// and stands at `cur` (see `run_zom`).
pub open spec fn zom_log(
    rules: Seq<ParsingRule>,
    name: Seq<char>,
    child: ParsingRule,
    chars: Seq<char>,
    start: usize,
    cur: usize,
    offset: usize,
    resume: Seq<StateEntry>,
    st: Seq<StateEntry>,
    fuel: nat,
) -> Seq<LogCall>
    decreases fuel, 0nat,
{
    if fuel == 0 {
        Seq::empty()
    } else {
        let f = (fuel - 1) as nat;
        let l = run_log(rules, child, chars, cur, offset, resume, st, f);
        match run(rules, child, chars, cur, offset, resume, st, f) {
            Some((ParsingResult::Fail, _, _)) => l.push(LogCall::Pass(name, chars, start, cur)),
            Some((ParsingResult::Pass(_, e), r1, s1)) => l + zom_log(
                rules,
                name,
                child,
                chars,
                start,
                e,
                offset,
                r1,
                s1,
                f,
            ),
            _ => l,
        }
    }
}

/// The calls of the parts of the sequence `rule` from the `k`-th on (see
/// `run_seq`).
pub open spec fn seq_log(
    rules: Seq<ParsingRule>,
    rule: ParsingRule,
    chars: Seq<char>,
    start: usize,
    k: int,
    cur: usize,
    offset: usize,
    resume: Seq<StateEntry>,
    st: Seq<StateEntry>,
    fuel: nat,
) -> Seq<LogCall>
    decreases fuel, 0nat,
{
    if k >= rule.children@.len() {
        seq![LogCall::Pass(rule.rule_name@, chars, start, cur)]
    } else if fuel == 0 {
        Seq::empty()
    } else {
        let f = (fuel - 1) as nat;
        let child = rules[rule.children@[k] as int];
        let pushed = st.push((k as usize, cur, rule.is_chunkable));
        let l = run_log(rules, child, chars, cur, offset, resume, pushed, f);
        match run(rules, child, chars, cur, offset, resume, pushed, f) {
            Some((ParsingResult::Pass(_, e), r1, s1)) => l + seq_log(
                rules,
                rule,
                chars,
                start,
                k + 1,
                e,
                offset,
                r1,
                popped(s1),
                f,
            ),
            Some((ParsingResult::EOF, _, _)) => l.push(LogCall::Pass(rule.rule_name@, chars, start, 0)),
            _ => l,
        }
    }
}

/// The calls of the alternatives of `rule` from the `k`-th on (see
/// `run_or`).
pub open spec fn or_log(
    rules: Seq<ParsingRule>,
    rule: ParsingRule,
    chars: Seq<char>,
    k: int,
    at: usize,
    offset: usize,
    resume: Seq<StateEntry>,
    st: Seq<StateEntry>,
    fuel: nat,
) -> Seq<LogCall>
    decreases fuel, 0nat,
{
    if k >= rule.children@.len() || fuel == 0 {
        Seq::empty()
    } else {
        let f = (fuel - 1) as nat;
        let child = rules[rule.children@[k] as int];
        let pushed = st.push((k as usize, at, k == rule.children@.len() - 1));
        let l = run_log(rules, child, chars, at, offset, resume, pushed, f);
        match run(rules, child, chars, at, offset, resume, pushed, f) {
            Some((ParsingResult::Pass(s, e), _, _)) => l.push(LogCall::Pass(rule.rule_name@, chars, s, e)),
            Some((ParsingResult::Fail, r1, s1)) => l + or_log(
                rules,
                rule,
                chars,
                k + 1,
                at,
                offset,
                r1,
                popped(s1),
                f,
            ),
            _ => l,
        }
    }
}


/* ---------------------------------------------------------------------- */
/* laws of single character rules                                           */

/// The rule's class holds the character: it lies between the ends of one
/// of the rule's ranges, both ends included, or it is one of the rule's
/// characters.
pub open spec fn class_holds(rule: ParsingRule, c: char) -> bool {
    ||| exists|i: int|
        0 <= i < rule.expected_char_ranges@.len() && (rule.expected_char_ranges@[i].0 as u32) <= (c as u32)
            && (c as u32) <= (#[trigger] rule.expected_char_ranges@[i]).1 as u32
    ||| rule.expected_chars@.contains(c)
}

/// A single character rule looks at one character: with the characters
/// run out it answers `EOF`; it passes over that one character when its
/// class holds it (ends of ranges included) and fails otherwise; a rule of
/// the characters not in a class does the opposite. It touches neither
/// stack.
pub proof fn law_single_character_rule(
    rules: Seq<ParsingRule>,
    rule: ParsingRule,
    chars: Seq<char>,
    pos: usize,
    offset: usize,
    resume: Seq<StateEntry>,
    st: Seq<StateEntry>,
    fuel: nat,
)
    requires
        fuel > 0,
        offset <= pos,
        pos + 1 <= usize::MAX,
        rule.rule_type == RuleType::Chars || rule.rule_type == RuleType::CharsNot,
    ensures
        ({
            let i = pos - offset;
            let res = if i >= chars.len() {
                ParsingResult::EOF
            } else if class_holds(rule, chars[i]) == (rule.rule_type == RuleType::Chars) {
                ParsingResult::Pass(pos, (pos + 1) as usize)
            } else {
                ParsingResult::Fail
            };
            run(rules, rule, chars, pos, offset, resume, st, fuel) == Some((res, resume, st))
        }),
{
    let i = pos - offset;
    if i < chars.len() {
        let c = chars[i];
        if class_holds(rule, c) {
            if !rule.expected_chars@.contains(c) {
                let k = choose|k: int|
                    0 <= k < rule.expected_char_ranges@.len() && (rule.expected_char_ranges@[k].0 as u32)
                        <= (c as u32) && (c as u32) <= (#[trigger] rule.expected_char_ranges@[k]).1 as u32;
                assert(in_range(rule.expected_char_ranges@[k], c));
            }
        } else {
            assert forall|k: int| 0 <= k < rule.expected_char_ranges@.len() implies !#[trigger] in_range(
                rule.expected_char_ranges@[k],
                c,
            ) by {
                if in_range(rule.expected_char_ranges@[k], c) {
                    assert((rule.expected_char_ranges@[k].0 as u32) <= (c as u32) && (c as u32)
                        <= rule.expected_char_ranges@[k].1 as u32);
                }
            }
        }
    }
}

/// Some expected character from the `kk`-th on differs from the character
/// at its place, among the characters there are.
pub open spec fn sequence_differs(chars: Seq<char>, i: int, exp: Seq<char>, kk: int) -> bool {
    exists|j: int| kk <= j < exp.len() && i + j < chars.len() && #[trigger] chars[i + j] != exp[j]
}

proof fn lemma_char_sequence(chars: Seq<char>, i: int, exp: Seq<char>, kk: int)
    requires
        0 <= i,
        0 <= kk,
    ensures
        char_sequence(chars, i, exp, kk) == if sequence_differs(chars, i, exp, kk) {
            ParsingResult::Fail
        } else if kk < exp.len() && i + exp.len() > chars.len() {
            ParsingResult::EOF
        } else {
            ParsingResult::Pass(0, 0)
        },
    decreases exp.len() - kk,
{
    if kk < exp.len() {
        if i + kk >= chars.len() {
            assert(!sequence_differs(chars, i, exp, kk));
        } else if chars[i + kk] == exp[kk] {
            lemma_char_sequence(chars, i, exp, kk + 1);
            if sequence_differs(chars, i, exp, kk) {
                let j = choose|j: int|
                    kk <= j < exp.len() && i + j < chars.len() && #[trigger] chars[i + j] != exp[j];
                assert(j != kk);
                assert(sequence_differs(chars, i, exp, kk + 1));
            }
            if sequence_differs(chars, i, exp, kk + 1) {
                let j = choose|j: int|
                    kk + 1 <= j < exp.len() && i + j < chars.len() && #[trigger] chars[i + j] != exp[j];
                assert(sequence_differs(chars, i, exp, kk));
            }
        } else {
            assert(chars[i + kk] != exp[kk]);
            assert(sequence_differs(chars, i, exp, kk));
        }
    } else {
        assert(!sequence_differs(chars, i, exp, kk));
    }
}

/// A character sequence rule compares its expected characters, in order,
/// with the characters from its position: it passes over all of them when
/// they all match; it fails when one of them differs from a character that
/// is there; it answers `EOF` when the characters run out before a
/// difference (an empty sequence always passes). It touches neither stack.
pub proof fn law_character_sequence_rule(
    rules: Seq<ParsingRule>,
    rule: ParsingRule,
    chars: Seq<char>,
    pos: usize,
    offset: usize,
    resume: Seq<StateEntry>,
    st: Seq<StateEntry>,
    fuel: nat,
)
    requires
        fuel > 0,
        offset <= pos,
        pos + rule.expected_chars@.len() <= usize::MAX,
        rule.rule_type == RuleType::CharSequence,
    ensures
        ({
            let i = pos - offset;
            let exp = rule.expected_chars@;
            let res = if exists|j: int|
                0 <= j < exp.len() && i + j < chars.len() && #[trigger] chars[i + j] != exp[j] {
                ParsingResult::Fail
            } else if exp.len() > 0 && i + exp.len() > chars.len() {
                ParsingResult::EOF
            } else {
                ParsingResult::Pass(pos, (pos + exp.len()) as usize)
            };
            run(rules, rule, chars, pos, offset, resume, st, fuel) == Some((res, resume, st))
        }),
{
    let i = pos - offset;
    let exp = rule.expected_chars@;
    lemma_char_sequence(chars, i, exp, 0);
    assert(sequence_differs(chars, i, exp, 0) == exists|j: int|
        0 <= j < exp.len() && i + j < chars.len() && #[trigger] chars[i + j] != exp[j]);
}

/// How the rules that combine parts answer, in terms of what their parts
/// answer (one step less deep): an option answers what its part answers,
/// but passes over nothing where its part fails; an exception passes with
/// its first part's match when that part passes and its second part fails,
/// and fails when both pass; a repetition whose part fails at once passes
/// over nothing; an alternative, started afresh, passes with its first part
/// when that part passes; a sequence, started afresh, fails when its first
/// part fails.
pub proof fn law_combining_rules(
    rules: Seq<ParsingRule>,
    rule: ParsingRule,
    chars: Seq<char>,
    pos: usize,
    offset: usize,
    st: Seq<StateEntry>,
    fuel: nat,
)
    requires
        fuel > 1,
        rule.children@.len() >= 2 || (rule.rule_type != RuleType::WithException && rule.children@.len()
            >= 1),
    ensures
        ({
            let first = rules[rule.children@[0] as int];
            let f = (fuel - 1) as nat;
            let r1 = run(rules, first, chars, pos, offset, Seq::empty(), st, f);
            &&& rule.rule_type == RuleType::Optional ==> run(rules, rule, chars, pos, offset, Seq::empty(), st, fuel)
                == match r1 {
                Some((ParsingResult::Fail, a, b)) => Some((ParsingResult::Pass(pos, pos), a, b)),
                other => other,
            }
            &&& rule.rule_type == RuleType::WithException ==> match r1 {
                Some((ParsingResult::Pass(s, e), a, b)) => {
                    let r2 = run(rules, rules[rule.children@[1] as int], chars, pos, offset, a, b, f);
                    &&& (r2 matches Some((ParsingResult::Fail, _, _))) ==> run(
                        rules,
                        rule,
                        chars,
                        pos,
                        offset,
                        Seq::empty(),
                        st,
                        fuel,
                    ).unwrap().0 == ParsingResult::Pass(s, e)
                    &&& (r2 matches Some((ParsingResult::Pass(_, _), _, _))) ==> run(
                        rules,
                        rule,
                        chars,
                        pos,
                        offset,
                        Seq::empty(),
                        st,
                        fuel,
                    ).unwrap().0 == ParsingResult::Fail
                },
                other => run(rules, rule, chars, pos, offset, Seq::empty(), st, fuel) == other,
            }
            &&& (rule.rule_type == RuleType::ZeroOrMore && (run(rules, first, chars, pos, offset, Seq::empty(), st, (f - 1) as nat)
                matches Some((ParsingResult::Fail, _, _)))) ==> run(rules, rule, chars, pos, offset, Seq::empty(), st, fuel).unwrap().0
                == ParsingResult::Pass(pos, pos)
        }),
        ({
            let first = rules[rule.children@[0] as int];
            let f = (fuel - 1) as nat;
            let pushed_or = st.push((0usize, pos, rule.children@.len() == 1));
            let pushed_seq = st.push((0usize, pos, rule.is_chunkable));
            &&& (rule.rule_type == RuleType::Or && (run(rules, first, chars, pos, offset, Seq::empty(), pushed_or, (f - 1) as nat)
                matches Some((ParsingResult::Pass(_, _), _, _)))) ==> run(
                rules,
                rule,
                chars,
                pos,
                offset,
                Seq::empty(),
                st,
                fuel,
            ).unwrap().0 == run(rules, first, chars, pos, offset, Seq::empty(), pushed_or, (f - 1) as nat).unwrap().0
            &&& (rule.rule_type == RuleType::Sequence && (run(rules, first, chars, pos, offset, Seq::empty(), pushed_seq, (f - 1) as nat)
                matches Some((ParsingResult::Fail, _, _)))) ==> run(
                rules,
                rule,
                chars,
                pos,
                offset,
                Seq::empty(),
                st,
                fuel,
            ).unwrap().0 == ParsingResult::Fail
        }),
{
    let first = rules[rule.children@[0] as int];
    let f = (fuel - 1) as nat;
    let e: Seq<StateEntry> = Seq::empty();
    if rule.rule_type == RuleType::ZeroOrMore {
        assert(run(rules, rule, chars, pos, offset, e, st, fuel) == run_zom(rules, first, chars, pos, pos, offset, e, st, f));
    } else if rule.rule_type == RuleType::Or {
        assert(run(rules, rule, chars, pos, offset, e, st, fuel) == run_or(rules, rule, chars, 0, pos, offset, e, st, f));
    } else if rule.rule_type == RuleType::Sequence {
        assert(run(rules, rule, chars, pos, offset, e, st, fuel) == run_seq(rules, rule, chars, pos, 0, pos, offset, e, st, f));
    }
}

} // verus!

