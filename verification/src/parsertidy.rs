//! Rewriting a grammar into a smaller set of rule types: optional parts
//! become alternatives, repetitions become recursive alternatives.
use vstd::prelude::*;
use vstd::string::StringExecFns;
use vstd::utf8::is_scalar;
use crate::parser::{
    copy_strings, grammar_wf, insert_rule, registry_wf, lookup, lookup_name, place_of, prepare_rules,
    registry_view, unique_names, with_rule,
    rules_view, strings_view, GrammarView, Parser, ParsingRule, RuleType, RuleView,
};
use crate::sax::text::scalar_string;

verus! {

/// The character of the digit `d`.
pub open spec fn digit_char(d: nat) -> char {
    (48 + d) as char
}

/// The decimal digits of `n`.
pub open spec fn decimal(n: nat) -> Seq<char>
    decreases n,
{
    if n < 10 {
        seq![digit_char(n)]
    } else {
        decimal(n / 10) + seq![digit_char(n % 10)]
    }
}

fn digit_string(d: usize) -> (r: String)
    requires
        d < 10,
    ensures
        r@ == seq![digit_char(d as nat)],
{
    let v = (48 + d) as u32;
    assert(is_scalar(v));
    match scalar_string(v) {
        Some(t) => t,
        None => String::new(),
    }
}

/// The decimal digits of `n`, as `usize::to_string` writes them.
pub fn decimal_string(n: usize) -> (r: String)
    ensures
        r@ == decimal(n as nat),
    decreases n,
{
    if n < 10 {
        digit_string(n)
    } else {
        let mut s = decimal_string(n / 10);
        let d = digit_string(n % 10);
        s.append(d.as_str());
        s
    }
}

/// Rules that make a part optional or repeat it have a part.
pub open spec fn parts_present(g: GrammarView) -> bool {
    forall|k: int|
        0 <= k < g.rules.len() && ((#[trigger] g.rules[k]).rule_type == RuleType::Optional
            || g.rules[k].rule_type == RuleType::ZeroOrMore) ==> g.rules[k].children_names.len()
            >= 1
}

/// A grammar whose rules can be looked up by name.
pub open spec fn lookup_ready(g: GrammarView) -> bool {
    registry_wf(g) && parts_present(g)
}

/// A grammar the rewriting steps can work on.
pub open spec fn tidy_ready(g: GrammarView) -> bool {
    grammar_wf(g) && parts_present(g)
}

/// Whether the grammar is ready for the rewriting steps (see `tidy_ready`).
pub fn is_tidy_ready(p: &Parser) -> (r: bool)
    ensures
        r == tidy_ready(p@),
{
    let n = p.rule_vec.len();
    let m = p.rule_registry.len();
    let ghost g = p@;
    // every entry names the rule at its place
    let mut i: usize = 0;
    while i < m
        invariant
            i <= m,
            m == g.registry.len(),
            n == g.rules.len(),
            g == p@,
            forall|j: int|
                0 <= j < i ==> (#[trigger] g.registry[j]).1 < g.rules.len() && g.rules[g.registry[j].1 as int].rule_name
                    == g.registry[j].0,
        decreases m - i,
    {
        let k = p.rule_registry[i].1;
        assert(g.registry[i as int] == (p.rule_registry@[i as int].0@, k));
        if k >= n {
            assert(!grammar_wf(g));
            return false;
        }
        if !(p.rule_vec[k].rule_name == p.rule_registry[i].0) {
            assert(g.rules[k as int].rule_name != g.registry[i as int].0);
            assert(!grammar_wf(g));
            return false;
        }
        i = i + 1;
    }
    // no name twice
    let mut i: usize = 0;
    while i < m
        invariant
            i <= m,
            m == g.registry.len(),
            g == p@,
            forall|a: int, b: int|
                0 <= a < i && a < b < m ==> (#[trigger] g.registry[a]).0 != (
                #[trigger] g.registry[b]).0,
        decreases m - i,
    {
        let mut j: usize = i + 1;
        while j < m
            invariant
                i < m,
                i + 1 <= j <= m,
                m == g.registry.len(),
                g == p@,
                forall|b: int| i < b < j ==> g.registry[i as int].0 != (#[trigger] g.registry[b]).0,
            decreases m - j,
        {
            if p.rule_registry[i].0 == p.rule_registry[j].0 {
                assert(g.registry[i as int].0 == g.registry[j as int].0);
                assert(!grammar_wf(g));
                return false;
            }
            j = j + 1;
        }
        i = i + 1;
    }
    // every part is registered, and optional and repeated parts exist
    let mut k: usize = 0;
    while k < n
        invariant
            k <= n,
            n == g.rules.len(),
            g == p@,
            forall|a: int, c: int|
                0 <= a < k && 0 <= c < g.rules[a].children_names.len() ==> place_of(
                    g,
                    #[trigger] g.rules[a].children_names[c],
                ) is Some,
            forall|a: int|
                0 <= a < k && ((#[trigger] g.rules[a]).rule_type == RuleType::Optional
                    || g.rules[a].rule_type == RuleType::ZeroOrMore) ==> g.rules[a].children_names.len()
                    >= 1,
        decreases n - k,
    {
        let rule = &p.rule_vec[k];
        assert(g.rules[k as int] == rule@);
        if (rule.rule_type == RuleType::Optional || rule.rule_type == RuleType::ZeroOrMore)
            && rule.children_names.len() == 0 {
            return false;
        }
        let mut c: usize = 0;
        while c < rule.children_names.len()
            invariant
                k < n,
                n == g.rules.len(),
                g == p@,
                rule@ == g.rules[k as int],
                c <= rule.children_names.len(),
                forall|d: int|
                    0 <= d < c ==> place_of(g, #[trigger] g.rules[k as int].children_names[d]) is Some,
            decreases rule.children_names.len() - c,
        {
            assert(g.rules[k as int].children_names[c as int] == rule.children_names@[c as int]@);
            if lookup(&p.rule_registry, &rule.children_names[c]).is_none() {
                return false;
            }
            c = c + 1;
        }
        k = k + 1;
    }
    true
}

/// Rules `A - B` would become plain alternatives here; the rewriting leaves
/// them as they are.
pub fn remove_withexception(parser: &mut Parser)
    ensures
        final(parser)@ == old(parser)@,
{
}


/* ---------------------------------------------------------------------- */
/* optional parts                                                           */

/// The rule registered for a part name.
pub open spec fn rule_named(g: GrammarView, name: Seq<char>) -> RuleView {
    g.rules[place_of(g, name).unwrap() as int]
}

/// The ways to spell out the parts `names` of a sequence: each optional part
/// is either left out or replaced by the part it makes optional (the ways
/// without it first); every other part stays, by the name of its rule.
pub open spec fn option_combos(g: GrammarView, names: Seq<Seq<char>>) -> Seq<Seq<Seq<char>>>
    decreases names.len(),
{
    if names.len() == 0 {
        seq![Seq::empty()]
    } else {
        let front = option_combos(g, names.drop_last());
        let r = rule_named(g, names.last());
        if r.rule_type == RuleType::Optional {
            front + front.map_values(|c: Seq<Seq<char>>| c.push(r.children_names[0]))
        } else {
            front.map_values(|c: Seq<Seq<char>>| c.push(r.rule_name))
        }
    }
}

/// `+` and the name of each optional part, one after another.
pub open spec fn optionals_str(g: GrammarView, names: Seq<Seq<char>>) -> Seq<char>
    decreases names.len(),
{
    if names.len() == 0 {
        Seq::empty()
    } else {
        let front = optionals_str(g, names.drop_last());
        let r = rule_named(g, names.last());
        if r.rule_type == RuleType::Optional {
            front + "+"@ + r.rule_name
        } else {
            front
        }
    }
}

/// Some part is optional.
pub open spec fn has_optional(g: GrammarView, names: Seq<Seq<char>>) -> bool {
    exists|c: int| 0 <= c < names.len() && (#[trigger] rule_named(g, names[c])).rule_type == RuleType::Optional
}

/// A sequence rule made for one way of spelling out a sequence.
pub open spec fn option_child(name: Seq<char>, combo: Seq<Seq<char>>) -> RuleView {
    RuleView {
        rule_name: name,
        rule_type: RuleType::Sequence,
        children: Seq::empty(),
        children_names: combo,
        expected_char_ranges: Seq::empty(),
        expected_chars: Seq::empty(),
        is_chunkable: true,
    }
}

/// The name of the sequence rule for one way: `option_child_`, the optional
/// parts, and a running number.
pub open spec fn option_child_name(ostr: Seq<char>, id: nat) -> Seq<char> {
    "option_child_"@ + ostr + decimal(id)
}

/// A sequence rule for each way `combos[k..]` added to `queue`, numbered from
/// `id`, with their names after `names`.
pub open spec fn add_option_children(
    combos: Seq<Seq<Seq<char>>>,
    ostr: Seq<char>,
    k: int,
    queue: Seq<RuleView>,
    id: nat,
    names: Seq<Seq<char>>,
) -> (Seq<RuleView>, nat, Seq<Seq<char>>)
    decreases combos.len() - k,
{
    if k >= combos.len() || k < 0 {
        (queue, id, names)
    } else {
        let name = option_child_name(ostr, id);
        add_option_children(
            combos,
            ostr,
            k + 1,
            with_rule(queue, option_child(name, combos[k])),
            id + 1,
            names.push(name),
        )
    }
}

/// One rule of the grammar `g` with its optional parts removed: a sequence
/// with an optional part becomes an alternative of sequences, one for each
/// way of spelling it out, which go to `queue`.
pub open spec fn optional_step(g: GrammarView, r: RuleView, queue: Seq<RuleView>, id: nat) -> (
    RuleView,
    Seq<RuleView>,
    nat,
) {
    if r.rule_type == RuleType::Sequence && has_optional(g, r.children_names) {
        let res = add_option_children(
            option_combos(g, r.children_names),
            optionals_str(g, r.children_names),
            0,
            queue,
            id,
            Seq::empty(),
        );
        (RuleView { rule_type: RuleType::Or, children_names: res.2, ..r }, res.0, res.1)
    } else {
        (r, queue, id)
    }
}

/// The rules of `g` from the `k`-th on, each with its optional parts
/// removed, after `done`.
pub open spec fn optional_pass(
    g: GrammarView,
    k: int,
    done: Seq<RuleView>,
    queue: Seq<RuleView>,
    id: nat,
) -> (Seq<RuleView>, Seq<RuleView>, nat)
    decreases g.rules.len() - k,
{
    if k >= g.rules.len() || k < 0 {
        (done, queue, id)
    } else {
        let s = optional_step(g, g.rules[k], queue, id);
        optional_pass(g, k + 1, done.push(s.0), s.1, s.2)
    }
}

/// The place of the last registry entry among the first `n` for `name`, or
/// -1.
pub open spec fn registry_index(registry: Seq<(Seq<char>, usize)>, name: Seq<char>, n: int) -> int
    decreases n,
{
    if n <= 0 {
        -1
    } else if registry[n - 1].0 == name {
        n - 1
    } else {
        registry_index(registry, name, n - 1)
    }
}

/// The registry with `name` registered at `idx`, in place of an entry for
/// the same name.
pub open spec fn registry_insert(registry: Seq<(Seq<char>, usize)>, name: Seq<char>, idx: usize) -> Seq<
    (Seq<char>, usize),
> {
    let i = registry_index(registry, name, registry.len() as int);
    if i < 0 {
        registry.push((name, idx))
    } else {
        registry.update(i, (name, idx))
    }
}

/// The grammar with the rules `queue[k..]` added and registered.
pub open spec fn register_queue(g: GrammarView, queue: Seq<RuleView>, k: int) -> GrammarView
    decreases queue.len() - k,
{
    if k >= queue.len() || k < 0 {
        g
    } else {
        register_queue(
            GrammarView {
                rules: g.rules.push(queue[k]),
                registry: registry_insert(g.registry, queue[k].rule_name, g.rules.len() as usize),
            },
            queue,
            k + 1,
        )
    }
}

/// The grammar with its optional parts removed (see `optional_step`).
pub open spec fn spec_remove_optional(g: GrammarView) -> GrammarView {
    let pass = optional_pass(g, 0, Seq::empty(), Seq::empty(), 0);
    register_queue(GrammarView { rules: pass.0, registry: g.registry }, pass.1, 0)
}

pub open spec fn combos_view(v: Seq<Vec<String>>) -> Seq<Seq<Seq<char>>> {
    v.map_values(|c: Vec<String>| strings_view(c@))
}

/// A copy of each rule, in order.
fn copy_rules(v: &Vec<ParsingRule>) -> (r: Vec<ParsingRule>)
    ensures
        rules_view(r@) == rules_view(v@),
{
    let mut r: Vec<ParsingRule> = Vec::new();
    let mut i: usize = 0;
    while i < v.len()
        invariant
            i <= v.len(),
            r.len() == i,
            forall|j: int| 0 <= j < i ==> (#[trigger] r@[j])@ == v@[j]@,
        decreases v.len() - i,
    {
        r.push(v[i].clone_rule());
        i = i + 1;
    }
    assert(rules_view(r@) =~= rules_view(v@));
    r
}

/// The place of a registered part name.
fn place(rules: &Vec<ParsingRule>, registry: &Vec<(String, usize)>, name: &String) -> (i: usize)
    requires
        registry_wf(GrammarView { rules: rules_view(rules@), registry: registry_view(registry@) }),
        place_of(GrammarView { rules: rules_view(rules@), registry: registry_view(registry@) }, name@)
            is Some,
    ensures
        Some(i) == place_of(
            GrammarView { rules: rules_view(rules@), registry: registry_view(registry@) },
            name@,
        ),
        i < rules.len(),
{
    let ghost g = GrammarView { rules: rules_view(rules@), registry: registry_view(registry@) };
    proof {
        lemma_lookup_in_registry(g.registry, name@, g.registry.len() as int);
    }
    let i = lookup(registry, name).unwrap();
    i
}

/// A name found among the first `n` entries is the name of one of them.
proof fn lemma_lookup_in_registry(registry: Seq<(Seq<char>, usize)>, name: Seq<char>, n: int)
    requires
        n <= registry.len(),
    ensures
        lookup_name(registry, name, n) matches Some(i) ==> exists|j: int|
            0 <= j < n && #[trigger] registry[j] == (name, i),
    decreases n,
{
    if n > 0 {
        lemma_lookup_in_registry(registry, name, n - 1);
        if registry[n - 1].0 == name {
            assert(registry[n - 1] == (name, registry[n - 1].1));
        }
    }
}

/// The grammar as one value, from its parts.
pub open spec fn grammar(rules: Seq<ParsingRule>, registry: Seq<(String, usize)>) -> GrammarView {
    GrammarView { rules: rules_view(rules), registry: registry_view(registry) }
}

/// Every one of `names` is registered.
pub open spec fn all_registered(g: GrammarView, names: Seq<Seq<char>>) -> bool {
    forall|c: int| 0 <= c < names.len() ==> place_of(g, #[trigger] names[c]) is Some
}

/// Whether some part is optional, and `optionals_str` of the parts.
fn optional_names(rules: &Vec<ParsingRule>, registry: &Vec<(String, usize)>, names: &Vec<String>) -> (r:
    (bool, String))
    requires
        lookup_ready(grammar(rules@, registry@)),
        all_registered(grammar(rules@, registry@), strings_view(names@)),
    ensures
        r.0 == has_optional(grammar(rules@, registry@), strings_view(names@)),
        r.1@ == optionals_str(grammar(rules@, registry@), strings_view(names@)),
{
    let ghost g = grammar(rules@, registry@);
    let ghost ns = strings_view(names@);
    let mut found = false;
    let mut ostr = String::new();
    let mut i: usize = 0;
    while i < names.len()
        invariant
            i <= names.len(),
            g == grammar(rules@, registry@),
            ns == strings_view(names@),
            lookup_ready(g),
            all_registered(g, ns),
            found == (exists|c: int|
                0 <= c < i && (#[trigger] rule_named(g, ns[c])).rule_type == RuleType::Optional),
            ostr@ == optionals_str(g, ns.take(i as int)),
        decreases names.len() - i,
    {
        assert(ns.take(i + 1).drop_last() =~= ns.take(i as int));
        assert(ns[i as int] == names@[i as int]@);
        let k = place(rules, registry, &names[i]);
        let rule = &rules[k];
        assert(rule@ == rule_named(g, ns[i as int]));
        if rule.rule_type == RuleType::Optional {
            found = true;
            ostr.append("+");
            ostr.append(rule.rule_name.as_str());
        }
        i = i + 1;
    }
    assert(ns.take(names.len() as int) =~= ns);
    (found, ostr)
}

/// The ways to spell out the parts (see `option_combos`).
fn option_combos_exec(rules: &Vec<ParsingRule>, registry: &Vec<(String, usize)>, names: &Vec<String>) -> (r:
    Vec<Vec<String>>)
    requires
        lookup_ready(grammar(rules@, registry@)),
        all_registered(grammar(rules@, registry@), strings_view(names@)),
    ensures
        combos_view(r@) == option_combos(grammar(rules@, registry@), strings_view(names@)),
{
    let ghost g = grammar(rules@, registry@);
    let ghost ns = strings_view(names@);
    let mut combos: Vec<Vec<String>> = Vec::new();
    combos.push(Vec::new());
    assert(strings_view(combos@[0]@) =~= Seq::<Seq<char>>::empty());
    assert(ns.take(0).len() == 0);
    assert(combos_view(combos@) =~= option_combos(g, ns.take(0)));
    let mut i: usize = 0;
    while i < names.len()
        invariant
            i <= names.len(),
            g == grammar(rules@, registry@),
            ns == strings_view(names@),
            lookup_ready(g),
            all_registered(g, ns),
            combos_view(combos@) == option_combos(g, ns.take(i as int)),
        decreases names.len() - i,
    {
        assert(ns.take(i + 1).drop_last() =~= ns.take(i as int));
        assert(ns[i as int] == names@[i as int]@);
        let k = place(rules, registry, &names[i]);
        let rule = &rules[k];
        assert(rule@ == rule_named(g, ns[i as int]));
        let ghost front = combos_view(combos@);
        if rule.rule_type == RuleType::Optional {
            assert(rule@.children_names.len() >= 1);
            let n = combos.len();
            let mut extra: Vec<Vec<String>> = Vec::new();
            let mut j: usize = 0;
            while j < n
                invariant
                    j <= n,
                    n == combos.len(),
                    front == combos_view(combos@),
                    rule.children_names.len() >= 1,
                    extra.len() == j,
                    forall|a: int|
                        0 <= a < j ==> (#[trigger] combos_view(extra@)[a]) == front[a].push(
                            rule@.children_names[0],
                        ),
                decreases n - j,
            {
                let mut c = copy_strings(&combos[j]);
                c.push(rule.children_names[0].clone());
                let ghost cv = strings_view(c@);
                assert(cv =~= front[j as int].push(rule@.children_names[0]));
                let ghost before_extra = combos_view(extra@);
                extra.push(c);
                assert(combos_view(extra@) =~= before_extra.push(cv));
                j = j + 1;
            }
            assert(combos_view(extra@) =~= front.map_values(
                |c: Seq<Seq<char>>| c.push(rule@.children_names[0]),
            ));
            combos.append(&mut extra);
            assert(combos_view(combos@) =~= front + front.map_values(
                |c: Seq<Seq<char>>| c.push(rule@.children_names[0]),
            ));
        } else {
            let n = combos.len();
            let mut j: usize = 0;
            while j < n
                invariant
                    j <= n,
                    n == combos.len(),
                    front.len() == n,
                    forall|a: int| 0 <= a < j ==> (#[trigger] combos_view(combos@)[a]) == front[a].push(rule@.rule_name),
                    forall|a: int| j <= a < n ==> (#[trigger] combos_view(combos@)[a]) == front[a],
                decreases n - j,
            {
                let ghost before = combos_view(combos@);
                let mut c = copy_strings(&combos[j]);
                c.push(rule.rule_name.clone());
                assert(strings_view(c@) =~= before[j as int].push(rule@.rule_name));
                combos.set(j, c);
                assert(combos_view(combos@) =~= before.update(
                    j as int,
                    before[j as int].push(rule@.rule_name),
                ));
                j = j + 1;
            }
            assert(combos_view(combos@) =~= front.map_values(|c: Seq<Seq<char>>| c.push(rule@.rule_name)));
        }
        i = i + 1;
    }
    assert(ns.take(names.len() as int) =~= ns);
    combos
}

proof fn lemma_add_option_children_id(
    combos: Seq<Seq<Seq<char>>>,
    ostr: Seq<char>,
    k: int,
    queue: Seq<RuleView>,
    id: nat,
    names: Seq<Seq<char>>,
)
    requires
        0 <= k <= combos.len(),
    ensures
        add_option_children(combos, ostr, k, queue, id, names).1 == id + combos.len() - k,
    decreases combos.len() - k,
{
    if k < combos.len() {
        let name = option_child_name(ostr, id);
        lemma_add_option_children_id(
            combos,
            ostr,
            k + 1,
            with_rule(queue, option_child(name, combos[k])),
            id + 1,
            names.push(name),
        );
    }
}

proof fn lemma_optional_pass_id(
    g: GrammarView,
    k: int,
    done: Seq<RuleView>,
    queue: Seq<RuleView>,
    id: nat,
)
    requires
        0 <= k <= g.rules.len(),
    ensures
        optional_pass(g, k, done, queue, id).2 >= id,
        k < g.rules.len() ==> optional_pass(g, k, done, queue, id).2 >= optional_step(
            g,
            g.rules[k],
            queue,
            id,
        ).2,
    decreases g.rules.len() - k,
{
    if k < g.rules.len() {
        let s = optional_step(g, g.rules[k], queue, id);
        lemma_optional_pass_id(g, k + 1, done.push(s.0), s.1, s.2);
        let r = g.rules[k];
        if r.rule_type == RuleType::Sequence && has_optional(g, r.children_names) {
            lemma_add_option_children_id(
                option_combos(g, r.children_names),
                optionals_str(g, r.children_names),
                0,
                queue,
                id,
                Seq::empty(),
            );
        }
    }
}

/// A sequence rule for each way, added to `queue` (see
/// `add_option_children`); the names of the new rules come back.
fn add_option_children_exec(
    combos: &Vec<Vec<String>>,
    ostr: &String,
    queue: &mut Vec<ParsingRule>,
    rule_id: &mut usize,
) -> (names: Vec<String>)
    requires
        unique_names(rules_view(old(queue)@)),
        *old(rule_id) + combos.len() <= usize::MAX,
    ensures
        unique_names(rules_view(final(queue)@)),
        (rules_view(final(queue)@), *final(rule_id) as nat, strings_view(names@))
            == add_option_children(
            combos_view(combos@),
            ostr@,
            0,
            rules_view(old(queue)@),
            *old(rule_id) as nat,
            Seq::empty(),
        ),
{
    let ghost cv = combos_view(combos@);
    let ghost start = add_option_children(
        cv,
        ostr@,
        0,
        rules_view(queue@),
        *rule_id as nat,
        Seq::empty(),
    );
    let ghost id0 = *rule_id;
    let mut names: Vec<String> = Vec::new();
    assert(strings_view(names@) =~= Seq::<Seq<char>>::empty());
    let mut k: usize = 0;
    while k < combos.len()
        invariant
            k <= combos.len(),
            cv == combos_view(combos@),
            *rule_id == id0 + k,
            id0 + combos.len() <= usize::MAX,
            unique_names(rules_view(queue@)),
            start == add_option_children(
                cv,
                ostr@,
                k as int,
                rules_view(queue@),
                *rule_id as nat,
                strings_view(names@),
            ),
        decreases combos.len() - k,
    {
        let mut name = String::from_str("option_child_");
        name.append(ostr.as_str());
        let d = decimal_string(*rule_id);
        name.append(d.as_str());
        let ghost nv = name@;
        assert(nv == option_child_name(ostr@, *rule_id as nat));
        let mut child = ParsingRule::new(name.clone(), RuleType::Sequence);
        child.children_names = copy_strings(&combos[k]);
        assert(child@ == option_child(nv, cv[k as int]));
        insert_rule(queue, child);
        let ghost before = strings_view(names@);
        names.push(name);
        assert(strings_view(names@) =~= before.push(nv));
        *rule_id = *rule_id + 1;
        k = k + 1;
    }
    names
}

/// Register `name` at `idx` (see `registry_insert`).
fn registry_insert_exec(registry: &mut Vec<(String, usize)>, name: String, idx: usize)
    ensures
        registry_view(final(registry)@) == registry_insert(registry_view(old(registry)@), name@, idx),
{
    let ghost before = registry_view(registry@);
    let ghost nv = name@;
    let mut n = registry.len();
    while n > 0
        invariant
            n <= registry.len(),
            before == registry_view(registry@),
            before == registry_view(old(registry)@),
            nv == name@,
            registry_index(before, nv, n as int) == registry_index(
                before,
                nv,
                before.len() as int,
            ),
        decreases n,
    {
        if registry[n - 1].0 == name {
            assert(registry_index(before, nv, n as int) == n - 1);
            registry.set(n - 1, (name, idx));
            assert(registry_view(registry@) =~= before.update(n - 1, (nv, idx)));
            return;
        }
        n = n - 1;
    }
    registry.push((name, idx));
    assert(registry_view(registry@) =~= before.push((nv, idx)));
}

/// Remove the optional parts of the grammar's sequences (see
/// `spec_remove_optional`): each sequence with an optional part becomes an
/// alternative of the sequences that spell it out, which are added and
/// registered.
pub fn remove_optional(parser: &mut Parser)
    requires
        tidy_ready(old(parser)@),
        optional_pass(old(parser)@, 0, Seq::empty(), Seq::empty(), 0).2 <= usize::MAX,
    ensures
        final(parser)@ == spec_remove_optional(old(parser)@),
{
    let ghost g = parser@;
    let ghost pass = optional_pass(g, 0, Seq::empty(), Seq::empty(), 0);
    let mut rule_id: usize = 0;
    let parser_rule_vec_2 = copy_rules(&parser.rule_vec);
    let mut queue: Vec<ParsingRule> = Vec::new();
    assert(rules_view(queue@) =~= Seq::<RuleView>::empty());
    assert(rules_view(parser.rule_vec@).take(0) =~= Seq::<RuleView>::empty());
    let mut k: usize = 0;
    while k < parser.rule_vec.len()
        invariant
            k <= parser.rule_vec.len(),
            parser.rule_vec.len() == g.rules.len(),
            rules_view(parser_rule_vec_2@) == g.rules,
            registry_view(parser.rule_registry@) == g.registry,
            tidy_ready(g),
            unique_names(rules_view(queue@)),
            pass == optional_pass(g, 0, Seq::empty(), Seq::empty(), 0),
            pass.2 <= usize::MAX,
            pass == optional_pass(
                g,
                k as int,
                rules_view(parser.rule_vec@).take(k as int),
                rules_view(queue@),
                rule_id as nat,
            ),
            forall|a: int| k <= a < g.rules.len() ==> (#[trigger] rules_view(parser.rule_vec@)[a]) == g.rules[a],
        decreases g.rules.len() - k,
    {
        proof {
            lemma_optional_pass_id(
                g,
                k as int,
                rules_view(parser.rule_vec@).take(k as int),
                rules_view(queue@),
                rule_id as nat,
            );
        }
        assert(grammar(parser_rule_vec_2@, parser.rule_registry@) == g);
        let ghost rk = g.rules[k as int];
        let ghost s = optional_step(g, rk, rules_view(queue@), rule_id as nat);
        let ghost before = rules_view(parser.rule_vec@);
        assert(rules_view(parser.rule_vec@)[k as int] == g.rules[k as int]);
        assert(parser.rule_vec@[k as int]@ == rk);
        if parser.rule_vec[k].rule_type == RuleType::Sequence {
            let names = copy_strings(&parser.rule_vec[k].children_names);
            assert(strings_view(names@) == rk.children_names);
            assert(all_registered(g, strings_view(names@))) by {
                assert forall|c: int| 0 <= c < strings_view(names@).len() implies place_of(
                    g,
                    #[trigger] strings_view(names@)[c],
                ) is Some by {
                    assert(strings_view(names@)[c] == g.rules[k as int].children_names[c]);
                }
            }
            let (has, ostr) = optional_names(&parser_rule_vec_2, &parser.rule_registry, &names);
            if has {
                let combos = option_combos_exec(&parser_rule_vec_2, &parser.rule_registry, &names);
                proof {
                    lemma_add_option_children_id(
                        combos_view(combos@),
                        ostr@,
                        0,
                        rules_view(queue@),
                        rule_id as nat,
                        Seq::empty(),
                    );
                }
                let new_names = add_option_children_exec(&combos, &ostr, &mut queue, &mut rule_id);
                parser.rule_vec[k].rule_type = RuleType::Or;
                parser.rule_vec[k].children_names = new_names;
                assert(parser.rule_vec@[k as int]@ == s.0);
                assert(s.1 == rules_view(queue@) && s.2 == rule_id as nat);
                assert(rules_view(parser.rule_vec@) =~= before.update(k as int, s.0));
            } else {
                assert(s.0 == rk);
            }
        }
        assert(rules_view(parser.rule_vec@).take(k as int) =~= before.take(k as int));
        assert(rules_view(parser.rule_vec@).take(k + 1) =~= before.take(k as int).push(s.0));
        assert(pass == optional_pass(g, k + 1, before.take(k as int).push(s.0), s.1, s.2));
        assert(s.1 == rules_view(queue@) && s.2 == rule_id as nat);
        k = k + 1;
    }
    assert(rules_view(parser.rule_vec@).take(k as int) =~= rules_view(parser.rule_vec@));
    let ghost start = GrammarView { rules: pass.0, registry: g.registry };
    assert(parser@ == start);
    let mut q: usize = 0;
    while q < queue.len()
        invariant
            q <= queue.len(),
            register_queue(start, pass.1, 0) == register_queue(parser@, pass.1, q as int),
            pass.1 == rules_view(queue@),
        decreases queue.len() - q,
    {
        let name = queue[q].rule_name.clone();
        let idx = parser.rule_vec.len();
        let ghost before = parser@;
        registry_insert_exec(&mut parser.rule_registry, name, idx);
        parser.rule_vec.push(queue[q].clone_rule());
        assert(parser@.rules =~= before.rules.push(pass.1[q as int]));
        q = q + 1;
    }
}

/* ---------------------------------------------------------------------- */
/* removing the optional parts keeps a grammar ready                        */

/// Some entry of the registry carries the name.
pub open spec fn has_entry(registry: Seq<(Seq<char>, usize)>, name: Seq<char>) -> bool {
    exists|j: int| 0 <= j < registry.len() && (#[trigger] registry[j]).0 == name
}

/// The name is registered among the first `n` entries exactly when one of
/// them carries it.
proof fn lemma_lookup_some(registry: Seq<(Seq<char>, usize)>, name: Seq<char>, n: int)
    requires
        0 <= n <= registry.len(),
    ensures
        lookup_name(registry, name, n) is Some <==> exists|j: int|
            0 <= j < n && (#[trigger] registry[j]).0 == name,
    decreases n,
{
    if n > 0 {
        lemma_lookup_some(registry, name, n - 1);
        if registry[n - 1].0 == name {
            assert(registry[n - 1].0 == name);
        }
    }
}

/// The place `registry_index` gives carries the name; -1 means no entry
/// carries it.
proof fn lemma_registry_index(registry: Seq<(Seq<char>, usize)>, name: Seq<char>, n: int)
    requires
        0 <= n <= registry.len(),
    ensures
        -1 <= registry_index(registry, name, n) < n,
        registry_index(registry, name, n) >= 0 ==> registry[registry_index(registry, name, n)].0
            == name,
        registry_index(registry, name, n) < 0 ==> forall|j: int|
            0 <= j < n ==> (#[trigger] registry[j]).0 != name,
    decreases n,
{
    if n > 0 {
        lemma_registry_index(registry, name, n - 1);
    }
}

/// Registering a name keeps every other registered name registered, and
/// registers it.
proof fn lemma_registry_insert_names(
    registry: Seq<(Seq<char>, usize)>,
    name: Seq<char>,
    idx: usize,
    x: Seq<char>,
)
    ensures
        has_entry(registry, x) ==> has_entry(registry_insert(registry, name, idx), x),
        has_entry(registry_insert(registry, name, idx), name),
{
    let r2 = registry_insert(registry, name, idx);
    lemma_registry_index(registry, name, registry.len() as int);
    let i = registry_index(registry, name, registry.len() as int);
    if i < 0 {
        assert(r2[registry.len() as int].0 == name);
        if has_entry(registry, x) {
            let j = choose|j: int| 0 <= j < registry.len() && (#[trigger] registry[j]).0 == x;
            assert(r2[j].0 == x);
        }
    } else {
        assert(r2[i].0 == name);
        if has_entry(registry, x) {
            let j = choose|j: int| 0 <= j < registry.len() && (#[trigger] registry[j]).0 == x;
            if j == i {
                assert(r2[i].0 == x);
            } else {
                assert(r2[j].0 == x);
            }
        }
    }
}

/// Adding a rule at the end and registering it there keeps the registry
/// sound.
proof fn lemma_registry_insert_wf(g: GrammarView, r: RuleView)
    requires
        registry_wf(g),
        g.rules.len() < usize::MAX,
    ensures
        registry_wf(
            GrammarView {
                rules: g.rules.push(r),
                registry: registry_insert(g.registry, r.rule_name, g.rules.len() as usize),
            },
        ),
{
    let h = GrammarView {
        rules: g.rules.push(r),
        registry: registry_insert(g.registry, r.rule_name, g.rules.len() as usize),
    };
    lemma_registry_index(g.registry, r.rule_name, g.registry.len() as int);
    let i = registry_index(g.registry, r.rule_name, g.registry.len() as int);
    assert forall|a: int| 0 <= a < h.registry.len() implies (#[trigger] h.registry[a]).1
        < h.rules.len() && h.rules[h.registry[a].1 as int].rule_name == h.registry[a].0 by {
        if a < g.registry.len() && a != i {
            assert(h.registry[a] == g.registry[a]);
            assert(g.registry[a].1 < g.rules.len());
            assert(h.rules[g.registry[a].1 as int] == g.rules[g.registry[a].1 as int]);
        } else {
            assert(h.registry[a] == (r.rule_name, g.rules.len() as usize));
            assert(h.rules[g.rules.len() as int] == r);
        }
    }
    assert forall|a: int, b: int| 0 <= a < b < h.registry.len() implies (
    #[trigger] h.registry[a]).0 != (#[trigger] h.registry[b]).0 by {
        if i < 0 {
            if b == g.registry.len() {
                assert(g.registry[a].0 != r.rule_name);
            } else {
                assert(g.registry[a].0 != g.registry[b].0);
            }
        } else {
            if a == i {
                assert(g.registry[b].0 != g.registry[i].0);
            } else if b == i {
                assert(g.registry[a].0 != g.registry[i].0);
            } else {
                assert(g.registry[a].0 != g.registry[b].0);
            }
        }
    }
}


/// Registering the rules `q[k..]`: they are added at the end, every name
/// registered before stays registered, each of them is registered, and the
/// registry stays sound.
proof fn lemma_register_queue(h: GrammarView, q: Seq<RuleView>, k: int)
    requires
        0 <= k <= q.len(),
        registry_wf(h),
        h.rules.len() + (q.len() - k) <= usize::MAX,
    ensures
        register_queue(h, q, k).rules == h.rules + q.subrange(k, q.len() as int),
        registry_wf(register_queue(h, q, k)),
        forall|x: Seq<char>|
            has_entry(h.registry, x) ==> #[trigger] has_entry(register_queue(h, q, k).registry, x),
        forall|j: int|
            k <= j < q.len() ==> has_entry(register_queue(h, q, k).registry, #[trigger] q[j].rule_name),
    decreases q.len() - k,
{
    if k < q.len() {
        let h2 = GrammarView {
            rules: h.rules.push(q[k]),
            registry: registry_insert(h.registry, q[k].rule_name, h.rules.len() as usize),
        };
        lemma_registry_insert_wf(h, q[k]);
        lemma_register_queue(h2, q, k + 1);
        let r = register_queue(h, q, k);
        assert(r == register_queue(h2, q, k + 1));
        assert forall|x: Seq<char>| has_entry(h.registry, x) implies #[trigger] has_entry(
            r.registry,
            x,
        ) by {
            lemma_registry_insert_names(h.registry, q[k].rule_name, h.rules.len() as usize, x);
        }
        lemma_registry_insert_names(
            h.registry,
            q[k].rule_name,
            h.rules.len() as usize,
            q[k].rule_name,
        );
        assert(h2.rules + q.subrange(k + 1, q.len() as int) =~= h.rules + q.subrange(
            k,
            q.len() as int,
        ));
    } else {
        assert(h.rules + q.subrange(k, q.len() as int) =~= h.rules);
    }
}

/// The rule registered for a registered name is a rule of the grammar, with
/// that name.
pub(crate) proof fn lemma_rule_named(g: GrammarView, name: Seq<char>)
    requires
        registry_wf(g),
        place_of(g, name) is Some,
    ensures
        place_of(g, name).unwrap() < g.rules.len(),
        rule_named(g, name) == g.rules[place_of(g, name).unwrap() as int],
        rule_named(g, name).rule_name == name,
{
    lemma_lookup_in_registry(g.registry, name, g.registry.len() as int);
    let p = place_of(g, name).unwrap();
    let j = choose|j: int| 0 <= j < g.registry.len() && #[trigger] g.registry[j] == (name, p);
    assert(g.registry[j].1 < g.rules.len());
}

/// Each way of spelling out registered parts uses registered names only.
proof fn lemma_combos_registered(g: GrammarView, names: Seq<Seq<char>>)
    requires
        tidy_ready(g),
        all_registered(g, names),
    ensures
        forall|c: int, j: int|
            0 <= c < option_combos(g, names).len() && 0 <= j < option_combos(g, names)[c].len()
                ==> place_of(g, #[trigger] option_combos(g, names)[c][j]) is Some,
    decreases names.len(),
{
    if names.len() > 0 {
        let fnames = names.drop_last();
        assert(all_registered(g, fnames)) by {
            assert forall|c: int| 0 <= c < fnames.len() implies place_of(g, #[trigger] fnames[c])
                is Some by {
                assert(fnames[c] == names[c]);
            }
        }
        lemma_combos_registered(g, fnames);
        let front = option_combos(g, fnames);
        let last = names.last();
        assert(place_of(g, names[names.len() - 1]) is Some);
        lemma_rule_named(g, last);
        let p = place_of(g, last).unwrap();
        let r = rule_named(g, last);
        let combos = option_combos(g, names);
        if r.rule_type == RuleType::Optional {
            assert(g.rules[p as int].children_names.len() >= 1);
            assert(place_of(g, g.rules[p as int].children_names[0]) is Some);
            let x = r.children_names[0];
            assert forall|c: int, j: int|
                0 <= c < combos.len() && 0 <= j < combos[c].len() implies place_of(
                g,
                #[trigger] combos[c][j],
            ) is Some by {
                if c < front.len() {
                    assert(combos[c] == front[c]);
                } else {
                    let c2 = c - front.len();
                    assert(combos[c] == front[c2].push(x));
                    if j < front[c2].len() {
                        assert(combos[c][j] == front[c2][j]);
                    } else {
                        assert(combos[c][j] == x);
                    }
                }
            }
        } else {
            let x = r.rule_name;
            assert forall|c: int, j: int|
                0 <= c < combos.len() && 0 <= j < combos[c].len() implies place_of(
                g,
                #[trigger] combos[c][j],
            ) is Some by {
                assert(combos[c] == front[c].push(x));
                if j < front[c].len() {
                    assert(combos[c][j] == front[c][j]);
                } else {
                    assert(combos[c][j] == x);
                }
            }
        }
    }
}

/// Some rule of the list has the name.
pub open spec fn named_in(q: Seq<RuleView>, x: Seq<char>) -> bool {
    exists|i: int| 0 <= i < q.len() && (#[trigger] q[i]).rule_name == x
}

/// A rule made for one way of spelling out a sequence: a sequence whose
/// parts are registered in `g`.
pub open spec fn made_rule_ok(g: GrammarView, r: RuleView) -> bool {
    r.rule_type == RuleType::Sequence && all_registered(g, r.children_names)
}

pub open spec fn made_rules_ok(g: GrammarView, q: Seq<RuleView>) -> bool {
    forall|i: int| 0 <= i < q.len() ==> #[trigger] made_rule_ok(g, q[i])
}

/// Adding a rule to the list keeps every name and adds its own; each rule
/// of the result is one of the list or the new one.
proof fn lemma_with_rule(g: GrammarView, q: Seq<RuleView>, r: RuleView)
    requires
        made_rules_ok(g, q),
        made_rule_ok(g, r),
    ensures
        made_rules_ok(g, with_rule(q, r)),
        forall|x: Seq<char>| named_in(q, x) ==> #[trigger] named_in(with_rule(q, r), x),
        named_in(with_rule(q, r), r.rule_name),
{
    let w = with_rule(q, r);
    crate::parser::lemma_index_of_name(q, r.rule_name, q.len() as int);
    let i = crate::parser::index_of_name(q, r.rule_name, q.len() as int);
    if i < 0 {
        assert(w[q.len() as int] == r);
        assert forall|a: int| 0 <= a < w.len() implies #[trigger] made_rule_ok(g, w[a]) by {
            if a < q.len() {
                assert(w[a] == q[a]);
            }
        }
        assert forall|x: Seq<char>| named_in(q, x) implies #[trigger] named_in(w, x) by {
            let j = choose|j: int| 0 <= j < q.len() && (#[trigger] q[j]).rule_name == x;
            assert(w[j] == q[j]);
        }
    } else {
        assert(w[i] == r);
        assert forall|a: int| 0 <= a < w.len() implies #[trigger] made_rule_ok(g, w[a]) by {
            if a != i {
                assert(w[a] == q[a]);
            }
        }
        assert forall|x: Seq<char>| named_in(q, x) implies #[trigger] named_in(w, x) by {
            let j = choose|j: int| 0 <= j < q.len() && (#[trigger] q[j]).rule_name == x;
            if j == i {
                assert(w[i].rule_name == x);
            } else {
                assert(w[j] == q[j]);
            }
        }
    }
}

/// The rules made for the ways `combos[k..]` keep the list sound, keep its
/// names, and each new name is the name of one of them.
proof fn lemma_add_option_children_ok(
    g: GrammarView,
    combos: Seq<Seq<Seq<char>>>,
    ostr: Seq<char>,
    k: int,
    queue: Seq<RuleView>,
    id: nat,
    names: Seq<Seq<char>>,
)
    requires
        0 <= k <= combos.len(),
        made_rules_ok(g, queue),
        forall|c: int, j: int|
            0 <= c < combos.len() && 0 <= j < combos[c].len() ==> place_of(
                g,
                #[trigger] combos[c][j],
            ) is Some,
        forall|c: int| 0 <= c < names.len() ==> named_in(queue, #[trigger] names[c]),
    ensures
        ({
            let res = add_option_children(combos, ostr, k, queue, id, names);
            &&& made_rules_ok(g, res.0)
            &&& forall|x: Seq<char>| named_in(queue, x) ==> #[trigger] named_in(res.0, x)
            &&& forall|c: int| 0 <= c < res.2.len() ==> named_in(res.0, #[trigger] res.2[c])
        }),
    decreases combos.len() - k,
{
    if k < combos.len() {
        let name = option_child_name(ostr, id);
        let r = option_child(name, combos[k]);
        assert(all_registered(g, r.children_names)) by {
            assert forall|j: int| 0 <= j < r.children_names.len() implies place_of(
                g,
                #[trigger] r.children_names[j],
            ) is Some by {
                assert(r.children_names[j] == combos[k][j]);
            }
        }
        lemma_with_rule(g, queue, r);
        let q2 = with_rule(queue, r);
        let n2 = names.push(name);
        assert forall|c: int| 0 <= c < n2.len() implies named_in(q2, #[trigger] n2[c]) by {
            if c < names.len() {
                assert(n2[c] == names[c]);
                assert(named_in(queue, names[c]));
            }
        }
        lemma_add_option_children_ok(g, combos, ostr, k + 1, q2, id + 1, n2);
    }
}

/// A rule of the grammar with its optional parts removed: it keeps its name,
/// and it is the rule itself or an alternative of rules of `q`.
pub open spec fn done_rule_ok(orig: RuleView, r: RuleView, q: Seq<RuleView>) -> bool {
    &&& r.rule_name == orig.rule_name
    &&& (r == orig || (r.rule_type == RuleType::Or && forall|c: int|
        0 <= c < r.children_names.len() ==> named_in(q, #[trigger] r.children_names[c])))
}

pub open spec fn done_ok(g: GrammarView, done: Seq<RuleView>, q: Seq<RuleView>) -> bool {
    &&& done.len() <= g.rules.len()
    &&& forall|i: int| 0 <= i < done.len() ==> #[trigger] done_rule_ok(g.rules[i], done[i], q)
}

/// The rules of `g` from the `k`-th on, with their optional parts removed,
/// keep the properties above.
proof fn lemma_optional_pass_ok(g: GrammarView, k: int, done: Seq<RuleView>, queue: Seq<RuleView>, id: nat)
    requires
        tidy_ready(g),
        0 <= k <= g.rules.len(),
        done.len() == k,
        done_ok(g, done, queue),
        made_rules_ok(g, queue),
    ensures
        ({
            let p = optional_pass(g, k, done, queue, id);
            &&& p.0.len() == g.rules.len()
            &&& done_ok(g, p.0, p.1)
            &&& made_rules_ok(g, p.1)
        }),
    decreases g.rules.len() - k,
{
    if k < g.rules.len() {
        let r = g.rules[k];
        let s = optional_step(g, r, queue, id);
        if r.rule_type == RuleType::Sequence && has_optional(g, r.children_names) {
            assert(all_registered(g, r.children_names)) by {
                assert forall|c: int| 0 <= c < r.children_names.len() implies place_of(
                    g,
                    #[trigger] r.children_names[c],
                ) is Some by {
                    assert(place_of(g, g.rules[k].children_names[c]) is Some);
                }
            }
            lemma_combos_registered(g, r.children_names);
            lemma_add_option_children_ok(
                g,
                option_combos(g, r.children_names),
                optionals_str(g, r.children_names),
                0,
                queue,
                id,
                Seq::empty(),
            );
        }
        let d2 = done.push(s.0);
        assert forall|x: Seq<char>| named_in(queue, x) implies #[trigger] named_in(s.1, x) by {
        }
        assert forall|i: int| 0 <= i < d2.len() implies #[trigger] done_rule_ok(
            g.rules[i],
            d2[i],
            s.1,
        ) by {
            if i < done.len() {
                assert(d2[i] == done[i]);
                assert(done_rule_ok(g.rules[i], done[i], queue));
                if done[i] != g.rules[i] {
                    assert forall|c: int| 0 <= c < done[i].children_names.len() implies named_in(
                        s.1,
                        #[trigger] done[i].children_names[c],
                    ) by {
                        assert(named_in(queue, done[i].children_names[c]));
                    }
                }
            }
        }
        lemma_optional_pass_ok(g, k + 1, d2, s.1, s.2);
    }
}

/// Removing the optional parts keeps a grammar ready for the rewriting
/// steps: the registry stays sound, every part of every rule (the new
/// alternatives and sequences included) stays registered, and every
/// optional or repeated part keeps its part.
pub proof fn law_remove_optional_keeps_ready(g: GrammarView)
    requires
        tidy_ready(g),
        spec_remove_optional(g).rules.len() <= usize::MAX,
    ensures
        tidy_ready(spec_remove_optional(g)),
{
    let p = optional_pass(g, 0, Seq::empty(), Seq::empty(), 0);
    lemma_optional_pass_ok(g, 0, Seq::empty(), Seq::empty(), 0);
    let g1 = GrammarView { rules: p.0, registry: g.registry };
    lemma_register_queue_len(g1, p.1, 0);
    assert(registry_wf(g1)) by {
        assert forall|a: int| 0 <= a < g1.registry.len() implies (#[trigger] g1.registry[a]).1
            < g1.rules.len() && g1.rules[g1.registry[a].1 as int].rule_name == g1.registry[a].0 by {
            assert(g.registry[a].1 < g.rules.len());
            assert(done_rule_ok(g.rules[g.registry[a].1 as int], p.0[g.registry[a].1 as int], p.1));
        }
    }
    lemma_register_queue(g1, p.1, 0);
    let r = spec_remove_optional(g);
    assert(r == register_queue(g1, p.1, 0));
    assert(r.rules == p.0 + p.1.subrange(0, p.1.len() as int));
    assert(p.1.subrange(0, p.1.len() as int) =~= p.1);
    // a name registered in `g` is registered in the result
    assert forall|x: Seq<char>| place_of(g, x) is Some implies #[trigger] place_of(r, x) is Some by {
        lemma_lookup_some(g.registry, x, g.registry.len() as int);
        lemma_lookup_some(r.registry, x, r.registry.len() as int);
        assert(has_entry(g1.registry, x));
        assert(has_entry(register_queue(g1, p.1, 0).registry, x));
    }
    // so is the name of every rule made
    assert forall|x: Seq<char>| named_in(p.1, x) implies #[trigger] place_of(r, x) is Some by {
        let i = choose|i: int| 0 <= i < p.1.len() && (#[trigger] p.1[i]).rule_name == x;
        assert(has_entry(r.registry, p.1[i].rule_name));
        lemma_lookup_some(r.registry, x, r.registry.len() as int);
    }
    assert forall|m: int, c: int|
        0 <= m < r.rules.len() && 0 <= c < r.rules[m].children_names.len() implies place_of(
        r,
        #[trigger] r.rules[m].children_names[c],
    ) is Some by {
        let x = r.rules[m].children_names[c];
        if m < p.0.len() {
            assert(r.rules[m] == p.0[m]);
            assert(done_rule_ok(g.rules[m], p.0[m], p.1));
            if p.0[m] == g.rules[m] {
                assert(place_of(g, g.rules[m].children_names[c]) is Some);
            } else {
                assert(named_in(p.1, p.0[m].children_names[c]));
            }
        } else {
            let q = m - p.0.len();
            assert(r.rules[m] == p.1[q]);
            assert(made_rule_ok(g, p.1[q]));
            assert(place_of(g, p.1[q].children_names[c]) is Some);
        }
    }
    assert forall|m: int|
        0 <= m < r.rules.len() && ((#[trigger] r.rules[m]).rule_type == RuleType::Optional
            || r.rules[m].rule_type == RuleType::ZeroOrMore) implies r.rules[m].children_names.len()
        >= 1 by {
        if m < p.0.len() {
            assert(r.rules[m] == p.0[m]);
            assert(done_rule_ok(g.rules[m], p.0[m], p.1));
            assert(g.rules[m] == p.0[m]);
        } else {
            assert(r.rules[m] == p.1[m - p.0.len()]);
            assert(made_rule_ok(g, p.1[m - p.0.len()]));
        }
    }
}

proof fn lemma_register_queue_len(h: GrammarView, q: Seq<RuleView>, k: int)
    requires
        0 <= k <= q.len(),
    ensures
        register_queue(h, q, k).rules.len() == h.rules.len() + q.len() - k,
    decreases q.len() - k,
{
    if k < q.len() {
        lemma_register_queue_len(
            GrammarView {
                rules: h.rules.push(q[k]),
                registry: registry_insert(h.registry, q[k].rule_name, h.rules.len() as usize),
            },
            q,
            k + 1,
        );
    }
}

/* ---------------------------------------------------------------------- */
/* repeated parts                                                           */

/// A repetition waiting to be made into rules: the name of its rule, the
/// part it repeats, and the parts that follow it in the sequence.
pub type ZomEntry = (String, (String, Vec<String>));

/// What a waiting repetition holds.
pub type ZomView = (Seq<char>, (Seq<char>, Seq<Seq<char>>));

pub open spec fn zom_views(v: Seq<ZomEntry>) -> Seq<ZomView> {
    v.map_values(|e: ZomEntry| (e.0@, (e.1.0@, strings_view(e.1.1@))))
}

/// The place of the last entry among the first `n` named `name`, or -1.
pub open spec fn zom_index(q: Seq<ZomView>, name: Seq<char>, n: int) -> int
    decreases n,
{
    if n <= 0 {
        -1
    } else if q[n - 1].0 == name {
        n - 1
    } else {
        zom_index(q, name, n - 1)
    }
}

/// The waiting list with `e` added, in place of an entry of the same name.
pub open spec fn zom_insert(q: Seq<ZomView>, e: ZomView) -> Seq<ZomView> {
    let i = zom_index(q, e.0, q.len() as int);
    if i < 0 {
        q.push(e)
    } else {
        q.update(i, e)
    }
}

/// The place of the first repeated part among `names[i..]`, or -1.
pub open spec fn first_zom(g: GrammarView, names: Seq<Seq<char>>, i: int) -> int
    decreases names.len() - i,
{
    if i >= names.len() || i < 0 {
        -1
    } else if rule_named(g, names[i]).rule_type == RuleType::ZeroOrMore {
        i
    } else {
        first_zom(g, names, i + 1)
    }
}

/// A repetition whose following parts hold another repetition: that one
/// becomes a repetition of its own, named after this one and the depth
/// (recursively), and this one keeps the parts up to it.
pub open spec fn spec_change_zom(
    g: GrammarView,
    q: Seq<ZomView>,
    name: Seq<char>,
    orig: Seq<char>,
    children: Seq<Seq<char>>,
    depth: nat,
) -> Seq<ZomView>
    decreases children.len(),
{
    let i = first_zom(g, children, 0);
    if i < 0 || i >= children.len() {
        zom_insert(q, (name, (orig, children)))
    } else {
        let new_name = name + "-"@ + decimal(depth);
        let new_orig = rule_named(g, children[i]).children_names[0];
        let q2 = spec_change_zom(g, q, new_name, new_orig, children.skip(i + 1), depth + 1);
        zom_insert(q2, (name, (orig, children.take(i + 1).update(i, new_name))))
    }
}

proof fn lemma_first_zom(g: GrammarView, names: Seq<Seq<char>>, i: int)
    requires
        0 <= i <= names.len(),
    ensures
        -1 <= first_zom(g, names, i) < names.len(),
        first_zom(g, names, i) >= 0 ==> first_zom(g, names, i) >= i && rule_named(
            g,
            names[first_zom(g, names, i)],
        ).rule_type == RuleType::ZeroOrMore,
        first_zom(g, names, i) < 0 ==> forall|c: int|
            i <= c < names.len() ==> (#[trigger] rule_named(g, names[c])).rule_type
                != RuleType::ZeroOrMore,
    decreases names.len() - i,
{
    if i < names.len() {
        lemma_first_zom(g, names, i + 1);
    }
}

/// The place of the first repeated part among `names`, if any.
fn find_first_zom(rules: &Vec<ParsingRule>, registry: &Vec<(String, usize)>, names: &Vec<String>) -> (r:
    Option<usize>)
    requires
        lookup_ready(grammar(rules@, registry@)),
        all_registered(grammar(rules@, registry@), strings_view(names@)),
    ensures
        match r {
            Some(i) => first_zom(grammar(rules@, registry@), strings_view(names@), 0) == i,
            None => first_zom(grammar(rules@, registry@), strings_view(names@), 0) < 0,
        },
{
    let ghost g = grammar(rules@, registry@);
    let ghost ns = strings_view(names@);
    let mut i: usize = 0;
    while i < names.len()
        invariant
            i <= names.len(),
            g == grammar(rules@, registry@),
            ns == strings_view(names@),
            lookup_ready(g),
            all_registered(g, ns),
            first_zom(g, ns, 0) == first_zom(g, ns, i as int),
        decreases names.len() - i,
    {
        assert(ns[i as int] == names@[i as int]@);
        let k = place(rules, registry, &names[i]);
        if rules[k].rule_type == RuleType::ZeroOrMore {
            return Some(i);
        }
        i = i + 1;
    }
    None
}

/// Add `e` to the waiting list (see `zom_insert`).
fn zom_insert_exec(q: &mut Vec<ZomEntry>, e: ZomEntry)
    ensures
        zom_views(final(q)@) == zom_insert(zom_views(old(q)@), (e.0@, (e.1.0@, strings_view(e.1.1@)))),
{
    let ghost before = zom_views(q@);
    let ghost ev = (e.0@, (e.1.0@, strings_view(e.1.1@)));
    let mut n = q.len();
    while n > 0
        invariant
            n <= q.len(),
            before == zom_views(q@),
            before == zom_views(old(q)@),
            ev == (e.0@, (e.1.0@, strings_view(e.1.1@))),
            zom_index(before, ev.0, n as int) == zom_index(before, ev.0, before.len() as int),
        decreases n,
    {
        if q[n - 1].0 == e.0 {
            assert(zom_index(before, ev.0, n as int) == n - 1);
            q.set(n - 1, e);
            assert(zom_views(q@) =~= before.update(n - 1, ev));
            return;
        }
        n = n - 1;
    }
    q.push(e);
    assert(zom_views(q@) =~= before.push(ev));
}

/// Split off the repetitions among a waiting repetition's following parts
/// (see `spec_change_zom`); the entries go to `zom_queue`.
pub fn change_zom_rule_rec(
    zom_queue: &mut Vec<ZomEntry>,
    parser: &mut Parser,
    zom_gen_rule_name: String,
    zom_orig_child_name: String,
    zom_children: Vec<String>,
    depth: usize,
)
    requires
        lookup_ready(old(parser)@),
        all_registered(old(parser)@, strings_view(zom_children@)),
        depth + zom_children.len() <= usize::MAX,
    ensures
        final(parser)@ == old(parser)@,
        zom_views(final(zom_queue)@) == spec_change_zom(
            old(parser)@,
            zom_views(old(zom_queue)@),
            zom_gen_rule_name@,
            zom_orig_child_name@,
            strings_view(zom_children@),
            depth as nat,
        ),
    decreases zom_children.len(),
{
    let ghost g = parser@;
    let ghost cs = strings_view(zom_children@);
    let mut zom_children = zom_children;
    proof {
        lemma_first_zom(g, cs, 0);
    }
    match find_first_zom(&parser.rule_vec, &parser.rule_registry, &zom_children) {
        None => {
            zom_insert_exec(zom_queue, (zom_gen_rule_name, (zom_orig_child_name, zom_children)));
        },
        Some(index) => {
            let mut zom_rule_name_new = zom_gen_rule_name.clone();
            zom_rule_name_new.append("-");
            let d = decimal_string(depth);
            zom_rule_name_new.append(d.as_str());
            assert(cs[index as int] == zom_children@[index as int]@);
            let k = place(&parser.rule_vec, &parser.rule_registry, &zom_children[index]);
            assert(parser.rule_vec@[k as int]@ == rule_named(g, cs[index as int]));
            assert(parser.rule_vec@[k as int]@.children_names.len() >= 1);
            let zom_orig_child_rule_name_new = parser.rule_vec[k].children_names[0].clone();
            let zom_children_new = zom_children.split_off(index + 1);
            assert(strings_view(zom_children_new@) =~= cs.skip(index + 1));
            assert(all_registered(g, cs.skip(index + 1))) by {
                assert forall|c: int| 0 <= c < cs.skip(index + 1).len() implies place_of(
                    g,
                    #[trigger] cs.skip(index + 1)[c],
                ) is Some by {
                    assert(cs.skip(index + 1)[c] == cs[c + index + 1]);
                }
            }
            let ghost name_new = zom_rule_name_new@;
            zom_children.set(index, zom_rule_name_new.clone());
            assert(strings_view(zom_children@) =~= cs.take(index + 1).update(index as int, name_new));
            change_zom_rule_rec(
                zom_queue,
                parser,
                zom_rule_name_new,
                zom_orig_child_rule_name_new,
                zom_children_new,
                depth + 1,
            );
            zom_insert_exec(zom_queue, (zom_gen_rule_name, (zom_orig_child_name, zom_children)));
        },
    }
}

/// The name of the rule for a repetition of `orig`: `orig`, `-zomgen` and a
/// running number.
pub open spec fn zom_name(orig: Seq<char>, id: nat) -> Seq<char> {
    orig + "-zomgen"@ + decimal(id)
}

/// One rule of `g` with its first repeated part split off: a sequence with
/// a repeated part keeps the parts up to it, with the repetition named
/// anew, and the repetition waits in `zq` with the parts that followed it.
pub open spec fn zom_step(g: GrammarView, r: RuleView, zq: Seq<ZomView>, id: nat) -> (
    RuleView,
    Seq<ZomView>,
    nat,
) {
    let i = first_zom(g, r.children_names, 0);
    if r.rule_type == RuleType::Sequence && 0 <= i < r.children_names.len() {
        let orig = rule_named(g, r.children_names[i]).children_names[0];
        let zname = zom_name(orig, id + 1);
        (
            RuleView { children_names: r.children_names.take(i + 1).update(i, zname), ..r },
            zom_insert(zq, (zname, (orig, r.children_names.skip(i + 1)))),
            id + 1,
        )
    } else {
        (r, zq, id)
    }
}

/// The rules of `g` from the `k`-th on, each with its first repeated part
/// split off, after `done`.
pub open spec fn zom_pass(g: GrammarView, k: int, done: Seq<RuleView>, zq: Seq<ZomView>, id: nat) -> (
    Seq<RuleView>,
    Seq<ZomView>,
    nat,
)
    decreases g.rules.len() - k,
{
    if k >= g.rules.len() || k < 0 {
        (done, zq, id)
    } else {
        let s = zom_step(g, g.rules[k], zq, id);
        zom_pass(g, k + 1, done.push(s.0), s.1, s.2)
    }
}

/// Each waiting repetition of `snapshot[k..]` with its nested repetitions
/// split off, into `q`.
pub open spec fn change_all(g: GrammarView, snapshot: Seq<ZomView>, k: int, q: Seq<ZomView>) -> Seq<
    ZomView,
>
    decreases snapshot.len() - k,
{
    if k >= snapshot.len() || k < 0 {
        q
    } else {
        change_all(
            g,
            snapshot,
            k + 1,
            spec_change_zom(g, q, snapshot[k].0, snapshot[k].1.0, snapshot[k].1.1, 0),
        )
    }
}

/// An alternative rule with these parts.
pub open spec fn or_rule(name: Seq<char>, names: Seq<Seq<char>>) -> RuleView {
    RuleView { rule_type: RuleType::Or, ..option_child(name, names) }
}

/// The rules for the waiting repetitions `zq[k..]`, added to `rq`: for a
/// repetition `z` of `x` followed by parts `f`, the alternative `z` of the
/// sequence `z-seq1` (`x` then `z` again) and, when `f` is not empty, the
/// sequence `z-seq2` (`f`).
pub open spec fn zom_rules(zq: Seq<ZomView>, k: int, rq: Seq<RuleView>) -> Seq<RuleView>
    decreases zq.len() - k,
{
    if k >= zq.len() || k < 0 {
        rq
    } else {
        let e = zq[k];
        let seq1_name = e.0 + "-seq1"@;
        let rq1 = with_rule(rq, option_child(seq1_name, seq![e.1.0, e.0]));
        let rq2 = if e.1.1.len() > 0 {
            let seq2_name = e.0 + "-seq2"@;
            with_rule(
                with_rule(rq1, option_child(seq2_name, e.1.1)),
                or_rule(e.0, seq![seq1_name, seq2_name]),
            )
        } else {
            with_rule(rq1, or_rule(e.0, seq![seq1_name]))
        };
        zom_rules(zq, k + 1, rq2)
    }
}

/// The grammar with its repetitions removed: sequences lose their repeated
/// parts to recursive alternatives, which are added and registered.
pub open spec fn spec_remove_zeroormore(g: GrammarView) -> GrammarView {
    let p1 = zom_pass(g, 0, Seq::empty(), Seq::empty(), 0);
    let g2 = GrammarView { rules: p1.0, registry: g.registry };
    let zq = change_all(g2, p1.1, 0, p1.1);
    register_queue(g2, zom_rules(zq, 0, Seq::empty()), 0)
}

/// Add the rules of `queue` and register each (see `register_queue`).
fn register_rules(parser: &mut Parser, queue: &Vec<ParsingRule>)
    ensures
        final(parser)@ == register_queue(old(parser)@, rules_view(queue@), 0),
{
    let ghost start = parser@;
    let mut q: usize = 0;
    while q < queue.len()
        invariant
            q <= queue.len(),
            register_queue(start, rules_view(queue@), 0) == register_queue(
                parser@,
                rules_view(queue@),
                q as int,
            ),
        decreases queue.len() - q,
    {
        let name = queue[q].rule_name.clone();
        let idx = parser.rule_vec.len();
        let ghost before = parser@;
        registry_insert_exec(&mut parser.rule_registry, name, idx);
        parser.rule_vec.push(queue[q].clone_rule());
        assert(parser@.rules =~= before.rules.push(rules_view(queue@)[q as int]));
        q = q + 1;
    }
}

/// A copy of each waiting repetition, in order.
fn copy_zom_queue(v: &Vec<ZomEntry>) -> (r: Vec<ZomEntry>)
    ensures
        zom_views(r@) == zom_views(v@),
{
    let mut r: Vec<ZomEntry> = Vec::new();
    let mut i: usize = 0;
    while i < v.len()
        invariant
            i <= v.len(),
            r.len() == i,
            forall|j: int| 0 <= j < i ==> #[trigger] zom_views(r@)[j] == zom_views(v@)[j],
        decreases v.len() - i,
    {
        let e = (v[i].0.clone(), (v[i].1.0.clone(), copy_strings(&v[i].1.1)));
        let ghost before = zom_views(r@);
        r.push(e);
        assert(zom_views(r@) =~= before.push(zom_views(v@)[i as int]));
        i = i + 1;
    }
    assert(zom_views(r@) =~= zom_views(v@));
    r
}

/// Every waiting repetition's following parts are registered.
pub open spec fn queue_registered(g: GrammarView, zq: Seq<ZomView>) -> bool {
    forall|j: int| 0 <= j < zq.len() ==> all_registered(g, (#[trigger] zq[j]).1.1)
}

proof fn lemma_zom_insert_registered(g: GrammarView, zq: Seq<ZomView>, e: ZomView)
    requires
        queue_registered(g, zq),
        all_registered(g, e.1.1),
    ensures
        queue_registered(g, zom_insert(zq, e)),
{
    let i = zom_index(zq, e.0, zq.len() as int);
    lemma_zom_index(zq, e.0, zq.len() as int);
    let r = zom_insert(zq, e);
    assert forall|j: int| 0 <= j < r.len() implies all_registered(g, (#[trigger] r[j]).1.1) by {
        if j < zq.len() && j != i {
            assert(r[j] == zq[j]);
        }
    }
}

proof fn lemma_zom_index(q: Seq<ZomView>, name: Seq<char>, n: int)
    requires
        0 <= n <= q.len(),
    ensures
        -1 <= zom_index(q, name, n) < n,
    decreases n,
{
    if n > 0 {
        lemma_zom_index(q, name, n - 1);
    }
}

/// The rules for the waiting repetitions (see `zom_rules`).
fn zom_rules_exec(zq: &Vec<ZomEntry>) -> (rq: Vec<ParsingRule>)
    ensures
        rules_view(rq@) == zom_rules(zom_views(zq@), 0, Seq::empty()),
        unique_names(rules_view(rq@)),
{
    let ghost zv = zom_views(zq@);
    let mut rq: Vec<ParsingRule> = Vec::new();
    assert(rules_view(rq@) =~= Seq::<RuleView>::empty());
    let mut k: usize = 0;
    while k < zq.len()
        invariant
            k <= zq.len(),
            zv == zom_views(zq@),
            unique_names(rules_view(rq@)),
            zom_rules(zv, 0, Seq::empty()) == zom_rules(zv, k as int, rules_view(rq@)),
        decreases zq.len() - k,
    {
        let ghost e = zv[k as int];
        assert(e.0 == zq@[k as int].0@ && e.1.0 == zq@[k as int].1.0@ && e.1.1 == strings_view(
            zq@[k as int].1.1@,
        ));
        let zom_name = &zq[k].0;
        let mut seq1_name = zom_name.clone();
        seq1_name.append("-seq1");
        let mut zom = ParsingRule::new(zom_name.clone(), RuleType::Or);
        let s1 = seq1_name.clone();
        zom.children_names.push(s1);
        assert(zom.children_names@.len() == 1 && zom.children_names@[0]@ == e.0 + "-seq1"@);
        let mut seq1 = ParsingRule::new(seq1_name.clone(), RuleType::Sequence);
        let a = zq[k].1.0.clone();
        let b = zom_name.clone();
        assert(a@ == e.1.0 && b@ == e.0);
        seq1.children_names.push(a);
        seq1.children_names.push(b);
        assert(seq1@ == option_child(e.0 + "-seq1"@, seq![e.1.0, e.0])) by {
            assert(seq1.children_names@.len() == 2);
            assert(seq1.children_names@[0]@ == e.1.0);
            assert(seq1.children_names@[1]@ == e.0);
            assert(seq1@.children_names =~= seq![e.1.0, e.0]);
        }
        insert_rule(&mut rq, seq1);
        if zq[k].1.1.len() > 0 {
            let mut seq2_name = zom_name.clone();
            seq2_name.append("-seq2");
            let s2 = seq2_name.clone();
            zom.children_names.push(s2);
            assert(zom.children_names@.len() == 2 && zom.children_names@[1]@ == e.0 + "-seq2"@);
            let mut seq2 = ParsingRule::new(seq2_name, RuleType::Sequence);
            seq2.children_names = copy_strings(&zq[k].1.1);
            assert(seq2@ == option_child(e.0 + "-seq2"@, e.1.1));
            insert_rule(&mut rq, seq2);
            assert(zom@ == or_rule(e.0, seq![e.0 + "-seq1"@, e.0 + "-seq2"@])) by {
                assert(zom.children_names@[0]@ == e.0 + "-seq1"@);
                assert(zom@.children_names =~= seq![e.0 + "-seq1"@, e.0 + "-seq2"@]);
            }
        } else {
            assert(zom@ == or_rule(e.0, seq![e.0 + "-seq1"@])) by {
                assert(zom@.children_names =~= seq![e.0 + "-seq1"@]);
            }
        }
        insert_rule(&mut rq, zom);
        k = k + 1;
    }
    rq
}

/// Remove the repeated parts of the grammar's sequences (see
/// `spec_remove_zeroormore`).
pub fn remove_zeroormore(parser: &mut Parser)
    requires
        tidy_ready(old(parser)@),
    ensures
        final(parser)@ == spec_remove_zeroormore(old(parser)@),
{
    let ghost g = parser@;
    let ghost p1 = zom_pass(g, 0, Seq::empty(), Seq::empty(), 0);
    let mut rule_id: usize = 0;
    let parser_rule_vec_2 = copy_rules(&parser.rule_vec);
    let mut zom_queue: Vec<ZomEntry> = Vec::new();
    assert(zom_views(zom_queue@) =~= Seq::<ZomView>::empty());
    assert(rules_view(parser.rule_vec@).take(0) =~= Seq::<RuleView>::empty());
    let mut k: usize = 0;
    while k < parser.rule_vec.len()
        invariant
            k <= parser.rule_vec.len(),
            parser.rule_vec.len() == g.rules.len(),
            rules_view(parser_rule_vec_2@) == g.rules,
            registry_view(parser.rule_registry@) == g.registry,
            tidy_ready(g),
            rule_id <= k,
            queue_registered(g, zom_views(zom_queue@)),
            p1 == zom_pass(g, 0, Seq::empty(), Seq::empty(), 0),
            p1 == zom_pass(
                g,
                k as int,
                rules_view(parser.rule_vec@).take(k as int),
                zom_views(zom_queue@),
                rule_id as nat,
            ),
            forall|a: int| k <= a < g.rules.len() ==> (#[trigger] rules_view(parser.rule_vec@)[a]) == g.rules[a],
            forall|a: int|
                0 <= a < g.rules.len() ==> (#[trigger] rules_view(parser.rule_vec@)[a]).rule_name
                    == g.rules[a].rule_name && rules_view(parser.rule_vec@)[a].rule_type
                    == g.rules[a].rule_type && (g.rules[a].rule_type != RuleType::Sequence
                    ==> rules_view(parser.rule_vec@)[a] == g.rules[a]),
        decreases g.rules.len() - k,
    {
        assert(grammar(parser_rule_vec_2@, parser.rule_registry@) == g);
        assert(rules_view(parser.rule_vec@)[k as int] == g.rules[k as int]);
        let ghost rk = g.rules[k as int];
        let ghost s = zom_step(g, rk, zom_views(zom_queue@), rule_id as nat);
        let ghost before = rules_view(parser.rule_vec@);
        assert(parser.rule_vec@[k as int]@ == rk);
        if parser.rule_vec[k].rule_type == RuleType::Sequence {
            let mut names = copy_strings(&parser.rule_vec[k].children_names);
            let ghost ns = strings_view(names@);
            assert(ns == rk.children_names);
            assert(all_registered(g, ns)) by {
                assert forall|c: int| 0 <= c < ns.len() implies place_of(g, #[trigger] ns[c]) is Some by {
                    assert(ns[c] == g.rules[k as int].children_names[c]);
                }
            }
            proof {
                lemma_first_zom(g, ns, 0);
            }
            match find_first_zom(&parser_rule_vec_2, &parser.rule_registry, &names) {
                Some(index) => {
                    assert(index < names.len());
                    rule_id = rule_id + 1;
                    assert(ns[index as int] == names@[index as int]@);
                    let kk = place(&parser_rule_vec_2, &parser.rule_registry, &names[index]);
                    assert(parser_rule_vec_2@[kk as int]@ == rule_named(g, ns[index as int]));
                    let orig = parser_rule_vec_2[kk].children_names[0].clone();
                    let mut zname = orig.clone();
                    zname.append("-zomgen");
                    let d = decimal_string(rule_id);
                    zname.append(d.as_str());
                    let zom_children = names.split_off(index + 1);
                    assert(strings_view(zom_children@) =~= ns.skip(index + 1));
                    assert(all_registered(g, ns.skip(index + 1))) by {
                        assert forall|c: int| 0 <= c < ns.skip(index + 1).len() implies place_of(
                            g,
                            #[trigger] ns.skip(index + 1)[c],
                        ) is Some by {
                            assert(ns.skip(index + 1)[c] == ns[c + index + 1]);
                        }
                    }
                    let ghost zv = zname@;
                    names.set(index, zname.clone());
                    assert(strings_view(names@) =~= ns.take(index + 1).update(index as int, zv));
                    parser.rule_vec[k].children_names = names;
                    proof {
                        lemma_zom_insert_registered(
                            g,
                            zom_views(zom_queue@),
                            (zv, (orig@, strings_view(zom_children@))),
                        );
                    }
                    zom_insert_exec(&mut zom_queue, (zname, (orig, zom_children)));
                    assert(parser.rule_vec@[k as int]@ == s.0);
                    assert(rules_view(parser.rule_vec@) =~= before.update(k as int, s.0));
                },
                None => {},
            }
        }
        assert(rules_view(parser.rule_vec@).take(k as int) =~= before.take(k as int));
        assert(rules_view(parser.rule_vec@).take(k + 1) =~= before.take(k as int).push(s.0));
        assert(s.1 == zom_views(zom_queue@) && s.2 == rule_id as nat);
        k = k + 1;
    }
    assert(rules_view(parser.rule_vec@).take(k as int) =~= rules_view(parser.rule_vec@));
    let ghost g2 = GrammarView { rules: p1.0, registry: g.registry };
    assert(parser@ == g2);
    assert(lookup_ready(g2)) by {
        assert forall|k: int|
            0 <= k < g2.rules.len() && ((#[trigger] g2.rules[k]).rule_type == RuleType::Optional
                || g2.rules[k].rule_type == RuleType::ZeroOrMore) implies g2.rules[k].children_names.len()
                >= 1 by {
            assert(g2.rules[k] == g.rules[k]);
        }
    }
    // split off the nested repetitions
    let snapshot = copy_zom_queue(&zom_queue);
    let ghost sv = zom_views(snapshot@);
    let mut j: usize = 0;
    while j < snapshot.len()
        invariant
            j <= snapshot.len(),
            sv == zom_views(snapshot@),
            sv == p1.1,
            parser@ == g2,
            lookup_ready(g2),
            tidy_ready(g),
            g2.registry == g.registry,
            queue_registered(g, sv),
            change_all(g2, p1.1, 0, p1.1) == change_all(g2, sv, j as int, zom_views(zom_queue@)),
        decreases snapshot.len() - j,
    {
        assert(all_registered(g, sv[j as int].1.1));
        assert(all_registered(g2, sv[j as int].1.1)) by {
            assert forall|c: int| 0 <= c < sv[j as int].1.1.len() implies place_of(
                g2,
                #[trigger] sv[j as int].1.1[c],
            ) is Some by {
                assert(place_of(g, sv[j as int].1.1[c]) is Some);
            }
        }
        change_zom_rule_rec(
            &mut zom_queue,
            parser,
            snapshot[j].0.clone(),
            snapshot[j].1.0.clone(),
            copy_strings(&snapshot[j].1.1),
            0,
        );
        j = j + 1;
    }
    let rq = zom_rules_exec(&zom_queue);
    register_rules(parser, &rq);
}

/* ---------------------------------------------------------------------- */
/* removing the repeated parts keeps a grammar ready                        */

/// Some waiting repetition has the name.
pub open spec fn zom_named(q: Seq<ZomView>, x: Seq<char>) -> bool {
    exists|i: int| 0 <= i < q.len() && (#[trigger] q[i]).0 == x
}

/// The name is registered in `g` or is the name of a waiting repetition.
pub open spec fn known_part(g: GrammarView, q: Seq<ZomView>, x: Seq<char>) -> bool {
    place_of(g, x) is Some || zom_named(q, x)
}

/// A waiting repetition repeats a registered part and is followed by parts
/// that are registered or are themselves waiting repetitions.
pub open spec fn zom_entry_ok(g: GrammarView, e: ZomView, q: Seq<ZomView>) -> bool {
    &&& place_of(g, e.1.0) is Some
    &&& forall|c: int| 0 <= c < e.1.1.len() ==> known_part(g, q, #[trigger] e.1.1[c])
}

pub open spec fn zom_queue_ok(g: GrammarView, q: Seq<ZomView>, target: Seq<ZomView>) -> bool {
    forall|i: int| 0 <= i < q.len() ==> #[trigger] zom_entry_ok(g, q[i], target)
}

/// Every name of `q` is a name of `q2`.
pub open spec fn zom_names_kept(q: Seq<ZomView>, q2: Seq<ZomView>) -> bool {
    forall|x: Seq<char>| zom_named(q, x) ==> #[trigger] zom_named(q2, x)
}

proof fn lemma_zom_entry_ok_grows(g: GrammarView, e: ZomView, q: Seq<ZomView>, q2: Seq<ZomView>)
    requires
        zom_entry_ok(g, e, q),
        zom_names_kept(q, q2),
    ensures
        zom_entry_ok(g, e, q2),
{
    assert forall|c: int| 0 <= c < e.1.1.len() implies known_part(g, q2, #[trigger] e.1.1[c]) by {
        assert(known_part(g, q, e.1.1[c]));
        if !(place_of(g, e.1.1[c]) is Some) {
            assert(zom_named(q, e.1.1[c]));
        }
    }
}

/// Adding a waiting repetition keeps every name and adds its own; each
/// entry of the result is one of the list or the new one.
proof fn lemma_zom_insert_names(q: Seq<ZomView>, e: ZomView)
    ensures
        zom_names_kept(q, zom_insert(q, e)),
        zom_named(zom_insert(q, e), e.0),
        forall|i: int|
            0 <= i < zom_insert(q, e).len() ==> #[trigger] zom_insert(q, e)[i] == e || exists|j: int|
                0 <= j < q.len() && q[j] == zom_insert(q, e)[i],
{
    let w = zom_insert(q, e);
    lemma_zom_index(q, e.0, q.len() as int);
    lemma_zom_index_name(q, e.0, q.len() as int);
    let i = zom_index(q, e.0, q.len() as int);
    if i < 0 {
        assert(w[q.len() as int] == e);
        assert forall|x: Seq<char>| zom_named(q, x) implies #[trigger] zom_named(w, x) by {
            let j = choose|j: int| 0 <= j < q.len() && (#[trigger] q[j]).0 == x;
            assert(w[j] == q[j]);
        }
        assert forall|a: int| 0 <= a < w.len() implies #[trigger] w[a] == e || exists|j: int|
            0 <= j < q.len() && q[j] == w[a] by {
            if a < q.len() {
                assert(q[a] == w[a]);
            }
        }
    } else {
        assert(w[i] == e);
        assert forall|x: Seq<char>| zom_named(q, x) implies #[trigger] zom_named(w, x) by {
            let j = choose|j: int| 0 <= j < q.len() && (#[trigger] q[j]).0 == x;
            if j == i {
                assert(w[i].0 == x);
            } else {
                assert(w[j] == q[j]);
            }
        }
        assert forall|a: int| 0 <= a < w.len() implies #[trigger] w[a] == e || exists|j: int|
            0 <= j < q.len() && q[j] == w[a] by {
            if a != i {
                assert(q[a] == w[a]);
            }
        }
    }
}

proof fn lemma_zom_index_name(q: Seq<ZomView>, name: Seq<char>, n: int)
    requires
        0 <= n <= q.len(),
    ensures
        zom_index(q, name, n) >= 0 ==> q[zom_index(q, name, n)].0 == name,
    decreases n,
{
    if n > 0 {
        lemma_zom_index_name(q, name, n - 1);
    }
}

/// Adding a sound waiting repetition keeps the list sound.
proof fn lemma_zom_insert_ok(g: GrammarView, q: Seq<ZomView>, e: ZomView, target: Seq<ZomView>)
    requires
        zom_queue_ok(g, q, target),
        zom_entry_ok(g, e, target),
    ensures
        zom_queue_ok(g, zom_insert(q, e), target),
{
    lemma_zom_insert_names(q, e);
    let w = zom_insert(q, e);
    assert forall|a: int| 0 <= a < w.len() implies #[trigger] zom_entry_ok(g, w[a], target) by {
        if w[a] != e {
            let j = choose|j: int| 0 <= j < q.len() && q[j] == w[a];
            assert(zom_entry_ok(g, q[j], target));
        }
    }
}

/// A rule after its first repeated part is split off: the same name and
/// type; a rule that is not a sequence stays as it is, a sequence may have
/// parts that are registered or waiting repetitions.
pub open spec fn zom_done_rule_ok(g: GrammarView, orig: RuleView, r: RuleView, q: Seq<ZomView>) -> bool {
    &&& r.rule_name == orig.rule_name
    &&& r.rule_type == orig.rule_type
    &&& orig.rule_type != RuleType::Sequence ==> r == orig
    &&& (r == orig || forall|c: int|
        0 <= c < r.children_names.len() ==> known_part(g, q, #[trigger] r.children_names[c]))
}

pub open spec fn zom_done_ok(g: GrammarView, done: Seq<RuleView>, q: Seq<ZomView>) -> bool {
    &&& done.len() <= g.rules.len()
    &&& forall|i: int| 0 <= i < done.len() ==> #[trigger] zom_done_rule_ok(g, g.rules[i], done[i], q)
}

proof fn lemma_zom_done_rule_grows(
    g: GrammarView,
    orig: RuleView,
    r: RuleView,
    q: Seq<ZomView>,
    q2: Seq<ZomView>,
)
    requires
        zom_done_rule_ok(g, orig, r, q),
        zom_names_kept(q, q2),
    ensures
        zom_done_rule_ok(g, orig, r, q2),
{
    if r != orig {
        assert forall|c: int| 0 <= c < r.children_names.len() implies known_part(
            g,
            q2,
            #[trigger] r.children_names[c],
        ) by {
            assert(known_part(g, q, r.children_names[c]));
            if !(place_of(g, r.children_names[c]) is Some) {
                assert(zom_named(q, r.children_names[c]));
            }
        }
    }
}

/// The repeated part a registered repetition repeats is registered.
proof fn lemma_zom_orig_registered(g: GrammarView, x: Seq<char>)
    requires
        tidy_ready(g),
        place_of(g, x) is Some,
        rule_named(g, x).rule_type == RuleType::ZeroOrMore,
    ensures
        rule_named(g, x).children_names.len() >= 1,
        place_of(g, rule_named(g, x).children_names[0]) is Some,
{
    lemma_rule_named(g, x);
    let p = place_of(g, x).unwrap();
    assert(g.rules[p as int].rule_type == RuleType::ZeroOrMore);
    assert(g.rules[p as int].children_names.len() >= 1);
    assert(place_of(g, g.rules[p as int].children_names[0]) is Some);
}

/// Splitting off the first repeated part of the rules from the `k`-th on
/// keeps the properties above.
proof fn lemma_zom_pass_ok(g: GrammarView, k: int, done: Seq<RuleView>, zq: Seq<ZomView>, id: nat)
    requires
        tidy_ready(g),
        0 <= k <= g.rules.len(),
        done.len() == k,
        zom_done_ok(g, done, zq),
        zom_queue_ok(g, zq, zq),
        queue_registered(g, zq),
    ensures
        ({
            let p = zom_pass(g, k, done, zq, id);
            &&& p.0.len() == g.rules.len()
            &&& zom_done_ok(g, p.0, p.1)
            &&& zom_queue_ok(g, p.1, p.1)
            &&& zom_names_kept(zq, p.1)
            &&& queue_registered(g, p.1)
        }),
    decreases g.rules.len() - k,
{
    if k < g.rules.len() {
        let r = g.rules[k];
        let s = zom_step(g, r, zq, id);
        let i = first_zom(g, r.children_names, 0);
        lemma_first_zom(g, r.children_names, 0);
        if r.rule_type == RuleType::Sequence && 0 <= i < r.children_names.len() {
            assert(place_of(g, g.rules[k].children_names[i]) is Some);
            lemma_zom_orig_registered(g, r.children_names[i]);
            let orig = rule_named(g, r.children_names[i]).children_names[0];
            let zname = zom_name(orig, id + 1);
            let follow = r.children_names.skip(i + 1);
            let e = (zname, (orig, follow));
            lemma_zom_insert_names(zq, e);
            let zq2 = zom_insert(zq, e);
            assert(zom_entry_ok(g, e, zq2)) by {
                assert forall|c: int| 0 <= c < follow.len() implies known_part(
                    g,
                    zq2,
                    #[trigger] follow[c],
                ) by {
                    assert(follow[c] == r.children_names[i + 1 + c]);
                    assert(place_of(g, g.rules[k].children_names[i + 1 + c]) is Some);
                }
            }
            assert forall|a: int| 0 <= a < zq.len() implies #[trigger] zom_entry_ok(g, zq[a], zq2) by {
                assert(zom_entry_ok(g, zq[a], zq));
                lemma_zom_entry_ok_grows(g, zq[a], zq, zq2);
            }
            lemma_zom_insert_ok(g, zq, e, zq2);
            assert(all_registered(g, follow)) by {
                assert forall|c: int| 0 <= c < follow.len() implies place_of(g, #[trigger] follow[c])
                    is Some by {
                    assert(follow[c] == r.children_names[i + 1 + c]);
                    assert(place_of(g, g.rules[k].children_names[i + 1 + c]) is Some);
                }
            }
            lemma_zom_insert_registered(g, zq, e);
            let nr = s.0;
            assert(nr.children_names == r.children_names.take(i + 1).update(i, zname));
            assert forall|c: int| 0 <= c < nr.children_names.len() implies known_part(
                g,
                zq2,
                #[trigger] nr.children_names[c],
            ) by {
                if c < i {
                    assert(nr.children_names[c] == r.children_names[c]);
                    assert(place_of(g, g.rules[k].children_names[c]) is Some);
                } else {
                    assert(nr.children_names[c] == zname);
                }
            }
        }
        let d2 = done.push(s.0);
        assert forall|a: int| 0 <= a < d2.len() implies #[trigger] zom_done_rule_ok(
            g,
            g.rules[a],
            d2[a],
            s.1,
        ) by {
            if a < done.len() {
                assert(d2[a] == done[a]);
                assert(zom_done_rule_ok(g, g.rules[a], done[a], zq));
                lemma_zom_done_rule_grows(g, g.rules[a], done[a], zq, s.1);
            }
        }
        lemma_zom_pass_ok(g, k + 1, d2, s.1, s.2);
    }
}

/// The grammar after the repeated parts are split off: the same registry and
/// rule names and types, and the repetitions themselves unchanged.
pub open spec fn split_grammar_ok(g: GrammarView, g2: GrammarView) -> bool {
    &&& g2.registry == g.registry
    &&& g2.rules.len() == g.rules.len()
    &&& forall|k: int|
        0 <= k < g.rules.len() ==> (#[trigger] g2.rules[k]).rule_type == g.rules[k].rule_type
            && g2.rules[k].rule_name == g.rules[k].rule_name
    &&& forall|k: int|
        0 <= k < g.rules.len() && g.rules[k].rule_type == RuleType::ZeroOrMore ==> #[trigger] g2.rules[k]
            == g.rules[k]
}

/// A registered part looked up in the split grammar is a repetition when it
/// is one in `g`, and then the same rule.
proof fn lemma_split_rule_named(g: GrammarView, g2: GrammarView, x: Seq<char>)
    requires
        tidy_ready(g),
        split_grammar_ok(g, g2),
        place_of(g, x) is Some,
    ensures
        rule_named(g2, x).rule_type == rule_named(g, x).rule_type,
        rule_named(g, x).rule_type == RuleType::ZeroOrMore ==> rule_named(g2, x) == rule_named(g, x),
{
    lemma_rule_named(g, x);
    let p = place_of(g, x).unwrap();
    assert(place_of(g2, x) == place_of(g, x));
    assert(g2.rules[p as int].rule_type == g.rules[p as int].rule_type);
}

/// Splitting nested repetitions off a waiting repetition keeps the list
/// sound and its names, and the repetition is waiting afterwards.
proof fn lemma_change_zom_ok(
    g: GrammarView,
    g2: GrammarView,
    q: Seq<ZomView>,
    name: Seq<char>,
    orig: Seq<char>,
    children: Seq<Seq<char>>,
    depth: nat,
)
    requires
        tidy_ready(g),
        split_grammar_ok(g, g2),
        place_of(g, orig) is Some,
        all_registered(g, children),
        zom_queue_ok(g, q, q),
    ensures
        ({
            let q2 = spec_change_zom(g2, q, name, orig, children, depth);
            &&& zom_queue_ok(g, q2, q2)
            &&& zom_names_kept(q, q2)
            &&& zom_named(q2, name)
        }),
    decreases children.len(),
{
    let i = first_zom(g2, children, 0);
    lemma_first_zom(g2, children, 0);
    if i < 0 || i >= children.len() {
        let e = (name, (orig, children));
        lemma_zom_insert_names(q, e);
        let q3 = zom_insert(q, e);
        assert(zom_entry_ok(g, e, q3));
        assert forall|a: int| 0 <= a < q.len() implies #[trigger] zom_entry_ok(g, q[a], q3) by {
            assert(zom_entry_ok(g, q[a], q));
            lemma_zom_entry_ok_grows(g, q[a], q, q3);
        }
        lemma_zom_insert_ok(g, q, e, q3);
    } else {
        let new_name = name + "-"@ + decimal(depth);
        assert(place_of(g, children[i]) is Some);
        lemma_split_rule_named(g, g2, children[i]);
        lemma_zom_orig_registered(g, children[i]);
        let new_orig = rule_named(g2, children[i]).children_names[0];
        let rest = children.skip(i + 1);
        assert(all_registered(g, rest)) by {
            assert forall|c: int| 0 <= c < rest.len() implies place_of(g, #[trigger] rest[c]) is Some by {
                assert(rest[c] == children[i + 1 + c]);
            }
        }
        lemma_change_zom_ok(g, g2, q, new_name, new_orig, rest, depth + 1);
        let q2 = spec_change_zom(g2, q, new_name, new_orig, rest, depth + 1);
        let kept = children.take(i + 1).update(i, new_name);
        let e = (name, (orig, kept));
        lemma_zom_insert_names(q2, e);
        let q3 = zom_insert(q2, e);
        assert(zom_entry_ok(g, e, q3)) by {
            assert forall|c: int| 0 <= c < kept.len() implies known_part(g, q3, #[trigger] kept[c]) by {
                if c < i {
                    assert(kept[c] == children[c]);
                } else {
                    assert(kept[c] == new_name);
                    assert(zom_named(q2, new_name));
                }
            }
        }
        assert forall|a: int| 0 <= a < q2.len() implies #[trigger] zom_entry_ok(g, q2[a], q3) by {
            assert(zom_entry_ok(g, q2[a], q2));
            lemma_zom_entry_ok_grows(g, q2[a], q2, q3);
        }
        lemma_zom_insert_ok(g, q2, e, q3);
    }
}

/// Splitting nested repetitions off each waiting repetition of
/// `snapshot[k..]` keeps the list sound and its names, and each of them is
/// waiting afterwards.
proof fn lemma_change_all_ok(g: GrammarView, g2: GrammarView, snapshot: Seq<ZomView>, k: int, q: Seq<ZomView>)
    requires
        tidy_ready(g),
        split_grammar_ok(g, g2),
        0 <= k <= snapshot.len(),
        zom_queue_ok(g, snapshot, snapshot),
        queue_registered(g, snapshot),
        zom_queue_ok(g, q, q),
    ensures
        ({
            let q2 = change_all(g2, snapshot, k, q);
            &&& zom_queue_ok(g, q2, q2)
            &&& zom_names_kept(q, q2)
            &&& forall|j: int| k <= j < snapshot.len() ==> zom_named(q2, #[trigger] snapshot[j].0)
        }),
    decreases snapshot.len() - k,
{
    if k < snapshot.len() {
        let e = snapshot[k];
        assert(zom_entry_ok(g, snapshot[k], snapshot));
        assert(all_registered(g, snapshot[k].1.1));
        lemma_change_zom_ok(g, g2, q, e.0, e.1.0, e.1.1, 0);
        let q1 = spec_change_zom(g2, q, e.0, e.1.0, e.1.1, 0);
        lemma_change_all_ok(g, g2, snapshot, k + 1, q1);
    }
}

/// Adding a rule to the list keeps every name and adds its own; each rule
/// of the result is one of the list or the new one.
proof fn lemma_with_rule_names(q: Seq<RuleView>, r: RuleView)
    ensures
        forall|x: Seq<char>| named_in(q, x) ==> #[trigger] named_in(with_rule(q, r), x),
        named_in(with_rule(q, r), r.rule_name),
        forall|i: int|
            0 <= i < with_rule(q, r).len() ==> #[trigger] with_rule(q, r)[i] == r || exists|j: int|
                0 <= j < q.len() && q[j] == with_rule(q, r)[i],
{
    let w = with_rule(q, r);
    crate::parser::lemma_index_of_name(q, r.rule_name, q.len() as int);
    let i = crate::parser::index_of_name(q, r.rule_name, q.len() as int);
    if i < 0 {
        assert(w[q.len() as int] == r);
        assert forall|x: Seq<char>| named_in(q, x) implies #[trigger] named_in(w, x) by {
            let j = choose|j: int| 0 <= j < q.len() && (#[trigger] q[j]).rule_name == x;
            assert(w[j] == q[j]);
        }
        assert forall|a: int| 0 <= a < w.len() implies #[trigger] w[a] == r || exists|j: int|
            0 <= j < q.len() && q[j] == w[a] by {
            if a < q.len() {
                assert(q[a] == w[a]);
            }
        }
    } else {
        assert(w[i] == r);
        assert forall|x: Seq<char>| named_in(q, x) implies #[trigger] named_in(w, x) by {
            let j = choose|j: int| 0 <= j < q.len() && (#[trigger] q[j]).rule_name == x;
            if j == i {
                assert(w[i].rule_name == x);
            } else {
                assert(w[j] == q[j]);
            }
        }
        assert forall|a: int| 0 <= a < w.len() implies #[trigger] w[a] == r || exists|j: int|
            0 <= j < q.len() && q[j] == w[a] by {
            if a != i {
                assert(q[a] == w[a]);
            }
        }
    }
}

/// The names the rules for the waiting repetition `e` take: its own, and
/// those of its two sequences (the second only when parts follow it).
pub open spec fn zom_rule_name(e: ZomView, x: Seq<char>) -> bool {
    x == e.0 || x == e.0 + "-seq1"@ || (e.1.1.len() > 0 && x == e.0 + "-seq2"@)
}

/// The name is registered in `g` or is taken by the rules for one of the
/// waiting repetitions.
pub open spec fn known_name(g: GrammarView, zq: Seq<ZomView>, x: Seq<char>) -> bool {
    place_of(g, x) is Some || exists|j: int| 0 <= j < zq.len() && zom_rule_name(#[trigger] zq[j], x)
}

/// A rule made for the waiting repetitions: a sequence or an alternative
/// whose parts are known names.
pub open spec fn zom_made_ok(g: GrammarView, zq: Seq<ZomView>, r: RuleView) -> bool {
    &&& (r.rule_type == RuleType::Sequence || r.rule_type == RuleType::Or)
    &&& forall|c: int| 0 <= c < r.children_names.len() ==> known_name(g, zq, #[trigger] r.children_names[c])
}

proof fn lemma_with_rule_made(g: GrammarView, zq: Seq<ZomView>, q: Seq<RuleView>, r: RuleView)
    requires
        forall|i: int| 0 <= i < q.len() ==> #[trigger] zom_made_ok(g, zq, q[i]),
        zom_made_ok(g, zq, r),
    ensures
        forall|i: int| 0 <= i < with_rule(q, r).len() ==> #[trigger] zom_made_ok(g, zq, with_rule(q, r)[i]),
        forall|x: Seq<char>| named_in(q, x) ==> #[trigger] named_in(with_rule(q, r), x),
        named_in(with_rule(q, r), r.rule_name),
{
    lemma_with_rule_names(q, r);
    let w = with_rule(q, r);
    assert forall|i: int| 0 <= i < w.len() implies #[trigger] zom_made_ok(g, zq, w[i]) by {
        if w[i] != r {
            let j = choose|j: int| 0 <= j < q.len() && q[j] == w[i];
            assert(zom_made_ok(g, zq, q[j]));
        }
    }
}

/// The rules for the waiting repetitions `zq[k..]`, added to `rq`, are
/// sound, keep the names of `rq`, and take the names of those repetitions.
proof fn lemma_zom_rules_ok(g: GrammarView, zq: Seq<ZomView>, k: int, rq: Seq<RuleView>)
    requires
        0 <= k <= zq.len(),
        zom_queue_ok(g, zq, zq),
        forall|i: int| 0 <= i < rq.len() ==> #[trigger] zom_made_ok(g, zq, rq[i]),
    ensures
        ({
            let res = zom_rules(zq, k, rq);
            &&& forall|i: int| 0 <= i < res.len() ==> #[trigger] zom_made_ok(g, zq, res[i])
            &&& forall|x: Seq<char>| named_in(rq, x) ==> #[trigger] named_in(res, x)
            &&& forall|j: int, x: Seq<char>|
                k <= j < zq.len() && #[trigger] zom_rule_name(zq[j], x) ==> named_in(res, x)
        }),
    decreases zq.len() - k,
{
    if k < zq.len() {
        let e = zq[k];
        assert(zom_entry_ok(g, zq[k], zq));
        let seq1_name = e.0 + "-seq1"@;
        let r1 = option_child(seq1_name, seq![e.1.0, e.0]);
        assert(zom_made_ok(g, zq, r1)) by {
            assert forall|c: int| 0 <= c < r1.children_names.len() implies known_name(
                g,
                zq,
                #[trigger] r1.children_names[c],
            ) by {
                if c == 1 {
                    assert(zom_rule_name(zq[k], e.0));
                }
            }
        }
        lemma_with_rule_made(g, zq, rq, r1);
        let rq1 = with_rule(rq, r1);
        let rq2 = if e.1.1.len() > 0 {
            let seq2_name = e.0 + "-seq2"@;
            let r2 = option_child(seq2_name, e.1.1);
            assert(zom_made_ok(g, zq, r2)) by {
                assert forall|c: int| 0 <= c < r2.children_names.len() implies known_name(
                    g,
                    zq,
                    #[trigger] r2.children_names[c],
                ) by {
                    assert(known_part(g, zq, e.1.1[c]));
                    if !(place_of(g, e.1.1[c]) is Some) {
                        let j = choose|j: int| 0 <= j < zq.len() && (#[trigger] zq[j]).0 == e.1.1[c];
                        assert(zom_rule_name(zq[j], e.1.1[c]));
                    }
                }
            }
            lemma_with_rule_made(g, zq, rq1, r2);
            let rq1b = with_rule(rq1, r2);
            let r3 = or_rule(e.0, seq![seq1_name, seq2_name]);
            assert(zom_made_ok(g, zq, r3)) by {
                assert forall|c: int| 0 <= c < r3.children_names.len() implies known_name(
                    g,
                    zq,
                    #[trigger] r3.children_names[c],
                ) by {
                    assert(zom_rule_name(zq[k], r3.children_names[c]));
                }
            }
            lemma_with_rule_made(g, zq, rq1b, r3);
            with_rule(rq1b, r3)
        } else {
            let r3 = or_rule(e.0, seq![seq1_name]);
            assert(zom_made_ok(g, zq, r3)) by {
                assert forall|c: int| 0 <= c < r3.children_names.len() implies known_name(
                    g,
                    zq,
                    #[trigger] r3.children_names[c],
                ) by {
                    assert(zom_rule_name(zq[k], r3.children_names[c]));
                }
            }
            lemma_with_rule_made(g, zq, rq1, r3);
            with_rule(rq1, r3)
        };
        assert(zom_rules(zq, k, rq) == zom_rules(zq, k + 1, rq2));
        assert(forall|x: Seq<char>| zom_rule_name(e, x) ==> named_in(rq2, x));
        lemma_zom_rules_ok(g, zq, k + 1, rq2);
    }
}

/// Removing the repeated parts keeps a grammar ready for the rewriting
/// steps: the registry stays sound, every part of every rule (the shortened
/// sequences and the new alternatives and sequences included) stays
/// registered, and every optional or repeated part keeps its part.
pub proof fn law_remove_zeroormore_keeps_ready(g: GrammarView)
    requires
        tidy_ready(g),
        spec_remove_zeroormore(g).rules.len() <= usize::MAX,
    ensures
        tidy_ready(spec_remove_zeroormore(g)),
{
    let p1 = zom_pass(g, 0, Seq::empty(), Seq::empty(), 0);
    lemma_zom_pass_ok(g, 0, Seq::empty(), Seq::empty(), 0);
    let g2 = GrammarView { rules: p1.0, registry: g.registry };
    assert(split_grammar_ok(g, g2)) by {
        assert forall|k: int| 0 <= k < g.rules.len() implies (#[trigger] g2.rules[k]).rule_type
            == g.rules[k].rule_type && g2.rules[k].rule_name == g.rules[k].rule_name by {
            assert(zom_done_rule_ok(g, g.rules[k], p1.0[k], p1.1));
        }
        assert forall|k: int|
            0 <= k < g.rules.len() && g.rules[k].rule_type == RuleType::ZeroOrMore implies #[trigger] g2.rules[k]
            == g.rules[k] by {
            assert(zom_done_rule_ok(g, g.rules[k], p1.0[k], p1.1));
        }
    }
    assert(registry_wf(g2)) by {
        assert forall|a: int| 0 <= a < g2.registry.len() implies (#[trigger] g2.registry[a]).1
            < g2.rules.len() && g2.rules[g2.registry[a].1 as int].rule_name == g2.registry[a].0 by {
            assert(g.registry[a].1 < g.rules.len());
            assert(g2.rules[g.registry[a].1 as int].rule_name == g.rules[g.registry[a].1 as int].rule_name);
        }
    }
    let zq = change_all(g2, p1.1, 0, p1.1);
    lemma_change_all_ok(g, g2, p1.1, 0, p1.1);
    let zr = zom_rules(zq, 0, Seq::empty());
    lemma_zom_rules_ok(g, zq, 0, Seq::empty());
    let r = spec_remove_zeroormore(g);
    assert(r == register_queue(g2, zr, 0));
    lemma_register_queue_len(g2, zr, 0);
    lemma_register_queue(g2, zr, 0);
    assert(r.rules == p1.0 + zr.subrange(0, zr.len() as int));
    assert(zr.subrange(0, zr.len() as int) =~= zr);
    // a name registered in `g` is registered in the result
    assert forall|x: Seq<char>| place_of(g, x) is Some implies #[trigger] place_of(r, x) is Some by {
        lemma_lookup_some(g.registry, x, g.registry.len() as int);
        lemma_lookup_some(r.registry, x, r.registry.len() as int);
        assert(has_entry(g2.registry, x));
        assert(has_entry(register_queue(g2, zr, 0).registry, x));
    }
    // so is the name of every rule made
    assert forall|x: Seq<char>| named_in(zr, x) implies #[trigger] place_of(r, x) is Some by {
        let i = choose|i: int| 0 <= i < zr.len() && (#[trigger] zr[i]).rule_name == x;
        assert(has_entry(r.registry, zr[i].rule_name));
        lemma_lookup_some(r.registry, x, r.registry.len() as int);
    }
    // and every known name
    assert forall|x: Seq<char>| known_name(g, zq, x) implies #[trigger] place_of(r, x) is Some by {
        if !(place_of(g, x) is Some) {
            let j = choose|j: int| 0 <= j < zq.len() && zom_rule_name(#[trigger] zq[j], x);
            assert(named_in(zr, x));
        }
    }
    assert forall|m: int, c: int|
        0 <= m < r.rules.len() && 0 <= c < r.rules[m].children_names.len() implies place_of(
        r,
        #[trigger] r.rules[m].children_names[c],
    ) is Some by {
        let x = r.rules[m].children_names[c];
        if m < p1.0.len() {
            assert(r.rules[m] == p1.0[m]);
            assert(zom_done_rule_ok(g, g.rules[m], p1.0[m], p1.1));
            if p1.0[m] == g.rules[m] {
                assert(place_of(g, g.rules[m].children_names[c]) is Some);
            } else {
                assert(known_part(g, p1.1, p1.0[m].children_names[c]));
                if !(place_of(g, x) is Some) {
                    assert(zom_named(p1.1, x));
                    assert(zom_named(zq, x));
                    let j = choose|j: int| 0 <= j < zq.len() && (#[trigger] zq[j]).0 == x;
                    assert(zom_rule_name(zq[j], x));
                    assert(known_name(g, zq, x));
                }
            }
        } else {
            let q = m - p1.0.len();
            assert(r.rules[m] == zr[q]);
            assert(zom_made_ok(g, zq, zr[q]));
            assert(known_name(g, zq, zr[q].children_names[c]));
        }
    }
    assert forall|m: int|
        0 <= m < r.rules.len() && ((#[trigger] r.rules[m]).rule_type == RuleType::Optional
            || r.rules[m].rule_type == RuleType::ZeroOrMore) implies r.rules[m].children_names.len()
        >= 1 by {
        if m < p1.0.len() {
            assert(r.rules[m] == p1.0[m]);
            assert(zom_done_rule_ok(g, g.rules[m], p1.0[m], p1.1));
            assert(g.rules[m] == p1.0[m]);
        } else {
            assert(r.rules[m] == zr[m - p1.0.len()]);
            assert(zom_made_ok(g, zq, zr[m - p1.0.len()]));
        }
    }
}

/* ---------------------------------------------------------------------- */
/* the whole rewriting                                                      */

/// How many sequence rules removing the optional parts of the rules from
/// the `k`-th on makes.
pub open spec fn optional_total(g: GrammarView, k: int) -> nat
    decreases g.rules.len() - k,
{
    if k >= g.rules.len() || k < 0 {
        0
    } else {
        let r = g.rules[k];
        let here: nat = if r.rule_type == RuleType::Sequence && has_optional(g, r.children_names) {
            option_combos(g, r.children_names).len()
        } else {
            0
        };
        here + optional_total(g, k + 1)
    }
}

proof fn lemma_optional_total(
    g: GrammarView,
    k: int,
    done: Seq<RuleView>,
    queue: Seq<RuleView>,
    id: nat,
)
    requires
        0 <= k <= g.rules.len(),
    ensures
        optional_pass(g, k, done, queue, id).2 == id + optional_total(g, k),
    decreases g.rules.len() - k,
{
    if k < g.rules.len() {
        let s = optional_step(g, g.rules[k], queue, id);
        lemma_optional_total(g, k + 1, done.push(s.0), s.1, s.2);
        let r = g.rules[k];
        if r.rule_type == RuleType::Sequence && has_optional(g, r.children_names) {
            lemma_add_option_children_id(
                option_combos(g, r.children_names),
                optionals_str(g, r.children_names),
                0,
                queue,
                id,
                Seq::empty(),
            );
        }
    }
}

/// The number of sequence rules removing the optional parts makes, when it
/// fits in a `usize`.
fn optional_count(p: &Parser) -> (r: Option<usize>)
    requires
        tidy_ready(p@),
    ensures
        match r {
            Some(n) => n == optional_pass(p@, 0, Seq::empty(), Seq::empty(), 0).2,
            None => optional_pass(p@, 0, Seq::empty(), Seq::empty(), 0).2 > usize::MAX,
        },
{
    let ghost g = p@;
    proof {
        lemma_optional_total(g, 0, Seq::empty(), Seq::empty(), 0);
    }
    let mut total: usize = 0;
    let mut k = p.rule_vec.len();
    while k > 0
        invariant
            k <= p.rule_vec.len(),
            g == p@,
            tidy_ready(g),
            total == optional_total(g, k as int),
        decreases k,
    {
        k = k - 1;
        let rule = &p.rule_vec[k];
        assert(rule@ == g.rules[k as int]);
        let mut here: usize = 0;
        if rule.rule_type == RuleType::Sequence {
            let names = copy_strings(&rule.children_names);
            assert(all_registered(g, strings_view(names@))) by {
                assert forall|c: int| 0 <= c < strings_view(names@).len() implies place_of(
                    g,
                    #[trigger] strings_view(names@)[c],
                ) is Some by {
                    assert(strings_view(names@)[c] == g.rules[k as int].children_names[c]);
                }
            }
            assert(grammar(p.rule_vec@, p.rule_registry@) == g);
            let (has, _) = optional_names(&p.rule_vec, &p.rule_registry, &names);
            if has {
                here = option_combos_exec(&p.rule_vec, &p.rule_registry, &names).len();
            }
        }
        match total.checked_add(here) {
            Some(t) => {
                total = t;
            },
            None => {
                proof {
                    assert(total + here > usize::MAX);
                    assert(optional_total(g, k as int) == here + optional_total(g, k + 1));
                    lemma_optional_total_grows(g, 0, k as int);
                    lemma_optional_total(g, 0, Seq::empty(), Seq::empty(), 0);
                    assert(optional_total(g, 0) > usize::MAX);
                    assert(optional_pass(g, 0, Seq::empty(), Seq::empty(), 0).2 > usize::MAX);
                }
                return None;
            },
        }
    }
    Some(total)
}

proof fn lemma_optional_total_grows(g: GrammarView, i: int, j: int)
    requires
        0 <= i <= j <= g.rules.len(),
    ensures
        optional_total(g, i) >= optional_total(g, j),
    decreases j - i,
{
    if i < j {
        lemma_optional_total_grows(g, i + 1, j);
    }
}

/// The grammar `g` with its optional parts and then its repeated parts
/// removed, when it is ready for that (and the rules made for the optional
/// parts can be numbered); `g` itself otherwise.
pub open spec fn spec_tidy(g: GrammarView) -> GrammarView {
    if !tidy_ready(g) || optional_pass(g, 0, Seq::empty(), Seq::empty(), 0).2 > usize::MAX {
        g
    } else {
        spec_remove_zeroormore(spec_remove_optional(g))
    }
}

/// The XML grammar (`xml_grammar`) with its optional parts and repeated
/// parts removed (see `spec_tidy`).
pub fn get() -> (r: Parser)
    ensures
        r@ == spec_tidy(crate::parser::xml_grammar()),
{
    let mut parser_rules = prepare_rules();
    let ghost g = parser_rules@;
    if !is_tidy_ready(&parser_rules) {
        return parser_rules;
    }
    match optional_count(&parser_rules) {
        None => {
            return parser_rules;
        },
        Some(_) => {},
    }
    remove_optional(&mut parser_rules);
    proof {
        assert(parser_rules@.rules.len() == parser_rules.rule_vec.len());
        law_remove_optional_keeps_ready(g);
    }
    remove_zeroormore(&mut parser_rules);
    remove_withexception(&mut parser_rules);
    parser_rules
}


/* ---------------------------------------------------------------------- */
/* an outline of a grammar                                                   */

/// One line of an outline: how deep the rule stands, its name and its kind.
pub type OutlineLine = (usize, String, RuleType);

/// What a line of an outline holds.
pub open spec fn line_view(l: OutlineLine) -> (usize, Seq<char>, RuleType) {
    (l.0, l.1@, l.2)
}

/// The lines of an outline.
pub open spec fn lines_view(v: Seq<OutlineLine>) -> Seq<(usize, Seq<char>, RuleType)> {
    v.map_values(|l: OutlineLine| line_view(l))
}

/// The outline of the rule `name` standing at depth `depth`: nothing below
/// depth 8; otherwise the rule itself, then the outline of each of its
/// parts, one level deeper, in order.
pub open spec fn outline(g: GrammarView, name: Seq<char>, depth: usize) -> Seq<(usize, Seq<char>, RuleType)>
    decreases 9 - depth, 0nat, 0nat,
{
    if depth > 8 {
        Seq::empty()
    } else {
        let r = rule_named(g, name);
        seq![(depth, r.rule_name, r.rule_type)] + outline_parts(g, r.children_names, 0, (depth + 1) as usize)
    }
}

/// The outlines of the parts `names` from the `i`-th on, each at depth
/// `depth`, one after another.
pub open spec fn outline_parts(g: GrammarView, names: Seq<Seq<char>>, i: int, depth: usize) -> Seq<
    (usize, Seq<char>, RuleType),
>
    decreases 9 - depth, 1nat, names.len() - i,
{
    if depth > 9 || i < 0 || i >= names.len() {
        Seq::empty()
    } else {
        outline(g, names[i], depth) + outline_parts(g, names, i + 1, depth)
    }
}

/// Add the outline of the rule `rule_name` at depth `depth` (see
/// `outline`) to `out`.
pub fn outline_rules(parser: &Parser, rule_name: &String, depth: usize, out: &mut Vec<OutlineLine>)
    requires
        grammar_wf(parser@),
        place_of(parser@, rule_name@) is Some,
        depth <= 9,
    ensures
        lines_view(final(out)@) == lines_view(old(out)@) + outline(parser@, rule_name@, depth),
    decreases 9 - depth, 0nat, 0nat,
{
    let ghost g = parser@;
    if depth > 8 {
        assert(lines_view(out@) =~= lines_view(out@) + outline(g, rule_name@, depth));
        return;
    }
    proof {
        lemma_rule_named(g, rule_name@);
    }
    let idx = lookup(&parser.rule_registry, rule_name).unwrap();
    let rule = &parser.rule_vec[idx];
    assert(rule@ == rule_named(g, rule_name@));
    let ghost before = lines_view(out@);
    out.push((depth, rule.rule_name.clone(), rule.rule_type));
    proof {
        assert(lines_view(out@) =~= before.push((depth, rule@.rule_name, rule@.rule_type)));
    }
    let mut i: usize = 0;
    while i < rule.children_names.len()
        invariant
            g == parser@,
            grammar_wf(g),
            idx < g.rules.len(),
            g.rules[idx as int] == rule@,
            rule@ == rule_named(g, rule_name@),
            depth <= 8,
            i <= rule.children_names.len(),
            lines_view(out@) + outline_parts(g, rule@.children_names, i as int, (depth + 1) as usize)
                == before + outline(g, rule_name@, depth),
        decreases rule.children_names.len() - i,
    {
        let name = &rule.children_names[i];
        proof {
            assert(rule@.children_names[i as int] == name@);
            assert(place_of(g, g.rules[idx as int].children_names[i as int]) is Some);
        }
        let ghost mid = lines_view(out@);
        outline_rules(parser, name, depth + 1, out);
        proof {
            let rest = outline_parts(g, rule@.children_names, i + 1, (depth + 1) as usize);
            let this = outline(g, name@, (depth + 1) as usize);
            assert(mid + (this + rest) =~= (mid + this) + rest);
        }
        i = i + 1;
    }
    proof {
        assert(lines_view(out@) + outline_parts(g, rule@.children_names, i as int, (depth + 1) as usize)
            =~= lines_view(out@));
    }
}

} // verus!

