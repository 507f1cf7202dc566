//! Matching a grammar one character at a time over a tree of rule nodes.
//!
//! Each node of the tree, held in an `indextree` arena, is a rule being
//! matched; a node that combines parts gets one child node per part the
//! first time a character reaches it. Each character is handed from a node
//! to the children that still wait for one.
use vstd::prelude::*;
use indextree::{Arena, NodeId};
use crate::parser::{
    class_holds, contains_char, grammar_wf, in_range, in_ranges, in_ranges_exec, lookup, place_of,
    GrammarView, Parser, ParsingRule, RuleType, RuleView,
};
use crate::parsertidy::{lemma_rule_named, rule_named};

verus! {

#[verifier::external_type_specification]
#[verifier::external_body]
#[verifier::reject_recursive_types(T)]
pub struct ExArena<T>(Arena<T>);

#[verifier::external_type_specification]
#[verifier::external_body]
pub struct ExNodeId(NodeId);

/// Where the match of a node stands.
#[derive(Debug, Clone, Copy, PartialEq, Eq, Structural)]
pub enum StateType {
    Init,
    Pass,
    Fail,
    Wait,
}

/// A node of the tree: the rule it matches, where its match stands, and how
/// many of its parts (or, for a character sequence, of its characters) are
/// done.
#[derive(Clone, Debug)]
pub struct PNode {
    pub rulename: String,
    pub ruletype: RuleType,
    pub state: StateType,
    pub current_sequence: usize,
}

/// What a node holds.
pub struct PNodeView {
    pub rulename: Seq<char>,
    pub ruletype: RuleType,
    pub state: StateType,
    pub current_sequence: usize,
}

impl View for PNode {
    type V = PNodeView;

    open spec fn view(&self) -> PNodeView {
        PNodeView {
            rulename: self.rulename@,
            ruletype: self.ruletype,
            state: self.state,
            current_sequence: self.current_sequence,
        }
    }
}

/// The data of each live node of the arena, by its id.
pub uninterp spec fn arena_data(arena: Arena<PNode>) -> Map<NodeId, PNode>;

/// What each live node of the arena holds, by its id.
pub open spec fn arena_nodes(arena: Arena<PNode>) -> Map<NodeId, PNodeView> {
    arena_data(arena).map_values(|n: PNode| n@)
}

/// The arena after `*arena[id].get_mut() = data`.
pub uninterp spec fn arena_with_data(arena: Arena<PNode>, id: NodeId, data: PNode) -> Arena<PNode>;

/// The id `Arena::new_node` gives on this arena.
pub uninterp spec fn new_node_id(arena: Arena<PNode>) -> NodeId;

/// The arena after `Arena::new_node(data)`.
pub uninterp spec fn arena_with_node(arena: Arena<PNode>, data: PNode) -> Arena<PNode>;

/// The arena after `parent.append(child, arena)`.
pub uninterp spec fn arena_with_child(arena: Arena<PNode>, parent: NodeId, child: NodeId) -> Arena<PNode>;

/// The children of each live node of the arena, in order.
pub uninterp spec fn arena_children(arena: Arena<PNode>) -> Map<NodeId, Seq<NodeId>>;

/// `arena[id].get()`, cloned: the data of a live node (indextree's
/// `Index` takes the node in the slot of `id`, and `Node::get` gives its
/// data; it stops the program only for a removed node, which no live id
/// names).
#[verifier::external_body]
fn node_at(arena: &Arena<PNode>, id: NodeId) -> (r: PNode)
    requires
        arena_nodes(*arena).dom().contains(id),
    ensures
        r == arena_data(*arena)[id],
        r@ == arena_nodes(*arena)[id],
{
    arena[id].get().clone()
}

/// `*arena[id].get_mut() = data`: replaces the data of a live node and
/// nothing else.
#[verifier::external_body]
fn set_node(arena: &mut Arena<PNode>, id: NodeId, data: PNode)
    requires
        arena_nodes(*old(arena)).dom().contains(id),
    ensures
        *final(arena) == arena_with_data(*old(arena), id, data),
        arena_data(*final(arena)) == arena_data(*old(arena)).insert(id, data),
        arena_nodes(*final(arena)) == arena_nodes(*old(arena)).insert(id, data@),
        arena_children(*final(arena)) == arena_children(*old(arena)),
{
    *arena[id].get_mut() = data;
}

/// `Arena::new_node`: a new live node with the data, with no children, under
/// an id that names no live node before (a reused slot gets a new stamp).
#[verifier::external_body]
fn add_node(arena: &mut Arena<PNode>, data: PNode) -> (id: NodeId)
    ensures
        id == new_node_id(*old(arena)),
        *final(arena) == arena_with_node(*old(arena), data),
        !arena_nodes(*old(arena)).dom().contains(id),
        arena_data(*final(arena)) == arena_data(*old(arena)).insert(id, data),
        arena_nodes(*final(arena)) == arena_nodes(*old(arena)).insert(id, data@),
        arena_children(*final(arena)) == arena_children(*old(arena)).insert(id, Seq::empty()),
{
    arena.new_node(data)
}

/// `NodeId::append`: the child becomes the last child of the parent. It
/// stops the program when the child is the parent, an ancestor of it, or
/// removed; a live childless node that is no one's child is none of these,
/// and taking it from its (missing) parent changes nothing.
#[verifier::external_body]
fn append_child(parent: NodeId, child: NodeId, arena: &mut Arena<PNode>)
    requires
        arena_nodes(*old(arena)).dom().contains(parent),
        arena_nodes(*old(arena)).dom().contains(child),
        parent != child,
        arena_children(*old(arena))[child].len() == 0,
        forall|n: NodeId|
            #[trigger] arena_children(*old(arena)).dom().contains(n) ==> !arena_children(
                *old(arena),
            )[n].contains(child),
    ensures
        *final(arena) == arena_with_child(*old(arena), parent, child),
        arena_data(*final(arena)) == arena_data(*old(arena)),
        arena_nodes(*final(arena)) == arena_nodes(*old(arena)),
        arena_children(*final(arena)) == arena_children(*old(arena)).insert(
            parent,
            arena_children(*old(arena))[parent].push(child),
        ),
{
    parent.append(child, arena)
}

/// `Arena::new`: an arena with no nodes.
#[verifier::external_body]
fn empty_arena() -> (r: Arena<PNode>)
    ensures
        arena_data(r).dom() == Set::<NodeId>::empty(),
        arena_children(r).dom() == Set::<NodeId>::empty(),
{
    Arena::new()
}

/// `NodeId::children`, collected: the children of a live node, in order.
#[verifier::external_body]
fn child_ids(arena: &Arena<PNode>, id: NodeId) -> (r: Vec<NodeId>)
    requires
        arena_nodes(*arena).dom().contains(id),
    ensures
        r@ == arena_children(*arena)[id],
{
    id.children(arena).collect()
}

/// The rule takes the character: it is one of the expected characters or
/// in one of the expected ranges.
pub open spec fn in_class(r: RuleView, c: char) -> bool {
    in_ranges(r.expected_char_ranges, c) || r.expected_chars.contains(c)
}

/// A rule the tree can match: a character sequence expects a character, and
/// a rule that looks at its first (or second) part has it.
pub open spec fn tree_rule_ok(r: RuleView) -> bool {
    &&& r.rule_type == RuleType::CharSequence ==> r.expected_chars.len() > 0
    &&& (r.rule_type == RuleType::Optional || r.rule_type == RuleType::Not || r.rule_type
        == RuleType::And) ==> r.children_names.len() >= 1
    &&& r.rule_type == RuleType::WithException ==> r.children_names.len() >= 2
}

/// A grammar the tree can match: sound, and every rule matchable.
pub open spec fn tree_grammar_ok(g: GrammarView) -> bool {
    &&& grammar_wf(g)
    &&& forall|k: int| 0 <= k < g.rules.len() ==> #[trigger] tree_rule_ok(g.rules[k])
}

/// The rule combines parts.
pub open spec fn is_composite(t: RuleType) -> bool {
    t != RuleType::Chars && t != RuleType::CharsNot && t != RuleType::CharSequence
}

/// A node names a registered rule; a character sequence that still takes
/// characters stands inside its characters; a combining node past its
/// start has a child for each part; its children are live.
pub open spec fn node_ok(
    g: GrammarView,
    nodes: Map<NodeId, PNodeView>,
    children: Map<NodeId, Seq<NodeId>>,
    id: NodeId,
) -> bool {
    let n = nodes[id];
    let r = rule_named(g, n.rulename);
    &&& place_of(g, n.rulename) is Some
    &&& (r.rule_type == RuleType::CharSequence && (n.state == StateType::Init || n.state
        == StateType::Wait)) ==> n.current_sequence < r.expected_chars.len()
    &&& (is_composite(r.rule_type) && n.state != StateType::Init) ==> children[id].len()
        >= r.children_names.len()
    &&& forall|j: int| 0 <= j < children[id].len() ==> nodes.dom().contains(#[trigger] children[id][j])
}

/// Every live node is fine (see `node_ok`), and the live nodes are those
/// with children lists.
pub open spec fn tree_wf(g: GrammarView, nodes: Map<NodeId, PNodeView>, children: Map<NodeId, Seq<NodeId>>) -> bool {
    &&& children.dom() == nodes.dom()
    &&& forall|id: NodeId| #[trigger] nodes.dom().contains(id) ==> node_ok(g, nodes, children, id)
}

/// The arena's nodes are fine for the grammar (see `tree_wf`).
pub open spec fn arena_wf(g: GrammarView, arena: Arena<PNode>) -> bool {
    tree_wf(g, arena_nodes(arena), arena_children(arena))
}

/// From one arena to the next, every live node stays live with its rule,
/// and keeps at least its children.
pub open spec fn arena_grows(a: Arena<PNode>, b: Arena<PNode>) -> bool {
    &&& arena_nodes(a).dom().subset_of(arena_nodes(b).dom())
    &&& forall|n: NodeId|
        #[trigger] arena_nodes(a).dom().contains(n) ==> arena_nodes(b)[n].rulename == arena_nodes(
            a,
        )[n].rulename && arena_children(b)[n].len() >= arena_children(a)[n].len()
}

/// The node with another state and count of done parts.
pub open spec fn with_state(n: PNodeView, state: StateType, done: usize) -> PNodeView {
    PNodeView { rulename: n.rulename, ruletype: n.ruletype, state, current_sequence: done }
}

/// What a character does at a node that decides alone: one already passed
/// or failed keeps its state and takes nothing; a single character rule
/// passes, taking it, or fails, by whether its class holds the character
/// (the other way round for `CharsNot`); a character sequence takes its
/// next expected character, and passes at the last one or waits for more,
/// or fails on another character (having looked at it). The node after the
/// step, the state returned and whether the character was taken; `None`
/// for a combining node that is still open.
pub open spec fn char_step(g: GrammarView, n: PNodeView, c: char) -> Option<(PNodeView, StateType, bool)> {
    let r = rule_named(g, n.rulename);
    if n.state == StateType::Fail {
        Some((n, StateType::Fail, false))
    } else if n.state == StateType::Pass {
        Some((n, StateType::Pass, false))
    } else if r.rule_type == RuleType::Chars {
        if in_class(r, c) {
            Some((with_state(n, StateType::Pass, n.current_sequence), StateType::Pass, true))
        } else {
            Some((with_state(n, StateType::Fail, n.current_sequence), StateType::Fail, false))
        }
    } else if r.rule_type == RuleType::CharsNot {
        if in_class(r, c) {
            Some((with_state(n, StateType::Fail, n.current_sequence), StateType::Fail, false))
        } else {
            Some((with_state(n, StateType::Pass, n.current_sequence), StateType::Pass, true))
        }
    } else if r.rule_type == RuleType::CharSequence {
        let k = n.current_sequence;
        if r.expected_chars[k as int] == c {
            if k + 1 >= r.expected_chars.len() {
                Some((with_state(n, StateType::Pass, (k + 1) as usize), StateType::Pass, true))
            } else {
                Some((with_state(n, StateType::Wait, (k + 1) as usize), StateType::Wait, true))
            }
        } else {
            Some((with_state(n, StateType::Fail, k), StateType::Fail, true))
        }
    } else {
        None
    }
}

/// What a walk from a node gives: the state the node reaches and whether it
/// took the character (`None` when the walk stops short), the arena after
/// it, and how far the look-ahead has read.
pub type Walk = (Option<(StateType, bool)>, Arena<PNode>, usize);

/// The node with another state and count of done parts.
pub open spec fn node_with(n: PNode, state: StateType, done: usize) -> PNode {
    PNode { rulename: n.rulename, ruletype: n.ruletype, state, current_sequence: done }
}

/// The arena with the node `id` in the state `state`.
pub open spec fn arena_with_state(a: Arena<PNode>, id: NodeId, state: StateType) -> Arena<PNode> {
    arena_with_data(a, id, node_with(arena_data(a)[id], state, arena_data(a)[id].current_sequence))
}

/// The rule a node of the grammar `p` matches.
pub open spec fn rule_of(p: Parser, n: PNode) -> ParsingRule {
    p.rule_vec@[place_of(p@, n.rulename@).unwrap() as int]
}

/// What a character does at a node that decides alone (see `char_step`),
/// with the node's data after it.
pub open spec fn leaf_step(p: Parser, n: PNode, c: char) -> Option<(PNode, StateType, bool)> {
    let r = rule_of(p, n)@;
    let k = n.current_sequence;
    if r.rule_type == RuleType::Chars {
        if in_class(r, c) {
            Some((node_with(n, StateType::Pass, k), StateType::Pass, true))
        } else {
            Some((node_with(n, StateType::Fail, k), StateType::Fail, false))
        }
    } else if r.rule_type == RuleType::CharsNot {
        if in_class(r, c) {
            Some((node_with(n, StateType::Fail, k), StateType::Fail, false))
        } else {
            Some((node_with(n, StateType::Pass, k), StateType::Pass, true))
        }
    } else if r.rule_type == RuleType::CharSequence {
        if r.expected_chars[k as int] == c {
            if k + 1 >= r.expected_chars.len() {
                Some((node_with(n, StateType::Pass, (k + 1) as usize), StateType::Pass, true))
            } else {
                Some((node_with(n, StateType::Wait, (k + 1) as usize), StateType::Wait, true))
            }
        } else {
            Some((node_with(n, StateType::Fail, k), StateType::Fail, true))
        }
    } else {
        None
    }
}

/// The arena after giving the node `id` a new child, in the state `Init`,
/// for each part name of `names` from the `i`-th on.
pub open spec fn with_parts(p: Parser, a: Arena<PNode>, id: NodeId, names: Seq<String>, i: int) -> Arena<PNode>
    decreases names.len() - i,
{
    if i < 0 || i >= names.len() {
        a
    } else {
        let name = names[i];
        let child = PNode {
            rulename: name,
            ruletype: p.rule_vec@[place_of(p@, name@).unwrap() as int].rule_type,
            state: StateType::Init,
            current_sequence: 0,
        };
        let cid = new_node_id(a);
        with_parts(p, arena_with_child(arena_with_node(a, child), id, cid), id, names, i + 1)
    }
}

/// The walk that hands the character `c` to the node `id` (see `new_char`):
/// a node that has passed or failed answers its state; a single character
/// rule or character sequence decides alone (see `leaf_step`); a combining
/// node goes on in `walk_parts`.
pub open spec fn walk(
    p: Parser,
    a: Arena<PNode>,
    id: NodeId,
    c: char,
    up: Seq<char>,
    pk: usize,
    depth: usize,
) -> Walk
    decreases depth, 2nat, 0nat,
{
    let n = arena_data(a)[id];
    if n.state == StateType::Fail || n.state == StateType::Pass {
        (Some((n.state, false)), a, pk)
    } else {
        match leaf_step(p, n, c) {
            Some((n2, s, taken)) => (Some((s, taken)), arena_with_data(a, id, n2), pk),
            None => walk_parts(p, a, id, c, up, pk, depth),
        }
    }
}

/// The walk at a combining node that is still open: it gets a child for
/// each part of its rule when it is at its start, then hands the character
/// to its children by the kind of its rule:
/// - a sequence to its parts from the first not yet done (`seq_walk`);
/// - an alternative to each part that has not failed (`or_walk`);
/// - an option to its part, and passes whether or not the part matches;
/// - a negation to its part, and turns a pass into a failure and back;
/// - a conjunction to every part (`and_walk`);
/// - an exception to its first part, and then to its second, looking ahead
///   over `up` while that one waits (`ex_walk`): it passes when the first
///   part has not failed and the second fails.
/// Any other rule fails. Nothing happens at depth 0.
pub open spec fn walk_parts(
    p: Parser,
    a: Arena<PNode>,
    id: NodeId,
    c: char,
    up: Seq<char>,
    pk: usize,
    depth: usize,
) -> Walk
    decreases depth, 1nat, 0nat,
{
    if depth == 0 {
        (None, a, pk)
    } else {
        let n = arena_data(a)[id];
        let rule = rule_of(p, n);
        let a1 = if n.state == StateType::Init {
            with_parts(p, a, id, rule.children_names@, 0)
        } else {
            a
        };
        let v = arena_children(a1)[id];
        let d = (depth - 1) as usize;
        match rule.rule_type {
            RuleType::Sequence => seq_walk(p, a1, id, c, up, pk, depth, v, 0),
            RuleType::Optional => match walk(p, a1, v[0], c, up, pk, d) {
                (Some((s, taken)), a2, p2) => {
                    let s2 = if s == StateType::Fail {
                        StateType::Pass
                    } else {
                        s
                    };
                    (Some((s2, taken)), arena_with_state(a2, id, s2), p2)
                },
                other => other,
            },
            RuleType::Not => match walk(p, a1, v[0], c, up, pk, d) {
                (Some((s, taken)), a2, p2) => if s == StateType::Pass {
                    (Some((StateType::Fail, taken)), arena_with_state(a2, id, StateType::Fail), p2)
                } else if s == StateType::Wait {
                    (Some((StateType::Wait, taken)), arena_with_state(a2, id, StateType::Wait), p2)
                } else if s == StateType::Fail {
                    (Some((StateType::Pass, taken)), arena_with_state(a2, id, StateType::Pass), p2)
                } else {
                    (Some((StateType::Fail, false)), a2, p2)
                },
                other => other,
            },
            RuleType::Or => or_walk(p, a1, id, c, up, pk, depth, v, 0, false, 0, false),
            RuleType::And => and_walk(p, a1, id, c, up, pk, depth, v, 0, Seq::empty(), Seq::empty()),
            RuleType::WithException => match walk(p, a1, v[0], c, up, pk, d) {
                (Some((s1, _)), a2, p2) => if s1 == StateType::Fail {
                    (Some((StateType::Fail, false)), a2, p2)
                } else {
                    ex_walk(p, a2, id, v[1], c, up, p2, depth)
                },
                other => other,
            },
            _ => (Some((StateType::Fail, false)), a1, pk),
        }
    }
}

/// A sequence hands the character to its children from the `i`-th on:
/// those before its count of done parts are skipped; a failing part fails
/// the sequence; a passing part moves the count forward, and the sequence
/// passes after its last part, or waits when the part took the character,
/// or goes on to the next part with the same character; a part that waits
/// and took the character makes the sequence wait. With no part left the
/// sequence fails.
pub open spec fn seq_walk(
    p: Parser,
    a: Arena<PNode>,
    id: NodeId,
    c: char,
    up: Seq<char>,
    pk: usize,
    depth: usize,
    v: Seq<NodeId>,
    i: int,
) -> Walk
    decreases depth, 0nat, v.len() - i,
{
    if depth == 0 || i < 0 || i >= v.len() {
        (Some((StateType::Fail, false)), a, pk)
    } else if arena_data(a)[id].current_sequence > i {
        seq_walk(p, a, id, c, up, pk, depth, v, i + 1)
    } else {
        match walk(p, a, v[i], c, up, pk, (depth - 1) as usize) {
            (Some((s, taken)), a3, p3) => if s == StateType::Fail {
                (Some((StateType::Fail, false)), arena_with_state(a3, id, StateType::Fail), p3)
            } else if s == StateType::Pass {
                let n2 = arena_data(a3)[id];
                let k = if n2.current_sequence < usize::MAX {
                    (n2.current_sequence + 1) as usize
                } else {
                    n2.current_sequence
                };
                let done = v.len() <= k;
                let st = if done {
                    StateType::Pass
                } else if taken {
                    StateType::Wait
                } else {
                    n2.state
                };
                let a4 = arena_with_data(a3, id, node_with(n2, st, k));
                if done {
                    (Some((StateType::Pass, taken)), a4, p3)
                } else if taken {
                    (Some((StateType::Wait, true)), a4, p3)
                } else {
                    seq_walk(p, a4, id, c, up, p3, depth, v, i + 1)
                }
            } else if s == StateType::Wait && taken {
                (Some((StateType::Wait, true)), arena_with_state(a3, id, StateType::Wait), p3)
            } else {
                seq_walk(p, a3, id, c, up, p3, depth, v, i + 1)
            },
            other => other,
        }
    }
}

/// An alternative hands the character to each of its children from the
/// `i`-th on that has not failed, counting those that pass (and whether
/// the last of them took the character) and noting whether one waits. At
/// the end it waits when one waited; passes when exactly one passed;
/// waits when more did; fails when none did.
pub open spec fn or_walk(
    p: Parser,
    a: Arena<PNode>,
    id: NodeId,
    c: char,
    up: Seq<char>,
    pk: usize,
    depth: usize,
    v: Seq<NodeId>,
    i: int,
    waits: bool,
    passes: nat,
    taken: bool,
) -> Walk
    decreases depth, 0nat, v.len() - i,
{
    if depth == 0 || i < 0 || i >= v.len() {
        if waits {
            (Some((StateType::Wait, true)), a, pk)
        } else if passes == 1 {
            (Some((StateType::Pass, taken)), arena_with_state(a, id, StateType::Pass), pk)
        } else if passes > 1 {
            (Some((StateType::Wait, true)), arena_with_state(a, id, StateType::Wait), pk)
        } else {
            (Some((StateType::Fail, false)), arena_with_state(a, id, StateType::Fail), pk)
        }
    } else if arena_data(a)[v[i]].state == StateType::Fail {
        or_walk(p, a, id, c, up, pk, depth, v, i + 1, waits, passes, taken)
    } else {
        match walk(p, a, v[i], c, up, pk, (depth - 1) as usize) {
            (Some((s, t)), a3, p3) => {
                let a4 = if s == StateType::Pass {
                    arena_with_state(a3, id, StateType::Pass)
                } else {
                    a3
                };
                let a5 = if s == StateType::Wait {
                    arena_with_state(a4, id, StateType::Wait)
                } else {
                    a4
                };
                or_walk(
                    p,
                    a5,
                    id,
                    c,
                    up,
                    p3,
                    depth,
                    v,
                    i + 1,
                    waits || s == StateType::Wait,
                    if s == StateType::Pass {
                        passes + 1
                    } else {
                        passes
                    },
                    if s == StateType::Pass {
                        t
                    } else {
                        taken
                    },
                )
            },
            other => other,
        }
    }
}

/// A conjunction hands the character to each of its children from the
/// `i`-th on, and fails as soon as one fails; at the end it answers what
/// the first child answered when all answered the same state, and fails
/// otherwise.
pub open spec fn and_walk(
    p: Parser,
    a: Arena<PNode>,
    id: NodeId,
    c: char,
    up: Seq<char>,
    pk: usize,
    depth: usize,
    v: Seq<NodeId>,
    i: int,
    states: Seq<StateType>,
    takes: Seq<bool>,
) -> Walk
    decreases depth, 0nat, v.len() - i,
{
    if depth == 0 || i < 0 || i >= v.len() {
        if states.len() == 0 || exists|j: int| 0 <= j < states.len() && #[trigger] states[j] != states[0] {
            (Some((StateType::Fail, false)), a, pk)
        } else {
            (Some((states[0], takes[0])), a, pk)
        }
    } else {
        match walk(p, a, v[i], c, up, pk, (depth - 1) as usize) {
            (Some((s, t)), a3, p3) => if s == StateType::Fail {
                (Some((StateType::Fail, t)), arena_with_state(a3, id, StateType::Fail), p3)
            } else {
                and_walk(p, a3, id, c, up, p3, depth, v, i + 1, states.push(s), takes.push(t))
            },
            other => other,
        }
    }
}

/// An exception hands `c` to its excluded part `x`; while that part waits,
/// it hands it the next character of `up` (from `pk` on), and stops short
/// when none is left. It passes, taking the character, when the excluded
/// part fails, and fails when it passes.
pub open spec fn ex_walk(
    p: Parser,
    a: Arena<PNode>,
    id: NodeId,
    x: NodeId,
    c: char,
    up: Seq<char>,
    pk: usize,
    depth: usize,
) -> Walk
    decreases depth, 0nat, up.len() - pk,
{
    if depth == 0 || pk > up.len() {
        (None, a, pk)
    } else {
        match walk(p, a, x, c, up, pk, (depth - 1) as usize) {
            (Some((s, _)), a4, p4) => if s == StateType::Wait {
                if p4 >= up.len() || p4 < pk || p4 >= usize::MAX {
                    (None, a4, p4)
                } else {
                    ex_walk(p, a4, id, x, up[p4 as int], up, (p4 + 1) as usize, depth)
                }
            } else {
                let st = if s == StateType::Fail {
                    StateType::Pass
                } else {
                    StateType::Fail
                };
                (Some((st, s == StateType::Fail)), arena_with_state(a4, id, st), p4)
            },
            other => other,
        }
    }
}

/// Giving a live node other data keeps the arena fine when the node stays
/// fine.
proof fn lemma_set_wf(
    g: GrammarView,
    nodes: Map<NodeId, PNodeView>,
    children: Map<NodeId, Seq<NodeId>>,
    id: NodeId,
    n: PNodeView,
)
    requires
        tree_wf(g, nodes, children),
        nodes.dom().contains(id),
        node_ok(g, nodes.insert(id, n), children, id),
    ensures
        tree_wf(g, nodes.insert(id, n), children),
{
    let m = nodes.insert(id, n);
    assert(m.dom() =~= nodes.dom());
    assert forall|x: NodeId| #[trigger] m.dom().contains(x) implies node_ok(g, m, children, x) by {
        if x != id {
            assert(node_ok(g, nodes, children, x));
        }
    }
}

/// A new childless node that starts matching a registered rule, made the
/// last child of a live node, keeps the arena fine.
proof fn lemma_add_child_wf(
    g: GrammarView,
    nodes: Map<NodeId, PNodeView>,
    children: Map<NodeId, Seq<NodeId>>,
    id: NodeId,
    cid: NodeId,
    n: PNodeView,
)
    requires
        tree_grammar_ok(g),
        tree_wf(g, nodes, children),
        nodes.dom().contains(id),
        !nodes.dom().contains(cid),
        place_of(g, n.rulename) is Some,
        n.state == StateType::Init,
        n.current_sequence == 0,
    ensures
        tree_wf(
            g,
            nodes.insert(cid, n),
            children.insert(cid, Seq::empty()).insert(id, children[id].push(cid)),
        ),
        forall|x: NodeId|
            #[trigger] children.insert(cid, Seq::empty()).dom().contains(x) ==> !children.insert(
                cid,
                Seq::empty(),
            )[x].contains(cid),
{
    let m = nodes.insert(cid, n);
    let ch0 = children.insert(cid, Seq::empty());
    let ch = ch0.insert(id, children[id].push(cid));
    lemma_rule_named(g, n.rulename);
    let p = place_of(g, n.rulename).unwrap();
    assert(tree_rule_ok(g.rules[p as int]));
    assert(ch.dom() =~= m.dom());
    assert forall|x: NodeId| #[trigger] m.dom().contains(x) implies node_ok(g, m, ch, x) by {
        if x == cid {
        } else if x == id {
            assert(node_ok(g, nodes, children, x));
            assert forall|j: int| 0 <= j < ch[x].len() implies m.dom().contains(#[trigger] ch[x][j]) by {
                if j < children[x].len() {
                    assert(ch[x][j] == children[x][j]);
                }
            }
        } else {
            assert(node_ok(g, nodes, children, x));
        }
    }
    assert forall|x: NodeId| #[trigger] ch0.dom().contains(x) implies !ch0[x].contains(cid) by {
        if x != cid {
            assert(node_ok(g, nodes, children, x));
            if ch0[x].contains(cid) {
                let j = choose|j: int| 0 <= j < ch0[x].len() && ch0[x][j] == cid;
                assert(nodes.dom().contains(children[x][j]));
            }
        }
    }
}

/// Hand the character `c` to the node `id` and, through it, to its
/// children (see `char_step` for the nodes that decide alone). A combining
/// node gets a child for each part of its rule the first time it is
/// reached; a sequence hands the character to its parts from the first not
/// yet done; an alternative to each of its parts that has not failed; an
/// exception looks ahead at the characters of `upcoming` from `*peeked` on
/// while the excluded part waits for more. `depth` bounds how deep the walk
/// goes. The state the node reaches and whether it took the character;
/// `None` when the walk goes deeper than `depth`, or when the look-ahead
/// runs past `upcoming`. `walk` says exactly what it gives, how the arena
/// changes and how far it looks ahead.
pub fn new_char(
    parser_rules: &Parser,
    id: NodeId,
    arena: &mut Arena<PNode>,
    c: char,
    upcoming: &Vec<char>,
    peeked: &mut usize,
    depth: usize,
) -> (r: Option<(StateType, bool)>)
    requires
        tree_grammar_ok(parser_rules@),
        arena_wf(parser_rules@, *old(arena)),
        arena_nodes(*old(arena)).dom().contains(id),
        *old(peeked) <= upcoming.len(),
    ensures
        arena_wf(parser_rules@, *final(arena)),
        arena_grows(*old(arena), *final(arena)),
        *old(peeked) <= *final(peeked) <= upcoming.len(),
        char_step(parser_rules@, arena_nodes(*old(arena))[id], c) matches Some((n, state, taken)) ==> {
            &&& r == Some((state, taken))
            &&& arena_nodes(*final(arena)) == arena_nodes(*old(arena)).insert(id, n)
            &&& arena_children(*final(arena)) == arena_children(*old(arena))
            &&& *final(peeked) == *old(peeked)
        },
        (arena_nodes(*old(arena))[id].state == StateType::Pass || arena_nodes(*old(arena))[id].state
            == StateType::Fail) ==> arena_nodes(*final(arena)) == arena_nodes(*old(arena)),
        (r, *final(arena), *final(peeked)) == walk(
            *parser_rules,
            *old(arena),
            id,
            c,
            upcoming@,
            *old(peeked),
            depth,
        ),
    decreases depth, 2nat, 0nat,
{
    let ghost g = parser_rules@;
    let node = node_at(arena, id);
    if node.state == StateType::Fail {
        proof {
            assert(arena_nodes(*arena).insert(id, node@) =~= arena_nodes(*arena));
        }
        return Some((StateType::Fail, false));
    }
    if node.state == StateType::Pass {
        proof {
            assert(arena_nodes(*arena).insert(id, node@) =~= arena_nodes(*arena));
        }
        return Some((StateType::Pass, false));
    }
    proof {
        assert(node_ok(g, arena_nodes(*arena), arena_children(*arena), id));
        lemma_rule_named(g, node.rulename@);
    }
    let idx = lookup(&parser_rules.rule_registry, &node.rulename).unwrap();
    let rule = &parser_rules.rule_vec[idx];
    assert(rule@ == rule_named(g, node.rulename@));
    match rule.rule_type {
        RuleType::Chars | RuleType::CharsNot => {
            let inside = in_ranges_exec(&rule.expected_char_ranges, c) || contains_char(
                &rule.expected_chars,
                c,
            );
            let passes = if rule.rule_type == RuleType::Chars {
                inside
            } else {
                !inside
            };
            let state = if passes {
                StateType::Pass
            } else {
                StateType::Fail
            };
            let ghost before = arena_nodes(*arena);
            let mut n2 = node;
            n2.state = state;
            proof {
                lemma_set_wf(g, arena_nodes(*arena), arena_children(*arena), id, n2@);
            }
            set_node(arena, id, n2);
            proof {
                assert(arena_nodes(*arena).dom() =~= before.dom());
            }
            return Some((state, passes));
        },
        RuleType::CharSequence => {
            let k = node.current_sequence;
            assert(k < rule.expected_chars.len());
            let ghost before = arena_nodes(*arena);
            let mut n2 = node;
            let r = if rule.expected_chars[k] == c {
                n2.current_sequence = k + 1;
                if k + 1 >= rule.expected_chars.len() {
                    n2.state = StateType::Pass;
                    (StateType::Pass, true)
                } else {
                    n2.state = StateType::Wait;
                    (StateType::Wait, true)
                }
            } else {
                n2.state = StateType::Fail;
                (StateType::Fail, true)
            };
            proof {
                lemma_set_wf(g, arena_nodes(*arena), arena_children(*arena), id, n2@);
            }
            set_node(arena, id, n2);
            proof {
                assert(arena_nodes(*arena).dom() =~= before.dom());
            }
            return Some(r);
        },
        _ => {},
    }
    new_char_parts(parser_rules, id, arena, c, upcoming, peeked, depth, node, idx)
}

/// Growing is transitive.
proof fn lemma_grows_trans(a: Arena<PNode>, b: Arena<PNode>, c: Arena<PNode>)
    requires
        arena_grows(a, b),
        arena_grows(b, c),
    ensures
        arena_grows(a, c),
{
    assert forall|n: NodeId| #[trigger] arena_nodes(a).dom().contains(n) implies arena_nodes(c)[n].rulename
        == arena_nodes(a)[n].rulename && arena_children(c)[n].len() >= arena_children(a)[n].len() by {
        assert(arena_nodes(b).dom().contains(n));
    }
}

/// Give the combining node `id` other data of the same rule, once it has a
/// child for each part.
fn put_node(Ghost(g): Ghost<GrammarView>, arena: &mut Arena<PNode>, id: NodeId, n: PNode)
    requires
        arena_wf(g, *old(arena)),
        arena_nodes(*old(arena)).dom().contains(id),
        n.rulename@ == arena_nodes(*old(arena))[id].rulename,
        is_composite(rule_named(g, n.rulename@).rule_type),
        arena_children(*old(arena))[id].len() >= rule_named(g, n.rulename@).children_names.len(),
    ensures
        arena_wf(g, *final(arena)),
        arena_grows(*old(arena), *final(arena)),
        arena_nodes(*final(arena)) == arena_nodes(*old(arena)).insert(id, n@),
        arena_children(*final(arena)) == arena_children(*old(arena)),
        *final(arena) == arena_with_data(*old(arena), id, n),
{
    proof {
        assert(node_ok(g, arena_nodes(*arena), arena_children(*arena), id));
        lemma_set_wf(g, arena_nodes(*arena), arena_children(*arena), id, n@);
    }
    set_node(arena, id, n);
}

/// Give the combining node `id` the state `state`.
fn put_state(Ghost(g): Ghost<GrammarView>, arena: &mut Arena<PNode>, id: NodeId, state: StateType)
    requires
        arena_wf(g, *old(arena)),
        arena_nodes(*old(arena)).dom().contains(id),
        is_composite(rule_named(g, arena_nodes(*old(arena))[id].rulename).rule_type),
        arena_children(*old(arena))[id].len() >= rule_named(
            g,
            arena_nodes(*old(arena))[id].rulename,
        ).children_names.len(),
    ensures
        arena_wf(g, *final(arena)),
        arena_grows(*old(arena), *final(arena)),
        arena_children(*final(arena)) == arena_children(*old(arena)),
        *final(arena) == arena_with_state(*old(arena), id, state),
{
    let mut n = node_at(arena, id);
    n.state = state;
    put_node(Ghost(g), arena, id, n);
}

/// The part of `new_char` for a combining node that is still open: `node`
/// is its data and `idx` the place of its rule.
fn new_char_parts(
    parser_rules: &Parser,
    id: NodeId,
    arena: &mut Arena<PNode>,
    c: char,
    upcoming: &Vec<char>,
    peeked: &mut usize,
    depth: usize,
    node: PNode,
    idx: usize,
) -> (r: Option<(StateType, bool)>)
    requires
        tree_grammar_ok(parser_rules@),
        arena_wf(parser_rules@, *old(arena)),
        arena_nodes(*old(arena)).dom().contains(id),
        *old(peeked) <= upcoming.len(),
        node@ == arena_nodes(*old(arena))[id],
        node == arena_data(*old(arena))[id],
        place_of(parser_rules@, node.rulename@) == Some(idx),
        idx < parser_rules.rule_vec.len(),
        parser_rules.rule_vec@[idx as int]@ == rule_named(parser_rules@, node.rulename@),
        is_composite(parser_rules.rule_vec@[idx as int].rule_type),
    ensures
        arena_wf(parser_rules@, *final(arena)),
        arena_grows(*old(arena), *final(arena)),
        *old(peeked) <= *final(peeked) <= upcoming.len(),
        (r, *final(arena), *final(peeked)) == walk_parts(
            *parser_rules,
            *old(arena),
            id,
            c,
            upcoming@,
            *old(peeked),
            depth,
        ),
    decreases depth, 1nat, 0nat,
{
    if depth == 0 {
        return None;
    }
    let ghost g = parser_rules@;
    let ghost a0 = *arena;
    let ghost p0 = *peeked;
    let ghost pr = *parser_rules;
    let ghost target = walk_parts(pr, a0, id, c, upcoming@, p0, depth);
    let rule = &parser_rules.rule_vec[idx];
    let ghost names = rule.children_names@;
    let ghost a1 = if node.state == StateType::Init {
        with_parts(pr, a0, id, names, 0)
    } else {
        a0
    };
    assert(rule_of(pr, node) == *rule);
    proof {
        assert(node_ok(g, arena_nodes(*arena), arena_children(*arena), id));
        assert(g.rules[idx as int] == rule@);
    }
    if node.state == StateType::Init {
        let mut i: usize = 0;
        while i < rule.children_names.len()
            invariant
                tree_grammar_ok(g),
                g == parser_rules@,
                g.rules[idx as int] == rule@,
                idx < g.rules.len(),
                arena_wf(g, *arena),
                arena_grows(a0, *arena),
                arena_nodes(*arena).dom().contains(id),
                arena_nodes(*arena)[id] == node@,
                arena_data(*arena)[id] == node,
                arena_children(*arena)[id].len() >= i,
                i <= rule.children_names.len(),
                *peeked == p0,
                a0 == *old(arena),
                p0 == *old(peeked),
                pr == *parser_rules,
                *rule == parser_rules.rule_vec@[idx as int],
                names == rule.children_names@,
                with_parts(pr, *arena, id, names, i as int) == with_parts(pr, a0, id, names, 0),
            decreases rule.children_names.len() - i,
        {
            let name = &rule.children_names[i];
            proof {
                assert(rule@.children_names[i as int] == name@);
                assert(place_of(g, g.rules[idx as int].children_names[i as int]) is Some);
                lemma_rule_named(g, name@);
            }
            let cidx = lookup(&parser_rules.rule_registry, name).unwrap();
            let ctype = parser_rules.rule_vec[cidx].rule_type;
            let child = PNode {
                rulename: name.clone(),
                ruletype: ctype,
                state: StateType::Init,
                current_sequence: 0,
            };
            let ghost a1 = *arena;
            let ghost cn = child@;
            let ghost cd = child;
            let cid = add_node(arena, child);
            proof {
                lemma_add_child_wf(g, arena_nodes(a1), arena_children(a1), id, cid, cn);
            }
            append_child(id, cid, arena);
            proof {
                assert(arena_nodes(a1).dom().subset_of(arena_nodes(*arena).dom()));
                assert forall|n: NodeId| #[trigger] arena_nodes(a1).dom().contains(n) implies arena_nodes(
                    *arena,
                )[n].rulename == arena_nodes(a1)[n].rulename && arena_children(*arena)[n].len()
                    >= arena_children(a1)[n].len() by {
                    assert(n != cid);
                }
                lemma_grows_trans(a0, a1, *arena);
                assert(cd == PNode {
                    rulename: names[i as int],
                    ruletype: pr.rule_vec@[place_of(pr@, names[i as int]@).unwrap() as int].rule_type,
                    state: StateType::Init,
                    current_sequence: 0,
                });
                assert(arena_data(*arena)[id] == node);
            }
            i = i + 1;
        }
    }
    assert(*arena == a1);
    let vec = child_ids(arena, id);
    assert(vec.len() >= rule.children_names.len());
    let ghost a2 = *arena;
    proof {
        assert(node_ok(g, arena_nodes(*arena), arena_children(*arena), id));
        assert(tree_rule_ok(g.rules[idx as int]));
    }
    match rule.rule_type {
        RuleType::Sequence => {
            let children_count = vec.len();
            let mut i: usize = 0;
            while i < vec.len()
                invariant
                    tree_grammar_ok(g),
                    g == parser_rules@,
                    idx < g.rules.len(),
                    g.rules[idx as int] == rule@,
                    rule@ == rule_named(g, node.rulename@),
                    depth > 0,
                    a0 == *old(arena),
                    p0 == *old(peeked),
                    target == walk_parts(*parser_rules, *old(arena), id, c, upcoming@, *old(peeked), depth),
                    is_composite(rule.rule_type),
                    arena_wf(g, *arena),
                    arena_grows(a0, *arena),
                    arena_grows(a2, *arena),
                    arena_nodes(*arena).dom().contains(id),
                    arena_nodes(*arena)[id].rulename == node.rulename@,
                    arena_children(*arena)[id].len() >= rule.children_names.len(),
                    forall|j: int| 0 <= j < vec.len() ==> arena_nodes(a2).dom().contains(#[trigger] vec@[j]),
                    p0 <= *peeked <= upcoming.len(),
                    children_count == vec.len(),
                    pr == *parser_rules,
                    seq_walk(pr, *arena, id, c, upcoming@, *peeked, depth, vec@, i as int) == target,
                decreases vec.len() - i,
            {
                let cur = node_at(arena, id);
                if cur.current_sequence > i {
                    i = i + 1;
                    continue;
                }
                let cid = vec[i];
                let ghost a3 = *arena;
                let ghost pk3 = *peeked;
                let res = new_char(parser_rules, cid, arena, c, upcoming, peeked, depth - 1);
                proof {
                    lemma_grows_trans(a0, a3, *arena);
                    lemma_grows_trans(a2, a3, *arena);
                    assert(target == seq_walk(pr, a3, id, c, upcoming@, pk3, depth, vec@, i as int));
                    assert(arena_data(a3)[id].current_sequence <= i);
                }
                match res {
                    None => {
                        assert(target == walk(pr, a3, vec@[i as int], c, upcoming@, pk3, (depth - 1) as usize));
                        return None;
                    },
                    Some((s, moved)) => {
                        if s == StateType::Fail {
                            put_state(Ghost(g), arena, id, StateType::Fail);
                            proof {
                                lemma_grows_trans(a0, a3, *arena);
                            }
                            return Some((StateType::Fail, false));
                        }
                        if s == StateType::Pass {
                            let mut n2 = node_at(arena, id);
                            if n2.current_sequence < usize::MAX {
                                n2.current_sequence = n2.current_sequence + 1;
                            }
                            let curseq = n2.current_sequence;
                            if children_count <= curseq {
                                n2.state = StateType::Pass;
                            } else if moved {
                                n2.state = StateType::Wait;
                            }
                            let ghost a4 = *arena;
                            put_node(Ghost(g), arena, id, n2);
                            proof {
                                lemma_grows_trans(a0, a4, *arena);
                                lemma_grows_trans(a2, a4, *arena);
                            }
                            if children_count <= curseq {
                                return Some((StateType::Pass, moved));
                            }
                            if moved {
                                return Some((StateType::Wait, true));
                            }
                        } else if s == StateType::Wait && moved {
                            let ghost a4 = *arena;
                            let ghost p4 = *peeked;
                            assert(target == (
                                Some((StateType::Wait, true)),
                                arena_with_state(a4, id, StateType::Wait),
                                p4,
                            ));
                            put_state(Ghost(g), arena, id, StateType::Wait);
                            proof {
                                lemma_grows_trans(a0, a4, *arena);
                            }
                            return Some((StateType::Wait, true));
                        }
                    },
                }
                i = i + 1;
            }
            Some((StateType::Fail, false))
        },
        RuleType::Optional => {
            let cid = vec[0];
            let res = new_char(parser_rules, cid, arena, c, upcoming, peeked, depth - 1);
            match res {
                None => None,
                Some((s, moved)) => {
                    let s2 = if s == StateType::Fail {
                        StateType::Pass
                    } else {
                        s
                    };
                    let ghost a3 = *arena;
                    put_state(Ghost(g), arena, id, s2);
                    proof {
                        lemma_grows_trans(a0, a3, *arena);
                    }
                    Some((s2, moved))
                },
            }
        },
        RuleType::Not => {
            let cid = vec[0];
            let res = new_char(parser_rules, cid, arena, c, upcoming, peeked, depth - 1);
            match res {
                None => None,
                Some((s, moved)) => {
                    let s2 = if s == StateType::Pass {
                        StateType::Fail
                    } else if s == StateType::Wait {
                        StateType::Wait
                    } else if s == StateType::Fail {
                        StateType::Pass
                    } else {
                        return Some((StateType::Fail, false));
                    };
                    let ghost a3 = *arena;
                    put_state(Ghost(g), arena, id, s2);
                    proof {
                        lemma_grows_trans(a0, a3, *arena);
                    }
                    Some((s2, moved))
                },
            }
        },
        RuleType::Or => {
            let mut should_wait = false;
            let mut pass_count: usize = 0;
            let mut pass_char_moved = false;
            let mut i: usize = 0;
            while i < vec.len()
                invariant
                    tree_grammar_ok(g),
                    g == parser_rules@,
                    idx < g.rules.len(),
                    g.rules[idx as int] == rule@,
                    rule@ == rule_named(g, node.rulename@),
                    depth > 0,
                    a0 == *old(arena),
                    p0 == *old(peeked),
                    target == walk_parts(*parser_rules, *old(arena), id, c, upcoming@, *old(peeked), depth),
                    is_composite(rule.rule_type),
                    arena_wf(g, *arena),
                    arena_grows(a0, *arena),
                    arena_grows(a2, *arena),
                    arena_nodes(*arena).dom().contains(id),
                    arena_nodes(*arena)[id].rulename == node.rulename@,
                    arena_children(*arena)[id].len() >= rule.children_names.len(),
                    forall|j: int| 0 <= j < vec.len() ==> arena_nodes(a2).dom().contains(#[trigger] vec@[j]),
                    p0 <= *peeked <= upcoming.len(),
                    pass_count <= i,
                    pr == *parser_rules,
                    or_walk(
                        pr,
                        *arena,
                        id,
                        c,
                        upcoming@,
                        *peeked,
                        depth,
                        vec@,
                        i as int,
                        should_wait,
                        pass_count as nat,
                        pass_char_moved,
                    ) == target,
                decreases vec.len() - i,
            {
                let cid = vec[i];
                let child = node_at(arena, cid);
                if child.state == StateType::Fail {
                    i = i + 1;
                    continue;
                }
                let ghost a3 = *arena;
                let ghost pk3 = *peeked;
                proof {
                    assert(target == or_walk(
                        pr,
                        a3,
                        id,
                        c,
                        upcoming@,
                        pk3,
                        depth,
                        vec@,
                        i as int,
                        should_wait,
                        pass_count as nat,
                        pass_char_moved,
                    ));
                }
                let res = new_char(parser_rules, cid, arena, c, upcoming, peeked, depth - 1);
                proof {
                    lemma_grows_trans(a0, a3, *arena);
                    lemma_grows_trans(a2, a3, *arena);
                }
                match res {
                    None => {
                        return None;
                    },
                    Some((s, moved)) => {
                        if s == StateType::Pass {
                            let ghost a4 = *arena;
                            put_state(Ghost(g), arena, id, StateType::Pass);
                            proof {
                                lemma_grows_trans(a0, a4, *arena);
                                lemma_grows_trans(a2, a4, *arena);
                            }
                            pass_count = pass_count + 1;
                            pass_char_moved = moved;
                        }
                        if s == StateType::Wait {
                            should_wait = true;
                            let ghost a4 = *arena;
                            put_state(Ghost(g), arena, id, StateType::Wait);
                            proof {
                                lemma_grows_trans(a0, a4, *arena);
                                lemma_grows_trans(a2, a4, *arena);
                            }
                        }
                    },
                }
                i = i + 1;
            }
            if should_wait {
                Some((StateType::Wait, true))
            } else if pass_count > 0 {
                let ghost a4 = *arena;
                if pass_count == 1 {
                    put_state(Ghost(g), arena, id, StateType::Pass);
                    proof {
                        lemma_grows_trans(a0, a4, *arena);
                    }
                    Some((StateType::Pass, pass_char_moved))
                } else {
                    put_state(Ghost(g), arena, id, StateType::Wait);
                    proof {
                        lemma_grows_trans(a0, a4, *arena);
                    }
                    Some((StateType::Wait, true))
                }
            } else {
                let ghost a4 = *arena;
                put_state(Ghost(g), arena, id, StateType::Fail);
                proof {
                    lemma_grows_trans(a0, a4, *arena);
                }
                Some((StateType::Fail, false))
            }
        },
        RuleType::And => {
            let mut states: Vec<StateType> = Vec::new();
            let mut moves: Vec<bool> = Vec::new();
            let mut i: usize = 0;
            while i < vec.len()
                invariant
                    tree_grammar_ok(g),
                    g == parser_rules@,
                    idx < g.rules.len(),
                    g.rules[idx as int] == rule@,
                    rule@ == rule_named(g, node.rulename@),
                    depth > 0,
                    a0 == *old(arena),
                    p0 == *old(peeked),
                    target == walk_parts(*parser_rules, *old(arena), id, c, upcoming@, *old(peeked), depth),
                    is_composite(rule.rule_type),
                    arena_wf(g, *arena),
                    arena_grows(a0, *arena),
                    arena_grows(a2, *arena),
                    arena_nodes(*arena).dom().contains(id),
                    arena_nodes(*arena)[id].rulename == node.rulename@,
                    arena_children(*arena)[id].len() >= rule.children_names.len(),
                    forall|j: int| 0 <= j < vec.len() ==> arena_nodes(a2).dom().contains(#[trigger] vec@[j]),
                    p0 <= *peeked <= upcoming.len(),
                    states.len() == i,
                    moves.len() == i,
                    i <= vec.len(),
                    vec.len() >= 1,
                    pr == *parser_rules,
                    and_walk(pr, *arena, id, c, upcoming@, *peeked, depth, vec@, i as int, states@, moves@)
                        == target,
                decreases vec.len() - i,
            {
                let cid = vec[i];
                let ghost a3 = *arena;
                let ghost pk3 = *peeked;
                proof {
                    assert(target == and_walk(pr, a3, id, c, upcoming@, pk3, depth, vec@, i as int, states@, moves@));
                }
                let res = new_char(parser_rules, cid, arena, c, upcoming, peeked, depth - 1);
                proof {
                    lemma_grows_trans(a0, a3, *arena);
                    lemma_grows_trans(a2, a3, *arena);
                }
                match res {
                    None => {
                        return None;
                    },
                    Some((s, moved)) => {
                        if s == StateType::Fail {
                            let ghost a4 = *arena;
                            assert(target == (
                                Some((StateType::Fail, moved)),
                                arena_with_state(a4, id, StateType::Fail),
                                *peeked,
                            ));
                            put_state(Ghost(g), arena, id, StateType::Fail);
                            proof {
                                lemma_grows_trans(a0, a4, *arena);
                            }
                            return Some((StateType::Fail, moved));
                        }
                        states.push(s);
                        moves.push(moved);
                        assert(target == and_walk(
                            pr,
                            *arena,
                            id,
                            c,
                            upcoming@,
                            *peeked,
                            depth,
                            vec@,
                            i + 1,
                            states@,
                            moves@,
                        ));
                    },
                }
                i = i + 1;
            }
            let state_one = states[0];
            let move_one = moves[0];
            let mut j: usize = 0;
            while j < states.len()
                invariant
                    j <= states.len(),
                    g == parser_rules@,
                    a0 == *old(arena),
                    p0 == *old(peeked),
                    target == walk_parts(*parser_rules, *old(arena), id, c, upcoming@, *old(peeked), depth),
                    arena_wf(g, *arena),
                    arena_grows(a0, *arena),
                    p0 <= *peeked <= upcoming.len(),
                    states.len() == vec.len(),
                    states.len() >= 1,
                    state_one == states@[0],
                    move_one == moves@[0],
                    moves.len() == states.len(),
                    pr == *parser_rules,
                    and_walk(pr, *arena, id, c, upcoming@, *peeked, depth, vec@, vec.len() as int, states@, moves@)
                        == target,
                    forall|k: int| 0 <= k < j ==> states@[k] == state_one,
                decreases states.len() - j,
            {
                if states[j] != state_one {
                    assert(states@[j as int] != states@[0]);
                    return Some((StateType::Fail, false));
                }
                j = j + 1;
            }
            Some((state_one, move_one))
        },
        RuleType::WithException => {
            let child1 = vec[0];
            let childex = vec[1];
            let ghost a3 = *arena;
            proof {
                assert(target == match walk(pr, a3, vec@[0], c, upcoming@, p0, (depth - 1) as usize) {
                    (Some((s1, _)), a5, p5) => if s1 == StateType::Fail {
                        (Some((StateType::Fail, false)), a5, p5)
                    } else {
                        ex_walk(pr, a5, id, vec@[1], c, upcoming@, p5, depth)
                    },
                    other => other,
                });
            }
            let res1 = new_char(parser_rules, child1, arena, c, upcoming, peeked, depth - 1);
            proof {
                lemma_grows_trans(a0, a3, *arena);
                lemma_grows_trans(a2, a3, *arena);
            }
            match res1 {
                None => {
                    return None;
                },
                Some((s1, _)) => {
                    if s1 == StateType::Fail {
                        return Some((StateType::Fail, false));
                    }
                },
            }
            let mut cex = c;
            loop
                invariant
                    tree_grammar_ok(g),
                    g == parser_rules@,
                    idx < g.rules.len(),
                    g.rules[idx as int] == rule@,
                    rule@ == rule_named(g, node.rulename@),
                    depth > 0,
                    a0 == *old(arena),
                    p0 == *old(peeked),
                    target == walk_parts(*parser_rules, *old(arena), id, c, upcoming@, *old(peeked), depth),
                    is_composite(rule.rule_type),
                    arena_wf(g, *arena),
                    arena_grows(a0, *arena),
                    arena_grows(a2, *arena),
                    arena_nodes(*arena).dom().contains(id),
                    arena_nodes(*arena)[id].rulename == node.rulename@,
                    arena_children(*arena)[id].len() >= rule.children_names.len(),
                    arena_nodes(a2).dom().contains(childex),
                    p0 <= *peeked <= upcoming.len(),
                    pr == *parser_rules,
                    ex_walk(pr, *arena, id, childex, cex, upcoming@, *peeked, depth) == target,
                decreases upcoming.len() - *peeked,
            {
                let ghost a4 = *arena;
                let ghost pk4 = *peeked;
                let resx = new_char(parser_rules, childex, arena, cex, upcoming, peeked, depth - 1);
                proof {
                    lemma_grows_trans(a0, a4, *arena);
                    lemma_grows_trans(a2, a4, *arena);
                }
                match resx {
                    None => {
                        return None;
                    },
                    Some((sx, _)) => {
                        if sx == StateType::Wait {
                            if *peeked >= upcoming.len() {
                                return None;
                            }
                            cex = upcoming[*peeked];
                            *peeked = *peeked + 1;
                            assert(target == ex_walk(pr, *arena, id, childex, cex, upcoming@, *peeked, depth));
                        } else {
                            let ghost a5 = *arena;
                            let state = if sx == StateType::Fail {
                                StateType::Pass
                            } else {
                                StateType::Fail
                            };
                            assert(target == (
                                Some((state, sx == StateType::Fail)),
                                arena_with_state(a5, id, state),
                                *peeked,
                            ));
                            put_state(Ghost(g), arena, id, state);
                            proof {
                                lemma_grows_trans(a0, a5, *arena);
                            }
                            return Some((state, sx == StateType::Fail));
                        }
                    },
                }
            }
        },
        _ => Some((StateType::Fail, false)),
    }
}


/// A tree to match the rule `rule_name` with: an arena holding only its
/// root, a node at the start of that rule, with the root's id; `None` when
/// no rule has that name.
pub fn new_tree(parser_rules: &Parser, rule_name: &String) -> (r: Option<(Arena<PNode>, NodeId)>)
    requires
        tree_grammar_ok(parser_rules@),
    ensures
        r is None <==> place_of(parser_rules@, rule_name@) is None,
        r matches Some((a, id)) ==> {
            &&& arena_wf(parser_rules@, a)
            &&& arena_data(a) == Map::<NodeId, PNode>::empty().insert(
                id,
                PNode {
                    rulename: *rule_name,
                    ruletype: parser_rules.rule_vec@[place_of(parser_rules@, rule_name@).unwrap() as int].rule_type,
                    state: StateType::Init,
                    current_sequence: 0,
                },
            )
            &&& arena_children(a) == Map::<NodeId, Seq<NodeId>>::empty().insert(id, Seq::empty())
        },
{
    let ghost g = parser_rules@;
    match lookup(&parser_rules.rule_registry, rule_name) {
        None => None,
        Some(idx) => {
            proof {
                lemma_rule_named(g, rule_name@);
                assert(tree_rule_ok(g.rules[idx as int]));
            }
            let root = PNode {
                rulename: rule_name.clone(),
                ruletype: parser_rules.rule_vec[idx].rule_type,
                state: StateType::Init,
                current_sequence: 0,
            };
            let mut arena = empty_arena();
            proof {
                assert(arena_data(arena) =~= Map::<NodeId, PNode>::empty());
                assert(arena_children(arena) =~= Map::<NodeId, Seq<NodeId>>::empty());
            }
            let id = add_node(&mut arena, root);
            proof {
                let nodes = arena_nodes(arena);
                let ch = arena_children(arena);
                assert(nodes.dom() =~= ch.dom());
                assert(node_ok(g, nodes, ch, id));
                assert forall|x: NodeId| #[trigger] nodes.dom().contains(x) implies node_ok(g, nodes, ch, x) by {
                    assert(x == id);
                }
            }
            Some((arena, id))
        },
    }
}


/// A single character node that is still open decides on the character
/// alone: it passes, taking it, when its rule's class holds it (ends of
/// ranges included), and fails otherwise; a node of the characters not in
/// a class does the opposite.
pub proof fn law_single_character_node(
    p: Parser,
    a: Arena<PNode>,
    id: NodeId,
    c: char,
    up: Seq<char>,
    pk: usize,
    depth: usize,
)
    requires
        arena_data(a)[id].state != StateType::Pass,
        arena_data(a)[id].state != StateType::Fail,
        rule_of(p, arena_data(a)[id]).rule_type == RuleType::Chars || rule_of(p, arena_data(a)[id]).rule_type
            == RuleType::CharsNot,
    ensures
        walk(p, a, id, c, up, pk, depth).0 == Some(
            if class_holds(rule_of(p, arena_data(a)[id]), c) == (rule_of(p, arena_data(a)[id]).rule_type
                == RuleType::Chars) {
                (StateType::Pass, true)
            } else {
                (StateType::Fail, false)
            },
        ),
{
    let rule = rule_of(p, arena_data(a)[id]);
    let r = rule@;
    assert(r.expected_char_ranges == rule.expected_char_ranges@);
    assert(r.expected_chars == rule.expected_chars@);
    if class_holds(rule, c) {
        if !rule.expected_chars@.contains(c) {
            let k = choose|k: int|
                0 <= k < rule.expected_char_ranges@.len() && (rule.expected_char_ranges@[k].0 as u32) <= (c as u32)
                    && (c as u32) <= (#[trigger] rule.expected_char_ranges@[k]).1 as u32;
            assert(in_range(rule.expected_char_ranges@[k], c));
        }
    } else {
        assert forall|k: int| 0 <= k < rule.expected_char_ranges@.len() implies !#[trigger] in_range(
            rule.expected_char_ranges@[k],
            c,
        ) by {
            if in_range(rule.expected_char_ranges@[k], c) {
                assert((rule.expected_char_ranges@[k].0 as u32) <= (c as u32) && (c as u32)
                    <= rule.expected_char_ranges@[k].1 as u32);
            }
        }
    }
}


/// The kind of rule a node matches.
pub open spec fn kind_of(p: Parser, a: Arena<PNode>, id: NodeId) -> RuleType {
    rule_of(p, arena_data(a)[id]).rule_type
}

/// What the first child of a node answers for the character.
pub open spec fn first_child_answer(
    p: Parser,
    a: Arena<PNode>,
    id: NodeId,
    c: char,
    up: Seq<char>,
    pk: usize,
    depth: usize,
) -> Option<(StateType, bool)> {
    walk(p, a, arena_children(a)[id][0], c, up, pk, (depth - 1) as usize).0
}

/// How the combining nodes that look at their first child answer, once
/// they wait (their children made): an option passes when its part fails
/// (without taking the character) and otherwise answers what its part
/// answers; a negation fails when its part passes, passes when its part
/// fails, and waits when it waits; an exception fails, without taking the
/// character, when its first part fails; a sequence at its first part
/// fails, without taking the character, when that part fails. A walk that
/// stops short below stops short here.
pub proof fn law_first_child_answers(
    p: Parser,
    a: Arena<PNode>,
    id: NodeId,
    c: char,
    up: Seq<char>,
    pk: usize,
    depth: usize,
)
    requires
        arena_data(a)[id].state == StateType::Wait,
        depth > 0,
        arena_children(a)[id].len() > 0,
    ensures
        kind_of(p, a, id) == RuleType::Optional ==> walk(p, a, id, c, up, pk, depth).0 == match first_child_answer(
            p,
            a,
            id,
            c,
            up,
            pk,
            depth,
        ) {
            Some((s, t)) => Some((
                if s == StateType::Fail {
                    StateType::Pass
                } else {
                    s
                },
                t,
            )),
            None => None,
        },
        kind_of(p, a, id) == RuleType::Not ==> walk(p, a, id, c, up, pk, depth).0 == match first_child_answer(
            p,
            a,
            id,
            c,
            up,
            pk,
            depth,
        ) {
            Some((StateType::Pass, t)) => Some((StateType::Fail, t)),
            Some((StateType::Fail, t)) => Some((StateType::Pass, t)),
            Some((StateType::Wait, t)) => Some((StateType::Wait, t)),
            Some((StateType::Init, _)) => Some((StateType::Fail, false)),
            None => None,
        },
        kind_of(p, a, id) == RuleType::WithException && first_child_answer(p, a, id, c, up, pk, depth)
            == Some((StateType::Fail, false)) ==> walk(p, a, id, c, up, pk, depth).0 == Some((StateType::Fail, false)),
        (kind_of(p, a, id) == RuleType::WithException || kind_of(p, a, id) == RuleType::Optional
            || kind_of(p, a, id) == RuleType::Not) && first_child_answer(p, a, id, c, up, pk, depth) is None
            ==> walk(p, a, id, c, up, pk, depth).0 is None,
        (kind_of(p, a, id) == RuleType::Sequence && arena_data(a)[id].current_sequence == 0 && (
        first_child_answer(p, a, id, c, up, pk, depth) matches Some((StateType::Fail, _))))
            ==> walk(p, a, id, c, up, pk, depth).0 == Some((StateType::Fail, false)),
{
    let v = arena_children(a)[id];
    let d = (depth - 1) as usize;
    if is_composite(kind_of(p, a, id)) {
        assert(rule_of(p, arena_data(a)[id])@.rule_type == kind_of(p, a, id));
        assert(leaf_step(p, arena_data(a)[id], c) is None);
        assert(walk(p, a, id, c, up, pk, depth) == walk_parts(p, a, id, c, up, pk, depth));
    }
    if kind_of(p, a, id) == RuleType::Sequence {
        assert(walk_parts(p, a, id, c, up, pk, depth) == seq_walk(p, a, id, c, up, pk, depth, v, 0));
    }
}

} // verus!
