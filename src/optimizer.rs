use vstd::prelude::*;
use vstd::string::StringExecFns;

use crate::bfir::{AstNode, Instr, view_node, view_nodes, lemma_view_nodes};
use crate::diagnostics::Warning;
use crate::peephole::{
    combine_increments, combine_seq, dead_seq, fold_offsets, fold_seq, remove_dead_loops, zero_seq,
    zeroing_loops,
};
use crate::propagation::{propagate_constants, propagate_seq};
use crate::selection::{
    Pass, PassSet, lemma_single_name, name_dead, name_fold, name_propagation, name_zeroing, select, selected,
    selection, text_of, unknown_in,
};

verus! {

/// The most rewrites that `optimize` makes before it gives up on a fixpoint.
pub const MAX_ITERATIONS: u64 = 1000;

/// What pass `p` makes of `s`.
pub open spec fn apply(p: Pass, s: Seq<Instr>) -> Seq<Instr> {
    match p {
        Pass::CombineIncrements => combine_seq(s),
        Pass::ZeroingLoops => zero_seq(s),
        Pass::DeadLoops => dead_seq(s),
        Pass::OffsetFolding => fold_seq(s),
        Pass::ConstantPropagation => propagate_seq(s),
    }
}

pub open spec fn enabled(set: PassSet, p: Pass) -> bool {
    match p {
        Pass::CombineIncrements => set.combine_increments,
        Pass::ZeroingLoops => set.zeroing_loops,
        Pass::DeadLoops => set.dead_loops,
        Pass::OffsetFolding => set.offset_folding,
        Pass::ConstantPropagation => set.constant_propagation,
    }
}

/// The passes in their fixed priority order.
pub open spec fn pass_order() -> Seq<Pass> {
    seq![
        Pass::CombineIncrements,
        Pass::ZeroingLoops,
        Pass::DeadLoops,
        Pass::OffsetFolding,
        Pass::ConstantPropagation,
    ]
}

/// What the first enabled pass from position `k` of the order on that
/// changes `s` makes of it, if one does.
pub open spec fn first_change(set: PassSet, s: Seq<Instr>, k: int) -> Option<Seq<Instr>>
    decreases 5 - k,
{
    if k < 0 || k >= 5 {
        None
    } else {
        let p = pass_order()[k];
        if enabled(set, p) && apply(p, s) != s {
            Some(apply(p, s))
        } else {
            first_change(set, s, k + 1)
        }
    }
}

/// Whether every enabled pass leaves `s` as it is.
pub open spec fn is_fixpoint(set: PassSet, s: Seq<Instr>) -> bool {
    forall|p: Pass| enabled(set, p) ==> #[trigger] apply(p, s) == s
}

/// Rewrites `s` until no enabled pass changes it, at most `fuel` times:
/// the program reached, the number of rewrites, and whether the bound was
/// hit first.
pub open spec fn settle(set: PassSet, s: Seq<Instr>, fuel: nat) -> (Seq<Instr>, nat, bool)
    decreases fuel,
{
    match first_change(set, s, 0) {
        None => (s, 0, false),
        Some(t) => if fuel == 0 {
            (s, 0, true)
        } else {
            let r = settle(set, t, (fuel - 1) as nat);
            (r.0, r.1 + 1, r.2)
        },
    }
}

fn apply_pass(p: Pass, s: &Vec<AstNode>) -> (r: Vec<AstNode>)
    ensures
        view_nodes(r) == apply(p, view_nodes(*s)),
{
    match p {
        Pass::CombineIncrements => combine_increments(s),
        Pass::ZeroingLoops => zeroing_loops(s),
        Pass::DeadLoops => remove_dead_loops(s),
        Pass::OffsetFolding => fold_offsets(s),
        Pass::ConstantPropagation => propagate_constants(s),
    }
}

fn is_enabled(set: PassSet, p: Pass) -> (r: bool)
    ensures
        r == enabled(set, p),
{
    match p {
        Pass::CombineIncrements => set.combine_increments,
        Pass::ZeroingLoops => set.zeroing_loops,
        Pass::DeadLoops => set.dead_loops,
        Pass::OffsetFolding => set.offset_folding,
        Pass::ConstantPropagation => set.constant_propagation,
    }
}

/// Whether two instruction sequences are the same, node for node.
pub fn nodes_equal(a: &Vec<AstNode>, b: &Vec<AstNode>) -> (r: bool)
    ensures
        r == (view_nodes(*a) == view_nodes(*b)),
    decreases a, 0nat,
{
    proof {
        lemma_view_nodes(*a);
        lemma_view_nodes(*b);
    }
    if a.len() != b.len() {
        return false;
    }
    let mut i: usize = 0;
    while i < a.len()
        invariant
            a@.len() == b@.len(),
            0 <= i <= a@.len(),
            view_nodes(*a).len() == a@.len(),
            view_nodes(*b).len() == b@.len(),
            forall|j: int| 0 <= j < a@.len() ==> #[trigger] view_nodes(*a)[j] == view_node(a@[j]),
            forall|j: int| 0 <= j < b@.len() ==> #[trigger] view_nodes(*b)[j] == view_node(b@[j]),
            forall|j: int| 0 <= j < i ==> view_nodes(*a)[j] == view_nodes(*b)[j],
        decreases a@.len() - i,
    {
        if !node_equal(&a[i], &b[i]) {
            assert(view_nodes(*a)[i as int] != view_nodes(*b)[i as int]);
            return false;
        }
        i = i + 1;
    }
    assert(view_nodes(*a) =~= view_nodes(*b));
    true
}

fn node_equal(x: &AstNode, y: &AstNode) -> (r: bool)
    ensures
        r == (view_node(*x) == view_node(*y)),
    decreases x, 1nat,
{
    match (x, y) {
        (AstNode::Increment { amount: a1, offset: o1, position: pa }, AstNode::Increment { amount: a2, offset: o2, position: pb }) =>
            *a1 == *a2 && *o1 == *o2 && *pa == *pb,
        (AstNode::PointerIncrement { amount: a1, position: pa }, AstNode::PointerIncrement { amount: a2, position: pb }) =>
            *a1 == *a2 && *pa == *pb,
        (AstNode::Read { position: pa }, AstNode::Read { position: pb }) => *pa == *pb,
        (AstNode::Write { position: pa }, AstNode::Write { position: pb }) => *pa == *pb,
        (AstNode::SetValue { amount: a1, offset: o1, position: pa }, AstNode::SetValue { amount: a2, offset: o2, position: pb }) =>
            *a1 == *a2 && *o1 == *o2 && *pa == *pb,
        (AstNode::Loop { body: b1, position: pa }, AstNode::Loop { body: b2, position: pb }) =>
            *pa == *pb && nodes_equal(b1, b2),
        _ => false,
    }
}

fn pass_at(k: usize) -> (r: Pass)
    requires
        k < 5,
    ensures
        r == pass_order()[k as int],
{
    if k == 0 {
        Pass::CombineIncrements
    } else if k == 1 {
        Pass::ZeroingLoops
    } else if k == 2 {
        Pass::DeadLoops
    } else if k == 3 {
        Pass::OffsetFolding
    } else {
        Pass::ConstantPropagation
    }
}

fn find_change(set: PassSet, s: &Vec<AstNode>) -> (r: Option<Vec<AstNode>>)
    ensures
        match r {
            None => first_change(set, view_nodes(*s), 0) is None,
            Some(t) => first_change(set, view_nodes(*s), 0) == Some(view_nodes(t)),
        },
{
    let ghost sv = view_nodes(*s);
    let mut k: usize = 0;
    while k < 5
        invariant
            0 <= k <= 5,
            sv == view_nodes(*s),
            first_change(set, sv, 0) == first_change(set, sv, k as int),
        decreases 5 - k,
    {
        let p = pass_at(k);
        if is_enabled(set, p) {
            let t = apply_pass(p, s);
            if !nodes_equal(&t, s) {
                return Some(t);
            }
        }
        k = k + 1;
    }
    None
}

/// Applies the enabled passes until none changes the program, at most
/// `MAX_ITERATIONS` times: the program, the number of rewrites made, and
/// whether the bound was reached before a fixpoint.
pub fn fixpoint(instrs: Vec<AstNode>, set: PassSet) -> (r: (Vec<AstNode>, u64, bool))
    ensures
        ({
            let (q, n, capped) = settle(set, view_nodes(instrs), MAX_ITERATIONS as nat);
            view_nodes(r.0) == q && r.1 == n && r.2 == capped
        }),
{
    let ghost goal = settle(set, view_nodes(instrs), MAX_ITERATIONS as nat);
    let mut cur = instrs;
    let mut fuel: u64 = MAX_ITERATIONS;
    let mut count: u64 = 0;
    loop
        invariant
            fuel + count == MAX_ITERATIONS,
            goal == settle(set, view_nodes(instrs), MAX_ITERATIONS as nat),
            ({
                let r = settle(set, view_nodes(cur), fuel as nat);
                goal == (r.0, r.1 + count as nat, r.2)
            }),
        decreases fuel,
    {
        match find_change(set, &cur) {
            None => {
                assert(settle(set, view_nodes(cur), fuel as nat) == (view_nodes(cur), 0nat, false));
                return (cur, count, false);
            },
            Some(t) => {
                if fuel == 0 {
                    assert(settle(set, view_nodes(cur), fuel as nat) == (view_nodes(cur), 0nat, true));
                    return (cur, count, true);
                }
                cur = t;
                fuel = fuel - 1;
                count = count + 1;
            },
        }
    }
}

/// The warning for a pass name that names no pass.
pub open spec fn unknown_pass_message(name: Seq<char>) -> Seq<char> {
    "Unknown pass: "@ + name
}

/// The warning for an optimization that found no fixpoint.
pub open spec fn no_fixpoint_message() -> Seq<char> {
    "Optimization stopped before reaching a fixpoint"@
}

/// Optimizes `instrs` with the passes that `pass_specification` selects.
/// Each unknown pass name gives a warning, in order; one more follows if
/// no fixpoint was reached.
pub fn optimize(instrs: Vec<AstNode>, pass_specification: &Option<String>) -> (r: (Vec<AstNode>, Vec<Warning>))
    ensures
        ({
            let (q, n, capped) = settle(selection(text_of(*pass_specification)), view_nodes(instrs), MAX_ITERATIONS as nat);
            let unknown = unknown_in(text_of(*pass_specification));
            &&& view_nodes(r.0) == q
            &&& r.1@.len() == unknown.len() + if capped { 1int } else { 0int }
            &&& forall|i: int| 0 <= i < unknown.len() ==> r.1@[i].message@ == unknown_pass_message(unknown[i])
                && r.1@[i].position is None
            &&& capped ==> r.1@.last().message@ == no_fixpoint_message() && r.1@.last().position is None
        }),
{
    let (set, unknown) = select(pass_specification);
    let ghost names = unknown@.map_values(|t: String| t@);
    let mut warnings: Vec<Warning> = Vec::new();
    let mut i: usize = 0;
    while i < unknown.len()
        invariant
            0 <= i <= unknown@.len(),
            names == unknown@.map_values(|t: String| t@),
            warnings@.len() == i,
            forall|j: int| 0 <= j < i ==> warnings@[j].message@ == unknown_pass_message(names[j])
                && warnings@[j].position is None,
        decreases unknown@.len() - i,
    {
        let message = String::from_str("Unknown pass: ").concat(unknown[i].as_str());
        assert(names[i as int] == unknown@[i as int]@);
        warnings.push(Warning { message, position: None });
        i = i + 1;
    }
    let (result, _count, capped) = fixpoint(instrs, set);
    let ghost before = warnings@;
    if capped {
        warnings.push(Warning {
            message: String::from_str("Optimization stopped before reaching a fixpoint"),
            position: None,
        });
        assert(forall|j: int| 0 <= j < before.len() ==> warnings@[j] == before[j]);
    }
    (result, warnings)
}

} // verus!

verus! {

proof fn lemma_no_change_is_fixpoint(set: PassSet, s: Seq<Instr>, k: int)
    requires
        0 <= k <= 5,
        first_change(set, s, k) is None,
    ensures
        forall|j: int| k <= j < 5 && enabled(set, #[trigger] pass_order()[j]) ==> apply(pass_order()[j], s) == s,
    decreases 5 - k,
{
    if k < 5 {
        lemma_no_change_is_fixpoint(set, s, k + 1);
    }
}

proof fn lemma_settled(set: PassSet, s: Seq<Instr>, fuel: nat)
    requires
        !settle(set, s, fuel).2,
    ensures
        first_change(set, settle(set, s, fuel).0, 0) is None,
    decreases fuel,
{
    match first_change(set, s, 0) {
        None => {},
        Some(t) => {
            if fuel > 0 {
                lemma_settled(set, t, (fuel - 1) as nat);
            }
        },
    }
}

/// Where optimization reached a fixpoint, every selected pass leaves its
/// output as it is, and optimizing that output again changes nothing and
/// makes no rewrite: the warnings of the second run are those of the pass
/// specification alone, as in the first.
pub proof fn lemma_optimize_idempotent(s: Seq<Instr>, text: Option<Seq<char>>)
    requires
        !settle(selection(text), s, MAX_ITERATIONS as nat).2,
    ensures
        ({
            let q = settle(selection(text), s, MAX_ITERATIONS as nat).0;
            &&& is_fixpoint(selection(text), q)
            &&& settle(selection(text), q, MAX_ITERATIONS as nat) == (q, 0nat, false)
        }),
{
    let set = selection(text);
    let q = settle(set, s, MAX_ITERATIONS as nat).0;
    lemma_settled(set, s, MAX_ITERATIONS as nat);
    lemma_no_change_is_fixpoint(set, q, 0);
    assert forall|p: Pass| enabled(set, p) implies #[trigger] apply(p, q) == q by {
        match p {
            Pass::CombineIncrements => assert(pass_order()[0] == p),
            Pass::ZeroingLoops => assert(pass_order()[1] == p),
            Pass::DeadLoops => assert(pass_order()[2] == p),
            Pass::OffsetFolding => assert(pass_order()[3] == p),
            Pass::ConstantPropagation => assert(pass_order()[4] == p),
        }
    }
}

} // verus!

verus! {

/// Applies the combining pass alone until it changes nothing, at most
/// `fuel` times.
pub open spec fn settle_combining(s: Seq<Instr>, fuel: nat) -> (Seq<Instr>, nat, bool)
    decreases fuel,
{
    if combine_seq(s) == s {
        (s, 0, false)
    } else if fuel == 0 {
        (s, 0, true)
    } else {
        let r = settle_combining(combine_seq(s), (fuel - 1) as nat);
        (r.0, r.1 + 1, r.2)
    }
}

/// A specification that names only the combining pass selects that pass
/// alone, so optimization applies nothing but it: no loop is ever
/// recognised as zeroing its cell.
pub proof fn lemma_combine_only(s: Seq<Instr>, fuel: nat)
    ensures
        selection(Some("combine_inc"@)) == (PassSet {
            combine_increments: true,
            zeroing_loops: false,
            dead_loops: false,
            offset_folding: false,
            constant_propagation: false,
        }),
        settle(selection(Some("combine_inc"@)), s, fuel) == settle_combining(s, fuel),
    decreases fuel,
{
    reveal_strlit("combine_inc");
    reveal_strlit("zeroing_loop");
    reveal_strlit("dead_loop");
    reveal_strlit("offset_sort");
    reveal_strlit("const_prop");
    let name = "combine_inc"@;
    lemma_single_name(name);
    let toks = seq![name];
    assert(toks.contains(name)) by {
        assert(toks[0] == name);
    }
    assert(!toks.contains(name_zeroing())) by {
        assert(name.len() != name_zeroing().len());
    }
    assert(!toks.contains(name_dead())) by {
        assert(name.len() != name_dead().len());
    }
    assert(!toks.contains(name_fold())) by {
        assert(name[0] != name_fold()[0]);
    }
    assert(!toks.contains(name_propagation())) by {
        assert(name.len() != name_propagation().len());
    }
    let set = selection(Some(name));
    assert(first_change(set, s, 1) is None) by {
        assert(first_change(set, s, 4) == first_change(set, s, 5));
        assert(first_change(set, s, 3) == first_change(set, s, 4));
        assert(first_change(set, s, 2) == first_change(set, s, 3));
        assert(first_change(set, s, 1) == first_change(set, s, 2));
    }
    if combine_seq(s) != s && fuel > 0 {
        lemma_combine_only(combine_seq(s), (fuel - 1) as nat);
    }
}

} // verus!
