use vstd::prelude::*;

use crate::bfir::{AstNode, Instr, Position, copy_node, copy_nodes, instr_position, view_node, view_nodes, lemma_view_nodes_map};
use crate::execution::{Sim, cell_value, initial_machine, run_seq};
use crate::peephole::span;

verus! {

broadcast use lemma_view_nodes_map;

/// The step budget of compile-time execution in constant propagation.
pub const FOLD_STEPS: u64 = 10000000;

/// Whether `n` neither reads nor writes, at any depth.
pub open spec fn pure_instr(n: Instr) -> bool
    decreases n, 1nat,
{
    match n {
        Instr::Read { .. } => false,
        Instr::Write { .. } => false,
        Instr::Loop { body, .. } => pure_seq(body, 0),
        _ => true,
    }
}

/// Whether `s[i..]` neither reads nor writes.
pub open spec fn pure_seq(s: Seq<Instr>, i: int) -> bool
    decreases s, s.len() - i, 0nat,
{
    if i < 0 || i >= s.len() {
        true
    } else {
        pure_instr(s[i]) && pure_seq(s, i + 1)
    }
}

/// The length of the longest prefix of `s[i..]`, counted from 0, whose
/// nodes neither read nor write.
pub open spec fn pure_prefix_len(s: Seq<Instr>, i: int) -> int
    decreases s.len() - i,
{
    if i < 0 || i >= s.len() || !pure_instr(s[i]) {
        if i < 0 { 0 } else if i > s.len() { s.len() as int } else { i }
    } else {
        pure_prefix_len(s, i + 1)
    }
}

/// One `SetValue` for each written cell, in the order of first writes.
pub open spec fn sets_for(written: Seq<i64>, cells: Map<i64, u8>, p: Position) -> Seq<Instr> {
    written.map_values(|k: i64| Instr::SetValue { amount: cell_value(cells, k), offset: k, position: p })
}

/// Replaces the longest prefix that neither reads nor writes by what
/// executing it at compile time leaves: the cells it wrote, then the move
/// of the pointer. Where that execution does not complete (a loop that may
/// not end, or an offset out of range) the program stays as it is.
pub open spec fn propagate_seq(s: Seq<Instr>) -> Seq<Instr> {
    let k = pure_prefix_len(s, 0);
    if k == 0 {
        s
    } else {
        let m = run_seq(s.take(k), 0, initial_machine(), FOLD_STEPS, FOLD_STEPS as nat);
        if m.halt is Some {
            s
        } else {
            let p = span(instr_position(s[0]), instr_position(s[k - 1]));
            let moved = if m.ptr != 0 {
                seq![Instr::PointerIncrement { amount: m.ptr, position: p }]
            } else {
                Seq::empty()
            };
            sets_for(m.written, m.cells, p) + moved + s.skip(k)
        }
    }
}

fn is_pure(n: &AstNode) -> (r: bool)
    ensures
        r == pure_instr(view_node(*n)),
    decreases n, 1nat,
{
    match n {
        AstNode::Read { .. } => false,
        AstNode::Write { .. } => false,
        AstNode::Loop { body, .. } => all_pure(body),
        _ => true,
    }
}

fn all_pure(s: &Vec<AstNode>) -> (r: bool)
    ensures
        r == pure_seq(view_nodes(*s), 0),
    decreases s, 0nat,
{
    let ghost sv = view_nodes(*s);
    let mut i: usize = 0;
    while i < s.len()
        invariant
            0 <= i <= s@.len(),
            sv == view_nodes(*s),
            pure_seq(sv, 0) == pure_seq(sv, i as int),
        decreases s@.len() - i,
    {
        if !is_pure(&s[i]) {
            return false;
        }
        i = i + 1;
    }
    true
}

/// Folds the longest prefix that neither reads nor writes into the cell
/// values and pointer move that executing it at compile time gives.
pub fn propagate_constants(s: &Vec<AstNode>) -> (r: Vec<AstNode>)
    ensures
        view_nodes(r) == propagate_seq(view_nodes(*s)),
{
    let ghost sv = view_nodes(*s);
    let mut k: usize = 0;
    while k < s.len() && is_pure(&s[k])
        invariant
            0 <= k <= s@.len(),
            sv == view_nodes(*s),
            pure_prefix_len(sv, 0) == pure_prefix_len(sv, k as int),
        decreases s@.len() - k,
    {
        k = k + 1;
    }
    assert(pure_prefix_len(sv, 0) == k);
    if k == 0 {
        return copy_nodes(s);
    }
    let ghost t = sv.take(k as int);
    let mut sim = Sim::new();
    let mut i: usize = 0;
    while i < k && !sim.is_halted()
        invariant
            0 <= i <= k <= s@.len(),
            sv == view_nodes(*s),
            t == sv.take(k as int),
            sim.budget_ok(FOLD_STEPS, FOLD_STEPS),
            run_seq(t, 0, initial_machine(), FOLD_STEPS, FOLD_STEPS as nat)
                == run_seq(t, i as int, sim.model(), FOLD_STEPS, FOLD_STEPS as nat),
        decreases k - i,
    {
        assert(t[i as int] == view_node(s@[i as int]));
        sim.exec_instr(&s[i], FOLD_STEPS, FOLD_STEPS);
        i = i + 1;
    }
    if sim.is_halted() {
        return copy_nodes(s);
    }
    let p = span_of(s[0].position(), s[k - 1].position());
    let written = sim.written_offsets();
    let ghost m = sim.model();
    let mut r: Vec<AstNode> = Vec::new();
    let mut j: usize = 0;
    while j < written.len()
        invariant
            0 <= j <= written@.len(),
            written@ == m.written,
            m == sim.model(),
            view_nodes(r) == sets_for(m.written, m.cells, p).take(j as int),
        decreases written@.len() - j,
    {
        let o = written[j];
        let x = AstNode::SetValue { amount: sim.cell_at(o), offset: o, position: p };
        let ghost before = view_nodes(r);
        r.push(x);
        assert(view_nodes(r) =~= before.push(view_node(x)));
        assert(view_nodes(r) =~= sets_for(m.written, m.cells, p).take(j + 1));
        j = j + 1;
    }
    let ghost sets = view_nodes(r);
    assert(sets =~= sets_for(m.written, m.cells, p));
    let ptr = sim.pointer();
    if ptr != 0 {
        r.push(AstNode::PointerIncrement { amount: ptr, position: p });
    }
    let ghost head = view_nodes(r);
    let mut q: usize = k;
    while q < s.len()
        invariant
            k <= q <= s@.len(),
            sv == view_nodes(*s),
            view_nodes(r) == head + sv.subrange(k as int, q as int),
        decreases s@.len() - q,
    {
        let x = copy_node(&s[q]);
        let ghost before = view_nodes(r);
        r.push(x);
        assert(view_nodes(r) =~= before.push(view_node(x)));
        assert(view_nodes(r) =~= head + sv.subrange(k as int, q + 1));
        q = q + 1;
    }
    assert(sv.subrange(k as int, s@.len() as int) =~= sv.skip(k as int));
    r
}

fn span_of(a: Position, b: Position) -> (r: Position)
    ensures
        r == span(a, b),
{
    Position {
        start: if a.start <= b.start { a.start } else { b.start },
        end: if a.end >= b.end { a.end } else { b.end },
    }
}

} // verus!
