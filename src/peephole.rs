use vstd::prelude::*;

use crate::bfir::{AstNode, Instr, Position, copy_node, view_node, view_nodes, lemma_view_nodes_map};
use crate::execution::{Machine, cell_value, in_i64, run_instr, run_loop, run_seq};

verus! {

broadcast use lemma_view_nodes_map;

/// The smallest range that covers both `a` and `b`.
pub open spec fn span(a: Position, b: Position) -> Position {
    Position {
        start: if a.start <= b.start { a.start } else { b.start },
        end: if a.end >= b.end { a.end } else { b.end },
    }
}

fn combine_positions(a: Position, b: Position) -> (r: Position)
    ensures
        r == span(a, b),
{
    Position {
        start: if a.start <= b.start { a.start } else { b.start },
        end: if a.end >= b.end { a.end } else { b.end },
    }
}

/// Appends `x` to `acc`, merging it into the last node where both are
/// increments of one cell, or both are pointer moves; a node whose amount
/// is zero disappears.
pub open spec fn merge_into(acc: Seq<Instr>, x: Instr) -> Seq<Instr> {
    match x {
        Instr::Increment { amount: b, offset: o2, position: pb } => {
            if b == 0 {
                acc
            } else if acc.len() > 0 && acc.last() is Increment && acc.last()->Increment_offset == o2 {
                let a = acc.last()->Increment_amount;
                let sum = ((a + b) % 256) as u8;
                if sum == 0 {
                    acc.drop_last()
                } else {
                    acc.drop_last().push(
                        Instr::Increment { amount: sum, offset: o2, position: span(acc.last()->Increment_position, pb) },
                    )
                }
            } else {
                acc.push(x)
            }
        },
        Instr::PointerIncrement { amount: b, position: pb } => {
            if b == 0 {
                acc
            } else if acc.len() > 0 && acc.last() is PointerIncrement
                && in_i64(acc.last()->PointerIncrement_amount + b) {
                let sum = acc.last()->PointerIncrement_amount + b;
                if sum == 0 {
                    acc.drop_last()
                } else {
                    acc.drop_last().push(
                        Instr::PointerIncrement { amount: sum as i64, position: span(acc.last()->PointerIncrement_position, pb) },
                    )
                }
            } else {
                acc.push(x)
            }
        },
        _ => acc.push(x),
    }
}

/// Collapses runs of increments of one cell and runs of pointer moves,
/// in every loop body too.
pub open spec fn combine_seq(s: Seq<Instr>) -> Seq<Instr>
    decreases s, 0nat,
{
    if s.len() == 0 {
        s
    } else {
        merge_into(combine_seq(s.drop_last()), combine_instr(s.last()))
    }
}

pub open spec fn combine_instr(n: Instr) -> Instr
    decreases n, 1nat,
{
    match n {
        Instr::Loop { body, position } => Instr::Loop { body: combine_seq(body), position },
        _ => n,
    }
}

fn merge_node(acc: &mut Vec<AstNode>, x: AstNode)
    ensures
        view_nodes(*final(acc)) == merge_into(view_nodes(*old(acc)), view_node(x)),
{
    let ghost before = view_nodes(*acc);
    let n = acc.len();
    match &x {
        AstNode::Increment { amount: b, offset: o2, position: pb } => {
            if *b == 0 {
                return;
            }
            if n > 0 {
                let (same, a, pa) = match &acc[n - 1] {
                    AstNode::Increment { amount, offset, position } => (*offset == *o2, *amount, *position),
                    _ => (false, 0u8, *pb),
                };
                if same {
                    acc.pop();
                    assert(view_nodes(*acc) =~= before.drop_last());
                    let sum = a.wrapping_add(*b);
                    if sum != 0 {
                        let m = AstNode::Increment { amount: sum, offset: *o2, position: combine_positions(pa, *pb) };
                        acc.push(m);
                        assert(view_nodes(*acc) =~= before.drop_last().push(view_node(m)));
                    }
                    return;
                }
            }
        },
        AstNode::PointerIncrement { amount: b, position: pb } => {
            if *b == 0 {
                return;
            }
            if n > 0 {
                let (found, a, pa) = match &acc[n - 1] {
                    AstNode::PointerIncrement { amount, position } => (true, *amount, *position),
                    _ => (false, 0i64, *pb),
                };
                if found {
                    match a.checked_add(*b) {
                        Some(sum) => {
                            acc.pop();
                            assert(view_nodes(*acc) =~= before.drop_last());
                            if sum != 0 {
                                let m = AstNode::PointerIncrement { amount: sum, position: combine_positions(pa, *pb) };
                                acc.push(m);
                                assert(view_nodes(*acc) =~= before.drop_last().push(view_node(m)));
                            }
                            return;
                        },
                        None => {},
                    }
                }
            }
        },
        _ => {},
    }
    acc.push(x);
    assert(view_nodes(*acc) =~= before.push(view_node(x)));
}

/// Collapses runs of increments of one cell and runs of pointer moves.
pub fn combine_increments(s: &Vec<AstNode>) -> (r: Vec<AstNode>)
    ensures
        view_nodes(r) == combine_seq(view_nodes(*s)),
    decreases s, 0nat,
{
    let ghost sv = view_nodes(*s);
    let mut r: Vec<AstNode> = Vec::new();
    let mut i: usize = 0;
    assert(sv.take(0) =~= Seq::<Instr>::empty());
    assert(view_nodes(r) =~= Seq::<Instr>::empty());
    while i < s.len()
        invariant
            0 <= i <= s@.len(),
            sv == view_nodes(*s),
            view_nodes(r) == combine_seq(sv.take(i as int)),
        decreases s@.len() - i,
    {
        let x = combine_node(&s[i]);
        merge_node(&mut r, x);
        assert(sv.take(i + 1).drop_last() =~= sv.take(i as int));
        i = i + 1;
    }
    assert(sv.take(i as int) =~= sv);
    r
}

fn combine_node(n: &AstNode) -> (r: AstNode)
    ensures
        view_node(r) == combine_instr(view_node(*n)),
    decreases n, 1nat,
{
    match n {
        AstNode::Loop { body, position } => AstNode::Loop { body: combine_increments(body), position: *position },
        AstNode::Increment { amount, offset, position } => AstNode::Increment { amount: *amount, offset: *offset, position: *position },
        AstNode::PointerIncrement { amount, position } => AstNode::PointerIncrement { amount: *amount, position: *position },
        AstNode::Read { position } => AstNode::Read { position: *position },
        AstNode::Write { position } => AstNode::Write { position: *position },
        AstNode::SetValue { amount, offset, position } => AstNode::SetValue { amount: *amount, offset: *offset, position: *position },
    }
}

/// Rewrites each loop whose body is a single decrement of the current cell
/// to setting that cell to zero, in every loop body too.
pub open spec fn zero_seq(s: Seq<Instr>) -> Seq<Instr>
    decreases s, 0nat,
{
    if s.len() == 0 {
        s
    } else {
        zero_seq(s.drop_last()).push(zero_instr(s.last()))
    }
}

/// Whether `b` is exactly one decrement by one of the current cell.
pub open spec fn is_single_decrement(b: Seq<Instr>) -> bool {
    &&& b.len() == 1
    &&& b[0] is Increment
    &&& b[0]->Increment_amount == 255
    &&& b[0]->Increment_offset == 0
}

pub open spec fn zero_instr(n: Instr) -> Instr
    decreases n, 1nat,
{
    match n {
        Instr::Loop { body, position } => {
            let b = zero_seq(body);
            if is_single_decrement(b) {
                Instr::SetValue { amount: 0, offset: 0, position }
            } else {
                Instr::Loop { body: b, position }
            }
        },
        _ => n,
    }
}

/// Whether the current cell is zero right after `n`.
pub open spec fn leaves_zero(n: Instr) -> bool {
    ||| n is Loop
    ||| (n is SetValue && n->SetValue_amount == 0 && n->SetValue_offset == 0)
}

/// Removes each loop that follows a loop or a zeroing of the current cell:
/// it is entered with a zero cell and never runs. Loop bodies too.
pub open spec fn dead_seq(s: Seq<Instr>) -> Seq<Instr>
    decreases s, 0nat,
{
    if s.len() == 0 {
        s
    } else {
        let acc = dead_seq(s.drop_last());
        if s.last() is Loop && acc.len() > 0 && leaves_zero(acc.last()) {
            acc
        } else {
            acc.push(dead_instr(s.last()))
        }
    }
}

pub open spec fn dead_instr(n: Instr) -> Instr
    decreases n, 1nat,
{
    match n {
        Instr::Loop { body, position } => Instr::Loop { body: dead_seq(body), position },
        _ => n,
    }
}

/// Appends `x` to `acc`; where `acc` ends with a pointer move and `x` writes
/// a cell, `x` moves before the pointer move, its offset shifted to match.
pub open spec fn fold_push(acc: Seq<Instr>, x: Instr) -> Seq<Instr> {
    if acc.len() > 0 && acc.last() is PointerIncrement {
        let a = acc.last()->PointerIncrement_amount;
        match x {
            Instr::Increment { amount, offset, position } => {
                if in_i64(offset + a) {
                    acc.drop_last().push(
                        Instr::Increment { amount, offset: (offset + a) as i64, position },
                    ).push(acc.last())
                } else {
                    acc.push(x)
                }
            },
            Instr::SetValue { amount, offset, position } => {
                if in_i64(offset + a) {
                    acc.drop_last().push(
                        Instr::SetValue { amount, offset: (offset + a) as i64, position },
                    ).push(acc.last())
                } else {
                    acc.push(x)
                }
            },
            _ => acc.push(x),
        }
    } else {
        acc.push(x)
    }
}

/// Moves pointer moves past the cell writes that follow them, so that
/// pointer motion gathers where it can be combined. Loop bodies too.
pub open spec fn fold_seq(s: Seq<Instr>) -> Seq<Instr>
    decreases s, 0nat,
{
    if s.len() == 0 {
        s
    } else {
        fold_push(fold_seq(s.drop_last()), fold_instr(s.last()))
    }
}

pub open spec fn fold_instr(n: Instr) -> Instr
    decreases n, 1nat,
{
    match n {
        Instr::Loop { body, position } => Instr::Loop { body: fold_seq(body), position },
        _ => n,
    }
}

/// Rewrites each loop over a single decrement of the current cell to a
/// zeroing of that cell.
pub fn zeroing_loops(s: &Vec<AstNode>) -> (r: Vec<AstNode>)
    ensures
        view_nodes(r) == zero_seq(view_nodes(*s)),
    decreases s, 0nat,
{
    let ghost sv = view_nodes(*s);
    let mut r: Vec<AstNode> = Vec::new();
    let mut i: usize = 0;
    assert(sv.take(0) =~= Seq::<Instr>::empty());
    assert(view_nodes(r) =~= Seq::<Instr>::empty());
    while i < s.len()
        invariant
            0 <= i <= s@.len(),
            sv == view_nodes(*s),
            view_nodes(r) == zero_seq(sv.take(i as int)),
        decreases s@.len() - i,
    {
        let ghost before = view_nodes(r);
        let x = zeroing_node(&s[i]);
        r.push(x);
        assert(view_nodes(r) =~= before.push(view_node(x)));
        assert(sv.take(i + 1).drop_last() =~= sv.take(i as int));
        i = i + 1;
    }
    assert(sv.take(i as int) =~= sv);
    r
}

fn zeroing_node(n: &AstNode) -> (r: AstNode)
    ensures
        view_node(r) == zero_instr(view_node(*n)),
    decreases n, 1nat,
{
    match n {
        AstNode::Loop { body, position } => {
            let b = zeroing_loops(body);
            let single = b.len() == 1 && match &b[0] {
                AstNode::Increment { amount, offset, .. } => *amount == 255 && *offset == 0,
                _ => false,
            };
            if single {
                AstNode::SetValue { amount: 0, offset: 0, position: *position }
            } else {
                AstNode::Loop { body: b, position: *position }
            }
        },
        _ => copy_node(n),
    }
}

fn leaves_cell_zero(n: &AstNode) -> (r: bool)
    ensures
        r == leaves_zero(view_node(*n)),
{
    match n {
        AstNode::Loop { .. } => true,
        AstNode::SetValue { amount, offset, .. } => *amount == 0 && *offset == 0,
        _ => false,
    }
}

/// Removes each loop that follows a loop or a zeroing of the current cell.
pub fn remove_dead_loops(s: &Vec<AstNode>) -> (r: Vec<AstNode>)
    ensures
        view_nodes(r) == dead_seq(view_nodes(*s)),
    decreases s, 0nat,
{
    let ghost sv = view_nodes(*s);
    let mut r: Vec<AstNode> = Vec::new();
    let mut i: usize = 0;
    assert(sv.take(0) =~= Seq::<Instr>::empty());
    assert(view_nodes(r) =~= Seq::<Instr>::empty());
    while i < s.len()
        invariant
            0 <= i <= s@.len(),
            sv == view_nodes(*s),
            view_nodes(r) == dead_seq(sv.take(i as int)),
        decreases s@.len() - i,
    {
        let ghost before = view_nodes(r);
        assert(sv.take(i + 1).drop_last() =~= sv.take(i as int));
        let is_loop = match &s[i] {
            AstNode::Loop { .. } => true,
            _ => false,
        };
        let dead = is_loop && r.len() > 0 && leaves_cell_zero(&r[r.len() - 1]);
        if !dead {
            let x = dead_node(&s[i]);
            r.push(x);
            assert(view_nodes(r) =~= before.push(view_node(x)));
        }
        i = i + 1;
    }
    assert(sv.take(i as int) =~= sv);
    r
}

fn dead_node(n: &AstNode) -> (r: AstNode)
    ensures
        view_node(r) == dead_instr(view_node(*n)),
    decreases n, 1nat,
{
    match n {
        AstNode::Loop { body, position } => AstNode::Loop { body: remove_dead_loops(body), position: *position },
        _ => copy_node(n),
    }
}

fn fold_node_into(acc: &mut Vec<AstNode>, x: AstNode)
    ensures
        view_nodes(*final(acc)) == fold_push(view_nodes(*old(acc)), view_node(x)),
{
    let ghost before = view_nodes(*acc);
    let n = acc.len();
    if n > 0 {
        let (found, a, p) = match &acc[n - 1] {
            AstNode::PointerIncrement { amount, position } => (true, *amount, *position),
            _ => (false, 0i64, Position { start: 0, end: 0 }),
        };
        if found {
            let moved = match &x {
                AstNode::Increment { amount, offset, position } => match offset.checked_add(a) {
                    Some(o) => Some(AstNode::Increment { amount: *amount, offset: o, position: *position }),
                    None => None,
                },
                AstNode::SetValue { amount, offset, position } => match offset.checked_add(a) {
                    Some(o) => Some(AstNode::SetValue { amount: *amount, offset: o, position: *position }),
                    None => None,
                },
                _ => None,
            };
            match moved {
                Some(m) => {
                    let last = acc.pop().unwrap();
                    acc.push(m);
                    acc.push(last);
                    assert(view_nodes(*acc) =~= before.drop_last().push(view_node(m)).push(before.last()));
                    return;
                },
                None => {},
            }
        }
    }
    acc.push(x);
    assert(view_nodes(*acc) =~= before.push(view_node(x)));
}

/// Moves pointer moves past the cell writes that follow them.
pub fn fold_offsets(s: &Vec<AstNode>) -> (r: Vec<AstNode>)
    ensures
        view_nodes(r) == fold_seq(view_nodes(*s)),
    decreases s, 0nat,
{
    let ghost sv = view_nodes(*s);
    let mut r: Vec<AstNode> = Vec::new();
    let mut i: usize = 0;
    assert(sv.take(0) =~= Seq::<Instr>::empty());
    assert(view_nodes(r) =~= Seq::<Instr>::empty());
    while i < s.len()
        invariant
            0 <= i <= s@.len(),
            sv == view_nodes(*s),
            view_nodes(r) == fold_seq(sv.take(i as int)),
        decreases s@.len() - i,
    {
        let x = fold_node(&s[i]);
        fold_node_into(&mut r, x);
        assert(sv.take(i + 1).drop_last() =~= sv.take(i as int));
        i = i + 1;
    }
    assert(sv.take(i as int) =~= sv);
    r
}

fn fold_node(n: &AstNode) -> (r: AstNode)
    ensures
        view_node(r) == fold_instr(view_node(*n)),
    decreases n, 1nat,
{
    match n {
        AstNode::Loop { body, position } => AstNode::Loop { body: fold_offsets(body), position: *position },
        _ => copy_node(n),
    }
}

} // verus!

verus! {

/// The sum of the amounts of the increments in `s`.
pub open spec fn amount_sum(s: Seq<Instr>) -> int
    decreases s.len(),
{
    if s.len() == 0 {
        0
    } else {
        amount_sum(s.drop_last()) + s.last()->Increment_amount
    }
}

/// Whether every node of `s` is an increment of the cell at `offset`.
pub open spec fn increments_of(s: Seq<Instr>, offset: i64) -> bool {
    forall|i: int| 0 <= i < s.len() ==> (#[trigger] s[i] is Increment) && s[i]->Increment_offset == offset
}

/// A run of increments of one cell whose amounts sum to `k` combines to a
/// single increment by `k` modulo 256, or to nothing where that is zero.
pub proof fn lemma_combine_wraps(s: Seq<Instr>, offset: i64)
    requires
        increments_of(s, offset),
    ensures
        amount_sum(s) % 256 == 0 ==> combine_seq(s).len() == 0,
        amount_sum(s) % 256 != 0 ==> {
            &&& combine_seq(s).len() == 1
            &&& combine_seq(s)[0] is Increment
            &&& combine_seq(s)[0]->Increment_amount == amount_sum(s) % 256
            &&& combine_seq(s)[0]->Increment_offset == offset
        },
    decreases s.len(),
{
    if s.len() > 0 {
        let rest = s.drop_last();
        assert(increments_of(rest, offset)) by {
            assert forall|i: int| 0 <= i < rest.len() implies (#[trigger] rest[i] is Increment)
                && rest[i]->Increment_offset == offset by {
                assert(rest[i] == s[i]);
            }
        }
        lemma_combine_wraps(rest, offset);
        assert(s[s.len() - 1] is Increment);
        let a = amount_sum(rest);
        let b = s.last()->Increment_amount;
        assert((a + b) % 256 == ((a % 256) + b) % 256) by (nonlinear_arith);
        assert(combine_instr(s.last()) == s.last());
        assert(combine_seq(s) == merge_into(combine_seq(rest), s.last()));
        assert(amount_sum(s) == a + b);
        let acc = combine_seq(rest);
        if b == 0 {
            assert(combine_seq(s) == acc);
        } else if acc.len() > 0 {
            assert(acc.last() == acc[0]);
            assert(acc.drop_last().len() == 0);
        }
    }
}

} // verus!

verus! {

/// Two machines that agree on every cell, on the pointer and on whether
/// they halted; their step counts may differ.
pub open spec fn same_effect(a: Machine, b: Machine) -> bool {
    &&& a.halt == b.halt
    &&& a.ptr == b.ptr
    &&& forall|k: i64| #[trigger] cell_value(a.cells, k) == cell_value(b.cells, k)
}

/// Two increments of one cell do what one increment by their sum does.
pub proof fn lemma_combine_increments_effect(m: Machine, a: u8, b: u8, o: i64, pa: Position, pb: Position, pc: Position, max: u64, fuel: nat)
    requires
        m.halt is None,
        m.steps + 2 <= max,
        in_i64(m.ptr + o),
    ensures
        same_effect(
            run_seq(seq![Instr::Increment { amount: a, offset: o, position: pa }, Instr::Increment { amount: b, offset: o, position: pb }], 0, m, max, fuel),
            run_instr(Instr::Increment { amount: ((a + b) % 256) as u8, offset: o, position: pc }, m, max, fuel),
        ),
{
    let s = seq![Instr::Increment { amount: a, offset: o, position: pa }, Instr::Increment { amount: b, offset: o, position: pb }];
    let k = (m.ptr + o) as i64;
    let v = cell_value(m.cells, k);
    let m1 = run_instr(s[0], m, max, fuel);
    let m2 = run_instr(s[1], m1, max, fuel);
    let one = run_instr(Instr::Increment { amount: ((a + b) % 256) as u8, offset: o, position: pc }, m, max, fuel);
    assert(run_seq(s, 2, m2, max, fuel) == m2);
    assert(run_seq(s, 1, m1, max, fuel) == m2);
    assert(run_seq(s, 0, m, max, fuel) == m2);
    assert(cell_value(m1.cells, k) == (v + a) % 256);
    assert(((v + a) % 256 + b) % 256 == (v + ((a + b) % 256)) % 256) by (nonlinear_arith);
    assert(m2.cells =~= one.cells);
}

/// Two pointer moves do what one move by their sum does.
pub proof fn lemma_combine_moves_effect(m: Machine, a: i64, b: i64, pa: Position, pb: Position, pc: Position, max: u64, fuel: nat)
    requires
        m.halt is None,
        m.steps + 2 <= max,
        in_i64(m.ptr + a),
        in_i64(m.ptr + a + b),
        in_i64(a + b),
    ensures
        same_effect(
            run_seq(seq![Instr::PointerIncrement { amount: a, position: pa }, Instr::PointerIncrement { amount: b, position: pb }], 0, m, max, fuel),
            run_instr(Instr::PointerIncrement { amount: (a + b) as i64, position: pc }, m, max, fuel),
        ),
{
    let s = seq![Instr::PointerIncrement { amount: a, position: pa }, Instr::PointerIncrement { amount: b, position: pb }];
    let m1 = run_instr(s[0], m, max, fuel);
    let m2 = run_instr(s[1], m1, max, fuel);
    assert(run_seq(s, 2, m2, max, fuel) == m2);
    assert(run_seq(s, 1, m1, max, fuel) == m2);
    assert(run_seq(s, 0, m, max, fuel) == m2);
}

/// Moving an increment before a pointer move, its offset shifted by the
/// move, changes nothing.
pub proof fn lemma_fold_offset_effect(m: Machine, a: i64, x: u8, o: i64, pa: Position, pb: Position, max: u64, fuel: nat)
    requires
        m.halt is None,
        m.steps + 2 <= max,
        in_i64(m.ptr + a),
        in_i64(o + a),
        in_i64(m.ptr + a + o),
    ensures
        same_effect(
            run_seq(seq![Instr::PointerIncrement { amount: a, position: pa }, Instr::Increment { amount: x, offset: o, position: pb }], 0, m, max, fuel),
            run_seq(seq![Instr::Increment { amount: x, offset: (o + a) as i64, position: pb }, Instr::PointerIncrement { amount: a, position: pa }], 0, m, max, fuel),
        ),
{
    let s = seq![Instr::PointerIncrement { amount: a, position: pa }, Instr::Increment { amount: x, offset: o, position: pb }];
    let t = seq![Instr::Increment { amount: x, offset: (o + a) as i64, position: pb }, Instr::PointerIncrement { amount: a, position: pa }];
    let s1 = run_instr(s[0], m, max, fuel);
    let s2 = run_instr(s[1], s1, max, fuel);
    let t1 = run_instr(t[0], m, max, fuel);
    let t2 = run_instr(t[1], t1, max, fuel);
    assert(run_seq(s, 2, s2, max, fuel) == s2);
    assert(run_seq(s, 1, s1, max, fuel) == s2);
    assert(run_seq(s, 0, m, max, fuel) == s2);
    assert(run_seq(t, 2, t2, max, fuel) == t2);
    assert(run_seq(t, 1, t1, max, fuel) == t2);
    assert(run_seq(t, 0, m, max, fuel) == t2);
    assert(s2.cells =~= t2.cells);
}

/// A loop entered with a zero cell does nothing but test it.
pub proof fn lemma_dead_loop_effect(m: Machine, body: Seq<Instr>, p: Position, max: u64, fuel: nat)
    requires
        m.halt is None,
        m.steps < max,
        fuel > 0,
        cell_value(m.cells, m.ptr) == 0,
    ensures
        same_effect(run_instr(Instr::Loop { body, position: p }, m, max, fuel), m),
{
}

/// A loop over a single decrement of the current cell, given the steps to
/// run out, leaves that cell zero and every other cell and the pointer as
/// they were, as setting the cell to zero does.
pub proof fn lemma_zeroing_loop_effect(m: Machine, pa: Position, pb: Position, max: u64, fuel: nat)
    requires
        m.halt is None,
        m.steps + 2 * cell_value(m.cells, m.ptr) + 1 <= max,
        fuel > cell_value(m.cells, m.ptr),
    ensures
        same_effect(
            run_loop(seq![Instr::Increment { amount: 255, offset: 0, position: pa }], m, max, fuel),
            run_instr(Instr::SetValue { amount: 0, offset: 0, position: pb }, m, max, fuel),
        ),
    decreases cell_value(m.cells, m.ptr),
{
    let body = seq![Instr::Increment { amount: 255, offset: 0, position: pa }];
    let v = cell_value(m.cells, m.ptr);
    let set_m = run_instr(Instr::SetValue { amount: 0, offset: 0, position: pb }, m, max, fuel);
    if v == 0 {
        assert forall|k: i64| #[trigger] cell_value(set_m.cells, k) == cell_value(m.cells, k) by {}
    } else {
        let m1 = Machine { steps: (m.steps + 1) as u64, ..m };
        let m2 = run_instr(body[0], m1, max, (fuel - 1) as nat);
        assert(run_seq(body, 1, m2, max, (fuel - 1) as nat) == m2);
        assert(run_seq(body, 0, m1, max, (fuel - 1) as nat) == m2);
        assert(m2.halt is None);
        assert(run_loop(body, m, max, fuel) == run_loop(body, m2, max, (fuel - 1) as nat));
        assert(cell_value(m2.cells, m.ptr) == v - 1);
        lemma_zeroing_loop_effect(m2, pa, pb, max, (fuel - 1) as nat);
        let set_m2 = run_instr(Instr::SetValue { amount: 0, offset: 0, position: pb }, m2, max, (fuel - 1) as nat);
        assert forall|k: i64| #[trigger] cell_value(set_m.cells, k) == cell_value(set_m2.cells, k) by {
            if k != m.ptr {
                assert(cell_value(m2.cells, k) == cell_value(m.cells, k));
            }
        }
    }
}

} // verus!
