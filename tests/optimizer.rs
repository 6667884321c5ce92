use bfc::bfir::{AstNode, Position};
use bfc::execution::{execute, Outcome};
use bfc::optimizer::{nodes_equal, optimize};
use bfc::peephole::{combine_increments, fold_offsets, remove_dead_loops, zeroing_loops};
use bfc::selection::select;

fn pos(i: usize) -> Position {
    Position { start: i, end: i }
}

fn inc(amount: u8, i: usize) -> AstNode {
    AstNode::Increment { amount, offset: 0, position: pos(i) }
}

fn inc_at(amount: u8, offset: i64, i: usize) -> AstNode {
    AstNode::Increment { amount, offset, position: pos(i) }
}

fn mv(amount: i64, i: usize) -> AstNode {
    AstNode::PointerIncrement { amount, position: pos(i) }
}

fn lp(body: Vec<AstNode>, i: usize) -> AstNode {
    AstNode::Loop { body, position: pos(i) }
}

fn set0(i: usize) -> AstNode {
    AstNode::SetValue { amount: 0, offset: 0, position: pos(i) }
}

fn is_set_zero(n: &AstNode) -> bool {
    matches!(n, AstNode::SetValue { amount: 0, offset: 0, .. })
}

#[test]
fn combine_wraps_signed_amounts() {
    let r = combine_increments(&vec![inc(200, 0), inc(100, 1)]);
    assert_eq!(r.len(), 1);
    assert!(matches!(r[0], AstNode::Increment { amount: 44, offset: 0, .. }));
}

#[test]
fn combine_drops_zero_sum() {
    let r = combine_increments(&vec![inc(1, 0), inc(255, 1), mv(3, 2), mv(-3, 3)]);
    assert_eq!(r.len(), 0);
}

#[test]
fn combine_keeps_distinct_offsets() {
    let r = combine_increments(&vec![inc_at(1, 0, 0), inc_at(1, 1, 1), inc_at(1, 1, 2)]);
    assert_eq!(r.len(), 2);
    assert!(matches!(r[1], AstNode::Increment { amount: 2, offset: 1, .. }));
    assert!(matches!(r[1], AstNode::Increment { position: Position { start: 1, end: 2 }, .. }));
}

#[test]
fn combine_reaches_loop_bodies() {
    let r = combine_increments(&vec![lp(vec![mv(1, 1), mv(1, 2)], 0)]);
    match &r[0] {
        AstNode::Loop { body, .. } => {
            assert_eq!(body.len(), 1);
            assert!(matches!(body[0], AstNode::PointerIncrement { amount: 2, .. }));
        }
        _ => panic!("expected a loop"),
    }
}

#[test]
fn zeroing_loop_becomes_set() {
    let (out, warnings) = optimize(vec![lp(vec![inc(255, 1)], 0)], &None);
    assert_eq!(out.len(), 1);
    assert!(is_set_zero(&out[0]));
    assert!(warnings.is_empty());
}

#[test]
fn zeroing_leaves_other_loops() {
    let r = zeroing_loops(&vec![lp(vec![inc(1, 1)], 0), lp(vec![inc(255, 3), inc(255, 4)], 2)]);
    assert!(matches!(r[0], AstNode::Loop { .. }));
    assert!(matches!(r[1], AstNode::Loop { .. }));
}

#[test]
fn dead_loop_after_zeroing_is_removed() {
    let prog = vec![lp(vec![inc(255, 1)], 0), lp(vec![inc(1, 4), inc(1, 5), inc(1, 6)], 3)];
    let (out, _) = optimize(prog, &None);
    assert_eq!(out.len(), 1);
    assert!(is_set_zero(&out[0]));
}

#[test]
fn dead_loop_after_loop_is_removed() {
    let r = remove_dead_loops(&vec![lp(vec![mv(1, 1)], 0), lp(vec![inc(1, 3)], 2), inc(1, 4)]);
    assert_eq!(r.len(), 2);
    assert!(matches!(r[1], AstNode::Increment { .. }));
}

#[test]
fn first_loop_is_kept() {
    let r = remove_dead_loops(&vec![lp(vec![inc(1, 1)], 0)]);
    assert_eq!(r.len(), 1);
}

#[test]
fn offset_folding_moves_writes_before_pointer_moves() {
    let r = fold_offsets(&vec![mv(2, 0), inc(5, 1), set0(2)]);
    assert_eq!(r.len(), 3);
    assert!(matches!(r[0], AstNode::Increment { amount: 5, offset: 2, .. }));
    assert!(matches!(r[1], AstNode::SetValue { amount: 0, offset: 2, .. }));
    assert!(matches!(r[2], AstNode::PointerIncrement { amount: 2, .. }));
}

#[test]
fn redundant_pointer_motion_disappears() {
    let spec = Some("combine_inc offset_sort".to_string());
    let (out, _) = optimize(vec![mv(1, 0), inc(1, 1), mv(-1, 2)], &spec);
    assert_eq!(out.len(), 1);
    assert!(matches!(out[0], AstNode::Increment { amount: 1, offset: 1, .. }));
}

#[test]
fn restricted_passes_skip_zeroing() {
    let (out, warnings) = optimize(vec![lp(vec![inc(255, 1)], 0)], &Some("combine_inc".to_string()));
    assert_eq!(out.len(), 1);
    assert!(matches!(out[0], AstNode::Loop { .. }));
    assert!(warnings.is_empty());
}

#[test]
fn unknown_pass_names_warn() {
    let spec = Some("combine_inc, nosuch,other".to_string());
    let (out, warnings) = optimize(vec![inc(1, 0), inc(2, 1)], &spec);
    assert_eq!(out.len(), 1);
    assert_eq!(warnings.len(), 2);
    assert_eq!(warnings[0].message, "Unknown pass: nosuch");
    assert_eq!(warnings[1].message, "Unknown pass: other");
    assert!(warnings[0].position.is_none());
}

#[test]
fn select_names_are_order_free() {
    let (a, ua) = select(&Some("dead_loop,zeroing_loop".to_string()));
    let (b, ub) = select(&Some("zeroing_loop dead_loop".to_string()));
    assert_eq!(a, b);
    assert!(a.zeroing_loops && a.dead_loops);
    assert!(!a.combine_increments && !a.offset_folding);
    assert!(ua.is_empty() && ub.is_empty());
}

#[test]
fn empty_selection_selects_all() {
    let (a, _) = select(&Some("".to_string()));
    let (b, _) = select(&None);
    assert_eq!(a, b);
    assert!(a.combine_increments && a.zeroing_loops && a.dead_loops && a.offset_folding);
    assert!(a.constant_propagation);
}

#[test]
fn optimize_is_idempotent() {
    let prog = vec![
        mv(1, 0),
        inc(3, 1),
        mv(-1, 2),
        lp(vec![inc(255, 4)], 3),
        lp(vec![inc(1, 6)], 5),
        inc(200, 7),
        inc(100, 8),
        AstNode::Write { position: pos(9) },
    ];
    let spec = Some("bogus combine_inc,zeroing_loop,dead_loop,offset_sort,const_prop".to_string());
    let (once, w1) = optimize(prog, &spec);
    let copy = combine_increments(&once);
    let (twice, w2) = optimize(once, &spec);
    assert!(nodes_equal(&copy, &twice));
    assert_eq!(w1.len(), w2.len());
    assert_eq!(w1.len(), 1);
    assert_eq!(w1[0].message, w2[0].message);
    assert_eq!(twice.len(), 3);
    assert!(matches!(twice[0], AstNode::SetValue { amount: 3, offset: 1, .. }));
    assert!(matches!(twice[1], AstNode::SetValue { amount: 44, offset: 0, .. }));
}

#[test]
fn selection_of_no_known_pass_changes_nothing() {
    let (out, warnings) = optimize(vec![lp(vec![inc(255, 1)], 0), inc(1, 2), inc(1, 3)], &Some("bogus".to_string()));
    assert_eq!(out.len(), 3);
    assert_eq!(warnings.len(), 1);
}

#[test]
fn read_cuts_off_execution() {
    let prog = vec![inc(1, 0), inc(1, 1), inc(1, 2), AstNode::Read { position: pos(3) }, AstNode::Write { position: pos(4) }];
    let (state, warning) = execute(&prog, 1000);
    assert_eq!(state.start_instr, Some(3));
    assert_eq!(state.cell(0), 3);
    assert_eq!(state.outcome, Outcome::ReadEncountered);
    assert!(warning.is_none());
}

#[test]
fn spinning_loop_exhausts_budget() {
    for n in [1u64, 2, 3, 7, 100, 1000] {
        let prog = vec![inc(1, 0), lp(vec![], 1)];
        let (state, warning) = execute(&prog, n);
        assert_eq!(state.outcome, Outcome::StepBudgetExhausted);
        assert_eq!(state.steps_executed, n);
        assert_eq!(state.start_instr, Some(1));
        let w = warning.expect("a warning");
        assert_eq!(w.position, Some(pos(1)));
    }
}

#[test]
fn non_decrementing_body_exhausts_budget() {
    let prog = vec![inc(1, 0), lp(vec![mv(1, 2), inc(1, 3), mv(-1, 4)], 1)];
    let (state, _) = execute(&prog, 50);
    assert_eq!(state.outcome, Outcome::StepBudgetExhausted);
    assert_eq!(state.steps_executed, 50);
}

#[test]
fn completed_execution_keeps_tape() {
    let prog = vec![inc(5, 0), mv(-3, 1), inc_at(2, 1, 2), lp(vec![inc(255, 4)], 3)];
    let (state, warning) = execute(&prog, 1000);
    assert_eq!(state.outcome, Outcome::Completed);
    assert_eq!(state.start_instr, None);
    assert_eq!(state.ptr, -3);
    assert_eq!(state.cell(0), 5);
    assert_eq!(state.cell(-2), 2);
    assert_eq!(state.cell(-3), 0);
    assert_eq!(state.steps_executed, 4);
    assert!(warning.is_none());
}

#[test]
fn loop_runs_to_zero() {
    let prog = vec![inc(3, 0), lp(vec![inc(255, 2), mv(1, 3), inc(2, 4), mv(-1, 5)], 1)];
    let (state, _) = execute(&prog, 1000);
    assert_eq!(state.outcome, Outcome::Completed);
    assert_eq!(state.cell(0), 0);
    assert_eq!(state.cell(1), 6);
    assert_eq!(state.steps_executed, 1 + 3 * 5 + 1);
}

#[test]
fn wraparound_warns() {
    let prog = vec![inc(255, 7)];
    let (state, warning) = execute(&prog, 10);
    assert_eq!(state.cell(0), 255);
    let w = warning.expect("a warning");
    assert_eq!(w.position, Some(pos(7)));
    assert_eq!(w.message, "This instruction makes a cell value wrap around");
}

#[test]
fn pointer_overflow_stops() {
    let prog = vec![mv(i64::MAX, 0), mv(1, 1)];
    let (state, _) = execute(&prog, 10);
    assert_eq!(state.outcome, Outcome::OffsetOutOfRange);
    assert_eq!(state.start_instr, Some(1));
    assert_eq!(state.ptr, i64::MAX);
}

#[test]
fn constant_propagation_folds_pure_prefix() {
    let prog = vec![inc(2, 0), mv(3, 1), inc(4, 2), AstNode::Write { position: pos(3) }, inc(1, 4)];
    let (out, _) = optimize(prog, &Some("const_prop".to_string()));
    assert_eq!(out.len(), 5);
    assert!(matches!(out[0], AstNode::SetValue { amount: 2, offset: 0, position: Position { start: 0, end: 2 } }));
    assert!(matches!(out[1], AstNode::SetValue { amount: 4, offset: 3, .. }));
    assert!(matches!(out[2], AstNode::PointerIncrement { amount: 3, .. }));
    assert!(matches!(out[3], AstNode::Write { .. }));
    assert!(matches!(out[4], AstNode::Increment { amount: 1, .. }));
}

#[test]
fn constant_propagation_keeps_endless_prefix() {
    let prog = vec![inc(1, 0), lp(vec![], 1), AstNode::Write { position: pos(2) }];
    let (out, _) = optimize(prog, &Some("const_prop".to_string()));
    assert_eq!(out.len(), 3);
    assert!(matches!(out[1], AstNode::Loop { .. }));
}

#[test]
fn constant_propagation_folds_whole_pure_program() {
    let (out, _) = optimize(vec![inc(3, 0), lp(vec![inc(255, 2)], 1), inc(7, 3)], &None);
    assert_eq!(out.len(), 1);
    assert!(matches!(out[0], AstNode::SetValue { amount: 7, offset: 0, .. }));
}
