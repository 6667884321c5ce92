use bfc::bfir::{AstNode, Position};
use bfc::execution::{execute, Outcome};
use bfc::optimizer::optimize;
use bfc::parser::{parse, ParseError};

fn program(text: &str) -> Vec<AstNode> {
    parse(&text.as_bytes().to_vec()).expect("a well-formed program")
}

#[test]
fn parse_commands_and_comments() {
    let p = program("+ -a>\n<,.");
    assert_eq!(p.len(), 6);
    assert!(matches!(p[0], AstNode::Increment { amount: 1, offset: 0, position: Position { start: 0, end: 0 } }));
    assert!(matches!(p[1], AstNode::Increment { amount: 255, offset: 0, .. }));
    assert!(matches!(p[2], AstNode::PointerIncrement { amount: 1, position: Position { start: 4, end: 4 } }));
    assert!(matches!(p[3], AstNode::PointerIncrement { amount: -1, .. }));
    assert!(matches!(p[4], AstNode::Read { .. }));
    assert!(matches!(p[5], AstNode::Write { position: Position { start: 8, end: 8 } }));
}

#[test]
fn parse_nested_loops() {
    let p = program("[+[-]]>");
    assert_eq!(p.len(), 2);
    match &p[0] {
        AstNode::Loop { body, position } => {
            assert_eq!(*position, Position { start: 0, end: 5 });
            assert_eq!(body.len(), 2);
            assert!(matches!(body[1], AstNode::Loop { position: Position { start: 2, end: 4 }, .. }));
        }
        _ => panic!("expected a loop"),
    }
}

#[test]
fn parse_rejects_unmatched_close() {
    let r = parse(&b"+]".to_vec());
    assert_eq!(r.err(), Some(vec![ParseError::UnmatchedClose { position: Position { start: 1, end: 1 } }]));
}

#[test]
fn parse_rejects_unclosed_open() {
    let r = parse(&b"[[]".to_vec());
    assert_eq!(r.err(), Some(vec![ParseError::UnclosedOpen { position: Position { start: 0, end: 0 } }]));
}

#[test]
fn parse_reports_every_bracket_error_in_order() {
    let r = parse(&b"]+\n]][[-]\n[".to_vec());
    let at = |i: usize| Position { start: i, end: i };
    assert_eq!(
        r.err(),
        Some(vec![
            ParseError::UnmatchedClose { position: at(0) },
            ParseError::UnmatchedClose { position: at(3) },
            ParseError::UnmatchedClose { position: at(4) },
            ParseError::UnclosedOpen { position: at(5) },
            ParseError::UnclosedOpen { position: at(10) },
        ])
    );
}

#[test]
fn clear_loop_optimizes_to_set() {
    let (out, warnings) = optimize(program("[-]"), &None);
    assert_eq!(out.len(), 1);
    assert!(matches!(out[0], AstNode::SetValue { amount: 0, offset: 0, .. }));
    assert!(warnings.is_empty());
}

#[test]
fn loop_after_clear_is_dead() {
    let (out, _) = optimize(program("[-][+++]"), &None);
    assert_eq!(out.len(), 1);
    assert!(matches!(out[0], AstNode::SetValue { amount: 0, offset: 0, .. }));
}

#[test]
fn read_stops_folding_at_read() {
    let p = program("+++,.");
    let (state, _) = execute(&p, 10_000_000);
    assert_eq!(state.start_instr, Some(3));
    assert!(matches!(p[3], AstNode::Read { .. }));
    assert_eq!(state.cell(0), 3);
    assert_eq!(state.outcome, Outcome::ReadEncountered);
}

#[test]
fn combine_only_keeps_clear_loop() {
    let (out, _) = optimize(program("[-]"), &Some("combine_inc".to_string()));
    assert_eq!(out.len(), 1);
    assert!(matches!(out[0], AstNode::Loop { .. }));
}

#[test]
fn combined_text_increments_wrap() {
    let text = "+".repeat(300);
    let (out, _) = optimize(program(&text), &Some("combine_inc".to_string()));
    assert_eq!(out.len(), 1);
    assert!(matches!(out[0], AstNode::Increment { amount: 44, .. }));
}
