use vstd::prelude::*;

use crate::bfir::{AstNode, Instr, Position, view_node, view_nodes, lemma_view_nodes_map};

verus! {

broadcast use lemma_view_nodes_map;

/// A malformed program: a loop bracket without its partner.
#[derive(Clone, Copy, Debug, PartialEq, Eq, Structural)]
pub enum ParseError {
    /// A `]` that closes no loop, at this byte.
    UnmatchedClose { position: Position },
    /// A `[` that is never closed, at this byte.
    UnclosedOpen { position: Position },
}

pub open spec fn at(i: int) -> Position {
    Position { start: i as usize, end: i as usize }
}

/// The instruction that a byte other than a bracket stands for, if any.
pub open spec fn command(c: u8, i: int) -> Option<Instr> {
    if c == 43 {
        Some(Instr::Increment { amount: 1, offset: 0, position: at(i) })
    } else if c == 45 {
        Some(Instr::Increment { amount: 255, offset: 0, position: at(i) })
    } else if c == 62 {
        Some(Instr::PointerIncrement { amount: 1, position: at(i) })
    } else if c == 60 {
        Some(Instr::PointerIncrement { amount: -1i64, position: at(i) })
    } else if c == 44 {
        Some(Instr::Read { position: at(i) })
    } else if c == 46 {
        Some(Instr::Write { position: at(i) })
    } else {
        None
    }
}

/// Parses the instructions of `s` from byte `i` up to the first unmatched
/// `]` or the end: the instructions, where parsing stopped, and the first
/// `[` that is never closed, if any. Bytes that are no command are comments.
pub open spec fn parse_seq(s: Seq<u8>, i: int) -> (Seq<Instr>, int, Option<int>)
    decreases s.len() - i, 0nat,
{
    if i < 0 || i >= s.len() {
        (Seq::empty(), s.len() as int, None)
    } else if s[i] == 93 {
        (Seq::empty(), i, None)
    } else if s[i] == 91 {
        let (body, j, err) = parse_seq(s, i + 1);
        if err is Some {
            (Seq::empty(), j, err)
        } else if j >= s.len() || j <= i {
            (Seq::empty(), s.len() as int, Some(i))
        } else {
            let (rest, k, err2) = parse_seq(s, j + 1);
            (seq![Instr::Loop { body, position: Position { start: i as usize, end: j as usize } }] + rest, k, err2)
        }
    } else {
        let (rest, k, err) = parse_seq(s, i + 1);
        match command(s[i], i) {
            Some(n) => (seq![n] + rest, k, err),
            None => (rest, k, err),
        }
    }
}

/// The program that `s` holds, or why it is malformed.
pub open spec fn parse_spec(s: Seq<u8>) -> Result<Seq<Instr>, ParseError> {
    let (nodes, j, err) = parse_seq(s, 0);
    match err {
        Some(o) => Err(ParseError::UnclosedOpen { position: at(o) }),
        None => if j < s.len() {
            Err(ParseError::UnmatchedClose { position: at(j) })
        } else {
            Ok(nodes)
        },
    }
}

proof fn lemma_parse_progress(s: Seq<u8>, i: int)
    requires
        0 <= i <= s.len(),
    ensures
        i <= parse_seq(s, i).1 <= s.len(),
        parse_seq(s, i).2 is None && parse_seq(s, i).1 < s.len() ==> s[parse_seq(s, i).1] == 93,
    decreases s.len() - i,
{
    if i < s.len() {
        if s[i] == 91 {
            lemma_parse_progress(s, i + 1);
            let j = parse_seq(s, i + 1).1;
            if parse_seq(s, i + 1).2 is None && j < s.len() && j > i {
                lemma_parse_progress(s, j + 1);
            }
        } else if s[i] != 93 {
            lemma_parse_progress(s, i + 1);
        }
    }
}

/// Parses from byte `i` as `parse_seq` does.
fn parse_from(s: &Vec<u8>, i: usize) -> (r: (Vec<AstNode>, usize, Option<usize>))
    requires
        i <= s@.len(),
    ensures
        (view_nodes(r.0), r.1 as int, match r.2 {
            Some(o) => Some(o as int),
            None => None,
        }) == parse_seq(s@, i as int),
    decreases s@.len() - i,
{
    let ghost goal = parse_seq(s@, i as int);
    let mut acc: Vec<AstNode> = Vec::new();
    let mut k: usize = i;
    proof {
        assert(view_nodes(acc) =~= Seq::<Instr>::empty());
        assert(goal.0 =~= view_nodes(acc) + parse_seq(s@, k as int).0);
    }
    while k < s.len()
        invariant
            i <= k <= s@.len(),
            goal == parse_seq(s@, i as int),
            goal.0 == view_nodes(acc) + parse_seq(s@, k as int).0,
            goal.1 == parse_seq(s@, k as int).1,
            goal.2 == parse_seq(s@, k as int).2,
        decreases s@.len() - k,
    {
        let c = s[k];
        if c == 93 {
            assert(goal.0 =~= view_nodes(acc));
            return (acc, k, None);
        }
        let ghost before = view_nodes(acc);
        if c == 91 {
            let (body, j, err) = parse_from(s, k + 1);
            proof {
                lemma_parse_progress(s@, k + 1);
            }
            if err.is_some() {
                assert(goal.0 =~= view_nodes(acc));
                return (acc, j, err);
            }
            if j >= s.len() {
                assert(goal.0 =~= view_nodes(acc));
                return (acc, s.len(), Some(k));
            }
            let node = AstNode::Loop { body, position: Position { start: k, end: j } };
            acc.push(node);
            assert(view_nodes(acc) =~= before.push(view_node(node)));
            assert(goal.0 =~= view_nodes(acc) + parse_seq(s@, j + 1).0);
            k = j + 1;
        } else {
            let p = Position { start: k, end: k };
            let node = if c == 43 {
                Some(AstNode::Increment { amount: 1, offset: 0, position: p })
            } else if c == 45 {
                Some(AstNode::Increment { amount: 255, offset: 0, position: p })
            } else if c == 62 {
                Some(AstNode::PointerIncrement { amount: 1, position: p })
            } else if c == 60 {
                Some(AstNode::PointerIncrement { amount: -1, position: p })
            } else if c == 44 {
                Some(AstNode::Read { position: p })
            } else if c == 46 {
                Some(AstNode::Write { position: p })
            } else {
                None
            };
            match node {
                Some(n) => {
                    acc.push(n);
                    assert(view_nodes(acc) =~= before.push(view_node(n)));
                    assert(goal.0 =~= view_nodes(acc) + parse_seq(s@, k + 1).0);
                },
                None => {},
            }
            k = k + 1;
        }
    }
    assert(goal.0 =~= view_nodes(acc));
    (acc, k, None)
}

/// Scans `s[i..]` for bracket errors, with the `[`s still open at `open`
/// and the errors found so far in `errs`: each `]` that closes no loop, then
/// each `[` never closed. Both lists are in source order.
pub open spec fn scan_brackets(s: Seq<u8>, i: int, open: Seq<int>, errs: Seq<ParseError>) -> Seq<ParseError>
    decreases s.len() - i,
{
    if i < 0 || i >= s.len() {
        errs + open.map_values(|o: int| ParseError::UnclosedOpen { position: at(o) })
    } else if s[i] == 91 {
        scan_brackets(s, i + 1, open.push(i), errs)
    } else if s[i] == 93 {
        if open.len() == 0 {
            scan_brackets(s, i + 1, open, errs.push(ParseError::UnmatchedClose { position: at(i) }))
        } else {
            scan_brackets(s, i + 1, open.drop_last(), errs)
        }
    } else {
        scan_brackets(s, i + 1, open, errs)
    }
}

/// Every bracket error of `s`, in source order.
pub open spec fn bracket_errors(s: Seq<u8>) -> Seq<ParseError> {
    scan_brackets(s, 0, Seq::empty(), Seq::empty())
}

/// Every bracket error of `source`, in source order.
pub fn find_bracket_errors(source: &Vec<u8>) -> (r: Vec<ParseError>)
    ensures
        r@ == bracket_errors(source@),
{
    let mut open: Vec<usize> = Vec::new();
    let mut errs: Vec<ParseError> = Vec::new();
    let mut i: usize = 0;
    assert(open@.map_values(|x: usize| x as int) =~= Seq::<int>::empty());
    while i < source.len()
        invariant
            0 <= i <= source@.len(),
            bracket_errors(source@) == scan_brackets(source@, i as int, open@.map_values(|x: usize| x as int), errs@),
        decreases source@.len() - i,
    {
        let ghost ov = open@.map_values(|x: usize| x as int);
        let c = source[i];
        if c == 91 {
            open.push(i);
            assert(open@.map_values(|x: usize| x as int) =~= ov.push(i as int));
        } else if c == 93 {
            if open.len() == 0 {
                errs.push(ParseError::UnmatchedClose { position: Position { start: i, end: i } });
            } else {
                open.pop();
                assert(open@.map_values(|x: usize| x as int) =~= ov.drop_last());
            }
        }
        i = i + 1;
    }
    let ghost before = errs@;
    let ghost ov = open@.map_values(|x: usize| x as int);
    let mut k: usize = 0;
    while k < open.len()
        invariant
            0 <= k <= open@.len(),
            ov == open@.map_values(|x: usize| x as int),
            errs@ == before + ov.map_values(|o: int| ParseError::UnclosedOpen { position: at(o) }).take(k as int),
        decreases open@.len() - k,
    {
        let o = open[k];
        errs.push(ParseError::UnclosedOpen { position: Position { start: o, end: o } });
        assert(errs@ =~= before + ov.map_values(|o: int| ParseError::UnclosedOpen { position: at(o) }).take(k + 1));
        k = k + 1;
    }
    assert(ov.map_values(|o: int| ParseError::UnclosedOpen { position: at(o) }).take(k as int)
        =~= ov.map_values(|o: int| ParseError::UnclosedOpen { position: at(o) }));
    errs
}

proof fn lemma_scan_keeps_errors(s: Seq<u8>, i: int, open: Seq<int>, errs: Seq<ParseError>)
    requires
        0 <= i <= s.len(),
    ensures
        scan_brackets(s, i, open, errs).len() >= errs.len(),
    decreases s.len() - i,
{
    if i < s.len() {
        if s[i] == 91 {
            lemma_scan_keeps_errors(s, i + 1, open.push(i), errs);
        } else if s[i] == 93 {
            if open.len() == 0 {
                lemma_scan_keeps_errors(s, i + 1, open, errs.push(ParseError::UnmatchedClose { position: at(i) }));
            } else {
                lemma_scan_keeps_errors(s, i + 1, open.drop_last(), errs);
            }
        } else {
            lemma_scan_keeps_errors(s, i + 1, open, errs);
        }
    }
}

/// What parsing accepts from `i` leaves the scan's open brackets as they
/// were; where parsing finds an unclosed `[`, the scan reports an error.
proof fn lemma_scan_follows_parse(s: Seq<u8>, i: int, open: Seq<int>, errs: Seq<ParseError>)
    requires
        0 <= i <= s.len(),
    ensures
        parse_seq(s, i).2 is None ==> scan_brackets(s, i, open, errs) == scan_brackets(s, parse_seq(s, i).1, open, errs),
        parse_seq(s, i).2 is Some ==> scan_brackets(s, i, open, errs).len() > errs.len(),
    decreases s.len() - i,
{
    lemma_parse_progress(s, i);
    if i < s.len() && s[i] != 93 {
        if s[i] == 91 {
            let (body, j, err) = parse_seq(s, i + 1);
            lemma_parse_progress(s, i + 1);
            lemma_scan_follows_parse(s, i + 1, open.push(i), errs);
            if err is Some {
            } else if j >= s.len() {
                assert(scan_brackets(s, j, open.push(i), errs).len() == errs.len() + open.len() + 1);
            } else {
                assert(open.push(i).drop_last() =~= open);
                assert(scan_brackets(s, j, open.push(i), errs) == scan_brackets(s, j + 1, open, errs));
                lemma_scan_follows_parse(s, j + 1, open, errs);
            }
        } else {
            lemma_scan_follows_parse(s, i + 1, open, errs);
        }
    }
}

/// A malformed program has at least one bracket error.
proof fn lemma_errors_found(s: Seq<u8>)
    requires
        parse_spec(s) is Err,
    ensures
        bracket_errors(s).len() > 0,
{
    lemma_scan_follows_parse(s, 0, Seq::empty(), Seq::empty());
    lemma_parse_progress(s, 0);
    let j = parse_seq(s, 0).1;
    if parse_seq(s, 0).2 is None {
        let e = seq![ParseError::UnmatchedClose { position: at(j) }];
        assert(Seq::<ParseError>::empty().push(ParseError::UnmatchedClose { position: at(j) }) == e);
        lemma_scan_keeps_errors(s, j + 1, Seq::empty(), e);
    }
}

/// Parses source bytes into instructions; every `[` must be matched by a
/// later `]`. A malformed program gives every bracket error, in source
/// order.
pub fn parse(source: &Vec<u8>) -> (r: Result<Vec<AstNode>, Vec<ParseError>>)
    ensures
        r is Ok <==> parse_spec(source@) is Ok,
        r is Ok ==> view_nodes(r->Ok_0) == parse_spec(source@)->Ok_0,
        r is Err ==> r->Err_0@ == bracket_errors(source@) && r->Err_0@.len() > 0,
{
    let (nodes, j, err) = parse_from(source, 0);
    if err.is_some() || j < source.len() {
        proof {
            lemma_errors_found(source@);
        }
        Err(find_bracket_errors(source))
    } else {
        Ok(nodes)
    }
}

} // verus!
