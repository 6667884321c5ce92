use vstd::prelude::*;

verus! {

/// A source line, with the line and column of a byte on it.
pub struct ErrorContext {
    pub line_col: (u64, u64),
    pub line: String,
    pub file: String,
}

/// Where a byte of the source lies: its zero-based line and column, and the
/// byte range of its line, the line's newline included.
#[derive(Clone, Copy, Debug, PartialEq, Eq, Structural)]
pub struct LineSpan {
    pub line: u64,
    pub column: u64,
    pub start: usize,
    pub end: usize,
}

/// The number of newlines in `s[..i]`.
pub open spec fn newlines_before(s: Seq<u8>, i: int) -> nat
    decreases i,
{
    if i <= 0 {
        0
    } else {
        newlines_before(s, i - 1) + if s[i - 1] == 10 { 1nat } else { 0nat }
    }
}

/// Where the line that holds byte `i` begins.
pub open spec fn line_start(s: Seq<u8>, i: int) -> int
    decreases i,
{
    if i <= 0 {
        0
    } else if s[i - 1] == 10 {
        i
    } else {
        line_start(s, i - 1)
    }
}

/// Where the line that holds byte `i` ends, after its newline.
pub open spec fn line_end(s: Seq<u8>, i: int) -> int
    decreases s.len() - i,
{
    if i < 0 || i >= s.len() {
        s.len() as int
    } else if s[i] == 10 {
        i + 1
    } else {
        line_end(s, i + 1)
    }
}

/// Finds the line of byte `idx` of `source`; there is none past the end.
pub fn locate(source: &Vec<u8>, idx: usize) -> (r: Option<LineSpan>)
    ensures
        r is None <==> idx >= source@.len(),
        r is Some ==> ({
            let l = r->0;
            &&& l.line == newlines_before(source@, idx as int)
            &&& l.start == line_start(source@, idx as int)
            &&& l.column == idx - l.start
            &&& l.end == line_end(source@, idx as int)
        }),
{
    if idx >= source.len() {
        return None;
    }
    let mut line: u64 = 0;
    let mut start: usize = 0;
    let mut i: usize = 0;
    while i < idx
        invariant
            idx < source@.len(),
            0 <= i <= idx,
            line == newlines_before(source@, i as int),
            line <= i,
            start == line_start(source@, i as int),
            start <= i,
        decreases idx - i,
    {
        if source[i] == 10 {
            line = line + 1;
            start = i + 1;
        }
        i = i + 1;
    }
    let mut end: usize = idx;
    while end < source.len() && source[end] != 10
        invariant
            idx <= end <= source@.len(),
            line_end(source@, idx as int) == line_end(source@, end as int),
        decreases source@.len() - end,
    {
        end = end + 1;
    }
    if end < source.len() {
        end = end + 1;
    }
    Some(LineSpan { line, column: (idx - start) as u64, start, end })
}

} // verus!
