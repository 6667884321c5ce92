use vstd::prelude::*;
use vstd::string::StringExecFns;

use crate::bfir::Position;

verus! {

/// An advisory message from the optimizer or from abstract execution.
#[derive(Debug)]
pub struct Warning {
    pub message: String,
    pub position: Option<Position>,
}

/// The severity of an `Info`.
#[derive(Clone, Copy, Debug, PartialEq, Eq, Structural)]
pub enum Level {
    Warning,
    Error,
}

/// A message to the user, a warning or an error, with an optional
/// reference to a position in the source.
#[derive(Debug)]
pub struct Info {
    pub level: Level,
    pub filename: Option<String>,
    pub message: String,
    pub position: Option<Position>,
    pub source: Option<String>,
    pub line_col: Option<(u64, u64)>,
}

impl Info {
    pub fn warn(msg: String) -> (r: Self)
        ensures
            r.level == Level::Warning,
            r.message@ == msg@,
            r.filename is None,
            r.position is None,
            r.source is None,
            r.line_col is None,
    {
        Info { level: Level::Warning, filename: None, message: msg, position: None, source: None, line_col: None }
    }

    pub fn error(msg: String) -> (r: Self)
        ensures
            r.level == Level::Error,
            r.message@ == msg@,
            r.filename is None,
            r.position is None,
            r.source is None,
            r.line_col is None,
    {
        Info { level: Level::Error, filename: None, message: msg, position: None, source: None, line_col: None }
    }
}

/// The plain text of each part of a rendered `Info`, before styling.
pub struct InfoParts {
    pub file_text: String,
    pub level_text: String,
    pub message: String,
    pub context_line: String,
    pub caret_line: String,
}

pub open spec fn digit_char(d: nat) -> char {
    if d == 0 { '0' } else if d == 1 { '1' } else if d == 2 { '2' } else if d == 3 { '3' }
    else if d == 4 { '4' } else if d == 5 { '5' } else if d == 6 { '6' } else if d == 7 { '7' }
    else if d == 8 { '8' } else { '9' }
}

/// The decimal digits of `n`.
pub open spec fn decimal(n: nat) -> Seq<char>
    decreases n,
{
    if n < 10 {
        seq![digit_char(n)]
    } else {
        decimal(n / 10).push(digit_char(n % 10))
    }
}

/// `n` copies of `c`.
pub open spec fn repeat(c: char, n: nat) -> Seq<char>
    decreases n,
{
    if n == 0 {
        Seq::empty()
    } else {
        repeat(c, (n - 1) as nat).push(c)
    }
}

pub open spec fn level_text(l: Level) -> Seq<char> {
    match l {
        Level::Warning => " warning: "@,
        Level::Error => " error: "@,
    }
}

/// The width that a caret line underlines for `p`.
pub open spec fn width(p: Position) -> nat {
    (p.end - p.start) as nat
}

/// Whether a message with both a position and a line and column has a
/// well-formed position, its start no later than its end.
pub open spec fn well_placed(info: Info) -> bool {
    match (info.position, info.line_col) {
        (Some(p), Some(_)) => p.start <= p.end,
        _ => true,
    }
}

/// The file name, followed by the one-based line and column where both a
/// position and a line and column are known.
pub open spec fn file_text(info: Info) -> Seq<char> {
    let name = match info.filename {
        Some(f) => f@,
        None => Seq::empty(),
    };
    match (info.position, info.line_col) {
        (Some(_), Some((line, col))) => name + ":"@ + decimal((line + 1) as nat) + ":"@ + decimal((col + 1) as nat),
        _ => name,
    }
}

/// Where a position, a line and column, and the source line are all known:
/// the source line, and a line that puts a caret under the column and a
/// tilde for each further byte of the position.
pub open spec fn context_parts(info: Info) -> (Seq<char>, Seq<char>) {
    match (info.position, info.line_col, info.source) {
        (Some(p), Some((_, col)), Some(src)) => (
            src@,
            "\n"@ + repeat(' ', col as nat) + "^"@ + repeat('~', width(p)),
        ),
        _ => (Seq::empty(), Seq::empty()),
    }
}

fn digit_str(d: u128) -> (r: &'static str)
    requires
        d < 10,
    ensures
        r@ == seq![digit_char(d as nat)],
{
    let r = if d == 0 { "0" } else if d == 1 { "1" } else if d == 2 { "2" } else if d == 3 { "3" }
    else if d == 4 { "4" } else if d == 5 { "5" } else if d == 6 { "6" } else if d == 7 { "7" }
    else if d == 8 { "8" } else { "9" };
    proof {
        reveal_strlit("0");
        reveal_strlit("1");
        reveal_strlit("2");
        reveal_strlit("3");
        reveal_strlit("4");
        reveal_strlit("5");
        reveal_strlit("6");
        reveal_strlit("7");
        reveal_strlit("8");
        reveal_strlit("9");
    }
    r
}

fn push_decimal(out: &mut String, n: u128)
    ensures
        final(out)@ == old(out)@ + decimal(n as nat),
    decreases n,
{
    if n >= 10 {
        push_decimal(out, n / 10);
    }
    out.append(digit_str(n % 10));
    assert(old(out)@ + decimal(n as nat) =~= if n >= 10 {
        old(out)@ + decimal((n / 10) as nat) + seq![digit_char((n % 10) as nat)]
    } else {
        old(out)@ + seq![digit_char((n % 10) as nat)]
    });
}

fn push_repeat(out: &mut String, c: &str, n: u64)
    requires
        c@.len() == 1,
    ensures
        final(out)@ == old(out)@ + repeat(c@[0], n as nat),
{
    let mut i: u64 = 0;
    while i < n
        invariant
            c@.len() == 1,
            0 <= i <= n,
            out@ == old(out)@ + repeat(c@[0], i as nat),
        decreases n - i,
    {
        let ghost before = out@;
        out.append(c);
        assert(c@ =~= seq![c@[0]]);
        assert(out@ =~= old(out)@ + repeat(c@[0], (i + 1) as nat));
        i = i + 1;
    }
}

impl Info {
    /// The parts of this message as a terminal shows them, without colour.
    pub fn parts(&self) -> (r: InfoParts)
        requires
            well_placed(*self),
        ensures
            r.file_text@ == file_text(*self),
            r.level_text@ == level_text(self.level),
            r.message@ == self.message@,
            r.context_line@ == context_parts(*self).0,
            r.caret_line@ == context_parts(*self).1,
    {
        let mut file = match &self.filename {
            Some(f) => f.clone(),
            None => String::from_str(""),
        };
        proof {
            reveal_strlit("");
            reveal_strlit(":");
        }
        match (&self.position, &self.line_col) {
            (Some(_), Some((line, col))) => {
                file.append(":");
                push_decimal(&mut file, *line as u128 + 1);
                file.append(":");
                push_decimal(&mut file, *col as u128 + 1);
            },
            _ => {},
        }
        let level = match self.level {
            Level::Warning => String::from_str(" warning: "),
            Level::Error => String::from_str(" error: "),
        };
        let mut context = String::from_str("");
        let mut caret = String::from_str("");
        match (&self.position, &self.line_col, &self.source) {
            (Some(p), Some((_, col)), Some(src)) => {
                context = src.clone();
                caret.append("\n");
                proof {
                    reveal_strlit(" ");
                    reveal_strlit("~");
                }
                push_repeat(&mut caret, " ", *col);
                caret.append("^");
                let w: u64 = (p.end - p.start) as u64;
                push_repeat(&mut caret, "~", w);
            },
            _ => {},
        }
        InfoParts {
            file_text: file,
            level_text: level,
            message: self.message.clone(),
            context_line: context,
            caret_line: caret,
        }
    }
}

} // verus!
