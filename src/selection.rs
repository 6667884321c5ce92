use vstd::prelude::*;
use vstd::string::StrSliceExecFns;

verus! {

/// The peephole passes, in the order in which the optimizer tries them.
#[derive(Clone, Copy, Debug, PartialEq, Eq, Structural)]
pub enum Pass {
    CombineIncrements,
    ZeroingLoops,
    DeadLoops,
    OffsetFolding,
    ConstantPropagation,
}

/// Which passes take part in optimization.
#[derive(Clone, Copy, Debug, PartialEq, Eq, Structural)]
pub struct PassSet {
    pub combine_increments: bool,
    pub zeroing_loops: bool,
    pub dead_loops: bool,
    pub offset_folding: bool,
    pub constant_propagation: bool,
}

pub open spec fn name_combine() -> Seq<char> {
    "combine_inc"@
}

pub open spec fn name_zeroing() -> Seq<char> {
    "zeroing_loop"@
}

pub open spec fn name_dead() -> Seq<char> {
    "dead_loop"@
}

pub open spec fn name_fold() -> Seq<char> {
    "offset_sort"@
}

pub open spec fn name_propagation() -> Seq<char> {
    "const_prop"@
}

pub open spec fn is_known(t: Seq<char>) -> bool {
    t == name_combine() || t == name_zeroing() || t == name_dead() || t == name_fold() || t == name_propagation()
}

pub open spec fn is_separator(c: char) -> bool {
    c == ',' || c == ' '
}

/// The names in `s[j..]`, where `s[j..i]` holds no separator.
pub open spec fn tokens_from(s: Seq<char>, i: int, j: int) -> Seq<Seq<char>>
    decreases s.len() - i,
{
    if i < 0 || i >= s.len() {
        if 0 <= j < s.len() {
            seq![s.subrange(j, s.len() as int)]
        } else {
            Seq::empty()
        }
    } else if is_separator(s[i]) {
        let here = if j < i { seq![s.subrange(j, i)] } else { Seq::<Seq<char>>::empty() };
        here + tokens_from(s, i + 1, i + 1)
    } else {
        tokens_from(s, i + 1, j)
    }
}

/// The non-empty names in `s`, separated by commas or spaces, in order.
pub open spec fn tokens(s: Seq<char>) -> Seq<Seq<char>> {
    tokens_from(s, 0, 0)
}

/// The passes that the names in `toks` select: every pass where there is
/// no name, else exactly the passes named.
pub open spec fn selected(toks: Seq<Seq<char>>) -> PassSet {
    if toks.len() == 0 {
        PassSet {
            combine_increments: true,
            zeroing_loops: true,
            dead_loops: true,
            offset_folding: true,
            constant_propagation: true,
        }
    } else {
        PassSet {
            combine_increments: toks.contains(name_combine()),
            zeroing_loops: toks.contains(name_zeroing()),
            dead_loops: toks.contains(name_dead()),
            offset_folding: toks.contains(name_fold()),
            constant_propagation: toks.contains(name_propagation()),
        }
    }
}

/// The names in `toks` that name no pass.
pub open spec fn unknown_names(toks: Seq<Seq<char>>) -> Seq<Seq<char>> {
    toks.filter(|t: Seq<char>| !is_known(t))
}

/// The passes that a specification selects; an absent one selects all.
pub open spec fn selection(spec_text: Option<Seq<char>>) -> PassSet {
    match spec_text {
        Some(t) => selected(tokens(t)),
        None => selected(Seq::empty()),
    }
}

/// The unknown names in a specification.
pub open spec fn unknown_in(spec_text: Option<Seq<char>>) -> Seq<Seq<char>> {
    match spec_text {
        Some(t) => unknown_names(tokens(t)),
        None => Seq::empty(),
    }
}

fn str_eq(a: &str, b: &str) -> (r: bool)
    ensures
        r == (a@ == b@),
{
    let n = a.unicode_len();
    if n != b.unicode_len() {
        return false;
    }
    let mut i: usize = 0;
    while i < n
        invariant
            n == a@.len(),
            n == b@.len(),
            0 <= i <= n,
            a@.subrange(0, i as int) == b@.subrange(0, i as int),
        decreases n - i,
    {
        if a.get_char(i) != b.get_char(i) {
            return false;
        }
        assert(a@.subrange(0, i + 1) =~= a@.subrange(0, i as int).push(a@[i as int]));
        assert(b@.subrange(0, i + 1) =~= b@.subrange(0, i as int).push(b@[i as int]));
        i = i + 1;
    }
    assert(a@ =~= a@.subrange(0, n as int));
    assert(b@ =~= b@.subrange(0, n as int));
    true
}

/// The names in `s`, separated by commas or spaces.
pub fn split_names(s: &str) -> (r: Vec<String>)
    ensures
        r@.map_values(|t: String| t@) == tokens(s@),
{
    let n = s.unicode_len();
    let mut out: Vec<String> = Vec::new();
    let mut i: usize = 0;
    let mut j: usize = 0;
    while i < n
        invariant
            n == s@.len(),
            0 <= j <= i <= n,
            tokens(s@) == out@.map_values(|t: String| t@) + tokens_from(s@, i as int, j as int),
        decreases n - i,
    {
        let c = s.get_char(i);
        if c == ',' || c == ' ' {
            let ghost prev = out@.map_values(|t: String| t@);
            if j < i {
                let t = s.substring_char(j, i);
                out.push(t.to_string());
                assert(out@.map_values(|t: String| t@) =~= prev + seq![s@.subrange(j as int, i as int)]);
            } else {
                assert(out@.map_values(|t: String| t@) =~= prev + Seq::<Seq<char>>::empty());
            }
            i = i + 1;
            j = i;
        } else {
            i = i + 1;
        }
    }
    let ghost prev = out@.map_values(|t: String| t@);
    if j < n {
        let t = s.substring_char(j, n);
        out.push(t.to_string());
        assert(out@.map_values(|t: String| t@) =~= prev + seq![s@.subrange(j as int, n as int)]);
    } else {
        assert(out@.map_values(|t: String| t@) =~= prev + Seq::<Seq<char>>::empty());
    }
    out
}

pub open spec fn text_of(spec_text: Option<String>) -> Option<Seq<char>> {
    match spec_text {
        Some(t) => Some(t@),
        None => None,
    }
}

/// The passes that a pass specification selects, and the names in it that
/// name no pass. An absent or empty specification selects every pass.
pub fn select(spec_text: &Option<String>) -> (r: (PassSet, Vec<String>))
    ensures
        r.0 == selection(text_of(*spec_text)),
        r.1@.map_values(|t: String| t@) == unknown_in(text_of(*spec_text)),
{
    let names = match spec_text {
        Some(t) => split_names(t.as_str()),
        None => Vec::new(),
    };
    let ghost toks = names@.map_values(|t: String| t@);
    assert(text_of(*spec_text) is None ==> toks =~= Seq::<Seq<char>>::empty());
    let mut set = PassSet {
        combine_increments: false,
        zeroing_loops: false,
        dead_loops: false,
        offset_folding: false,
        constant_propagation: false,
    };
    let mut unknown: Vec<String> = Vec::new();
    let mut i: usize = 0;
    assert(toks.take(0) =~= Seq::<Seq<char>>::empty());
    while i < names.len()
        invariant
            0 <= i <= names@.len(),
            toks == names@.map_values(|t: String| t@),
            set.combine_increments == toks.take(i as int).contains(name_combine()),
            set.zeroing_loops == toks.take(i as int).contains(name_zeroing()),
            set.dead_loops == toks.take(i as int).contains(name_dead()),
            set.offset_folding == toks.take(i as int).contains(name_fold()),
            set.constant_propagation == toks.take(i as int).contains(name_propagation()),
            unknown@.map_values(|t: String| t@) == unknown_names(toks.take(i as int)),
        decreases names@.len() - i,
    {
        let ghost prev = toks.take(i as int);
        let ghost next = toks.take(i + 1);
        assert(next.drop_last() =~= prev);
        assert(next.last() == names@[i as int]@);
        assert(forall|t: Seq<char>| next.contains(t) <==> prev.contains(t) || t == next.last()) by {
            assert forall|t: Seq<char>| next.contains(t) implies prev.contains(t) || t == next.last() by {
                if next.contains(t) {
                    let k = choose|k: int| 0 <= k < next.len() && next[k] == t;
                    if k < prev.len() {
                        assert(prev[k] == t);
                    }
                }
            }
            assert forall|t: Seq<char>| prev.contains(t) || t == next.last() implies next.contains(t) by {
                if prev.contains(t) {
                    let k = choose|k: int| 0 <= k < prev.len() && prev[k] == t;
                    assert(next[k] == t);
                } else {
                    assert(next[next.len() - 1] == t);
                }
            }
        }
        proof {
            reveal_strlit("combine_inc");
            reveal_strlit("zeroing_loop");
            reveal_strlit("dead_loop");
            reveal_strlit("offset_sort");
            reveal_strlit("const_prop");
            assert(name_combine() != name_fold()) by {
                assert(name_combine()[0] != name_fold()[0]);
            }
        }
        assert(next.len() > 0);
        proof {
            reveal_with_fuel(Seq::filter, 2);
        }
        assert(unknown_names(next) == if is_known(next.last()) {
            unknown_names(prev)
        } else {
            unknown_names(prev).push(next.last())
        });
        let name = names[i].as_str();
        let ghost before = unknown@.map_values(|t: String| t@);
        if str_eq(name, "combine_inc") {
            set.combine_increments = true;
        } else if str_eq(name, "zeroing_loop") {
            set.zeroing_loops = true;
        } else if str_eq(name, "dead_loop") {
            set.dead_loops = true;
        } else if str_eq(name, "offset_sort") {
            set.offset_folding = true;
        } else if str_eq(name, "const_prop") {
            set.constant_propagation = true;
        } else {
            unknown.push(names[i].clone());
            assert(unknown@.map_values(|t: String| t@) =~= before.push(next.last()));
        }
        i = i + 1;
    }
    assert(toks.take(i as int) =~= toks);
    if names.len() == 0 {
        set = PassSet {
            combine_increments: true,
            zeroing_loops: true,
            dead_loops: true,
            offset_folding: true,
            constant_propagation: true,
        };
    }
    (set, unknown)
}

} // verus!

verus! {

proof fn lemma_tokens_unbroken(s: Seq<char>, i: int, j: int)
    requires
        0 <= j <= i <= s.len(),
        j < s.len(),
        forall|k: int| j <= k < s.len() ==> !is_separator(#[trigger] s[k]),
    ensures
        tokens_from(s, i, j) == seq![s.subrange(j, s.len() as int)],
    decreases s.len() - i,
{
    if i < s.len() {
        lemma_tokens_unbroken(s, i + 1, j);
    }
}

/// A specification that holds one name without separators selects exactly
/// the pass of that name.
pub proof fn lemma_single_name(name: Seq<char>)
    requires
        name.len() > 0,
        forall|k: int| 0 <= k < name.len() ==> !is_separator(#[trigger] name[k]),
    ensures
        tokens(name) == seq![name],
        selection(Some(name)) == selected(seq![name]),
{
    lemma_tokens_unbroken(name, 0, 0);
    assert(name.subrange(0, name.len() as int) =~= name);
}

} // verus!
