use vstd::prelude::*;
use vstd::string::StrSliceExecFns;

verus! {

/// The index of the last `c` in `s`, or -1.
pub open spec fn last_index_of(s: Seq<char>, c: char) -> int
    decreases s.len(),
{
    if s.len() == 0 {
        -1
    } else if s.last() == c {
        s.len() - 1
    } else {
        last_index_of(s.drop_last(), c)
    }
}

proof fn lemma_last_index_of(s: Seq<char>, c: char)
    ensures
        -1 <= last_index_of(s, c) < s.len(),
        last_index_of(s, c) >= 0 ==> s[last_index_of(s, c)] == c,
        forall|i: int| last_index_of(s, c) < i < s.len() ==> s[i] != c,
    decreases s.len(),
{
    if s.len() > 0 {
        lemma_last_index_of(s.drop_last(), c);
        assert forall|i: int| last_index_of(s, c) < i < s.len() implies s[i] != c by {
            if i < s.len() - 1 {
                assert(s[i] == s.drop_last()[i]);
            }
        }
    }
}

/// The length of `path[..t]` once trailing separators and trailing `/.`
/// parts are dropped, as path components are read.
pub open spec fn trimmed_len(path: Seq<char>, t: int) -> int
    decreases t,
{
    if t <= 0 || t > path.len() {
        if t <= 0 { 0 } else { path.len() as int }
    } else if path[t - 1] == '/' {
        trimmed_len(path, t - 1)
    } else if t >= 2 && path[t - 1] == '.' && path[t - 2] == '/' {
        trimmed_len(path, t - 1)
    } else {
        t
    }
}

/// The last component of a path: trailing separators and `.` components
/// are dropped, then the text after the last `/` is taken.
pub open spec fn file_name(path: Seq<char>) -> Seq<char> {
    let pre = path.subrange(0, trimmed_len(path, path.len() as int));
    pre.subrange(last_index_of(pre, '/') + 1, pre.len() as int)
}

/// Whether the path ends in a file name: its last component is neither
/// empty (no component, or only the root), `.` nor `..`.
pub open spec fn has_file_name(path: Seq<char>) -> bool {
    let f = file_name(path);
    f.len() > 0 && f != seq!['.'] && f != seq!['.', '.']
}

/// A file name without its last extension: "foo.bf" is "foo".
pub open spec fn stem(name: Seq<char>) -> Seq<char> {
    let d = last_index_of(name, '.');
    if d < 0 {
        name
    } else {
        name.subrange(0, d)
    }
}

fn find_last(s: &str, c: char, from: usize) -> (r: Option<usize>)
    requires
        from <= s@.len(),
    ensures
        match r {
            Some(i) => from <= i < s@.len() && s@[i as int] == c && forall|j: int| i < j < s@.len() ==> s@[j] != c,
            None => forall|j: int| from <= j < s@.len() ==> s@[j] != c,
        },
{
    let n = s.unicode_len();
    let mut found: Option<usize> = None;
    let mut i: usize = from;
    while i < n
        invariant
            n == s@.len(),
            from <= i <= n,
            match found {
                Some(k) => from <= k < i && s@[k as int] == c && forall|j: int| k < j < i ==> s@[j] != c,
                None => forall|j: int| from <= j < i ==> s@[j] != c,
            },
        decreases n - i,
    {
        if s.get_char(i) == c {
            found = Some(i);
        }
        i = i + 1;
    }
    found
}

proof fn lemma_last_is(s: Seq<char>, c: char, r: Option<usize>)
    requires
        match r {
            Some(i) => i < s.len() && s[i as int] == c && forall|j: int| i < j < s.len() ==> s[j] != c,
            None => forall|j: int| 0 <= j < s.len() ==> s[j] != c,
        },
    ensures
        r is Some ==> last_index_of(s, c) == r->0 as int,
        r is None ==> last_index_of(s, c) == -1,
{
    lemma_last_index_of(s, c);
}

/// The name of the executable built from a source file: the file name
/// without its last extension ("bar/baz.bf" gives "baz", "foo/" gives
/// "foo"). A path without a file name (empty, the root, or one that ends in
/// `.` or `..`) has no executable name.
pub fn executable_name(bf_path: &str) -> (r: String)
    requires
        has_file_name(bf_path@),
    ensures
        r@ == stem(file_name(bf_path@)),
{
    let n = bf_path.unicode_len();
    let mut t: usize = n;
    while t > 0 && (bf_path.get_char(t - 1) == '/' || (t >= 2 && bf_path.get_char(t - 1) == '.'
        && bf_path.get_char(t - 2) == '/'))
        invariant
            n == bf_path@.len(),
            0 <= t <= n,
            trimmed_len(bf_path@, n as int) == trimmed_len(bf_path@, t as int),
        decreases t,
    {
        t = t - 1;
    }
    let pre = bf_path.substring_char(0, t);
    proof {
        lemma_last_index_of(pre@, '/');
    }
    let start = match find_last(pre, '/', 0) {
        Some(k) => k + 1,
        None => 0,
    };
    proof {
        lemma_last_is(pre@, '/', if start == 0 { None } else { Some((start - 1) as usize) });
    }
    let name = pre.substring_char(start, t);
    assert(name@ == file_name(bf_path@));
    proof {
        lemma_last_index_of(name@, '.');
    }
    match find_last(name, '.', 0) {
        Some(d) => {
            proof {
                lemma_last_is(name@, '.', Some(d));
            }
            name.substring_char(0, d).to_string()
        },
        None => {
            proof {
                lemma_last_is(name@, '.', None);
            }
            assert(name@.subrange(0, name@.len() as int) =~= name@);
            name.to_string()
        },
    }
}

/// The arguments for linking an object file into an executable, with an
/// optional target triple.
pub fn link_arguments(object_file_path: &str, executable_path: &str, target_triple: &Option<String>) -> (r: Vec<String>)
    ensures
        r@.map_values(|a: String| a@) == match target_triple {
            Some(t) => seq![object_file_path@, "-target"@, t@, "-o"@, executable_path@],
            None => seq![object_file_path@, "-o"@, executable_path@],
        },
{
    let mut args: Vec<String> = Vec::new();
    args.push(object_file_path.to_string());
    match target_triple {
        Some(t) => {
            args.push("-target".to_string());
            args.push(t.clone());
        },
        None => {},
    }
    args.push("-o".to_string());
    args.push(executable_path.to_string());
    let ghost expected = match target_triple {
        Some(t) => seq![object_file_path@, "-target"@, t@, "-o"@, executable_path@],
        None => seq![object_file_path@, "-o"@, executable_path@],
    };
    assert(args@.map_values(|a: String| a@) =~= expected);
    args
}

/// The arguments for stripping symbols from an executable.
pub fn strip_arguments(executable_path: &str) -> (r: Vec<String>)
    ensures
        r@.map_values(|a: String| a@) == seq!["-s"@, executable_path@],
{
    let mut args: Vec<String> = Vec::new();
    args.push("-s".to_string());
    args.push(executable_path.to_string());
    assert(args@.map_values(|a: String| a@) =~= seq!["-s"@, executable_path@]);
    args
}

} // verus!
