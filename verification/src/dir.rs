//! Workspace path helpers: where the solution file and the tests directory
//! of a workspace live, given the configured names.

use vstd::prelude::*;

verus! {

/// The position of the last dot of `name` before position `i`, counting
/// only positions 1 and above — a leading dot names a hidden file, not an
/// extension — or 0 where there is none.
pub open spec fn last_dot_at(name: Seq<char>, i: int) -> int
    decreases i,
{
    if i <= 1 {
        0
    } else if name[i - 1] == '.' {
        i - 1
    } else {
        last_dot_at(name, i - 1)
    }
}

/// `name` without its extension: cut at its last counted dot, whole where
/// it has none.
pub open spec fn spec_stem(name: Seq<char>) -> Seq<char> {
    let d = last_dot_at(name, name.len() as int);
    if d == 0 {
        name
    } else {
        name.take(d)
    }
}

/// `name` with its extension replaced by `ext`; an empty `ext` leaves the
/// stem bare.
pub open spec fn spec_with_extension(name: Seq<char>, ext: Seq<char>) -> Seq<char> {
    if ext.len() == 0 {
        spec_stem(name)
    } else {
        spec_stem(name) + seq!['.'] + ext
    }
}

/// `name` appended to the directory `root`.
pub open spec fn spec_join(root: Seq<char>, name: Seq<char>) -> Seq<char> {
    root + seq!['/'] + name
}

/// Replace the extension of the file name `name` by `ext`.
pub fn with_extension(name: &str, ext: &str) -> (r: String)
    ensures
        r@ == spec_with_extension(name@, ext@),
{
    let n = name.unicode_len();
    let mut i: usize = n;
    while i > 1 && name.get_char(i - 1) != '.'
        invariant
            n == name@.len(),
            0 <= i <= n,
            last_dot_at(name@, n as int) == last_dot_at(name@, i as int),
        decreases i,
    {
        i -= 1;
    }
    let d: usize = if i > 1 {
        i - 1
    } else {
        0
    };
    proof {
        assert(last_dot_at(name@, n as int) == d);
    }
    let stem = if d == 0 {
        name.substring_char(0, n)
    } else {
        name.substring_char(0, d)
    };
    let mut s = String::from_str(stem);
    proof {
        if d == 0 {
            assert(name@.subrange(0, n as int) =~= name@);
        } else {
            assert(name@.subrange(0, d as int) =~= name@.take(d as int));
        }
    }
    if !ext.is_empty() {
        s.append(".");
        proof {
            reveal_strlit(".");
            assert("."@ =~= seq!['.']);
        }
        s.append(ext);
    }
    s
}

/// The path of the workspace's solution file: the configured stem under the
/// workspace root, carrying the configured extension.
pub fn solution(root: &str, stem: &str, ext: &str) -> (r: String)
    ensures
        r@ == spec_join(root@, spec_with_extension(stem@, ext@)),
{
    let name = with_extension(stem, ext);
    let mut s = String::from_str(root);
    s.append("/");
    proof {
        reveal_strlit("/");
        assert("/"@ =~= seq!['/']);
    }
    s.append(name.as_str());
    s
}

/// The path of the workspace's tests directory: the configured directory
/// name under the workspace root.
pub fn tests(root: &str, dir_name: &str) -> (r: String)
    ensures
        r@ == spec_join(root@, dir_name@),
{
    let mut s = String::from_str(root);
    s.append("/");
    proof {
        reveal_strlit("/");
        assert("/"@ =~= seq!['/']);
    }
    s.append(dir_name);
    s
}

} // verus!
