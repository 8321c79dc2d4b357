//! Paths: joining components (as text, and as the raw bytes of Unix paths),
//! the final component, the extension, and the user's configuration
//! directory (kept as raw bytes).
use vstd::prelude::*;
use crate::domain::categorize::opt_view;
use crate::text::{push_char, to_chars};

verus! {

/// `base` joined with `name` as `Path::join` does on Unix: an absolute
/// `name` replaces `base`; otherwise a `/` separates them unless `base` is
/// empty or already ends with `/`.
pub open spec fn join_path(base: Seq<char>, name: Seq<char>) -> Seq<char> {
    if name.len() > 0 && name[0] == '/' {
        name
    } else if base.len() == 0 || base.last() == '/' {
        base + name
    } else {
        base + seq!['/'] + name
    }
}

/// Joins a path and a component as `Path::join` does on Unix.
pub fn join(base: &str, name: &str) -> (r: String)
    ensures
        r@ == join_path(base@, name@),
{
    let b = to_chars(base);
    let n = to_chars(name);
    if n.len() > 0 && n[0] == '/' {
        return String::from_str(name);
    }
    let mut r = String::from_str(base);
    if !(b.len() == 0 || b[b.len() - 1] == '/') {
        push_char(&mut r, '/');
    }
    r.append(name);
    r
}

/// `base` joined with `name` as `Path::join` does on Unix, on the raw bytes
/// of the paths: an absolute `name` replaces `base`; otherwise a `/`
/// separates them unless `base` is empty or already ends with `/`.
pub open spec fn join_path_bytes(base: Seq<u8>, name: Seq<u8>) -> Seq<u8> {
    if name.len() > 0 && name[0] == 47u8 {
        name
    } else if base.len() == 0 || base.last() == 47u8 {
        base + name
    } else {
        base + seq![47u8] + name
    }
}

/// Appends the bytes of `s` to `out`.
fn append_bytes(out: &mut Vec<u8>, s: &[u8])
    ensures
        final(out)@ == old(out)@ + s@,
{
    let ghost start = out@;
    let mut i: usize = 0;
    while i < s.len()
        invariant
            i <= s@.len(),
            out@ == start + s@.take(i as int),
        decreases s.len() - i,
    {
        out.push(s[i]);
        assert(s@.take(i + 1) =~= s@.take(i as int).push(s@[i as int]));
        i += 1;
    }
    assert(s@.take(s@.len() as int) =~= s@);
}

/// Joins two raw paths as `Path::join` does on Unix.
pub fn join_bytes(base: &[u8], name: &[u8]) -> (r: Vec<u8>)
    ensures
        r@ == join_path_bytes(base@, name@),
{
    let mut r: Vec<u8> = Vec::new();
    if name.len() > 0 && name[0] == 47u8 {
        append_bytes(&mut r, name);
        assert(r@ =~= name@);
        return r;
    }
    append_bytes(&mut r, base);
    assert(r@ =~= base@);
    if !(base.len() == 0 || base[base.len() - 1] == 47u8) {
        r.push(47u8);
    }
    append_bytes(&mut r, name);
    r
}

/// The part after the last `/` (the whole string when it holds none).
pub open spec fn last_segment(p: Seq<char>) -> Seq<char> {
    if exists|i: int| 0 <= i < p.len() && p[i] == '/' {
        let i = choose|i: int|
            0 <= i < p.len() && p[i] == '/' && forall|k: int| i < k < p.len() ==> #[trigger] p[k] != '/';
        p.skip(i + 1)
    } else {
        p
    }
}

/// The part of a path after its last `/`.
pub fn last_segment_of(p: &str) -> (r: String)
    ensures
        r@ == last_segment(p@),
{
    let v = to_chars(p);
    let mut i: usize = v.len();
    while i > 0 && v[i - 1] != '/'
        invariant
            i <= v.len(),
            forall|k: int| i <= k < v.len() ==> #[trigger] v@[k] != '/',
        decreases i,
    {
        i -= 1;
    }
    let mut r = String::new();
    let mut j: usize = i;
    while j < v.len()
        invariant
            i <= j <= v.len(),
            r@ == v@.subrange(i as int, j as int),
        decreases v.len() - j,
    {
        push_char(&mut r, v[j]);
        assert(r@ =~= v@.subrange(i as int, j + 1));
        j += 1;
    }
    proof {
        if i == 0 {
            assert(!(exists|x: int| 0 <= x < v@.len() && v@[x] == '/'));
            assert(r@ =~= v@);
        } else {
            let x = (i - 1) as int;
            assert(0 <= x < v@.len() && v@[x] == '/' && forall|k: int| x < k < v@.len() ==> #[trigger] v@[k] != '/');
            let c = choose|c: int|
                0 <= c < v@.len() && v@[c] == '/' && forall|k: int| c < k < v@.len() ==> #[trigger] v@[k] != '/';
            if c < x {
                assert(v@[x] != '/');
            }
            if x < c {
                assert(v@[c] != '/');
            }
            assert(r@ =~= v@.skip(x + 1));
        }
    }
    r
}

/// The path without its trailing separators and trailing `.` components:
/// the end of the path as `Path::components` reads it on Unix, where
/// repeated `/` and `.` components after the first are skipped.
pub open spec fn trim_path_tail(p: Seq<char>) -> Seq<char>
    decreases p.len(),
{
    if p.len() > 0 && p.last() == '/' {
        trim_path_tail(p.drop_last())
    } else if p.len() >= 2 && p.last() == '.' && p[p.len() - 2] == '/' {
        trim_path_tail(p.drop_last())
    } else {
        p
    }
}

/// What `Path::file_name` gives on Unix: the last component, unless it is
/// the root, `.` or `..` (or the path is empty).
pub open spec fn file_name_of(p: Seq<char>) -> Option<Seq<char>> {
    let n = last_segment(trim_path_tail(p));
    if n.len() == 0 || n == "."@ || n == ".."@ {
        None
    } else {
        Some(n)
    }
}

/// The extension of a file name as `Path::extension` takes it: the part
/// after the last `.`, unless the name has no `.` or its only `.` starts it.
pub open spec fn name_extension(n: Seq<char>) -> Option<Seq<char>> {
    if exists|i: int| 0 <= i < n.len() && n[i] == '.' {
        let i = choose|i: int|
            0 <= i < n.len() && n[i] == '.' && forall|k: int| i < k < n.len() ==> #[trigger] n[k] != '.';
        if i == 0 {
            None
        } else {
            Some(n.skip(i + 1))
        }
    } else {
        None
    }
}

/// What `Path::extension` gives for a path (as text): the extension of its
/// file name, if it has one.
pub open spec fn path_extension_of(p: Seq<char>) -> Option<Seq<char>> {
    match file_name_of(p) {
        Some(n) => name_extension(n),
        None => None,
    }
}

/// Calls `Path::extension`: the extension of the path's file name, if any,
/// as `path_extension_of` states it (on Unix); an extension of a `str`
/// path is always valid text.
#[verifier::external_body]
pub fn path_extension(p: &str) -> (r: Option<String>)
    ensures
        opt_view(r) == path_extension_of(p@),
{
    std::path::Path::new(p).extension().and_then(|e| e.to_str()).map(|e| e.to_string())
}

/// Calls `dirs::config_dir`: the user's configuration directory
/// (`$XDG_CONFIG_HOME`, or `$HOME/.config` on Linux), if it can be found,
/// as the raw bytes of the path (`OsString::into_encoded_bytes`, which on
/// Unix are the path's own bytes, kept whether or not they are valid text).
/// It depends on the environment, so nothing is claimed of the answer.
#[verifier::external_body]
pub fn config_home() -> (r: Option<Vec<u8>>) {
    dirs::config_dir().map(|d| d.into_os_string().into_encoded_bytes())
}

} // verus!
