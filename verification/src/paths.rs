//! Lexical paths.
//!
//! A path is a string whose components are separated by `/`. Nothing here
//! looks at a disk: every function is a computation on characters. The file
//! name is what follows the last separator; the names `.` and `..` and the
//! empty name are not file names. The extension is what follows the last dot
//! of a file name, unless that dot is its first character.
//!
//! Paths are taken as plain text and are never normalised. A separator
//! counts wherever it stands: `/a/b/` ends in an empty component and so has
//! no file name, and its parent is `/a/b`; `/a//b` has the parent `/a/`;
//! a component `.` in the middle of a path is a component like any other.
//! Two spellings of one location are two different paths here. The paths
//! that this library builds itself, with [`join`] and [`with_file_name`]
//! from a directory and a name, hold no doubled or trailing separator unless
//! their parts did.

use vstd::prelude::*;
use crate::text::{chars_of, string_of, string_of_range};

verus! {

/// Index of the last occurrence of `c` in `s`.
pub open spec fn last_index_of(s: Seq<char>, c: char) -> Option<int>
    decreases s.len(),
{
    if s.len() == 0 {
        None
    } else if s.last() == c {
        Some(s.len() - 1)
    } else {
        last_index_of(s.drop_last(), c)
    }
}

/// `last_index_of` finds an occurrence after which there is no other, or
/// nothing when the character does not occur.
pub proof fn lemma_last_index_of(s: Seq<char>, c: char)
    ensures
        match last_index_of(s, c) {
            Some(i) => 0 <= i < s.len() && s[i] == c && forall|j: int|
                i < j < s.len() ==> s[j] != c,
            None => forall|j: int| 0 <= j < s.len() ==> s[j] != c,
        },
    decreases s.len(),
{
    if s.len() > 0 && s.last() != c {
        let front = s.drop_last();
        lemma_last_index_of(front, c);
        assert(forall|j: int| 0 <= j < front.len() ==> front[j] == s[j]);
    }
}

/// What follows the last separator, or the whole path where there is none.
pub open spec fn tail_name(p: Seq<char>) -> Seq<char> {
    match last_index_of(p, '/') {
        Some(i) => p.subrange(i + 1, p.len() as int),
        None => p,
    }
}

/// The final component, when it names a file.
pub open spec fn file_name_of(p: Seq<char>) -> Option<Seq<char>> {
    let n = tail_name(p);
    if n.len() == 0 || n == seq!['.'] || n == seq!['.', '.'] {
        None
    } else {
        Some(n)
    }
}

/// The path without its final component.
pub open spec fn parent_of(p: Seq<char>) -> Option<Seq<char>> {
    match last_index_of(p, '/') {
        None => if p.len() == 0 {
            None
        } else {
            Some(Seq::<char>::empty())
        },
        Some(i) => if i == 0 {
            if p.len() == 1 {
                None
            } else {
                Some(seq!['/'])
            }
        } else {
            Some(p.subrange(0, i))
        },
    }
}

/// The file name without its extension.
pub open spec fn file_stem_of(p: Seq<char>) -> Option<Seq<char>> {
    match file_name_of(p) {
        None => None,
        Some(n) => match last_index_of(n, '.') {
            None => Some(n),
            Some(d) => if d == 0 {
                Some(n)
            } else {
                Some(n.subrange(0, d))
            },
        },
    }
}

/// What follows the last dot of the file name.
pub open spec fn extension_of(p: Seq<char>) -> Option<Seq<char>> {
    match file_name_of(p) {
        None => None,
        Some(n) => match last_index_of(n, '.') {
            None => None,
            Some(d) => if d == 0 {
                None
            } else {
                Some(n.subrange(d + 1, n.len() as int))
            },
        },
    }
}

/// `rel` placed under `base`. An absolute `rel` replaces `base`.
pub open spec fn joined(base: Seq<char>, rel: Seq<char>) -> Seq<char> {
    if rel.len() > 0 && rel[0] == '/' {
        rel
    } else if base.len() == 0 {
        rel
    } else if base.last() == '/' {
        base + rel
    } else {
        base + seq!['/'] + rel
    }
}

/// The directory that a new file name is placed in when it replaces the
/// final component of `p`.
pub open spec fn directory_of(p: Seq<char>) -> Seq<char> {
    match file_name_of(p) {
        Some(_) => match parent_of(p) {
            Some(d) => d,
            None => Seq::<char>::empty(),
        },
        None => p,
    }
}

/// `p` with its file name replaced by `name`.
pub open spec fn with_file_name_of(p: Seq<char>, name: Seq<char>) -> Seq<char> {
    joined(directory_of(p), name)
}

/// `p` relative to `base`, when `p` lies at or under `base`.
pub open spec fn stripped(p: Seq<char>, base: Seq<char>) -> Option<Seq<char>> {
    if base.len() == 0 {
        Some(p)
    } else if !base.is_prefix_of(p) {
        None
    } else if p.len() == base.len() {
        Some(Seq::<char>::empty())
    } else if base.last() == '/' {
        Some(p.subrange(base.len() as int, p.len() as int))
    } else if p[base.len() as int] == '/' {
        Some(p.subrange(base.len() as int + 1, p.len() as int))
    } else {
        None
    }
}

/// Whether `p` is `base` itself or lies under it as a directory. A path that
/// merely begins with the characters of `base`, such as `/lib2/a` for the
/// base `/lib`, does not.
pub open spec fn lies_under(p: Seq<char>, base: Seq<char>) -> bool {
    stripped(p, base) is Some
}

/// Position of the last `c` in `v`.
pub fn rfind_char(v: &Vec<char>, c: char) -> (found: Option<usize>)
    ensures
        match found {
            Some(i) => last_index_of(v@, c) == Some(i as int) && i < v.len(),
            None => last_index_of(v@, c) is None,
        },
{
    let mut i: usize = v.len();
    assert(v@.subrange(0, i as int) == v@);
    while i > 0
        invariant
            i <= v.len(),
            last_index_of(v@, c) == last_index_of(v@.subrange(0, i as int), c),
        decreases i,
    {
        let ghost cur = v@.subrange(0, i as int);
        assert(cur.last() == v@[i - 1]);
        if v[i - 1] == c {
            return Some(i - 1);
        }
        assert(cur.drop_last() == v@.subrange(0, i - 1));
        i -= 1;
    }
    None
}

/// Start of the final component within `v`.
fn tail_start(v: &Vec<char>) -> (start: usize)
    ensures
        start <= v.len(),
        tail_name(v@) == v@.subrange(start as int, v.len() as int),
{
    match rfind_char(v, '/') {
        Some(i) => i + 1,
        None => {
            assert(v@.subrange(0, v.len() as int) == v@);
            0
        },
    }
}

/// Whether `v[from..]` is a file name, that is neither empty nor `.` nor `..`.
fn names_file(v: &Vec<char>, from: usize) -> (b: bool)
    requires
        from <= v.len(),
    ensures
        b == {
            let n = v@.subrange(from as int, v.len() as int);
            !(n.len() == 0 || n == seq!['.'] || n == seq!['.', '.'])
        },
{
    let ghost n = v@.subrange(from as int, v.len() as int);
    let len = v.len() - from;
    if len == 0 {
        false
    } else if len == 1 {
        assert(n[0] == v@[from as int]);
        if v[from] == '.' {
            assert(n =~= seq!['.']);
            false
        } else {
            assert(seq!['.'][0] == '.');
            true
        }
    } else if len == 2 {
        assert(n[0] == v@[from as int]);
        assert(n[1] == v@[from + 1]);
        if v[from] == '.' && v[from + 1] == '.' {
            assert(n =~= seq!['.', '.']);
            false
        } else {
            assert(seq!['.', '.'][0] == '.' && seq!['.', '.'][1] == '.');
            true
        }
    } else {
        true
    }
}

/// The final component of `path`, when it names a file.
pub fn file_name(path: &str) -> (name: Option<String>)
    ensures
        crate::records::opt_view(name) == file_name_of(path@),
{
    let v = chars_of(path);
    let start = tail_start(&v);
    if names_file(&v, start) {
        Some(string_of_range(&v, start, v.len()))
    } else {
        None
    }
}

/// The file name of `path` without its extension.
pub fn file_stem(path: &str) -> (stem: Option<String>)
    ensures
        crate::records::opt_view(stem) == file_stem_of(path@),
{
    let v = chars_of(path);
    let start = tail_start(&v);
    if !names_file(&v, start) {
        return None;
    }
    let name = chars_of(string_of_range(&v, start, v.len()).as_str());
    match rfind_char(&name, '.') {
        None => Some(string_of(&name)),
        Some(d) => if d == 0 {
            Some(string_of(&name))
        } else {
            Some(string_of_range(&name, 0, d))
        },
    }
}

/// The extension of the file name of `path`, without the dot.
pub fn extension(path: &str) -> (ext: Option<String>)
    ensures
        crate::records::opt_view(ext) == extension_of(path@),
{
    let v = chars_of(path);
    let start = tail_start(&v);
    if !names_file(&v, start) {
        return None;
    }
    let name = chars_of(string_of_range(&v, start, v.len()).as_str());
    match rfind_char(&name, '.') {
        None => None,
        Some(d) => if d == 0 {
            None
        } else {
            Some(string_of_range(&name, d + 1, name.len()))
        },
    }
}

/// The path without its final component.
pub fn parent(path: &str) -> (dir: Option<String>)
    ensures
        crate::records::opt_view(dir) == parent_of(path@),
{
    let v = chars_of(path);
    match rfind_char(&v, '/') {
        None => if v.len() == 0 {
            None
        } else {
            Some(String::new())
        },
        Some(i) => if i == 0 {
            if v.len() == 1 {
                None
            } else {
                let mut root = String::new();
                root.push('/');
                assert(root@ =~= seq!['/']);
                Some(root)
            }
        } else {
            Some(string_of_range(&v, 0, i))
        },
    }
}

/// `rel` placed under `base`.
pub fn join(base: &str, rel: &str) -> (path: String)
    ensures
        path@ == joined(base@, rel@),
{
    let b = chars_of(base);
    let r = chars_of(rel);
    if r.len() > 0 && r[0] == '/' {
        return string_of(&r);
    }
    if b.len() == 0 {
        return string_of(&r);
    }
    let mut out = string_of(&b);
    if b[b.len() - 1] != '/' {
        out.push('/');
    }
    let ghost head = out@;
    let mut i: usize = 0;
    while i < r.len()
        invariant
            i <= r.len(),
            out@ == head + r@.subrange(0, i as int),
        decreases r.len() - i,
    {
        out.push(r[i]);
        assert(r@.subrange(0, i + 1) == r@.subrange(0, i as int).push(r@[i as int]));
        i += 1;
    }
    assert(r@.subrange(0, r.len() as int) == r@);
    out
}

/// `path` with its file name replaced by `name`.
pub fn with_file_name(path: &str, name: &str) -> (renamed: String)
    ensures
        renamed@ == with_file_name_of(path@, name@),
{
    let dir = match file_name(path) {
        Some(_) => match parent(path) {
            Some(d) => d,
            None => String::new(),
        },
        None => crate::text::copy_string(path),
    };
    join(dir.as_str(), name)
}

/// `path` relative to `base`, when it lies at or under `base`.
pub fn strip_prefix(path: &str, base: &str) -> (rest: Option<String>)
    ensures
        crate::records::opt_view(rest) == stripped(path@, base@),
{
    let p = chars_of(path);
    let b = chars_of(base);
    if b.len() == 0 {
        return Some(string_of(&p));
    }
    if !crate::text::has_prefix(&p, &b) {
        return None;
    }
    if p.len() == b.len() {
        return Some(String::new());
    }
    if b[b.len() - 1] == '/' {
        Some(string_of_range(&p, b.len(), p.len()))
    } else if p[b.len()] == '/' {
        Some(string_of_range(&p, b.len() + 1, p.len()))
    } else {
        None
    }
}

/// Whether `path` is `base` itself or lies under it as a directory.
pub fn is_under(path: &str, base: &str) -> (b: bool)
    ensures
        b == lies_under(path@, base@),
{
    strip_prefix(path, base).is_some()
}

} // verus!
