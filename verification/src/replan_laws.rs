//! Planning twice.
//!
//! A file that collision resolution placed under an indexed name is, on the
//! next planning, recognised as sitting where it belongs: the two halves of
//! the planner fit together.

use vstd::prelude::*;
use crate::collisions::{is_digit, lemma_decimal};
use crate::paths::{
    directory_of, extension_of, file_name_of, file_stem_of, joined, last_index_of,
    lemma_last_index_of, parent_of, tail_name,
};
use crate::planner::{
    candidate, collision_name, extension_or_none, in_place, law_collision_suffix_round_trip,
    same_directory_and_stem, stem_or_default, DiskEntryView,
};
use crate::text::decimal;

verus! {

/// Whether `c` does not occur in `s`.
pub open spec fn lacks(s: Seq<char>, c: char) -> bool {
    forall|i: int| 0 <= i < s.len() ==> (#[trigger] s[i]) != c
}

/// What follows a text without `c` does not move the last `c`.
pub proof fn lemma_last_index_before(a: Seq<char>, b: Seq<char>, c: char)
    requires
        lacks(b, c),
    ensures
        last_index_of(a + b, c) == last_index_of(a, c),
    decreases b.len(),
{
    if b.len() == 0 {
        assert(a + b =~= a);
    } else {
        let whole = a + b;
        assert(whole.last() == b.last());
        assert(whole.drop_last() =~= a + b.drop_last());
        assert(lacks(b.drop_last(), c)) by {
            assert forall|i: int| 0 <= i < b.drop_last().len() implies (#[trigger] b.drop_last()[i])
                != c by {
                assert(b.drop_last()[i] == b[i]);
            }
        }
        lemma_last_index_before(a, b.drop_last(), c);
    }
}

/// A text without `c` has no last `c`.
pub proof fn lemma_lacks(s: Seq<char>, c: char)
    ensures
        lacks(s, c) <==> last_index_of(s, c) is None,
{
    lemma_last_index_of(s, c);
}

/// Stem and extension of a path are cut from its file name: neither holds a
/// separator, the extension holds no dot, and the stem is not empty.
pub proof fn lemma_name_parts(p: Seq<char>)
    requires
        file_name_of(p) is Some,
    ensures
        lacks(file_name_of(p)->0, '/'),
        file_stem_of(p) is Some,
        file_stem_of(p)->0.len() > 0,
        lacks(file_stem_of(p)->0, '/'),
        lacks(extension_or_none(p), '/'),
        lacks(extension_or_none(p), '.'),
        extension_of(p) is None ==> file_stem_of(p) == file_name_of(p),
{
    let n = file_name_of(p)->0;
    lemma_last_index_of(p, '/');
    lemma_last_index_of(n, '.');
    assert(lacks(n, '/')) by {
        assert forall|i: int| 0 <= i < n.len() implies (#[trigger] n[i]) != '/' by {
            match last_index_of(p, '/') {
                Some(k) => {
                    assert(n[i] == p[k + 1 + i]);
                },
                None => {},
            }
        }
    }
    match last_index_of(n, '.') {
        Some(d) => {
            if d > 0 {
                let s = n.subrange(0, d);
                let e = n.subrange(d + 1, n.len() as int);
                assert forall|i: int| 0 <= i < s.len() implies (#[trigger] s[i]) != '/' by {
                    assert(s[i] == n[i]);
                }
                assert forall|i: int| 0 <= i < e.len() implies (#[trigger] e[i]) != '/' && e[i]
                    != '.' by {
                    assert(e[i] == n[d + 1 + i]);
                }
            }
        },
        None => {},
    }
}

/// The directory that holds a file is clean when joining a name to it puts
/// exactly one separator between the two: it is empty, or the root, or does
/// not end in a separator.
pub open spec fn is_clean_directory(dir: Seq<char>) -> bool {
    dir.len() == 0 || dir == seq!['/'] || dir.last() != '/'
}

/// Joining a name without separators to a clean directory gives a path
/// whose parent is the directory and whose file name is the name.
pub proof fn lemma_joined_parts(dir: Seq<char>, name: Seq<char>)
    requires
        is_clean_directory(dir),
        name.len() >= 3,
        lacks(name, '/'),
    ensures
        parent_of(joined(dir, name)) == Some(dir),
        tail_name(joined(dir, name)) == name,
{
    let path = joined(dir, name);
    assert(name[0] != '/');
    lemma_lacks(name, '/');
    if dir.len() == 0 {
        assert(path == name);
    } else if dir == seq!['/'] {
        assert(path =~= dir + name);
        lemma_last_index_before(dir, name, '/');
        assert(last_index_of(dir, '/') == Some(0int)) by {
            assert(dir.last() == '/');
        }
        assert(path.subrange(1, path.len() as int) =~= name);
    } else {
        let head = dir + seq!['/'];
        assert(path =~= head + name);
        lemma_last_index_before(head, name, '/');
        assert(last_index_of(head, '/') == Some(dir.len() as int)) by {
            assert(head.last() == '/');
        }
        assert(path.subrange(0, dir.len() as int) =~= dir);
        assert(path.subrange(dir.len() as int + 1, path.len() as int) =~= name);
    }
}

/// The stem of an indexed name is the stem with its index, as long as the
/// name has an extension or the stem has no dot after its first character.
pub proof fn lemma_indexed_stem(stem: Seq<char>, index: nat, ext: Seq<char>)
    requires
        stem.len() > 0,
        lacks(ext, '.'),
        ext.len() == 0 ==> forall|i: int| 1 <= i < stem.len() ==> (#[trigger] stem[i]) != '.',
    ensures
        ({
            let name = collision_name(stem, index, ext);
            let head = collision_name(stem, index, Seq::<char>::empty());
            match last_index_of(name, '.') {
                Some(d) => if d == 0 {
                    name == head
                } else {
                    name.subrange(0, d) == head
                },
                None => name == head,
            }
        }),
{
    lemma_decimal(index);
    let digits = decimal(index);
    let name = collision_name(stem, index, ext);
    let head = collision_name(stem, index, Seq::<char>::empty());
    assert(head =~= stem + seq![' ', '['] + digits + seq![']']);
    if ext.len() > 0 {
        let front = head + seq!['.'];
        assert(name =~= front + ext);
        lemma_last_index_before(front, ext, '.');
        assert(last_index_of(front, '.') == Some(head.len() as int)) by {
            assert(front.last() == '.');
        }
        assert(name.subrange(0, head.len() as int) =~= head);
    } else {
        assert(name == head);
        lemma_last_index_of(name, '.');
        match last_index_of(name, '.') {
            Some(d) => {
                if d > 0 {
                    if d < stem.len() {
                        assert(name[d] == stem[d]);
                    } else if d < stem.len() + 2 {
                        assert(name[d] == ' ' || name[d] == '[');
                    } else if d < stem.len() + 2 + digits.len() {
                        assert(name[d] == digits[d - stem.len() - 2]);
                        assert(is_digit(digits[d - stem.len() - 2]));
                    } else {
                        assert(name[d] == ']');
                    }
                }
            },
            None => {},
        }
    }
}

/// Planning twice. Let the proposed path have a file name, in a clean
/// directory, and let it either have an extension or no dot in its name
/// after the first character. Then a file
/// that sits at any collision candidate of the proposed path counts as
/// sitting at the proposed path: having been placed by collision
/// resolution, it is skipped the next time.
pub proof fn law_resolved_file_is_in_place(
    root: Seq<char>,
    relative: Seq<char>,
    disk: Seq<DiskEntryView>,
    index: nat,
)
    requires
        file_name_of(joined(root, relative)) is Some,
        is_clean_directory(directory_of(joined(root, relative))),
        extension_or_none(joined(root, relative)).len() == 0 ==> forall|i: int|
            1 <= i < stem_or_default(joined(root, relative)).len() ==> (#[trigger] stem_or_default(
                joined(root, relative),
            )[i]) != '.',
    ensures
        in_place(candidate(joined(root, relative), index), root, relative, disk),
{
    let target = joined(root, relative);
    if index > 0 {
        let stem = stem_or_default(target);
        let ext = extension_or_none(target);
        let dir = directory_of(target);
        let name = collision_name(stem, index, ext);
        let head = collision_name(stem, index, Seq::<char>::empty());
        let source = candidate(target, index);
        lemma_name_parts(target);
        lemma_decimal(index);
        let digits = decimal(index);
        assert(head =~= stem + seq![' ', '['] + digits + seq![']']);
        // The indexed name holds no separator and is long enough to be a
        // file name of its own.
        assert(lacks(name, '/')) by {
            assert forall|i: int| 0 <= i < name.len() implies (#[trigger] name[i]) != '/' by {
                if i < stem.len() {
                    assert(name[i] == stem[i]);
                } else if i < stem.len() + 2 {
                    assert(name[i] == ' ' || name[i] == '[');
                } else if i < stem.len() + 2 + digits.len() {
                    assert(name[i] == digits[i - stem.len() - 2]);
                    assert(is_digit(digits[i - stem.len() - 2]));
                } else if i == head.len() - 1 {
                    assert(name[i] == ']');
                } else if i == head.len() {
                    assert(name[i] == '.');
                } else {
                    assert(name[i] == ext[i - head.len() - 1]);
                }
            }
        }
        assert(name.len() >= 4);
        lemma_joined_parts(dir, name);
        assert(parent_of(target) == Some(dir));
        assert(file_name_of(source) == Some(name)) by {
            assert(name != seq!['.']);
            assert(name != seq!['.', '.']);
        }
        lemma_indexed_stem(stem, index, ext);
        assert(file_stem_of(source) == Some(head));
        law_collision_suffix_round_trip(stem, index);
        assert(same_directory_and_stem(source, target));
    }
}

} // verus!
