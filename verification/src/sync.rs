//! Placing a file on a reading device without overwriting what is there.

use vstd::prelude::*;
use crate::collisions::{
    all_differ, first_free, is_first_free, lemma_decimal, lemma_first_free, lemma_joined_differ,
    lemma_numbered_names_differ, numbered_name,
};
use crate::paths::joined;
use crate::planner::{extension_or_none, stem_or_default};
use crate::records::texts;
use crate::text::copy_string;

verus! {

/// The path tried at index `index` for a file named `filename` in `dir`:
/// the name itself at index 0, then the name with the index in round
/// brackets after its stem.
pub open spec fn device_candidate(dir: Seq<char>, filename: Seq<char>, index: nat) -> Seq<char> {
    if index == 0 {
        joined(dir, filename)
    } else {
        joined(
            dir,
            numbered_name(stem_or_default(filename), '(', ')', index, extension_or_none(filename)),
        )
    }
}

/// The candidates for a file name in a directory, by index.
pub open spec fn device_candidates(dir: Seq<char>, filename: Seq<char>) -> spec_fn(nat) -> Seq<
    char,
> {
    |k: nat| device_candidate(dir, filename, k)
}

/// The path that a file named `filename` gets in `dir`.
pub open spec fn device_path(
    dir: Seq<char>,
    filename: Seq<char>,
    occupied: Seq<Seq<char>>,
) -> Seq<char> {
    device_candidate(dir, filename, first_free(device_candidates(dir, filename), occupied))
}

/// Candidate paths for different indices from 1 on differ.
pub proof fn lemma_device_candidates_differ(dir: Seq<char>, filename: Seq<char>)
    ensures
        all_differ(device_candidates(dir, filename)),
{
    let stem = stem_or_default(filename);
    let ext = extension_or_none(filename);
    assert forall|a: nat, b: nat|
        a >= 1 && b >= 1 && #[trigger] device_candidates(dir, filename)(a)
            == #[trigger] device_candidates(dir, filename)(b) implies a == b by {
        let na = numbered_name(stem, '(', ')', a, ext);
        let nb = numbered_name(stem, '(', ')', b, ext);
        lemma_decimal(a);
        lemma_decimal(b);
        assert(na.len() > 0 && nb.len() > 0);
        assert(na[0] == nb[0]) by {
            if stem.len() > 0 {
                assert(na[0] == stem[0] && nb[0] == stem[0]);
            } else {
                assert(na[0] == ' ' && nb[0] == ' ');
            }
        }
        lemma_joined_differ(dir, na, nb);
        lemma_numbered_names_differ(stem, '(', ')', ext, a, b);
    }
}

/// Whatever exists on the device, a free path is found: it does not exist
/// yet, it is the plain path where that is free, and every candidate with a
/// smaller index exists.
pub proof fn law_device_path_is_free(
    dir: Seq<char>,
    filename: Seq<char>,
    occupied: Seq<Seq<char>>,
)
    ensures
        !occupied.contains(device_path(dir, filename, occupied)),
        !occupied.contains(joined(dir, filename)) ==> device_path(dir, filename, occupied)
            == joined(dir, filename),
        forall|j: nat|
            j < first_free(device_candidates(dir, filename), occupied) ==> occupied.contains(
                #[trigger] device_candidate(dir, filename, j),
            ),
{
    let slots = device_candidates(dir, filename);
    lemma_device_candidates_differ(dir, filename);
    lemma_first_free(slots, occupied);
    let f = first_free(slots, occupied);
    assert(slots(f) == device_candidate(dir, filename, f));
    assert forall|j: nat| j < f implies occupied.contains(
        #[trigger] device_candidate(dir, filename, j),
    ) by {
        assert(occupied.contains(slots(j)));
    }
    if !occupied.contains(joined(dir, filename)) && f > 0 {
        assert(occupied.contains(slots(0)));
    }
}

/// Finds a path in `dir` for a file named `filename`. Where no file of that
/// name exists the name is kept. Otherwise the stem gets an index in round
/// brackets, counting from 1, and the first path that does not exist is the
/// answer. `occupied` lists the paths that exist.
pub fn resolve_sync_collision(dir: &str, filename: &str, occupied: &Vec<String>) -> (r: String)
    ensures
        r@ == device_path(dir@, filename@, texts(occupied@)),
        !texts(occupied@).contains(r@),
{
    let base = crate::paths::join(dir, filename);
    let ghost occ = texts(occupied@);
    let ghost slots = device_candidates(dir@, filename@);
    proof {
        law_device_path_is_free(dir@, filename@, occ);
        lemma_device_candidates_differ(dir@, filename@);
        lemma_first_free(slots, occ);
    }
    if !crate::scanner::holds_text(occupied, base.as_str()) {
        return base;
    }
    let stem = match crate::paths::file_stem(filename) {
        Some(s) => s,
        None => copy_string("file"),
    };
    let ext = match crate::paths::extension(filename) {
        Some(e) => e,
        None => String::new(),
    };
    let ghost goal = first_free(slots, occ);
    let count = occupied.len();
    let mut index: u128 = 1;
    loop
        invariant
            1 <= index <= goal,
            goal == first_free(slots, occ),
            goal <= occ.len() + 1,
            occ.len() == count,
            occ == texts(occupied@),
            slots == device_candidates(dir@, filename@),
            is_first_free(slots, occ, goal),
            stem@ == stem_or_default(filename@),
            ext@ == extension_or_none(filename@),
        decreases goal - index,
    {
        let name = crate::collisions::indexed_name(stem.as_str(), '(', ')', index, ext.as_str());
        let path = crate::paths::join(dir, name.as_str());
        assert(path@ == slots(index as nat));
        if !crate::scanner::holds_text(occupied, path.as_str()) {
            assert(index == goal) by {
                if index < goal {
                    assert(occ.contains(slots(index as nat)));
                }
            }
            assert(slots(goal) == device_candidate(dir@, filename@, goal));
            return path;
        }
        index += 1;
    }
}

} // verus!
