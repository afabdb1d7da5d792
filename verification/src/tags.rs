//! Tags as they come packed into one column: entries separated by `||`,
//! each entry an identifier, a name and an optional colour separated by
//! `|`.

use vstd::prelude::*;
use crate::planner::{before_char, take_before};
use crate::records::opt_view;
use crate::text::{
    chars_of, find_part, first_part, has_part, lemma_first_part, string_of_range, trim, trimmed,
};

verus! {

/// A label that items can carry.
#[derive(Debug)]
pub struct Tag {
    pub id: String,
    pub name: String,
    pub color: Option<String>,
}

/// Mathematical value of a [`Tag`].
pub struct TagView {
    pub id: Seq<char>,
    pub name: Seq<char>,
    pub color: Option<Seq<char>>,
}

impl View for Tag {
    type V = TagView;

    open spec fn view(&self) -> TagView {
        TagView { id: self.id@, name: self.name@, color: opt_view(self.color) }
    }
}

/// Views of a list of tags.
pub open spec fn tag_views(v: Seq<Tag>) -> Seq<TagView> {
    Seq::new(v.len(), |i: int| v[i]@)
}

/// What follows the first `c` in `s`, where `c` occurs.
pub open spec fn after_char(s: Seq<char>, c: char) -> Option<Seq<char>> {
    let n = before_char(s, c).len();
    if n < s.len() {
        Some(s.subrange(n as int + 1, s.len() as int))
    } else {
        None
    }
}

/// The tag that one entry stands for: identifier, name and colour are
/// trimmed; an entry without a name, or with an empty identifier or name,
/// stands for none; an empty colour is no colour.
pub open spec fn tag_of(entry: Seq<char>) -> Option<TagView> {
    match after_char(entry, '|') {
        None => None,
        Some(rest) => {
            let id = trimmed(before_char(entry, '|'));
            let name = trimmed(before_char(rest, '|'));
            let color = match after_char(rest, '|') {
                Some(c) => trimmed(c),
                None => Seq::<char>::empty(),
            };
            if id.len() == 0 || name.len() == 0 {
                None
            } else {
                Some(
                    TagView {
                        id,
                        name,
                        color: if color.len() == 0 {
                            None
                        } else {
                            Some(color)
                        },
                    },
                )
            }
        },
    }
}

/// What separates two entries.
pub open spec fn separator() -> Seq<char> {
    seq!['|', '|']
}

/// The tags packed into `s`, in order: the tag of what stands before the
/// first separator, then the tags packed into what follows it.
pub open spec fn tags_in(s: Seq<char>) -> Seq<TagView>
    decreases s.len(),
{
    let cut = first_part(s, separator());
    if has_part(s, separator()) && 0 <= cut && cut + 2 <= s.len() {
        (match tag_of(s.subrange(0, cut)) {
            Some(t) => seq![t],
            None => Seq::<TagView>::empty(),
        }) + tags_in(s.subrange(cut + 2, s.len() as int))
    } else {
        match tag_of(s) {
            Some(t) => seq![t],
            None => Seq::<TagView>::empty(),
        }
    }
}

/// The characters before the first `c` are fewer than all only where `c`
/// occurs, and then `c` stands right after them.
pub proof fn lemma_before_char(s: Seq<char>, c: char)
    ensures
        before_char(s, c).len() <= s.len(),
        before_char(s, c).len() < s.len() ==> s[before_char(s, c).len() as int] == c,
    decreases s.len(),
{
    if s.len() > 0 && s[0] != c {
        lemma_before_char(s.drop_first(), c);
        let n = before_char(s.drop_first(), c).len();
        assert(before_char(s, c).len() == n + 1);
        if n < s.drop_first().len() {
            assert(s.drop_first()[n as int] == s[n as int + 1]);
        }
    }
}

/// What follows the first `c` in `s`.
fn take_after(s: &str, c: char) -> (r: Option<String>)
    ensures
        opt_view(r) == after_char(s@, c),
{
    let v = chars_of(s);
    let head = take_before(s, c);
    let n = chars_of(head.as_str()).len();
    proof {
        lemma_before_char(v@, c);
    }
    if n < v.len() {
        Some(string_of_range(&v, n + 1, v.len()))
    } else {
        None
    }
}

/// The tag that one entry stands for.
fn parse_tag(entry: &str) -> (r: Option<Tag>)
    ensures
        match r {
            Some(t) => tag_of(entry@) == Some(t@),
            None => tag_of(entry@) is None,
        },
{
    let rest = match take_after(entry, '|') {
        None => {
            return None;
        },
        Some(rest) => rest,
    };
    let id = trim(take_before(entry, '|').as_str());
    let name = trim(take_before(rest.as_str(), '|').as_str());
    let color = match take_after(rest.as_str(), '|') {
        Some(c) => trim(c.as_str()),
        None => String::new(),
    };
    if chars_of(id.as_str()).len() == 0 || chars_of(name.as_str()).len() == 0 {
        return None;
    }
    let color = if chars_of(color.as_str()).len() == 0 {
        None
    } else {
        Some(color)
    };
    Some(Tag { id, name, color })
}

/// The characters of the separator.
fn separator_chars() -> (v: Vec<char>)
    ensures
        v@ == separator(),
{
    let mut v: Vec<char> = Vec::new();
    v.push('|');
    v.push('|');
    assert(v@ =~= separator());
    v
}

/// Appends the tags packed into `s`.
fn parse_into(out: &mut Vec<Tag>, s: &str)
    ensures
        tag_views(final(out)@) == tag_views(old(out)@) + tags_in(s@),
    decreases s@.len(),
{
    let ghost before = tag_views(out@);
    let v = chars_of(s);
    let sep = separator_chars();
    match find_part(&v, &sep) {
        None => {
            assert(!has_part(s@, separator()));
            match parse_tag(s) {
                Some(t) => {
                    out.push(t);
                    assert(tag_views(out@) =~= before + tags_in(s@));
                },
                None => {
                    assert(tag_views(out@) =~= before + tags_in(s@));
                },
            }
        },
        Some(i) => {
            proof {
                lemma_first_part(v@, sep@, i as int);
            }
            assert(has_part(s@, separator()) && first_part(s@, separator()) == i);
            assert(i + 2 <= v.len());
            let entry = string_of_range(&v, 0, i);
            let rest = string_of_range(&v, i + 2, v.len());
            let ghost here = match tag_of(entry@) {
                Some(t) => seq![t],
                None => Seq::<TagView>::empty(),
            };
            assert(tags_in(s@) == here + tags_in(rest@));
            match parse_tag(entry.as_str()) {
                Some(t) => {
                    out.push(t);
                },
                None => {},
            }
            assert(tag_views(out@) =~= before + here);
            parse_into(out, rest.as_str());
            assert(before + (here + tags_in(rest@)) =~= (before + here) + tags_in(rest@));
        },
    }
}

/// Unpacks the tags of an item. Nothing packed means no tags.
pub fn parse_tags(raw: Option<String>) -> (tags: Vec<Tag>)
    ensures
        tag_views(tags@) == match raw {
            Some(s) => tags_in(s@),
            None => Seq::<TagView>::empty(),
        },
{
    let mut tags: Vec<Tag> = Vec::new();
    assert(tag_views(tags@) =~= Seq::<TagView>::empty());
    match &raw {
        None => {},
        Some(s) => {
            parse_into(&mut tags, s.as_str());
            assert(Seq::<TagView>::empty() + tags_in(s@) =~= tags_in(s@));
        },
    }
    tags
}

} // verus!
