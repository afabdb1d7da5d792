//! Rewriting the metadata of a package document, event by event.
//!
//! Whoever parses the document hands over the sequence of its events: for
//! an opening or closing tag its name, for anything else just that it is
//! there. The answer says what to write: events to copy as they are, by
//! position, and tags and texts to put in.
//!
//! Within the metadata element the first title, creator, identifier and
//! description are given the edited text, their old content dropped.
//! Fields that the edit sets but the document lacks are added just before
//! the metadata element closes, under the namespace prefix last seen.

use vstd::prelude::*;
use crate::flows::{EditView, MetadataEdit};
use crate::paths::{last_index_of, rfind_char};
use crate::records::opt_view;
use crate::text::{append, chars_of, copy_string, same_text, string_of_range};

verus! {

/// One event of a document, as far as rewriting looks at it.
#[derive(Debug)]
pub enum XmlEvent {
    /// An opening tag with its qualified name.
    Start { name: String },
    /// A closing tag with its qualified name.
    End { name: String },
    /// Anything else: text, an empty element, a comment, a declaration.
    Other,
}

/// Mathematical value of an [`XmlEvent`].
pub enum XmlEventView {
    Start { name: Seq<char> },
    End { name: Seq<char> },
    Other,
}

impl View for XmlEvent {
    type V = XmlEventView;

    open spec fn view(&self) -> XmlEventView {
        match self {
            XmlEvent::Start { name } => XmlEventView::Start { name: name@ },
            XmlEvent::End { name } => XmlEventView::End { name: name@ },
            XmlEvent::Other => XmlEventView::Other,
        }
    }
}

/// Views of a sequence of events.
pub open spec fn event_views(v: Seq<XmlEvent>) -> Seq<XmlEventView> {
    Seq::new(v.len(), |i: int| v[i]@)
}

/// One thing to write.
#[derive(Debug)]
pub enum Emitted {
    /// The event at this position of the input, as it is.
    Keep { index: usize },
    /// An opening tag without attributes.
    Open { name: String },
    /// A text, to be escaped on writing.
    Text { text: String },
    /// A closing tag.
    Close { name: String },
}

/// Mathematical value of an [`Emitted`].
pub enum EmittedView {
    Keep { index: int },
    Open { name: Seq<char> },
    Text { text: Seq<char> },
    Close { name: Seq<char> },
}

impl View for Emitted {
    type V = EmittedView;

    open spec fn view(&self) -> EmittedView {
        match self {
            Emitted::Keep { index } => EmittedView::Keep { index: *index as int },
            Emitted::Open { name } => EmittedView::Open { name: name@ },
            Emitted::Text { text } => EmittedView::Text { text: text@ },
            Emitted::Close { name } => EmittedView::Close { name: name@ },
        }
    }
}

/// Views of a sequence of things to write.
pub open spec fn emitted_views(v: Seq<Emitted>) -> Seq<EmittedView> {
    Seq::new(v.len(), |i: int| v[i]@)
}

/// The four fields that an edit can set.
#[derive(Clone, Copy, Debug, PartialEq, Eq, Structural)]
pub enum Field {
    Title,
    Creator,
    Identifier,
    Description,
}

/// What is known while going through the events.
#[derive(Clone, Copy, Debug, PartialEq, Eq, Structural)]
pub struct Flags {
    /// Whether the metadata element is open.
    pub in_metadata: bool,
    pub title: bool,
    pub creator: bool,
    pub identifier: bool,
    pub description: bool,
}

/// What follows the last colon of a qualified name: its local part.
pub open spec fn local_name(name: Seq<char>) -> Seq<char> {
    match last_index_of(name, ':') {
        Some(i) => name.subrange(i + 1, name.len() as int),
        None => name,
    }
}

/// Number of colons in `name`.
pub open spec fn colons(name: Seq<char>) -> nat
    decreases name.len(),
{
    if name.len() == 0 {
        0
    } else {
        colons(name.drop_last()) + if name.last() == ':' {
            1nat
        } else {
            0nat
        }
    }
}

/// The field that a local name stands for.
pub open spec fn field_of(local: Seq<char>) -> Option<Field> {
    if local == "title"@ {
        Some(Field::Title)
    } else if local == "creator"@ {
        Some(Field::Creator)
    } else if local == "identifier"@ {
        Some(Field::Identifier)
    } else if local == "description"@ {
        Some(Field::Description)
    } else {
        None
    }
}

/// The text that an edit sets for a field.
pub open spec fn edited(edit: EditView, field: Field) -> Option<Seq<char>> {
    match field {
        Field::Title => edit.title,
        Field::Creator => edit.author,
        Field::Identifier => edit.isbn,
        Field::Description => edit.description,
    }
}

/// Whether a field has been written.
pub open spec fn written(flags: Flags, field: Field) -> bool {
    match field {
        Field::Title => flags.title,
        Field::Creator => flags.creator,
        Field::Identifier => flags.identifier,
        Field::Description => flags.description,
    }
}

/// The flags after a field has been written.
pub open spec fn marked(flags: Flags, field: Field) -> Flags {
    match field {
        Field::Title => Flags { title: true, ..flags },
        Field::Creator => Flags { creator: true, ..flags },
        Field::Identifier => Flags { identifier: true, ..flags },
        Field::Description => Flags { description: true, ..flags },
    }
}

/// Whether a name is that of the metadata element, under any prefix.
pub open spec fn is_metadata(name: Seq<char>) -> bool {
    "metadata"@.is_suffix_of(name)
}

/// The namespace prefix in use after an opening tag: within the metadata
/// element, a name with exactly one colon sets it.
pub open spec fn prefix_after(
    flags: Flags,
    prefix: Seq<char>,
    name: Seq<char>,
) -> Seq<char> {
    if !is_metadata(name) && flags.in_metadata && colons(name) == 1 {
        name.subrange(0, last_index_of(name, ':')->0)
    } else {
        prefix
    }
}

/// The element added for a field that the document lacks.
pub open spec fn added(prefix: Seq<char>, local: Seq<char>, text: Seq<char>) -> Seq<EmittedView> {
    seq![
        EmittedView::Open { name: prefix + seq![':'] + local },
        EmittedView::Text { text },
        EmittedView::Close { name: prefix + seq![':'] + local },
    ]
}

/// What is added for one field just before the metadata element closes.
pub open spec fn addition(
    flags: Flags,
    prefix: Seq<char>,
    edit: EditView,
    field: Field,
    local: Seq<char>,
) -> Seq<EmittedView> {
    match edited(edit, field) {
        Some(text) => if written(flags, field) {
            Seq::empty()
        } else {
            added(prefix, local, text)
        },
        None => Seq::empty(),
    }
}

/// Everything that is added just before the metadata element closes.
pub open spec fn additions(flags: Flags, prefix: Seq<char>, edit: EditView) -> Seq<EmittedView> {
    if flags.in_metadata {
        addition(flags, prefix, edit, Field::Title, "title"@) + addition(
            flags,
            prefix,
            edit,
            Field::Creator,
            "creator"@,
        ) + addition(flags, prefix, edit, Field::Identifier, "identifier"@) + addition(
            flags,
            prefix,
            edit,
            Field::Description,
            "description"@,
        )
    } else {
        Seq::empty()
    }
}

/// The field that the opening tag `name` is rewritten for, if it is.
pub open spec fn rewritten_field(flags: Flags, edit: EditView, name: Seq<char>) -> Option<Field> {
    let open = flags.in_metadata || is_metadata(name);
    match field_of(local_name(name)) {
        Some(f) => if open && edited(edit, f) is Some && !written(flags, f) {
            Some(f)
        } else {
            None
        },
        None => None,
    }
}

/// Where rewriting stands between two events.
pub struct Progress {
    pub flags: Flags,
    /// The namespace prefix in use.
    pub prefix: String,
    /// The element whose old content is being dropped, if any: events are
    /// passed over up to and including its closing tag.
    pub dropping: Option<String>,
}

/// Mathematical value of a [`Progress`].
pub struct ProgressView {
    pub flags: Flags,
    pub prefix: Seq<char>,
    pub dropping: Option<Seq<char>>,
}

impl View for Progress {
    type V = ProgressView;

    open spec fn view(&self) -> ProgressView {
        ProgressView {
            flags: self.flags,
            prefix: self.prefix@,
            dropping: opt_view(self.dropping),
        }
    }
}

/// What is written for the event at position `i`.
pub open spec fn written_for(
    event: XmlEventView,
    i: int,
    at: ProgressView,
    edit: EditView,
) -> Seq<EmittedView> {
    if at.dropping is Some {
        Seq::empty()
    } else {
        match event {
            XmlEventView::Start { name } => match rewritten_field(at.flags, edit, name) {
                Some(f) => seq![
                    EmittedView::Keep { index: i },
                    EmittedView::Text { text: edited(edit, f)->0 },
                    EmittedView::Close { name },
                ],
                None => seq![EmittedView::Keep { index: i }],
            },
            XmlEventView::End { name } => if is_metadata(name) {
                additions(at.flags, at.prefix, edit).push(EmittedView::Keep { index: i })
            } else {
                seq![EmittedView::Keep { index: i }]
            },
            XmlEventView::Other => seq![EmittedView::Keep { index: i }],
        }
    }
}

/// Where rewriting stands after an event.
pub open spec fn progress_after(
    event: XmlEventView,
    at: ProgressView,
    edit: EditView,
) -> ProgressView {
    match at.dropping {
        Some(n) => if event == (XmlEventView::End { name: n }) {
            ProgressView { dropping: None, ..at }
        } else {
            at
        },
        None => match event {
            XmlEventView::Start { name } => {
                let opened = Flags {
                    in_metadata: at.flags.in_metadata || is_metadata(name),
                    ..at.flags
                };
                let prefix = prefix_after(at.flags, at.prefix, name);
                match rewritten_field(at.flags, edit, name) {
                    Some(f) => ProgressView {
                        flags: marked(opened, f),
                        prefix,
                        dropping: Some(name),
                    },
                    None => ProgressView { flags: opened, prefix, dropping: None },
                }
            },
            XmlEventView::End { name } => if is_metadata(name) {
                ProgressView { flags: Flags { in_metadata: false, ..at.flags }, ..at }
            } else {
                at
            },
            XmlEventView::Other => at,
        },
    }
}

/// What is written for the events from position `i` on.
pub open spec fn rewritten_from(
    events: Seq<XmlEventView>,
    i: int,
    at: ProgressView,
    edit: EditView,
) -> Seq<EmittedView>
    decreases events.len() - i,
{
    if i < 0 || i >= events.len() {
        Seq::empty()
    } else {
        written_for(events[i], i, at, edit) + rewritten_from(
            events,
            i + 1,
            progress_after(events[i], at, edit),
            edit,
        )
    }
}

/// Where rewriting stands at the start of a document.
pub open spec fn at_start() -> ProgressView {
    ProgressView {
        flags: Flags {
            in_metadata: false,
            title: false,
            creator: false,
            identifier: false,
            description: false,
        },
        prefix: "dc"@,
        dropping: None,
    }
}

/// What is written for a whole document.
pub open spec fn rewritten(events: Seq<XmlEventView>, edit: EditView) -> Seq<EmittedView> {
    rewritten_from(events, 0, at_start(), edit)
}

/// Whether `v` ends with `suffix`.
fn has_suffix(v: &Vec<char>, suffix: &str) -> (b: bool)
    ensures
        b == suffix@.is_suffix_of(v@),
{
    let s = chars_of(suffix);
    if s.len() > v.len() {
        return false;
    }
    let off = v.len() - s.len();
    let mut k: usize = 0;
    while k < s.len()
        invariant
            k <= s.len(),
            s@ == suffix@,
            off + s.len() == v.len(),
            forall|j: int| 0 <= j < k ==> v@[off + j] == s@[j],
        decreases s.len() - k,
    {
        if v[off + k] != s[k] {
            assert(v@.subrange(off as int, v.len() as int)[k as int] != s@[k as int]);
            return false;
        }
        k += 1;
    }
    assert(v@.subrange(off as int, v.len() as int) =~= s@);
    true
}

/// Number of colons in `v`.
fn count_colons(v: &Vec<char>) -> (n: usize)
    ensures
        n == colons(v@),
{
    let mut n: usize = 0;
    let mut i: usize = 0;
    assert(v@.subrange(0, 0) =~= Seq::<char>::empty());
    while i < v.len()
        invariant
            i <= v.len(),
            n == colons(v@.subrange(0, i as int)),
            n <= i,
        decreases v.len() - i,
    {
        let ghost next = v@.subrange(0, i + 1);
        assert(next.drop_last() == v@.subrange(0, i as int));
        assert(next.last() == v@[i as int]);
        if v[i] == ':' {
            n += 1;
        }
        i += 1;
    }
    assert(v@.subrange(0, v.len() as int) == v@);
    n
}

/// A name with a colon has a last colon.
pub proof fn lemma_colon_found(name: Seq<char>)
    requires
        colons(name) >= 1,
    ensures
        last_index_of(name, ':') is Some,
    decreases name.len(),
{
    if name.len() > 0 && name.last() != ':' {
        lemma_colon_found(name.drop_last());
    }
}

/// The field that a local name stands for.
fn field_for(local: &str) -> (f: Option<Field>)
    ensures
        f == field_of(local@),
{
    if same_text(local, "title") {
        Some(Field::Title)
    } else if same_text(local, "creator") {
        Some(Field::Creator)
    } else if same_text(local, "identifier") {
        Some(Field::Identifier)
    } else if same_text(local, "description") {
        Some(Field::Description)
    } else {
        None
    }
}

/// The text that `edit` sets for `field`.
fn edit_text(edit: &MetadataEdit, field: Field) -> (t: &Option<String>)
    ensures
        opt_view(*t) == edited(edit@, field),
{
    match field {
        Field::Title => &edit.title,
        Field::Creator => &edit.author,
        Field::Identifier => &edit.isbn,
        Field::Description => &edit.description,
    }
}

/// Whether `field` has been written.
fn is_written(flags: Flags, field: Field) -> (b: bool)
    ensures
        b == written(flags, field),
{
    match field {
        Field::Title => flags.title,
        Field::Creator => flags.creator,
        Field::Identifier => flags.identifier,
        Field::Description => flags.description,
    }
}

/// The flags after `field` has been written.
fn mark(flags: Flags, field: Field) -> (r: Flags)
    ensures
        r == marked(flags, field),
{
    match field {
        Field::Title => Flags { title: true, ..flags },
        Field::Creator => Flags { creator: true, ..flags },
        Field::Identifier => Flags { identifier: true, ..flags },
        Field::Description => Flags { description: true, ..flags },
    }
}

/// Appends the element for a field that the document lacks.
fn push_addition(
    out: &mut Vec<Emitted>,
    flags: Flags,
    prefix: &str,
    edit: &MetadataEdit,
    field: Field,
    local: &str,
)
    ensures
        emitted_views(final(out)@) == emitted_views(old(out)@) + addition(
            flags,
            prefix@,
            edit@,
            field,
            local@,
        ),
{
    let ghost before = emitted_views(out@);
    match edit_text(edit, field) {
        Some(text) => {
            if !is_written(flags, field) {
                let mut name = copy_string(prefix);
                name.push(':');
                append(&mut name, local);
                assert(name@ =~= prefix@ + seq![':'] + local@);
                out.push(Emitted::Open { name: name.clone() });
                out.push(Emitted::Text { text: text.clone() });
                out.push(Emitted::Close { name });
                assert(emitted_views(out@) =~= before + added(prefix@, local@, text@));
            } else {
                assert(emitted_views(out@) =~= before + Seq::<EmittedView>::empty());
            }
        },
        None => {
            assert(emitted_views(out@) =~= before + Seq::<EmittedView>::empty());
        },
    }
}

/// Appends everything that is added before the metadata element closes.
fn push_additions(out: &mut Vec<Emitted>, flags: Flags, prefix: &str, edit: &MetadataEdit)
    ensures
        emitted_views(final(out)@) == emitted_views(old(out)@) + additions(flags, prefix@, edit@),
{
    let ghost before = emitted_views(out@);
    if flags.in_metadata {
        push_addition(out, flags, prefix, edit, Field::Title, "title");
        push_addition(out, flags, prefix, edit, Field::Creator, "creator");
        push_addition(out, flags, prefix, edit, Field::Identifier, "identifier");
        push_addition(out, flags, prefix, edit, Field::Description, "description");
        assert(emitted_views(out@) =~= before + additions(flags, prefix@, edit@));
    } else {
        assert(emitted_views(out@) =~= before + Seq::<EmittedView>::empty());
    }
}

/// Handles an opening tag.
fn on_start(out: &mut Vec<Emitted>, at: &mut Progress, name: &String, i: usize, edit: &MetadataEdit)
    requires
        old(at)@.dropping is None,
    ensures
        emitted_views(final(out)@) == emitted_views(old(out)@) + written_for(
            XmlEventView::Start { name: name@ },
            i as int,
            old(at)@,
            edit@,
        ),
        final(at)@ == progress_after(XmlEventView::Start { name: name@ }, old(at)@, edit@),
{
    let ghost before = emitted_views(out@);
    let flags = at.flags;
    let v = chars_of(name.as_str());
    let meta = has_suffix(&v, "metadata");
    let colon = rfind_char(&v, ':');
    if !meta && flags.in_metadata && count_colons(&v) == 1 {
        match colon {
            Some(c) => {
                at.prefix = string_of_range(&v, 0, c);
            },
            None => {
                proof {
                    lemma_colon_found(v@);
                }
            },
        }
    }
    let local = match colon {
        Some(c) => string_of_range(&v, c + 1, v.len()),
        None => name.clone(),
    };
    let opened = Flags { in_metadata: flags.in_metadata || meta, ..flags };
    let field = match field_for(local.as_str()) {
        Some(f) => if opened.in_metadata && edit_text(edit, f).is_some() && !is_written(flags, f) {
            Some(f)
        } else {
            None
        },
        None => None,
    };
    out.push(Emitted::Keep { index: i });
    match field {
        Some(f) => {
            let text = match edit_text(edit, f) {
                Some(t) => t.clone(),
                None => String::new(),
            };
            out.push(Emitted::Text { text });
            out.push(Emitted::Close { name: name.clone() });
            at.flags = mark(opened, f);
            at.dropping = Some(name.clone());
            assert(emitted_views(out@) =~= before + seq![
                EmittedView::Keep { index: i as int },
                EmittedView::Text { text: edited(edit@, f)->0 },
                EmittedView::Close { name: name@ },
            ]);
        },
        None => {
            at.flags = opened;
            assert(emitted_views(out@) =~= before + seq![EmittedView::Keep { index: i as int }]);
        },
    }
}

/// Handles one event.
fn on_event(out: &mut Vec<Emitted>, at: &mut Progress, event: &XmlEvent, i: usize, edit: &MetadataEdit)
    ensures
        emitted_views(final(out)@) == emitted_views(old(out)@) + written_for(
            event@,
            i as int,
            old(at)@,
            edit@,
        ),
        final(at)@ == progress_after(event@, old(at)@, edit@),
{
    let ghost before = emitted_views(out@);
    let closing = match (&at.dropping, event) {
        (Some(n), XmlEvent::End { name }) => same_text(name.as_str(), n.as_str()),
        _ => false,
    };
    if at.dropping.is_some() {
        if closing {
            at.dropping = None;
        }
        assert(emitted_views(out@) =~= before + Seq::<EmittedView>::empty());
        return ;
    }
    match event {
        XmlEvent::Start { name } => {
            on_start(out, at, name, i, edit);
        },
        XmlEvent::End { name } => {
            let v = chars_of(name.as_str());
            if has_suffix(&v, "metadata") {
                push_additions(out, at.flags, at.prefix.as_str(), edit);
                let ghost mid = emitted_views(out@);
                out.push(Emitted::Keep { index: i });
                assert(emitted_views(out@) =~= mid.push(EmittedView::Keep { index: i as int }));
                assert(before + additions(old(at)@.flags, old(at)@.prefix, edit@).push(
                    EmittedView::Keep { index: i as int },
                ) =~= (before + additions(old(at)@.flags, old(at)@.prefix, edit@)).push(
                    EmittedView::Keep { index: i as int },
                ));
                at.flags = Flags { in_metadata: false, ..at.flags };
            } else {
                out.push(Emitted::Keep { index: i });
                assert(emitted_views(out@) =~= before + seq![EmittedView::Keep { index: i as int }]);
            }
        },
        XmlEvent::Other => {
            out.push(Emitted::Keep { index: i });
            assert(emitted_views(out@) =~= before + seq![EmittedView::Keep { index: i as int }]);
        },
    }
}

/// Says what to write for a package document so that it carries the edited
/// metadata.
pub fn rewrite_opf_metadata(events: &Vec<XmlEvent>, edit: &MetadataEdit) -> (out: Vec<Emitted>)
    ensures
        emitted_views(out@) == rewritten(event_views(events@), edit@),
{
    let ghost all = event_views(events@);
    let ghost goal = rewritten(all, edit@);
    let mut out: Vec<Emitted> = Vec::new();
    let mut at = Progress {
        flags: Flags {
            in_metadata: false,
            title: false,
            creator: false,
            identifier: false,
            description: false,
        },
        prefix: copy_string("dc"),
        dropping: None,
    };
    let mut i: usize = 0;
    assert(emitted_views(out@) + goal =~= goal);
    while i < events.len()
        invariant
            i <= events.len(),
            all == event_views(events@),
            goal == emitted_views(out@) + rewritten_from(all, i as int, at@, edit@),
        decreases events.len() - i,
    {
        let ghost done = emitted_views(out@);
        let ghost here = at@;
        assert(all[i as int] == events@[i as int]@);
        on_event(&mut out, &mut at, &events[i], i, edit);
        assert(done + (written_for(all[i as int], i as int, here, edit@) + rewritten_from(
            all,
            i + 1,
            at@,
            edit@,
        )) =~= emitted_views(out@) + rewritten_from(all, i + 1, at@, edit@));
        i += 1;
    }
    assert(emitted_views(out@) + Seq::<EmittedView>::empty() =~= emitted_views(out@));
    out
}

/// An edit that sets nothing leaves the document as it is: every event is
/// kept, in order, and nothing is put in.
pub proof fn law_empty_edit_keeps_everything(
    events: Seq<XmlEventView>,
    i: int,
    at: ProgressView,
)
    requires
        0 <= i <= events.len(),
        at.dropping is None,
    ensures
        rewritten_from(
            events,
            i,
            at,
            EditView { title: None, author: None, isbn: None, description: None },
        ) == Seq::new((events.len() - i) as nat, |k: int| EmittedView::Keep { index: i + k }),
    decreases events.len() - i,
{
    let edit = EditView { title: None, author: None, isbn: None, description: None };
    let kept = Seq::new((events.len() - i) as nat, |k: int| EmittedView::Keep { index: i + k });
    if i < events.len() {
        let next = Seq::new(
            (events.len() - i - 1) as nat,
            |k: int| EmittedView::Keep { index: i + 1 + k },
        );
        assert(kept =~= seq![EmittedView::Keep { index: i }] + next);
        law_empty_edit_keeps_everything(events, i + 1, progress_after(events[i], at, edit));
        assert(additions(at.flags, at.prefix, edit) =~= Seq::<EmittedView>::empty());
        assert(written_for(events[i], i, at, edit) =~= seq![EmittedView::Keep { index: i }]);
    } else {
        assert(kept =~= Seq::<EmittedView>::empty());
    }
}

/// Nothing of an element whose content is replaced gets through: between
/// the opening tag of a rewritten field and its closing tag, no event is
/// written.
pub proof fn law_old_content_is_dropped(
    event: XmlEventView,
    i: int,
    at: ProgressView,
    edit: EditView,
)
    requires
        at.dropping is Some,
    ensures
        written_for(event, i, at, edit).len() == 0,
        event != (XmlEventView::End { name: at.dropping->0 }) ==> progress_after(event, at, edit)
            == at,
        event == (XmlEventView::End { name: at.dropping->0 }) ==> progress_after(
            event,
            at,
            edit,
        ).dropping is None,
{
}

/// Each field is rewritten at most once: once a field has been written, no
/// later opening tag is rewritten for it and nothing is added for it.
pub proof fn law_fields_are_written_once(
    flags: Flags,
    prefix: Seq<char>,
    edit: EditView,
    field: Field,
    name: Seq<char>,
    local: Seq<char>,
)
    requires
        written(flags, field),
    ensures
        rewritten_field(flags, edit, name) != Some(field),
        addition(flags, prefix, edit, field, local).len() == 0,
{
}

} // verus!
