//! Text-level helpers for the package document of an EPUB container.

use vstd::prelude::*;
use crate::patterns::{regex_matches, swapped};
use crate::text::{append, copy_string, insert_before, inserted_before, replace, replaced,
    same_text};

verus! {

/// `s` with the five characters that XML reserves written as entity
/// references. The ampersand goes first, so that the references themselves
/// stay as they are.
pub open spec fn escaped(s: Seq<char>) -> Seq<char> {
    replaced(
        replaced(
            replaced(
                replaced(replaced(s, seq!['&'], "&amp;"@), seq!['<'], "&lt;"@),
                seq!['>'],
                "&gt;"@,
            ),
            seq!['"'],
            "&quot;"@,
        ),
        seq!['\''],
        "&apos;"@,
    )
}

/// A one-character string.
fn single(c: char) -> (s: String)
    ensures
        s@ == seq![c],
{
    let mut s = String::new();
    s.push(c);
    assert(s@ =~= seq![c]);
    s
}

/// Writes the characters that XML reserves as entity references.
pub fn escape_xml(s: &str) -> (r: String)
    ensures
        r@ == escaped(s@),
{
    let a = replace(s, single('&').as_str(), "&amp;");
    let b = replace(a.as_str(), single('<').as_str(), "&lt;");
    let c = replace(b.as_str(), single('>').as_str(), "&gt;");
    let d = replace(c.as_str(), single('"').as_str(), "&quot;");
    replace(d.as_str(), single('\'').as_str(), "&apos;")
}

/// The file extension that goes with the media type of a cover image.
pub open spec fn cover_extension(mime: Seq<char>) -> Option<Seq<char>> {
    if mime == "image/jpeg"@ {
        Some("jpg"@)
    } else if mime == "image/png"@ {
        Some("png"@)
    } else if mime == "image/webp"@ {
        Some("webp"@)
    } else {
        None
    }
}

/// The file extension for a cover image of the given media type: `jpg`,
/// `png` or `webp`, and nothing for any other type.
pub fn map_cover_extension(mime: &str) -> (ext: Option<&'static str>)
    ensures
        match ext {
            Some(e) => cover_extension(mime@) == Some(e@),
            None => cover_extension(mime@) is None,
        },
{
    if same_text(mime, "image/jpeg") {
        Some("jpg")
    } else if same_text(mime, "image/png") {
        Some("png")
    } else if same_text(mime, "image/webp") {
        Some("webp")
    } else {
        None
    }
}

/// The media type declared for a cover with the given file extension.
pub open spec fn cover_media_type(extension: Seq<char>) -> Seq<char> {
    if extension == "png"@ {
        "image/png"@
    } else if extension == "gif"@ {
        "image/gif"@
    } else {
        "image/jpeg"@
    }
}

/// The manifest line that declares a cover image.
pub open spec fn manifest_line(cover_filename: Seq<char>, extension: Seq<char>) -> Seq<char> {
    "    <item id=\"cover-image\" href=\""@ + cover_filename + "\" media-type=\""@
        + cover_media_type(extension) + "\" properties=\"cover-image\"/>"@ + "\n  "@
}

/// A package document with a cover declared: the manifest line goes in
/// before the end of the manifest, then the metadata line before the end of
/// the metadata. Where an end tag is not found, its line is left out.
pub open spec fn with_cover(
    opf: Seq<char>,
    cover_filename: Seq<char>,
    extension: Seq<char>,
) -> Seq<char> {
    inserted_before(
        inserted_before(opf, "</manifest>"@, manifest_line(cover_filename, extension)),
        "</metadata>"@,
        "    <meta name=\"cover\" content=\"cover-image\"/>"@ + "\n  "@,
    )
}

/// Declares a cover image in a package document.
pub fn add_cover_to_opf(opf_content: &str, cover_filename: &str, cover_extension: &str) -> (r:
    Result<String, String>)
    ensures
        r is Ok,
        r->Ok_0@ == with_cover(opf_content@, cover_filename@, cover_extension@),
{
    let media_type = if same_text(cover_extension, "png") {
        "image/png"
    } else if same_text(cover_extension, "gif") {
        "image/gif"
    } else {
        "image/jpeg"
    };
    let mut item = copy_string("    <item id=\"cover-image\" href=\"");
    append(&mut item, cover_filename);
    append(&mut item, "\" media-type=\"");
    append(&mut item, media_type);
    append(&mut item, "\" properties=\"cover-image\"/>");
    append(&mut item, "\n  ");
    let mut meta = copy_string("    <meta name=\"cover\" content=\"cover-image\"/>");
    append(&mut meta, "\n  ");
    let with_item = insert_before(opf_content, "</manifest>", item.as_str());
    Ok(insert_before(with_item.as_str(), "</metadata>", meta.as_str()))
}

/// A package document with one field set. Where an element matching
/// `pattern` is there, the first such element is replaced by the new
/// element; otherwise the new element goes in before the end of the
/// metadata, if that is found. The value is escaped.
pub open spec fn with_field(
    opf: Seq<char>,
    pattern: Seq<char>,
    open_tag: Seq<char>,
    close_tag: Seq<char>,
    value: Option<Seq<char>>,
) -> Seq<char> {
    match value {
        None => opf,
        Some(v) => {
            let element = open_tag + escaped(v) + close_tag;
            if regex_matches(pattern, opf) == Some(true) {
                swapped(pattern, opf, 1, element)
            } else {
                inserted_before(opf, "</metadata>"@, "  "@ + element + "\n  "@)
            }
        },
    }
}

/// Sets one field of a package document.
fn set_field(opf: String, pattern: &str, open_tag: &str, close_tag: &str, value: Option<&str>) -> (r:
    String)
    ensures
        r@ == with_field(
            opf@,
            pattern@,
            open_tag@,
            close_tag@,
            match value {
                Some(v) => Some(v@),
                None => None,
            },
        ),
{
    let v = match value {
        None => {
            return opf;
        },
        Some(v) => v,
    };
    let mut element = copy_string(open_tag);
    append(&mut element, escape_xml(v).as_str());
    append(&mut element, close_tag);
    if crate::patterns::occurs(pattern, opf.as_str()) {
        crate::patterns::swap_first(pattern, opf, element.as_str())
    } else {
        let mut line = copy_string("  ");
        append(&mut line, element.as_str());
        append(&mut line, "\n  ");
        insert_before(opf.as_str(), "</metadata>", line.as_str())
    }
}

/// A package document with title, creator, language, description and
/// publisher set, in this order, each where a value is given.
pub open spec fn with_fields(
    opf: Seq<char>,
    title: Option<Seq<char>>,
    author: Option<Seq<char>>,
    language: Option<Seq<char>>,
    description: Option<Seq<char>>,
    publisher: Option<Seq<char>>,
) -> Seq<char> {
    with_field(
        with_field(
            with_field(
                with_field(
                    with_field(
                        opf,
                        "<dc:title[^>]*>([^<]*)</dc:title>"@,
                        "<dc:title>"@,
                        "</dc:title>"@,
                        title,
                    ),
                    "<dc:creator[^>]*>([^<]*)</dc:creator>"@,
                    "<dc:creator>"@,
                    "</dc:creator>"@,
                    author,
                ),
                "<dc:language[^>]*>([^<]*)</dc:language>"@,
                "<dc:language>"@,
                "</dc:language>"@,
                language,
            ),
            "<dc:description[^>]*>([^<]*)</dc:description>"@,
            "<dc:description>"@,
            "</dc:description>"@,
            description,
        ),
        "<dc:publisher[^>]*>([^<]*)</dc:publisher>"@,
        "<dc:publisher>"@,
        "</dc:publisher>"@,
        publisher,
    )
}

/// View of an optional text.
pub open spec fn text_of(value: Option<&str>) -> Option<Seq<char>> {
    match value {
        Some(v) => Some(v@),
        None => None,
    }
}

/// Sets title, creator, language, description and publisher of a package
/// document, each where a value is given.
pub fn update_opf_metadata(
    opf_content: &str,
    title: Option<&str>,
    author: Option<&str>,
    language: Option<&str>,
    description: Option<&str>,
    publisher: Option<&str>,
) -> (r: Result<String, String>)
    ensures
        r is Ok,
        r->Ok_0@ == with_fields(
            opf_content@,
            text_of(title),
            text_of(author),
            text_of(language),
            text_of(description),
            text_of(publisher),
        ),
{
    let a = set_field(
        copy_string(opf_content),
        "<dc:title[^>]*>([^<]*)</dc:title>",
        "<dc:title>",
        "</dc:title>",
        title,
    );
    let b = set_field(
        a,
        "<dc:creator[^>]*>([^<]*)</dc:creator>",
        "<dc:creator>",
        "</dc:creator>",
        author,
    );
    let c = set_field(
        b,
        "<dc:language[^>]*>([^<]*)</dc:language>",
        "<dc:language>",
        "</dc:language>",
        language,
    );
    let d = set_field(
        c,
        "<dc:description[^>]*>([^<]*)</dc:description>",
        "<dc:description>",
        "</dc:description>",
        description,
    );
    Ok(
        set_field(
            d,
            "<dc:publisher[^>]*>([^<]*)</dc:publisher>",
            "<dc:publisher>",
            "</dc:publisher>",
            publisher,
        ),
    )
}

} // verus!
