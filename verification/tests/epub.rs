use folio::epub::{add_cover_to_opf, escape_xml, map_cover_extension};

#[test]
fn reserved_characters_are_escaped() {
    assert_eq!(escape_xml("Tom & Jerry"), "Tom &amp; Jerry");
    assert_eq!(escape_xml("<a href=\"x\">'q'</a>"), "&lt;a href=&quot;x&quot;&gt;&apos;q&apos;&lt;/a&gt;");
    assert_eq!(escape_xml("&amp;"), "&amp;amp;");
    assert_eq!(escape_xml("plain"), "plain");
    assert_eq!(escape_xml(""), "");
}

#[test]
fn cover_media_types_map_to_extensions() {
    assert_eq!(map_cover_extension("image/jpeg"), Some("jpg"));
    assert_eq!(map_cover_extension("image/png"), Some("png"));
    assert_eq!(map_cover_extension("image/webp"), Some("webp"));
    assert_eq!(map_cover_extension("image/gif"), None);
    assert_eq!(map_cover_extension("IMAGE/PNG"), None);
    assert_eq!(map_cover_extension(""), None);
}

#[test]
fn a_cover_is_declared_in_manifest_and_metadata() {
    let opf = "<package><metadata><dc:title>T</dc:title></metadata><manifest><item id=\"a\"/></manifest></package>";
    let out = add_cover_to_opf(opf, "cover.png", "png").unwrap();
    assert_eq!(
        out,
        "<package><metadata><dc:title>T</dc:title>    <meta name=\"cover\" content=\"cover-image\"/>\n  </metadata><manifest><item id=\"a\"/>    <item id=\"cover-image\" href=\"cover.png\" media-type=\"image/png\" properties=\"cover-image\"/>\n  </manifest></package>"
    );
}

#[test]
fn unknown_cover_extensions_count_as_jpeg() {
    let out = add_cover_to_opf("<manifest></manifest>", "cover.bmp", "bmp").unwrap();
    assert_eq!(
        out,
        "<manifest>    <item id=\"cover-image\" href=\"cover.bmp\" media-type=\"image/jpeg\" properties=\"cover-image\"/>\n  </manifest>"
    );
    let gif = add_cover_to_opf("</manifest>", "c.gif", "gif").unwrap();
    assert!(gif.contains("media-type=\"image/gif\""));
}

#[test]
fn a_document_without_the_end_tags_is_left_alone() {
    assert_eq!(add_cover_to_opf("<package/>", "cover.jpg", "jpg").unwrap(), "<package/>");
    assert_eq!(add_cover_to_opf("", "cover.jpg", "jpg").unwrap(), "");
}
