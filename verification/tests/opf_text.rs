use folio::epub::update_opf_metadata;

const OPF: &str = "<metadata>\n  <dc:title id=\"t\">Old</dc:title>\n  <dc:creator>Someone</dc:creator>\n</metadata>";

#[test]
fn existing_elements_are_replaced() {
    let out = update_opf_metadata(OPF, Some("New & Improved"), None, None, None, None).unwrap();
    assert_eq!(
        out,
        "<metadata>\n  <dc:title>New &amp; Improved</dc:title>\n  <dc:creator>Someone</dc:creator>\n</metadata>"
    );
}

#[test]
fn lacking_elements_are_put_in_before_the_metadata_ends() {
    let out = update_opf_metadata(OPF, None, None, Some("en"), None, Some("Ace")).unwrap();
    assert_eq!(
        out,
        "<metadata>\n  <dc:title id=\"t\">Old</dc:title>\n  <dc:creator>Someone</dc:creator>\n  \
         <dc:language>en</dc:language>\n    <dc:publisher>Ace</dc:publisher>\n  </metadata>"
    );
}

#[test]
fn only_the_first_of_several_elements_is_replaced() {
    let twice = "<metadata><dc:creator>A</dc:creator><dc:creator>B</dc:creator></metadata>";
    let out = update_opf_metadata(twice, None, Some("C"), None, None, None).unwrap();
    assert_eq!(out, "<metadata><dc:creator>C</dc:creator><dc:creator>B</dc:creator></metadata>");
}

#[test]
fn nothing_given_changes_nothing() {
    assert_eq!(update_opf_metadata(OPF, None, None, None, None, None).unwrap(), OPF);
    assert_eq!(update_opf_metadata("", Some("T"), None, None, None, None).unwrap(), "");
}
