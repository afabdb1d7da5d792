use folio::models::Author;

#[test]
fn author_keeps_its_fields() {
    let a = Author::new(7, "Ursula K. Le Guin".to_string());
    assert_eq!(a.id, 7);
    assert_eq!(a.name, "Ursula K. Le Guin");
}
