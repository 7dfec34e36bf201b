use portfolio::text::same_text;

#[test]
fn texts_are_the_same_when_every_character_is() {
    assert!(same_text("", ""));
    assert!(same_text("bitcoin", "bitcoin"));
    assert!(!same_text("bitcoin", "bitcoim"));
    assert!(!same_text("bitcoin", "bitcoi"));
    assert!(!same_text("bitcoin", "bitcoins"));
    assert!(!same_text("bitcoin", "Bitcoin"));
    assert!(!same_text("", " "));
    assert!(same_text("bitcøin €", "bitcøin €"));
    assert!(!same_text("bitcøin", "bitcoin"));
}
