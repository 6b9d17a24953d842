use flashcards::FlashCardState;

#[test]
fn test_get_state() {
    assert_eq!("back".to_string(), FlashCardState::Back.to_text());
    assert_eq!("hint".to_string(), FlashCardState::Hint.to_text());
    assert_eq!("front".to_string(), FlashCardState::Front.to_text());
}
