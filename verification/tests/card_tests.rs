use flashcards::{Card, FlashCard, FlashCardState, FlipFlashCard};

#[test]
fn test_new_card() {
    let front = "front".to_string();
    let back = "back".to_string();
    let hint = "hint".to_string();

    let card = Card::new(front.clone(), back.clone(), hint.clone());

    assert_eq!(card.get_front(), front);
    assert_eq!(card.get_back(), back);
    assert_eq!(card.get_hint(), Some(hint));
    assert_eq!(card.get_state(), FlashCardState::Front);
}

#[test]
fn test_flip() {
    let front = "front".to_string();
    let back = "back".to_string();
    let hint = "hint".to_string();

    let mut card = Card::new(front.clone(), back.clone(), hint.clone());

    // Test Back
    card.flip();
    assert_eq!(card.get_state(), FlashCardState::Back);

    // Test Front
    card.flip();
    assert_eq!(card.get_state(), FlashCardState::Front);

    // Test Hint
    card.set_state(FlashCardState::Hint);
    card.flip();
    assert_eq!(card.get_state(), FlashCardState::Front);
}

#[test]
fn test_display_and_state_change() {
    let front = "front".to_string();
    let back = "back".to_string();
    let hint = "hint".to_string();

    let mut card = Card::new(front.clone(), back.clone(), hint.clone());

    // Test front
    assert_eq!(card.display_text(), front);

    // Test back
    card.set_state(FlashCardState::Back);
    assert_eq!(card.display_text(), back);

    // Test hint
    card.set_state(FlashCardState::Hint);
    assert_eq!(card.display_text(), hint);
}

#[test]
fn test_hint_fallback_sentinel() {
    let mut card = Card::new_without_hint("front".to_string(), "back".to_string());

    assert_eq!(card.get_hint(), None);

    card.set_state(FlashCardState::Hint);
    assert_eq!(card.display_text(), "No Hint Found".to_string());
}
