use std::collections::VecDeque;

use flashcards::{
    Card, Cards, CardsManager, Csv, FlashCard, FlashCardState, FlashCards, FlashCardsManager,
    FlipFlashCard, Loader,
};

fn create_test_manager() -> CardsManager<Card> {
    let mut cards: Cards<Card> = Cards::new();
    for x in 0..10 {
        cards.add_card(Card::new(
            format!("{} - front", x),
            format!("{} - back", x),
            format!("{} - hint", x),
        ));
    }

    CardsManager::create_from_deck(cards)
}

#[test]
fn test_reset_card_to_front() {
    let mut card_manager = create_test_manager();

    let _ = card_manager.next_card().unwrap();
    card_manager.flip_current_card();
    let card_ref = card_manager.current_card().unwrap();

    {
        let card = card_manager.resolve(&card_ref).unwrap();
        assert_eq!(card.get_state(), FlashCardState::Back);
    }

    card_manager.reset_current_card_state();
    let card = card_manager.resolve(&card_ref).unwrap();
    assert_eq!(card.get_state(), FlashCardState::Front);
}

#[test]
fn test_get_current_card() {
    let mut card_manager = create_test_manager();

    let next_card = card_manager.next_card().unwrap();
    let current_card = card_manager.current_card().unwrap();

    assert!(next_card.ptr_eq(&current_card));
}

#[test]
fn test_try_to_flip_current_card_to_hint() {
    let mut card_manager = create_test_manager();

    let _ = card_manager.next_card();
    card_manager.try_to_flip_current_card_to_hint();
    let current = card_manager.current_card().unwrap();
    let card = card_manager.resolve(&current).unwrap();
    assert_eq!(card.get_state(), FlashCardState::Hint);
}

#[test]
fn test_try_to_flip_to_hint_empty_hint_is_noop() {
    let mut cards: Cards<Card> = Cards::new();
    cards.add_card(Card::new(
        "front".to_string(),
        "back".to_string(),
        "".to_string(),
    ));
    let mut card_manager = CardsManager::create_from_deck(cards);

    let _ = card_manager.next_card().unwrap();
    card_manager.try_to_flip_current_card_to_hint();

    let current = card_manager.current_card().unwrap();
    let card = card_manager.resolve(&current).unwrap();
    assert_eq!(card.get_state(), FlashCardState::Front);
}

#[test]
fn test_flip_current_card() {
    let mut card_manager = create_test_manager();

    let _ = card_manager.next_card();
    card_manager.flip_current_card();
    let current = card_manager.current_card().unwrap();
    let card = card_manager.resolve(&current).unwrap();
    assert_eq!(card.get_state(), FlashCardState::Back);
}

#[test]
fn test_previous_card() {
    let mut card_manager = create_test_manager();

    let previous_card = card_manager.previous_card();
    assert!(previous_card.is_none());

    let next_card = card_manager.next_card().unwrap();
    let previous_card = card_manager.previous_card().unwrap();

    assert!(previous_card.ptr_eq(&next_card));
    let previous_front = card_manager.resolve(&previous_card).unwrap().get_front();
    let next_front = card_manager.resolve(&next_card).unwrap().get_front();
    assert_eq!(previous_front, next_front);
}

#[test]
fn test_next_card() {
    let mut card_manager = create_test_manager();

    let next_card = card_manager.next_card();
    assert!(next_card.is_some());
    assert_eq!(1, card_manager.num_of_cards_seen());
}

#[test]
fn test_add_previous_card_to_deck() {
    let mut card_manager = create_test_manager();
    let mut seen_cards = VecDeque::new();

    let total_num_of_cards_in_manager = card_manager.num_of_cards_in_deck();

    for _ in 0..5 {
        seen_cards.push_back(card_manager.next_card().unwrap());
    }

    assert_eq!(5, card_manager.num_of_cards_seen());

    card_manager.add_previous_cards_to_deck();

    for _ in 0..5 {
        let expect_card = seen_cards.pop_front().unwrap();
        let card = card_manager.next_card().unwrap();

        assert!(expect_card.ptr_eq(&card));
    }

    card_manager.add_previous_cards_to_deck();
    assert_eq!(
        total_num_of_cards_in_manager,
        card_manager.num_of_cards_in_deck()
    );
}

#[test]
fn test_shuffle() {
    let mut card_manager = create_test_manager();
    let mut seen_cards = VecDeque::new();

    for _ in 0..10 {
        seen_cards.push_back(card_manager.next_card().unwrap());
    }

    card_manager.add_previous_cards_to_deck();
    card_manager.shuffle();

    let mut is_shuffled = false;
    for _ in 0..10 {
        let expect_card = seen_cards.pop_front().unwrap();
        let card = card_manager.next_card().unwrap();

        if !expect_card.ptr_eq(&card) {
            is_shuffled = true;
            break;
        }
    }

    assert!(is_shuffled);
}

#[test]
fn test_empty_session() {
    let empty_deck: Cards<Card> = Cards::new();
    let mut card_manager = CardsManager::create_from_deck(empty_deck);

    assert_eq!(0, card_manager.num_of_cards_in_deck());
    assert_eq!(0, card_manager.num_of_cards_seen());
    assert!(card_manager.next_card().is_none());
    assert!(card_manager.previous_card().is_none());
    assert!(card_manager.current_card().is_none());
    assert_eq!(0, card_manager.num_of_cards_in_deck());
    assert_eq!(0, card_manager.num_of_cards_seen());
}

#[test]
fn test_conservation_across_navigation() {
    let mut card_manager = create_test_manager();

    let total = card_manager.num_of_cards_in_deck() + card_manager.num_of_cards_seen();
    assert_eq!(10, total);

    for _ in 0..7 {
        let _ = card_manager.next_card();
    }
    assert_eq!(
        10,
        card_manager.num_of_cards_in_deck() + card_manager.num_of_cards_seen()
    );

    for _ in 0..3 {
        let _ = card_manager.previous_card();
    }
    assert_eq!(
        10,
        card_manager.num_of_cards_in_deck() + card_manager.num_of_cards_seen()
    );

    card_manager.add_previous_cards_to_deck();
    assert_eq!(
        10,
        card_manager.num_of_cards_in_deck() + card_manager.num_of_cards_seen()
    );
    assert_eq!(0, card_manager.num_of_cards_seen());
}

#[test]
fn test_next_then_previous_restores_seen() {
    let mut card_manager = create_test_manager();

    let _ = card_manager.next_card().unwrap();
    let seen_before = card_manager.num_of_cards_seen();

    let next_card = card_manager.next_card().unwrap();
    let previous_card = card_manager.previous_card().unwrap();

    assert_eq!(seen_before, card_manager.num_of_cards_seen());
    assert!(previous_card.ptr_eq(&next_card));
}

#[test]
fn test_current_card_idempotent() {
    let mut card_manager = create_test_manager();

    let _ = card_manager.next_card().unwrap();
    let seen = card_manager.num_of_cards_seen();
    let unseen = card_manager.num_of_cards_in_deck();

    let first = card_manager.current_card().unwrap();
    let second = card_manager.current_card().unwrap();

    assert!(first.ptr_eq(&second));
    assert_eq!(seen, card_manager.num_of_cards_seen());
    assert_eq!(unseen, card_manager.num_of_cards_in_deck());
}

#[test]
fn test_bulk_replay_matches_repeated_previous() {
    let mut bulk_manager = create_test_manager();
    let mut step_manager = create_test_manager();

    for _ in 0..6 {
        let _ = bulk_manager.next_card().unwrap();
        let _ = step_manager.next_card().unwrap();
    }

    bulk_manager.add_previous_cards_to_deck();
    for _ in 0..6 {
        let _ = step_manager.previous_card().unwrap();
    }

    assert_eq!(0, bulk_manager.num_of_cards_seen());
    assert_eq!(0, step_manager.num_of_cards_seen());

    for _ in 0..10 {
        let bulk_card = bulk_manager.next_card().unwrap();
        let step_card = step_manager.next_card().unwrap();
        let bulk_front = bulk_manager.resolve(&bulk_card).unwrap().get_front();
        let step_front = step_manager.resolve(&step_card).unwrap().get_front();
        assert_eq!(bulk_front, step_front);
    }
}

#[test]
fn test_end_to_end_scenario() {
    let data = "front,back,hint\na,b,c\nd,e,\n";
    let deck = Csv::load(data).unwrap();
    assert_eq!(2, deck.deck_size());

    let mut card_manager = CardsManager::create_from_deck(deck);

    let first = card_manager.next_card().unwrap();
    assert_eq!("a".to_string(), card_manager.resolve(&first).unwrap().get_front());

    card_manager.flip_current_card();
    assert_eq!("b".to_string(), card_manager.resolve(&first).unwrap().display_text());

    // The first card has a hint, so the hint flip takes effect.
    card_manager.try_to_flip_current_card_to_hint();
    assert_eq!(
        FlashCardState::Hint,
        card_manager.resolve(&first).unwrap().get_state()
    );

    // The second card has an empty hint, so the hint flip is a no-op.
    let second = card_manager.next_card().unwrap();
    card_manager.try_to_flip_current_card_to_hint();
    assert_eq!(
        FlashCardState::Front,
        card_manager.resolve(&second).unwrap().get_state()
    );
}
