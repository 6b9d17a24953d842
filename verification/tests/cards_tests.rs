use flashcards::{Card, Cards, FlashCard, FlashCards};

fn create_test_cards() -> Cards<Card> {
    let mut cards: Cards<Card> = Cards::new();
    for x in 0..10 {
        cards.add_card(Card::new(
            format!("{} - front", x),
            format!("{} - back", x),
            format!("{} - hint", x),
        ));
    }
    cards
}

#[test]
fn test_flashcards_add_deck() {
    let mut cards_1 = create_test_cards();
    let cards_2 = create_test_cards();

    cards_1.add_deck(cards_2);

    assert_eq!(cards_1.deck_size(), 20);
}

#[test]
fn test_flashcards_draw() {
    let mut cards = create_test_cards();

    while cards.deck_size() > 0 {
        assert!(cards.draw().is_some());
    }

    assert!(cards.draw().is_none());
}

#[test]
fn test_flashcards_add_card_to_top() {
    let mut cards = create_test_cards();

    let card = cards.draw().unwrap();

    let card1_text = card.get_front();

    cards.add_card_to_top(card);

    let card_2 = cards.draw().unwrap();

    assert_eq!(card1_text, card_2.get_front());
}

#[test]
fn test_flashcards_deck_size() {
    let cards = create_test_cards();
    assert_eq!(10, cards.deck_size())
}

#[test]
fn test_flashcards_empty_print() {
    let cards: Cards<Card> = Cards::new();
    assert_eq!("", cards.display_text())
}

#[test]
fn test_flashcards_shuffle() {
    let mut found_difference = false;

    // The outer for loop is just in case the shuffle order is the same as the orginal order.
    // In that case, try again.
    for _ in 0..10 {
        // Shuffle the first deck
        let mut cards_1 = create_test_cards();
        cards_1.shuffle();

        // Do not shuffle the second deck
        let mut cards_2 = create_test_cards();

        println!("cards_1: {}", cards_1.display_text());
        println!("cards_2: {}", cards_2.display_text());

        for _ in 0..10 {
            let card_from_deck_1 = cards_1.draw().unwrap();
            let card_from_deck_2 = cards_2.draw().unwrap();

            println!("cards_1 draw: {}", card_from_deck_1.display_text());
            println!("cards_2 draw: {}", card_from_deck_2.display_text());

            if !card_from_deck_1.display_text().eq(&card_from_deck_2.display_text()) {
                found_difference = true;
                break;
            }
        }

        if found_difference {
            break;
        }
    }

    assert!(found_difference)
}

#[test]
fn test_two_card_deck_print() {
    let mut cards: Cards<Card> = Cards::new();
    cards.add_card(Card::new("a".to_string(), "b".to_string(), "c".to_string()));
    cards.add_card(Card::new("d".to_string(), "e".to_string(), "f".to_string()));

    assert_eq!("a, d", cards.display_text());
}
