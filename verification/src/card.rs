//! A single flashcard: front text, back text, an optional hint, and the
//! display state that says which of the three is currently shown.
use vstd::prelude::*;

use crate::enums::{flipped, FlashCardState};
use crate::traits::{FlashCard, FlipFlashCard};

verus! {

/// The mathematical value of a [`Card`]: its three texts and its state.
pub struct CardView {
    pub front: Seq<char>,
    pub back: Seq<char>,
    pub hint: Option<Seq<char>>,
    pub state: FlashCardState,
}

/// The text a card shows for a given value: the face named by its state,
/// where a missing hint is rendered as the sentinel `"No Hint Found"`.
pub open spec fn display_of(c: CardView) -> Seq<char> {
    match c.state {
        FlashCardState::Front => c.front,
        FlashCardState::Back => c.back,
        FlashCardState::Hint => match c.hint {
            Some(h) => h,
            None => "No Hint Found"@,
        },
    }
}

/// True exactly when the card carries a hint with at least one character:
/// a hint that is absent, or present but empty, counts as no hint.
pub open spec fn has_nonempty_hint(c: CardView) -> bool {
    match c.hint {
        Some(h) => h.len() > 0,
        None => false,
    }
}

/// A flashcard. Created showing its front; mutated only through
/// [`Card::flip`] and [`Card::set_state`].
#[derive(Debug)]
pub struct Card {
    front: String,
    back: String,
    hint: Option<String>,
    state: FlashCardState,
}

impl View for Card {
    type V = CardView;

    closed spec fn view(&self) -> CardView {
        CardView {
            front: self.front@,
            back: self.back@,
            hint: match self.hint {
                Some(h) => Some(h@),
                None => None,
            },
            state: self.state,
        }
    }
}

impl Card {
    /// Makes a card with the given texts, showing its front.
    pub fn new(front: String, back: String, hint: String) -> (r: Self)
        ensures
            r@ == (CardView {
                front: front@,
                back: back@,
                hint: Some(hint@),
                state: FlashCardState::Front,
            }),
    {
        Card { front, back, hint: Some(hint), state: FlashCardState::Front }
    }

    /// Makes a card that has no hint, showing its front.
    pub fn new_without_hint(front: String, back: String) -> (r: Self)
        ensures
            r@ == (CardView {
                front: front@,
                back: back@,
                hint: None,
                state: FlashCardState::Front,
            }),
    {
        Card { front, back, hint: None, state: FlashCardState::Front }
    }
}

impl FlashCard for Card {
    open spec fn card_view(&self) -> CardView {
        self@
    }

    fn get_front(&self) -> (r: String) {
        self.front.clone()
    }

    fn get_back(&self) -> (r: String) {
        self.back.clone()
    }

    fn get_hint(&self) -> (r: Option<String>) {
        match &self.hint {
            Some(h) => Some(h.clone()),
            None => None,
        }
    }

    fn display_text(&self) -> (r: String) {
        match self.state {
            FlashCardState::Front => self.front.clone(),
            FlashCardState::Back => self.back.clone(),
            FlashCardState::Hint => match &self.hint {
                Some(h) => h.clone(),
                None => String::from_str("No Hint Found"),
            },
        }
    }
}

impl FlipFlashCard for Card {
    fn get_state(&self) -> (r: FlashCardState) {
        self.state
    }

    fn set_state(&mut self, state: FlashCardState) {
        self.state = state;
    }

    fn flip(&mut self) -> (r: FlashCardState) {
        let next = match self.state {
            FlashCardState::Front => FlashCardState::Back,
            FlashCardState::Back => FlashCardState::Front,
            FlashCardState::Hint => FlashCardState::Front,
        };
        self.state = next;
        next
    }
}

} // verus!
