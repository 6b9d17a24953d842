//! The display state of a flashcard and its transition rules.
use vstd::prelude::*;

verus! {

/// Which face of a card is currently being shown.
///
/// `Front` is the initial state of every card.
#[derive(Clone, Copy, Debug, PartialEq, Eq, Structural)]
pub enum FlashCardState {
    Front,
    Back,
    Hint,
}

/// The state reached by flipping a card once: `Front` and `Back` toggle,
/// while flipping away from `Hint` returns to `Front` rather than `Back`.
pub open spec fn flipped(s: FlashCardState) -> FlashCardState {
    match s {
        FlashCardState::Front => FlashCardState::Back,
        FlashCardState::Back => FlashCardState::Front,
        FlashCardState::Hint => FlashCardState::Front,
    }
}

/// The text that names a display state.
pub open spec fn state_text(s: FlashCardState) -> Seq<char> {
    match s {
        FlashCardState::Front => "front"@,
        FlashCardState::Back => "back"@,
        FlashCardState::Hint => "hint"@,
    }
}

impl FlashCardState {
    /// Returns the name of this state as text.
    pub fn to_text(&self) -> (r: String)
        ensures
            r@ == state_text(*self),
    {
        match self {
            FlashCardState::Front => String::from_str("front"),
            FlashCardState::Back => String::from_str("back"),
            FlashCardState::Hint => String::from_str("hint"),
        }
    }
}

/// Flipping is a two-state toggle with `Hint` as a side branch: from `Front`
/// one flip shows `Back` and a second flip returns to `Front`, while a flip
/// out of `Hint` goes to `Front`, never to `Back`.
pub proof fn lemma_flip_cycle()
    ensures
        flipped(FlashCardState::Front) == FlashCardState::Back,
        flipped(flipped(FlashCardState::Front)) == FlashCardState::Front,
        flipped(FlashCardState::Hint) == FlashCardState::Front,
{
}

} // verus!
