//! The capability interfaces of the library: reading a card's faces,
//! flipping its state, and holding an ordered deck of cards.
use vstd::prelude::*;

use crate::card::{display_of, has_nonempty_hint, Card, CardView};
use crate::cards::Cards;
use crate::enums::{flipped, FlashCardState};
use crate::loader::ParseError;
use crate::manager::CardHandle;

verus! {

/// A readable flashcard: three faces and a display state, abstracted as a
/// [`CardView`].
pub trait FlashCard: Sized {
    /// The mathematical value of this card.
    spec fn card_view(&self) -> CardView;

    /// Returns the front text.
    fn get_front(&self) -> (r: String)
        ensures
            r@ == self.card_view().front,
    ;

    /// Returns the back text.
    fn get_back(&self) -> (r: String)
        ensures
            r@ == self.card_view().back,
    ;

    /// Returns the hint text, or `None` where the card has none.
    fn get_hint(&self) -> (r: Option<String>)
        ensures
            match r {
                Some(h) => self.card_view().hint == Some(h@),
                None => self.card_view().hint is None,
            },
    ;

    /// Renders the card: the text of the face its state names, with the
    /// sentinel `"No Hint Found"` standing in for a missing hint.
    fn display_text(&self) -> (r: String)
        ensures
            r@ == display_of(self.card_view()),
    ;
}

/// A flashcard whose display state can be changed.
pub trait FlipFlashCard: FlashCard {
    /// Returns the current display state.
    fn get_state(&self) -> (r: FlashCardState)
        ensures
            r == self.card_view().state,
    ;

    /// Forces the display state to `state`, leaving the texts unchanged.
    fn set_state(&mut self, state: FlashCardState)
        ensures
            final(self).card_view() == (CardView { state, ..old(self).card_view() }),
    ;

    /// Flips the card: `Front` and `Back` toggle, and `Hint` returns to
    /// `Front`. Returns the state reached.
    fn flip(&mut self) -> (r: FlashCardState)
        ensures
            final(self).card_view() == (CardView {
                state: flipped(old(self).card_view().state),
                ..old(self).card_view()
            }),
            r == flipped(old(self).card_view().state),
    ;
}

/// An ordered deck of cards. Index 0 of the abstract sequence is the front
/// of the deck: `draw` removes it, `add_card` appends to the tail, and
/// `add_card_to_top` prepends.
pub trait FlashCards<T: FlashCard>: Sized {
    /// The cards of the deck, front first.
    spec fn deck_view(&self) -> Seq<T>;

    /// Permutes the deck at random; no card is lost or duplicated.
    fn shuffle(&mut self)
        ensures
            final(self).deck_view().to_multiset() == old(self).deck_view().to_multiset(),
            final(self).deck_view().len() == old(self).deck_view().len(),
    ;

    /// Removes and returns the front card, or `None` on an empty deck.
    fn draw(&mut self) -> (r: Option<T>)
        ensures
            match r {
                Some(c) => old(self).deck_view().len() > 0 && c == old(self).deck_view()[0]
                    && final(self).deck_view() == old(self).deck_view().drop_first(),
                None => old(self).deck_view().len() == 0 && *final(self) == *old(self),
            },
    ;

    /// Appends a card at the tail of the deck.
    fn add_card(&mut self, new_card: T)
        ensures
            final(self).deck_view() == old(self).deck_view().push(new_card),
    ;

    /// Prepends a card at the front of the deck.
    fn add_card_to_top(&mut self, new_card: T)
        ensures
            final(self).deck_view() == seq![new_card] + old(self).deck_view(),
    ;

    /// Returns how many cards the deck holds.
    fn deck_size(&self) -> (n: usize)
        ensures
            n == self.deck_view().len(),
    ;

    /// Drains another deck into this one, front first, appending at the tail.
    fn add_deck(&mut self, deck: Self)
        ensures
            final(self).deck_view() == old(self).deck_view() + deck.deck_view(),
    ;
}

/// A deck loader: parses tabular text into a deck of cards. What a valid
/// input looks like, and what comes out of one, is each implementation's
/// own contract.
pub trait Loader {
    /// Parses `data` into a deck, or reports why it is malformed.
    fn load(data: &str) -> Result<Cards<Card>, ParseError>;
}

/// A study session over cards of type `T`: two queues of stable card
/// identities (`unseen_ids`, `seen_ids`) over an arena (`all_cards`),
/// navigated one card at a time. `wf` is the conservation invariant every
/// operation preserves: together the queues hold each card exactly once.
pub trait FlashCardsManager<T: FlipFlashCard>: Sized {
    /// Every card of the session, in the order the deck yielded them.
    spec fn all_cards(&self) -> Seq<T>;

    /// The queue of cards not yet navigated to, front at index 0.
    spec fn unseen_ids(&self) -> Seq<usize>;

    /// The queue of cards already navigated to, front at index 0; the
    /// front of this queue is the current card.
    spec fn seen_ids(&self) -> Seq<usize>;

    /// Conservation: the two queues together hold each arena index
    /// exactly once — no card is ever duplicated or lost.
    spec fn wf(&self) -> bool;

    /// Advances the session: the front of `unseen` becomes the new
    /// current card (the front of `seen`) and a handle to it is returned.
    /// The handle names a card of the arena, so resolving it succeeds as
    /// long as the manager lives. On an empty `unseen` queue nothing
    /// changes and nothing is returned.
    fn next_card(&mut self) -> (r: Option<CardHandle>)
        requires
            old(self).wf(),
        ensures
            final(self).wf(),
            final(self).all_cards() == old(self).all_cards(),
            match r {
                Some(h) => {
                    &&& old(self).unseen_ids().len() > 0
                    &&& h.card_id() == old(self).unseen_ids()[0]
                    &&& h.card_id() < final(self).all_cards().len()
                    &&& final(self).seen_ids() == seq![old(self).unseen_ids()[0]] + old(
                        self,
                    ).seen_ids()
                    &&& final(self).unseen_ids() == old(self).unseen_ids().drop_first()
                },
                None => old(self).unseen_ids().len() == 0 && *final(self) == *old(self),
            },
    ;

    /// Steps the session backward: the current card (front of `seen`)
    /// moves back to the front of `unseen` and a handle to it is
    /// returned; the new current card is whatever `seen` now starts with.
    /// The handle names a card of the arena, so resolving it succeeds as
    /// long as the manager lives. On an empty `seen` queue nothing
    /// changes and nothing is returned.
    fn previous_card(&mut self) -> (r: Option<CardHandle>)
        requires
            old(self).wf(),
        ensures
            final(self).wf(),
            final(self).all_cards() == old(self).all_cards(),
            match r {
                Some(h) => {
                    &&& old(self).seen_ids().len() > 0
                    &&& h.card_id() == old(self).seen_ids()[0]
                    &&& h.card_id() < final(self).all_cards().len()
                    &&& final(self).unseen_ids() == seq![old(self).seen_ids()[0]] + old(
                        self,
                    ).unseen_ids()
                    &&& final(self).seen_ids() == old(self).seen_ids().drop_first()
                },
                None => old(self).seen_ids().len() == 0 && *final(self) == *old(self),
            },
    ;

    /// Peeks at the current card without touching either queue: a handle
    /// to the front of `seen`, or nothing while no card has been seen.
    /// The handle names a card of the arena, so resolving it succeeds as
    /// long as the manager lives.
    fn current_card(&self) -> (r: Option<CardHandle>)
        requires
            self.wf(),
        ensures
            match r {
                Some(h) => self.seen_ids().len() > 0 && h.card_id() == self.seen_ids()[0]
                    && h.card_id() < self.all_cards().len(),
                None => self.seen_ids().len() == 0,
            },
    ;

    /// Flips the current card in place; a silent no-op while `seen` is
    /// empty. Both queues are left untouched, so every outstanding handle
    /// still names the same card.
    fn flip_current_card(&mut self)
        requires
            old(self).wf(),
        ensures
            final(self).wf(),
            final(self).seen_ids() == old(self).seen_ids(),
            final(self).unseen_ids() == old(self).unseen_ids(),
            old(self).seen_ids().len() == 0 ==> *final(self) == *old(self),
            old(self).seen_ids().len() > 0 ==> ({
                let id = old(self).seen_ids()[0] as int;
                &&& final(self).all_cards().len() == old(self).all_cards().len()
                &&& final(self).all_cards()[id].card_view() == (CardView {
                    state: flipped(old(self).all_cards()[id].card_view().state),
                    ..old(self).all_cards()[id].card_view()
                })
                &&& forall|k: int|
                    0 <= k < old(self).all_cards().len() && k != id ==> final(self).all_cards()[k]
                        == old(self).all_cards()[k]
            }),
    ;

    /// Forces the current card's state to `Hint`, provided the card has a
    /// non-empty hint; a silent no-op while `seen` is empty or the card's
    /// hint is absent or empty.
    fn try_to_flip_current_card_to_hint(&mut self)
        requires
            old(self).wf(),
        ensures
            final(self).wf(),
            final(self).seen_ids() == old(self).seen_ids(),
            final(self).unseen_ids() == old(self).unseen_ids(),
            old(self).seen_ids().len() == 0 ==> *final(self) == *old(self),
            old(self).seen_ids().len() > 0 ==> ({
                let id = old(self).seen_ids()[0] as int;
                &&& !has_nonempty_hint(old(self).all_cards()[id].card_view()) ==> *final(self)
                    == *old(self)
                &&& has_nonempty_hint(old(self).all_cards()[id].card_view()) ==> {
                    &&& final(self).all_cards().len() == old(self).all_cards().len()
                    &&& final(self).all_cards()[id].card_view() == (CardView {
                        state: FlashCardState::Hint,
                        ..old(self).all_cards()[id].card_view()
                    })
                    &&& forall|k: int|
                        0 <= k < old(self).all_cards().len() && k != id
                            ==> final(self).all_cards()[k] == old(self).all_cards()[k]
                }
            }),
    ;

    /// Forces the current card's state back to `Front`; a silent no-op
    /// while `seen` is empty.
    fn reset_current_card_state(&mut self)
        requires
            old(self).wf(),
        ensures
            final(self).wf(),
            final(self).seen_ids() == old(self).seen_ids(),
            final(self).unseen_ids() == old(self).unseen_ids(),
            old(self).seen_ids().len() == 0 ==> *final(self) == *old(self),
            old(self).seen_ids().len() > 0 ==> ({
                let id = old(self).seen_ids()[0] as int;
                &&& final(self).all_cards().len() == old(self).all_cards().len()
                &&& final(self).all_cards()[id].card_view() == (CardView {
                    state: FlashCardState::Front,
                    ..old(self).all_cards()[id].card_view()
                })
                &&& forall|k: int|
                    0 <= k < old(self).all_cards().len() && k != id ==> final(self).all_cards()[k]
                        == old(self).all_cards()[k]
            }),
    ;

    /// Shuffles the `unseen` queue at random; `seen` and the arena are
    /// untouched, and no card is lost or duplicated.
    fn shuffle(&mut self)
        requires
            old(self).wf(),
        ensures
            final(self).wf(),
            final(self).all_cards() == old(self).all_cards(),
            final(self).seen_ids() == old(self).seen_ids(),
            final(self).unseen_ids().to_multiset() == old(self).unseen_ids().to_multiset(),
            final(self).unseen_ids().len() == old(self).unseen_ids().len(),
    ;

    /// Replays the whole `seen` history: every seen card moves back into
    /// `unseen`, exactly as repeated `previous_card` calls would, leaving
    /// `seen` empty.
    fn add_previous_cards_to_deck(&mut self)
        requires
            old(self).wf(),
        ensures
            final(self).wf(),
            final(self).all_cards() == old(self).all_cards(),
            final(self).seen_ids() == Seq::<usize>::empty(),
            final(self).unseen_ids() == old(self).seen_ids().reverse() + old(self).unseen_ids(),
    ;

    /// How many cards are still in the unseen deck.
    fn num_of_cards_in_deck(&self) -> (n: usize)
        ensures
            n == self.unseen_ids().len(),
    ;

    /// How many cards have been seen.
    fn num_of_cards_seen(&self) -> (n: usize)
        ensures
            n == self.seen_ids().len(),
    ;
}

} // verus!
