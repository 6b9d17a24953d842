//! An ordered deck of cards: draw from the front, add at either end,
//! shuffle, and merge with another deck.
use vstd::prelude::*;

use crate::card::display_of;
use crate::shuffle::shuffle_vec;
use crate::traits::{FlashCard, FlashCards};

verus! {

/// A deck, abstracted as the sequence of its cards with the front of the
/// deck at index 0.
pub struct Cards<T: FlashCard> {
    data: Vec<T>,
}

impl<T: FlashCard> View for Cards<T> {
    type V = Seq<T>;

    closed spec fn view(&self) -> Seq<T> {
        self.data@
    }
}

/// The text a deck renders to: each card's current rendering, separated by
/// a comma and a space; an empty deck renders as empty text.
pub open spec fn deck_text<T: FlashCard>(s: Seq<T>) -> Seq<char>
    decreases s.len(),
{
    if s.len() == 0 {
        Seq::empty()
    } else if s.len() == 1 {
        display_of(s[0].card_view())
    } else {
        deck_text(s.drop_last()) + ", "@ + display_of(s.last().card_view())
    }
}

impl<T: FlashCard> Cards<T> {
    /// Makes an empty deck.
    pub fn new() -> (r: Self)
        ensures
            r@ == Seq::<T>::empty(),
    {
        Cards { data: Vec::new() }
    }

    /// Renders the deck: the cards' current renderings in deck order,
    /// comma-separated; empty text for an empty deck.
    pub fn display_text(&self) -> (r: String)
        ensures
            r@ == deck_text(self@),
    {
        let mut r = String::new();
        let mut i: usize = 0;
        while i < self.data.len()
            invariant
                i <= self@.len(),
                r@ == deck_text(self@.take(i as int)),
            decreases self@.len() - i,
        {
            if i > 0 {
                r.append(", ");
            }
            let t = self.data[i].display_text();
            r.append(t.as_str());
            proof {
                let taken = self@.take(i + 1int);
                assert(taken.drop_last() =~= self@.take(i as int));
                assert(taken.last() == self@[i as int]);
            }
            i += 1;
        }
        proof {
            assert(self@.take(self@.len() as int) =~= self@);
        }
        r
    }
}

impl<T: FlashCard> FlashCards<T> for Cards<T> {
    open spec fn deck_view(&self) -> Seq<T> {
        self@
    }

    fn shuffle(&mut self) {
        shuffle_vec(&mut self.data);
    }

    fn draw(&mut self) -> (r: Option<T>) {
        if self.data.len() > 0 {
            let c = self.data.remove(0);
            proof {
                assert(self.data@ =~= old(self).deck_view().drop_first());
            }
            Some(c)
        } else {
            None
        }
    }

    fn add_card(&mut self, new_card: T) {
        self.data.push(new_card);
    }

    fn add_card_to_top(&mut self, new_card: T) {
        self.data.insert(0, new_card);
        proof {
            assert(self.data@ =~= seq![new_card] + old(self).deck_view());
        }
    }

    fn deck_size(&self) -> (n: usize) {
        self.data.len()
    }

    fn add_deck(&mut self, deck: Self) {
        let mut other = deck;
        self.data.append(&mut other.data);
    }
}

} // verus!
