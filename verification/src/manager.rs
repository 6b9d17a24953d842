//! The study-session manager: owns every card of a session and partitions
//! them into an `unseen` and a `seen` queue. Navigation moves one card at a
//! time between the queue fronts; the card at the front of `seen` is the
//! current card, and its display state can be changed in place while
//! callers keep handles to it.
//!
//! Cards live in an arena that never shrinks or reorders, and the queues
//! hold arena indices. A [`CardHandle`] is such an index: a non-owning
//! reference that is resolved against the manager at time of use, so a
//! state change made through the manager is visible through every
//! outstanding handle.
use vstd::prelude::*;

use crate::enums::FlashCardState;
use crate::shuffle::shuffle_vec;
use crate::traits::{FlashCards, FlashCardsManager, FlipFlashCard};

verus! {

/// The identity sequence of arena indices `0, 1, ..., n - 1`.
pub open spec fn id_seq(n: nat) -> Seq<usize> {
    Seq::new(n, |i: int| i as usize)
}

/// A non-owning reference to a card of a session: it names a card stably
/// across queue moves and must be resolved through
/// [`CardsManager::resolve`] before use.
#[derive(Clone, Copy, Debug, PartialEq, Eq, Structural)]
pub struct CardHandle {
    id: usize,
}

impl CardHandle {
    /// The arena index this handle names.
    pub closed spec fn card_id(&self) -> usize {
        self.id
    }

    /// True exactly when the two handles name the same card.
    pub fn ptr_eq(&self, other: &CardHandle) -> (r: bool)
        ensures
            r == (self.card_id() == other.card_id()),
    {
        self.id == other.id
    }
}

/// A study session over cards of type `T`.
pub struct CardsManager<T: FlipFlashCard> {
    cards: Vec<T>,
    unseen: Vec<usize>,
    seen: Vec<usize>,
}

/// Every index that occurs in either half of a well-formed queue pair is an
/// index of the arena.
proof fn lemma_ids_in_range(a: Seq<usize>, b: Seq<usize>, n: nat)
    requires
        (a + b).to_multiset() == id_seq(n).to_multiset(),
    ensures
        forall|k: int| 0 <= k < a.len() ==> (#[trigger] a[k]) < n,
        forall|k: int| 0 <= k < b.len() ==> (#[trigger] b[k]) < n,
{
    let cat = a + b;
    assert forall|k: int| 0 <= k < cat.len() implies (#[trigger] cat[k]) < n by {
        vstd::seq_lib::to_multiset_contains(cat, cat[k]);
        vstd::seq_lib::to_multiset_contains(id_seq(n), cat[k]);
        assert(cat.contains(cat[k]));
        assert(id_seq(n).contains(cat[k]));
        let m = choose|m: int| 0 <= m < id_seq(n).len() && id_seq(n)[m] == cat[k];
        assert(id_seq(n)[m] == m as usize);
    }
    assert forall|k: int| 0 <= k < a.len() implies (#[trigger] a[k]) < n by {
        assert(cat[k] == a[k]);
    }
    assert forall|k: int| 0 <= k < b.len() implies (#[trigger] b[k]) < n by {
        assert(cat[a.len() + k] == b[k]);
    }
}

/// Moving the front element of one queue to the front of the other keeps
/// the multiset of the two queues together unchanged, in either direction.
proof fn lemma_move_front_multiset(src: Seq<usize>, dst: Seq<usize>)
    requires
        src.len() > 0,
    ensures
        (dst.insert(0, src[0]) + src.remove(0)).to_multiset() == (dst + src).to_multiset(),
        (src.remove(0) + dst.insert(0, src[0])).to_multiset() == (src + dst).to_multiset(),
{
    let x = src[0];
    let src2 = src.remove(0);
    let dst2 = dst.insert(0, x);
    vstd::seq_lib::lemma_multiset_commutative(dst2, src2);
    vstd::seq_lib::lemma_multiset_commutative(dst, src);
    vstd::seq_lib::lemma_multiset_commutative(src2, dst2);
    vstd::seq_lib::lemma_multiset_commutative(src, dst);
    vstd::seq_lib::to_multiset_insert(dst, 0, x);
    vstd::seq_lib::to_multiset_remove(src, 0);
    vstd::seq_lib::to_multiset_contains(src, x);
    assert(src.contains(x)) by {
        assert(src[0] == x);
    }
    broadcast use vstd::multiset::group_multiset_axioms;

    assert forall|y: usize|
        dst2.to_multiset().add(src2.to_multiset()).count(y) == dst.to_multiset().add(
            src.to_multiset(),
        ).count(y) by {
        assert(dst2.to_multiset().count(y) == dst.to_multiset().count(y) + (if y == x {
            1int
        } else {
            0int
        }));
        assert(src2.to_multiset().count(y) == src.to_multiset().count(y) - (if y == x {
            1int
        } else {
            0int
        }));
    }
    assert(dst2.to_multiset().add(src2.to_multiset()) =~= dst.to_multiset().add(
        src.to_multiset(),
    ));
    assert(src2.to_multiset().add(dst2.to_multiset()) =~= src.to_multiset().add(
        dst.to_multiset(),
    ));
}

impl<T: FlipFlashCard> CardsManager<T> {
    /// Conservation: however the session has been navigated, the unseen
    /// and seen counts always sum to the size of the deck the session was
    /// built from — no card is ever duplicated or lost.
    pub proof fn lemma_conservation(&self)
        requires
            self.wf(),
        ensures
            self.seen_ids().len() + self.unseen_ids().len() == self.all_cards().len(),
    {
        let cat = self.seen@ + self.unseen@;
        let n = self.cards@.len();
        vstd::seq_lib::to_multiset_len(cat);
        vstd::seq_lib::to_multiset_len(id_seq(n));
    }
}

/// Navigating forward and then backward is a round trip: after a
/// successful `next_card`, a `previous_card` call moves back exactly the
/// card the `next_card` returned, and both queues end as they began.
pub proof fn lemma_next_then_previous_restores(seen: Seq<usize>, unseen: Seq<usize>)
    requires
        unseen.len() > 0,
    ensures
        ({
            let seen_after = seq![unseen[0]] + seen;
            let unseen_after = unseen.drop_first();
            &&& seen_after.len() > 0
            &&& seen_after[0] == unseen[0]
            &&& seen_after.drop_first() == seen
            &&& seq![seen_after[0]] + unseen_after == unseen
        }),
{
    let seen_after = seq![unseen[0]] + seen;
    let unseen_after = unseen.drop_first();
    assert(seen_after.drop_first() =~= seen);
    assert(seq![seen_after[0]] + unseen_after =~= unseen);
}

/// One backward navigation step on the queue pair: the front of `seen`
/// moves to the front of `unseen`; on an empty `seen` nothing changes.
pub open spec fn previous_step(seen: Seq<usize>, unseen: Seq<usize>) -> (Seq<usize>, Seq<usize>) {
    if seen.len() == 0 {
        (seen, unseen)
    } else {
        (seen.drop_first(), seq![seen[0]] + unseen)
    }
}

/// `k` backward navigation steps in a row.
pub open spec fn previous_steps(seen: Seq<usize>, unseen: Seq<usize>, k: nat) -> (
    Seq<usize>,
    Seq<usize>,
)
    decreases k,
{
    if k == 0 {
        (seen, unseen)
    } else {
        let p = previous_step(seen, unseen);
        previous_steps(p.0, p.1, (k - 1) as nat)
    }
}

/// Bulk replay equivalence: draining `seen` one `previous_card` step at a
/// time ends exactly where `add_previous_cards_to_deck` ends — `seen`
/// empty and the whole history prepended, in reverse, to `unseen`.
pub proof fn lemma_bulk_replay_equivalence(seen: Seq<usize>, unseen: Seq<usize>)
    ensures
        previous_steps(seen, unseen, seen.len()) == (
            Seq::<usize>::empty(),
            seen.reverse() + unseen,
        ),
    decreases seen.len(),
{
    if seen.len() == 0 {
        assert(seen =~= Seq::<usize>::empty());
        assert(seen.reverse() + unseen =~= unseen);
    } else {
        let tail = seen.drop_first();
        lemma_bulk_replay_equivalence(tail, seq![seen[0]] + unseen);
        assert(previous_steps(seen, unseen, seen.len()) == previous_steps(
            tail,
            seq![seen[0]] + unseen,
            tail.len(),
        ));
        assert(tail.reverse() + (seq![seen[0]] + unseen) =~= seen.reverse() + unseen) by {
            assert forall|i: int| 0 <= i < seen.len() implies (tail.reverse() + (seq![seen[0]]
                + unseen))[i] == seen.reverse()[i] by {
                if i < seen.len() - 1 {
                    assert(tail.reverse()[i] == tail[seen.len() - 2 - i]);
                }
            }
        }
    }
}

impl<T: FlipFlashCard> CardsManager<T> {
    /// Builds a session by draining the deck: each drawn card enters the
    /// arena and the `unseen` queue in draw order; `seen` starts empty.
    pub fn create_from_deck<D: FlashCards<T>>(deck: D) -> (r: Self)
        ensures
            r.wf(),
            r.all_cards() == deck.deck_view(),
            r.unseen_ids() == id_seq(deck.deck_view().len()),
            r.seen_ids() == Seq::<usize>::empty(),
    {
        let ghost orig = deck.deck_view();
        let mut d = deck;
        let mut cards: Vec<T> = Vec::new();
        let mut unseen: Vec<usize> = Vec::new();
        let mut remaining: usize = d.deck_size();
        while remaining > 0
            invariant
                remaining == d.deck_view().len(),
                cards@.len() + remaining == orig.len(),
                cards@ == orig.take(cards@.len() as int),
                unseen@ == id_seq(cards@.len()),
                d.deck_view() == orig.skip(cards@.len() as int),
            decreases remaining,
        {
            let ghost k = cards@.len() as int;
            let c = d.draw().unwrap();
            unseen.push(cards.len());
            cards.push(c);
            remaining = remaining - 1;
            proof {
                assert(c == orig[k]) by {
                    assert(orig.skip(k)[0] == orig[k]);
                }
                assert(cards@ =~= orig.take(k + 1));
                assert(unseen@ =~= id_seq((k + 1) as nat));
                assert(orig.skip(k).drop_first() =~= orig.skip(k + 1));
            }
        }
        let r = CardsManager { cards, unseen, seen: Vec::new() };
        proof {
            assert(r.all_cards() =~= orig);
            assert(r.seen@ + r.unseen@ =~= r.unseen@);
        }
        r
    }

    /// Resolves a handle to the card it names. Fails only on a handle that
    /// does not belong to this session's arena.
    pub fn resolve(&self, handle: &CardHandle) -> (r: Option<&T>)
        ensures
            match r {
                Some(c) => handle.card_id() < self.all_cards().len() && *c == self.all_cards()[
                    handle.card_id() as int],
                None => handle.card_id() >= self.all_cards().len(),
            },
    {
        if handle.id < self.cards.len() {
            Some(&self.cards[handle.id])
        } else {
            None
        }
    }
}

impl<T: FlipFlashCard> FlashCardsManager<T> for CardsManager<T> {
    closed spec fn all_cards(&self) -> Seq<T> {
        self.cards@
    }

    closed spec fn unseen_ids(&self) -> Seq<usize> {
        self.unseen@
    }

    closed spec fn seen_ids(&self) -> Seq<usize> {
        self.seen@
    }

    closed spec fn wf(&self) -> bool {
        (self.seen@ + self.unseen@).to_multiset() == id_seq(self.cards@.len()).to_multiset()
    }

    fn next_card(&mut self) -> (r: Option<CardHandle>) {
        if self.unseen.len() > 0 {
            let ghost su = self.unseen@;
            let ghost ss = self.seen@;
            proof {
                lemma_ids_in_range(ss, su, self.cards@.len());
            }
            let id = self.unseen.remove(0);
            self.seen.insert(0, id);
            proof {
                lemma_move_front_multiset(su, ss);
                assert(self.seen@ =~= seq![su[0]] + ss);
                assert(su.remove(0) =~= su.drop_first());
            }
            Some(CardHandle { id })
        } else {
            None
        }
    }

    fn previous_card(&mut self) -> (r: Option<CardHandle>) {
        if self.seen.len() > 0 {
            let ghost ss = self.seen@;
            let ghost su = self.unseen@;
            proof {
                lemma_ids_in_range(ss, su, self.cards@.len());
            }
            let id = self.seen.remove(0);
            self.unseen.insert(0, id);
            proof {
                lemma_move_front_multiset(ss, su);
                assert(self.unseen@ =~= seq![ss[0]] + su);
                assert(ss.remove(0) =~= ss.drop_first());
            }
            Some(CardHandle { id })
        } else {
            None
        }
    }

    fn current_card(&self) -> (r: Option<CardHandle>) {
        if self.seen.len() > 0 {
            proof {
                lemma_ids_in_range(self.seen@, self.unseen@, self.cards@.len());
            }
            Some(CardHandle { id: self.seen[0] })
        } else {
            None
        }
    }

    fn num_of_cards_seen(&self) -> (n: usize) {
        self.seen.len()
    }

    fn num_of_cards_in_deck(&self) -> (n: usize) {
        self.unseen.len()
    }

    fn flip_current_card(&mut self) {
        if self.seen.len() > 0 {
            proof {
                lemma_ids_in_range(self.seen@, self.unseen@, self.cards@.len());
            }
            let id = self.seen[0];
            let _ = self.cards[id].flip();
        }
    }

    fn try_to_flip_current_card_to_hint(&mut self) {
        if self.seen.len() > 0 {
            proof {
                lemma_ids_in_range(self.seen@, self.unseen@, self.cards@.len());
            }
            let id = self.seen[0];
            let has_hint = match self.cards[id].get_hint() {
                Some(h) => !h.as_str().is_empty(),
                None => false,
            };
            if has_hint {
                self.cards[id].set_state(FlashCardState::Hint);
            }
        }
    }

    fn reset_current_card_state(&mut self) {
        if self.seen.len() > 0 {
            proof {
                lemma_ids_in_range(self.seen@, self.unseen@, self.cards@.len());
            }
            let id = self.seen[0];
            self.cards[id].set_state(FlashCardState::Front);
        }
    }

    fn shuffle(&mut self) {
        let ghost su = self.unseen@;
        let ghost ss = self.seen@;
        shuffle_vec(&mut self.unseen);
        proof {
            vstd::seq_lib::lemma_multiset_commutative(ss, su);
            vstd::seq_lib::lemma_multiset_commutative(ss, self.unseen@);
            broadcast use vstd::multiset::group_multiset_axioms;

            assert((ss + self.unseen@).to_multiset() =~= (ss + su).to_multiset());
        }
    }

    fn add_previous_cards_to_deck(&mut self) {
        let ghost os = self.seen@;
        let ghost ou = self.unseen@;
        let ghost oc = self.cards@;
        let mut moved: usize = 0;
        let total: usize = self.num_of_cards_seen();
        while moved < total
            invariant
                moved <= total,
                total == os.len(),
                self.cards@ == oc,
                self.seen@ == os.skip(moved as int),
                self.unseen@ == os.take(moved as int).reverse() + ou,
            decreases total - moved,
        {
            let ghost k = moved as int;
            let id = self.seen.remove(0);
            self.unseen.insert(0, id);
            moved = moved + 1;
            proof {
                assert(id == os[k]) by {
                    assert(os.skip(k)[0] == os[k]);
                }
                assert(os.skip(k).remove(0) =~= os.skip(k + 1));
                assert(os.take(k + 1).reverse() =~= seq![os[k]] + os.take(k).reverse()) by {
                    let t = os.take(k + 1);
                    assert(t.reverse().len() == k + 1);
                    assert forall|i: int| 0 <= i < k + 1 implies t.reverse()[i] == (seq![os[k]]
                        + os.take(k).reverse())[i] by {
                        assert(t.reverse()[i] == t[k - i]);
                    }
                }
                assert(self.unseen@ =~= os.take(k + 1).reverse() + ou);
            }
        }
        proof {
            assert(self.seen@ =~= Seq::<usize>::empty());
            assert(os.take(os.len() as int) =~= os);
            os.lemma_reverse_to_multiset();
            vstd::seq_lib::lemma_multiset_commutative(self.seen@, self.unseen@);
            vstd::seq_lib::lemma_multiset_commutative(os.reverse(), ou);
            vstd::seq_lib::lemma_multiset_commutative(os, ou);
            broadcast use vstd::multiset::group_multiset_axioms;

            assert(self.seen@ + self.unseen@ =~= os.reverse() + ou);
            assert((os.reverse() + ou).to_multiset() =~= (os + ou).to_multiset());
        }
    }
}

} // verus!
