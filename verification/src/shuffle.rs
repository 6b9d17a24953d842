//! Random permutation of a vector, used by decks and by the session
//! manager. The contract of a shuffle is conservation: the multiset of
//! elements is unchanged, whatever order the randomness produced.
use vstd::prelude::*;

verus! {

#[verifier::external_type_specification]
#[verifier::external_body]
pub struct ExThreadRng(rand::rngs::ThreadRng);

/// Relies on `rand::thread_rng`: a handle to the thread-local random
/// number generator. Nothing is promised of it.
#[verifier::external_body]
fn fresh_rng() -> rand::rngs::ThreadRng {
    rand::thread_rng()
}

/// Relies on `rand::Rng::gen_range`: a value drawn uniformly from the
/// half-open range `0..bound`, so always below `bound`. `gen_range`
/// panics on an empty range, which `bound > 0` rules out.
#[verifier::external_body]
fn rand_below(rng: &mut rand::rngs::ThreadRng, bound: usize) -> (r: usize)
    requires
        bound > 0,
    ensures
        r < bound,
{
    rand::Rng::gen_range(rng, 0..bound)
}

/// Permutes `v` at random: each step moves a uniformly chosen remaining
/// element to the next output position, which makes every permutation
/// equally likely. No element is lost or duplicated.
pub(crate) fn shuffle_vec<T>(v: &mut Vec<T>)
    ensures
        final(v)@.to_multiset() == old(v)@.to_multiset(),
        final(v)@.len() == old(v)@.len(),
{
    broadcast use vstd::seq_lib::group_to_multiset_ensures;
    broadcast use vstd::multiset::group_multiset_axioms;

    let ghost orig = v@;
    let mut rng = fresh_rng();
    let mut out: Vec<T> = Vec::new();
    proof {
        assert(out@.to_multiset().add(v@.to_multiset()) =~= orig.to_multiset());
    }
    while v.len() > 0
        invariant
            out@.to_multiset().add(v@.to_multiset()) == orig.to_multiset(),
        decreases v@.len(),
    {
        let j: usize = rand_below(&mut rng, v.len());
        let ghost prev_out = out@;
        let ghost prev_v = v@;
        let x = v.remove(j);
        out.push(x);
        proof {
            assert(prev_v.contains(x)) by {
                assert(prev_v[j as int] == x);
            }
            vstd::seq_lib::to_multiset_remove(prev_v, j as int);
            vstd::seq_lib::to_multiset_build(prev_out, x);
            vstd::seq_lib::to_multiset_contains(prev_v, x);
            assert(v@ == prev_v.remove(j as int));
            assert(out@ == prev_out.push(x));
            assert(prev_v.to_multiset().count(x) > 0);
            assert forall|y: T|
                out@.to_multiset().add(v@.to_multiset()).count(y) == prev_out.to_multiset().add(
                    prev_v.to_multiset(),
                ).count(y) by {
                assert(out@.to_multiset() == prev_out.to_multiset().insert(x));
                assert(v@.to_multiset() == prev_v.to_multiset().remove(x));
                assert(out@.to_multiset().count(y) == prev_out.to_multiset().count(y) + (if y == x {
                    1int
                } else {
                    0int
                }));
                assert(v@.to_multiset().count(y) == prev_v.to_multiset().count(y) - (if y == x {
                    1int
                } else {
                    0int
                }));
            }
            assert(out@.to_multiset().add(v@.to_multiset()) =~= prev_out.to_multiset().add(
                prev_v.to_multiset(),
            ));
        }
    }
    proof {
        assert(v@ =~= Seq::<T>::empty());
        assert(out@.to_multiset().add(v@.to_multiset()) =~= out@.to_multiset());
        assert(out@.to_multiset().len() == orig.to_multiset().len());
    }
    *v = out;
}

} // verus!
