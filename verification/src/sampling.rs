use vstd::multiset::group_multiset_axioms;
use vstd::multiset::Multiset;
use vstd::prelude::*;
use vstd::seq_lib::to_multiset_build;
use vstd::seq_lib::to_multiset_contains;
use vstd::seq_lib::to_multiset_len;
use vstd::seq_lib::to_multiset_remove;

use rand::Rng;
use rand::SeedableRng;

verus! {

/// The pseudo-random generator the dataset loaders draw from. Declared so
/// that verified code can hold one and pass it around; its state stays
/// opaque.
#[verifier::external_type_specification]
#[verifier::external_body]
pub struct ExStdRng(rand::rngs::StdRng);

/// Relies on rand's `SeedableRng::seed_from_u64` to build a generator from
/// the given seed.
#[verifier::external_body]
fn rng_from_seed(seed: u64) -> rand::rngs::StdRng {
    rand::rngs::StdRng::seed_from_u64(seed)
}

/// Relies on rand's `SeedableRng::from_os_rng` to build a generator from OS
/// entropy; nothing is promised of the values it will yield.
#[verifier::external_body]
fn rng_from_os() -> rand::rngs::StdRng {
    rand::rngs::StdRng::from_os_rng()
}

/// Relies on rand's `Rng::random_range`, which returns a value of the
/// non-empty range `0..bound` and panics only on an empty one.
#[verifier::external_body]
fn rand_below(rng: &mut rand::rngs::StdRng, bound: usize) -> (r: usize)
    requires
        bound >= 1,
    ensures
        r < bound,
{
    rng.random_range(0..bound)
}

/// Rearranges `data` into a pseudo-random order, drawing from a generator
/// built from `seed`, or from OS entropy when no seed is given. The elements
/// are kept exactly: the result holds the same multiset of values.
pub fn shuffle<T>(data: &mut Vec<T>, seed: Option<u64>)
    ensures
        final(data)@.len() == old(data)@.len(),
        final(data)@.to_multiset() == old(data)@.to_multiset(),
{
    let mut rng = match seed {
        Some(s) => rng_from_seed(s),
        None => rng_from_os(),
    };
    let mut rest: Vec<T> = Vec::new();
    core::mem::swap(data, &mut rest);
    let ghost orig = rest@;
    let mut out: Vec<T> = Vec::with_capacity(rest.len());
    proof {
        broadcast use {to_multiset_len, group_multiset_axioms};

        vstd::multiset::lemma_multiset_empty_len(out@.to_multiset());
        assert(out@.to_multiset().add(rest@.to_multiset()) =~= rest@.to_multiset());
    }
    while rest.len() > 0
        invariant
            out@.to_multiset().add(rest@.to_multiset()) == orig.to_multiset(),
            out@.len() + rest@.len() == orig.len(),
        decreases rest@.len(),
    {
        let j = rand_below(&mut rng, rest.len());
        let ghost before = rest@;
        let x = rest.remove(j);
        proof {
            broadcast use {to_multiset_build, to_multiset_contains, to_multiset_remove, group_multiset_axioms};

            assert(before.contains(before[j as int]));
            assert(before.to_multiset().count(before[j as int]) > 0);
            assert(rest@.to_multiset() == before.to_multiset().remove(x));
            assert(out@.push(x).to_multiset() =~= out@.to_multiset().insert(x));
            assert(out@.push(x).to_multiset().add(rest@.to_multiset())
                =~= out@.to_multiset().add(before.to_multiset()));
        }
        out.push(x);
    }
    proof {
        broadcast use {to_multiset_len, group_multiset_axioms};

        vstd::multiset::lemma_multiset_empty_len(rest@.to_multiset());
        assert(rest@.to_multiset() =~= Multiset::<T>::empty());
        assert(out@.to_multiset().add(Multiset::<T>::empty()) =~= out@.to_multiset());
        assert(out@.to_multiset().len() == out@.len());
        assert(orig.to_multiset().len() == orig.len());
    }
    *data = out;
}

/// Two sequences that hold the same multiset of values still do so after
/// every value is mapped through the same function; a caller that abstracts
/// the elements of a shuffled vector can so carry the permutation across.
pub proof fn lemma_to_multiset_map<A, B>(s1: Seq<A>, s2: Seq<A>, f: spec_fn(A) -> B)
    requires
        s1.to_multiset() == s2.to_multiset(),
    ensures
        s1.map_values(f).to_multiset() == s2.map_values(f).to_multiset(),
    decreases s1.len(),
{
    broadcast use {to_multiset_build, to_multiset_contains, to_multiset_len, to_multiset_remove, group_multiset_axioms};

    if s1.len() == 0 {
        assert(s1.to_multiset().len() == 0);
        assert(s2.len() == 0);
        assert(s1.map_values(f).to_multiset().len() == 0);
        assert(s2.map_values(f).to_multiset().len() == 0);
        vstd::multiset::lemma_multiset_empty_len(s1.map_values(f).to_multiset());
        vstd::multiset::lemma_multiset_empty_len(s2.map_values(f).to_multiset());
        assert(s1.map_values(f).to_multiset() =~= s2.map_values(f).to_multiset());
    } else {
        let x = s1.last();
        let s1d = s1.drop_last();
        assert(s1 =~= s1d.push(x));
        assert(s1.contains(x));
        assert(s1.to_multiset().count(x) > 0);
        assert(s2.to_multiset().count(x) > 0);
        assert(s2.contains(x));
        let j = choose|j: int| 0 <= j < s2.len() && s2[j] == x;
        let s2r = s2.remove(j);
        assert(s1.to_multiset() == s1d.to_multiset().insert(x));
        assert(s2r.to_multiset() == s2.to_multiset().remove(x));
        assert(s1d.to_multiset() =~= s1.to_multiset().remove(x));
        assert(s1d.to_multiset() == s2r.to_multiset());
        lemma_to_multiset_map(s1d, s2r, f);
        assert(s1.map_values(f) =~= s1d.map_values(f).push(f(x)));
        assert(s1.map_values(f).to_multiset() == s1d.map_values(f).to_multiset().insert(f(x)));
        assert(s2.map_values(f).remove(j) =~= s2r.map_values(f));
        assert(s2.map_values(f).remove(j).to_multiset()
            == s2.map_values(f).to_multiset().remove(f(x)));
        assert(s2.map_values(f).contains(f(x))) by {
            assert(s2.map_values(f)[j] == f(x));
        }
        assert(s2.map_values(f).to_multiset().count(f(x)) > 0);
        assert(s2.map_values(f).to_multiset()
            =~= s2.map_values(f).to_multiset().remove(f(x)).insert(f(x)));
        assert(s1.map_values(f).to_multiset() == s2.map_values(f).to_multiset());
    }
}

/// Splits a dataset into a training part and a test part: the first
/// two-thirds (rounded down) train, the rest test.
pub fn split_train_test<T>(data: Vec<T>) -> (r: (Vec<T>, Vec<T>))
    ensures
        r.0@ == data@.subrange(0, 2 * data@.len() as int / 3),
        r.1@ == data@.subrange(2 * data@.len() as int / 3, data@.len() as int),
{
    let n = data.len();
    let n128: u128 = n as u128;
    let doubled: u128 = n128 * 2;
    let wide: u128 = doubled / 3;
    proof {
        assert(wide <= n128) by (nonlinear_arith)
            requires
                doubled == n128 * 2,
                wide == doubled / 3;
    }
    let training_size: usize = wide as usize;
    assert(training_size as int == 2 * data@.len() as int / 3);
    let mut training = data;
    let test = training.split_off(training_size);
    (training, test)
}

} // verus!
