//! Stable ordering of keyed indices, as the path schedulers use it.
use vstd::prelude::*;
use itertools::Itertools;
use rand::rngs::StdRng;
use rand::seq::SliceRandom;
use rand::SeedableRng;

verus! {

broadcast use vstd::seq_lib::group_to_multiset_ensures;

/// The number of leading elements of `s` whose key is at most `k`, counted up
/// to the first element whose key exceeds `k`.
pub open spec fn first_greater(k: u128, s: Seq<(u128, u64)>) -> int
    decreases s.len(),
{
    if s.len() == 0 {
        0
    } else if k < s[0].0 {
        0
    } else {
        1 + first_greater(k, s.drop_first())
    }
}

/// Inserts `x` before the first element whose key exceeds that of `x`.
pub open spec fn insert_by_key(x: (u128, u64), s: Seq<(u128, u64)>) -> Seq<(u128, u64)> {
    s.insert(first_greater(x.0, s), x)
}

/// The stable sort of `s` by the first component: keys ascend, and elements
/// with equal keys keep the order they had in `s`.
pub open spec fn sort_by_key(s: Seq<(u128, u64)>) -> Seq<(u128, u64)>
    decreases s.len(),
{
    if s.len() == 0 {
        s
    } else {
        insert_by_key(s.last(), sort_by_key(s.drop_last()))
    }
}

/// Keys ascend along the sequence.
pub open spec fn keys_ascending(s: Seq<(u128, u64)>) -> bool {
    forall|i: int, j: int| 0 <= i <= j < s.len() ==> s[i].0 <= s[j].0
}

/// Each element paired with its position.
pub open spec fn keyed(keys: Seq<u128>) -> Seq<(u128, u64)> {
    Seq::new(keys.len(), |i: int| (keys[i], i as u64))
}

/// The positions `0..n`.
pub open spec fn positions(n: nat) -> Seq<u64> {
    Seq::new(n, |i: int| i as u64)
}

proof fn lemma_first_greater(k: u128, s: Seq<(u128, u64)>)
    ensures
        0 <= first_greater(k, s) <= s.len(),
        forall|i: int| 0 <= i < first_greater(k, s) ==> s[i].0 <= k,
        first_greater(k, s) < s.len() ==> k < s[first_greater(k, s)].0,
    decreases s.len(),
{
    if s.len() > 0 && k >= s[0].0 {
        lemma_first_greater(k, s.drop_first());
        assert forall|i: int| 0 <= i < first_greater(k, s) implies s[i].0 <= k by {
            if i > 0 {
                assert(s[i] == s.drop_first()[i - 1]);
            }
        }
    }
}

proof fn lemma_insert_ascending(x: (u128, u64), s: Seq<(u128, u64)>)
    requires
        keys_ascending(s),
    ensures
        keys_ascending(insert_by_key(x, s)),
        insert_by_key(x, s).to_multiset() == s.to_multiset().insert(x),
{
    lemma_first_greater(x.0, s);
    let p = first_greater(x.0, s);
    let t = insert_by_key(x, s);
    assert forall|i: int, j: int| 0 <= i <= j < t.len() implies t[i].0 <= t[j].0 by {
        if j < p {
        } else if j == p {
        } else if i < p {
            assert(s[i].0 <= x.0);
            assert(x.0 < s[p].0);
            assert(s[p].0 <= s[j - 1].0);
        } else if i == p {
            assert(x.0 < s[p].0);
            assert(s[p].0 <= s[j - 1].0);
        } else {
        }
    }
}

/// The stable sort orders the keys and keeps the elements.
pub proof fn lemma_sort_by_key(s: Seq<(u128, u64)>)
    ensures
        keys_ascending(sort_by_key(s)),
        sort_by_key(s).to_multiset() == s.to_multiset(),
        sort_by_key(s).len() == s.len(),
    decreases s.len(),
{
    if s.len() > 0 {
        lemma_sort_by_key(s.drop_last());
        lemma_first_greater(s.last().0, sort_by_key(s.drop_last()));
        lemma_insert_ascending(s.last(), sort_by_key(s.drop_last()));
        assert(s.drop_last().push(s.last()) =~= s);
    }
}

/// Mapping two sequences with the same elements gives sequences with the same
/// elements.
pub proof fn lemma_map_multiset<A, B>(a: Seq<A>, b: Seq<A>, f: spec_fn(A) -> B)
    requires
        a.to_multiset() == b.to_multiset(),
    ensures
        a.map_values(f).to_multiset() == b.map_values(f).to_multiset(),
    decreases a.len(),
{
    if a.len() == 0 {
        assert(b.to_multiset().len() == 0);
        assert(b.len() == 0);
        assert(a.map_values(f) =~= b.map_values(f));
    } else {
        let x = a.last();
        assert(a.to_multiset().count(x) > 0) by {
            assert(a.contains(x)) by {
                assert(a[a.len() - 1] == x);
            }
        }
        assert(b.contains(x));
        let j = choose|j: int| 0 <= j < b.len() && b[j] == x;
        let a1 = a.drop_last();
        let b1 = b.remove(j);
        assert(a1.push(x) =~= a);
        assert(a1.to_multiset() == a.to_multiset().remove(x));
        lemma_map_multiset(a1, b1, f);
        assert(a.map_values(f) =~= a1.map_values(f).push(f(x)));
        assert(b1.map_values(f).insert(j, f(x)) =~= b.map_values(f));
    }
}

/// The positions of a keyed sequence, taken in the stable order of their
/// keys.
pub open spec fn sorted_positions(keys: Seq<u128>) -> Seq<u64> {
    sort_by_key(keyed(keys)).map_values(|e: (u128, u64)| e.1)
}

/// Sorting keyed positions lists every position exactly once.
pub proof fn lemma_sorted_positions(keys: Seq<u128>)
    requires
        keys.len() <= u64::MAX,
    ensures
        sorted_positions(keys).to_multiset() == positions(keys.len()).to_multiset(),
        sorted_positions(keys).len() == keys.len(),
        forall|i: int|
            0 <= i < keys.len() ==> (#[trigger] sorted_positions(keys)[i]) < keys.len(),
        forall|i: int, j: int|
            0 <= i <= j < keys.len() ==> keys[sorted_positions(keys)[i] as int]
                <= keys[sorted_positions(keys)[j] as int],
{
    let s = sort_by_key(keyed(keys));
    lemma_sort_by_key(keyed(keys));
    let f = |e: (u128, u64)| e.1;
    lemma_map_multiset(s, keyed(keys), f);
    assert(keyed(keys).map_values(f) =~= positions(keys.len()));
    assert forall|i: int| 0 <= i < keys.len() implies #[trigger] s[i] == keyed(keys)[s[i].1 as int]
        && s[i].1 < keys.len() by {
        assert(s.contains(s[i]));
        assert(s.to_multiset().count(s[i]) > 0);
        assert(keyed(keys).contains(s[i]));
        let k = choose|k: int| 0 <= k < keyed(keys).len() && keyed(keys)[k] == s[i];
        assert(s[i].1 == k as u64);
    }
    assert forall|i: int| 0 <= i < keys.len() implies (#[trigger] sorted_positions(keys)[i])
        < keys.len() by {
        assert(s[i] == keyed(keys)[s[i].1 as int]);
    }
    assert forall|i: int, j: int| 0 <= i <= j < keys.len() implies keys[sorted_positions(
        keys,
    )[i] as int] <= keys[sorted_positions(keys)[j] as int] by {
        assert(s[i] == keyed(keys)[s[i].1 as int]);
        assert(s[j] == keyed(keys)[s[j].1 as int]);
    }
}

/// Sorts (key, position) pairs by key with `Itertools::sorted_by_key`.
///
/// Trusted: itertools documents `sorted_by_key` as a stable ascending sort
/// (it collects into a `Vec` and calls `slice::sort_by_key`); the contract
/// states that the result is the stable sort of the input by the first
/// component.
#[verifier::external_body]
fn itertools_sorted_by_key(items: Vec<(u128, u64)>) -> (out: Vec<(u128, u64)>)
    ensures
        out@ == sort_by_key(items@),
{
    items.into_iter().sorted_by_key(|e| e.0).collect()
}

/// The generator that shuffles paths.
#[verifier::external_type_specification]
#[verifier::external_body]
pub struct ExStdRng(StdRng);

/// Seeds a generator from the operating system, with
/// `SeedableRng::from_rng(OsRng)`.
///
/// Trusted: the call fills the seed through `OsRng::try_fill_bytes` and
/// reports a failure of the operating system's generator as an error, which
/// becomes `None`; nothing is said of the seed, which depends on chance.
#[verifier::external_body]
fn rand_std_rng_from_os() -> (r: Option<StdRng>) {
    StdRng::from_rng(rand::rngs::OsRng).ok()
}

/// Shuffles positions with `SliceRandom::shuffle`.
///
/// Trusted: the shuffle swaps elements in place, so the result holds the same
/// elements as the input; which permutation comes out depends on chance and
/// is left unsaid.
#[verifier::external_body]
fn rand_shuffle(mut items: Vec<u64>, rng: &mut StdRng) -> (out: Vec<u64>)
    ensures
        out@.to_multiset() == items@.to_multiset(),
{
    items.shuffle(rng);
    items
}

/// A generator for the random scheduler, seeded from the operating system,
/// or `None` if the operating system's generator failed.
pub fn new_shuffle_rng() -> (r: Option<StdRng>) {
    rand_std_rng_from_os()
}

/// The positions `0..keys.len()` in the stable order of their keys.
pub fn stable_order(keys: &Vec<u128>) -> (order: Vec<u64>)
    requires
        keys@.len() <= u64::MAX,
    ensures
        order@ == sorted_positions(keys@),
{
    let mut items: Vec<(u128, u64)> = Vec::new();
    let mut i: usize = 0;
    while i < keys.len()
        invariant
            i <= keys@.len() <= u64::MAX,
            items@ == keyed(keys@.take(i as int)),
        decreases keys@.len() - i,
    {
        items.push((keys[i], i as u64));
        i = i + 1;
        assert(items@ =~= keyed(keys@.take(i as int)));
    }
    assert(keys@.take(keys@.len() as int) =~= keys@);
    let sorted = itertools_sorted_by_key(items);
    let mut order: Vec<u64> = Vec::new();
    let mut j: usize = 0;
    while j < sorted.len()
        invariant
            j <= sorted@.len(),
            sorted@ == sort_by_key(keyed(keys@)),
            order@ == sorted@.take(j as int).map_values(|e: (u128, u64)| e.1),
        decreases sorted@.len() - j,
    {
        order.push(sorted[j].1);
        j = j + 1;
        assert(order@ =~= sorted@.take(j as int).map_values(|e: (u128, u64)| e.1));
    }
    assert(sorted@.take(sorted@.len() as int) =~= sorted@);
    order
}

/// The positions `0..n` in an order that chance decides.
pub fn random_order(n: usize, rng: &mut StdRng) -> (order: Vec<u64>)
    requires
        n <= u64::MAX,
    ensures
        order@.to_multiset() == positions(n as nat).to_multiset(),
        order@.len() == n,
{
    let mut items: Vec<u64> = Vec::new();
    let mut i: usize = 0;
    while i < n
        invariant
            i <= n <= u64::MAX,
            items@ == positions(i as nat),
        decreases n - i,
    {
        items.push(i as u64);
        i = i + 1;
        assert(items@ =~= positions(i as nat));
    }
    let out = rand_shuffle(items, rng);
    proof {
        assert(out@.to_multiset().len() == positions(n as nat).to_multiset().len());
    }
    out
}

} // verus!
