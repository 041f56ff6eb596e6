//! Shuffling by exchanges, from draws that the caller makes.

use vstd::prelude::*;

verus! {

/// Whether `draws[i]` is a place up to `i`, for every place but the first.
pub open spec fn drawn(draws: Seq<usize>) -> bool {
    forall|i: int| 1 <= i < draws.len() ==> #[trigger] draws[i] <= i
}

/// `s` with two places exchanged.
pub open spec fn exchanged(s: Seq<usize>, i: int, j: int) -> Seq<usize> {
    s.update(i, s[j]).update(j, s[i])
}

/// `s` after the exchanges of places `n - 1` down to 1 with the places drawn for them.
pub open spec fn shuffled(s: Seq<usize>, draws: Seq<usize>, n: int) -> Seq<usize>
    decreases n,
{
    if n <= 1 {
        s
    } else {
        shuffled(exchanged(s, n - 1, draws[n - 1] as int), draws, n - 1)
    }
}

proof fn lemma_shuffled_keeps(s: Seq<usize>, draws: Seq<usize>, n: int)
    requires
        0 <= n <= s.len() == draws.len(),
        drawn(draws),
    ensures
        shuffled(s, draws, n).len() == s.len(),
        shuffled(s, draws, n).to_multiset() == s.to_multiset(),
        forall|k: int| n <= k < s.len() ==> #[trigger] shuffled(s, draws, n)[k] == s[k],
    decreases n,
{
    if n > 1 {
        let (i, j) = (n - 1, draws[n - 1] as int);
        let t = exchanged(s, i, j);
        lemma_shuffled_keeps(t, draws, i);
        vstd::seq_lib::to_multiset_update(s, i, s[j]);
        vstd::seq_lib::to_multiset_update(s.update(i, s[j]), j, s[i]);
        assert(s.to_multiset().count(s[i]) > 0) by {
            broadcast use vstd::seq_lib::group_to_multiset_ensures;

            assert(s.contains(s[i]));
        }
        if i == j {
            assert(t =~= s);
        }
        assert(t.to_multiset() =~= s.to_multiset());
    }
}

/// A shuffle moves the items about and neither loses nor repeats any.
pub proof fn lemma_shuffle_permutes(s: Seq<usize>, draws: Seq<usize>)
    requires
        s.len() == draws.len(),
        drawn(draws),
    ensures
        shuffled(s, draws, s.len() as int).to_multiset() == s.to_multiset(),
        shuffled(s, draws, s.len() as int).len() == s.len(),
{
    lemma_shuffled_keeps(s, draws, s.len() as int);
}

proof fn lemma_draws_recovered(s: Seq<usize>, a: Seq<usize>, b: Seq<usize>, n: int)
    requires
        0 <= n <= s.len() == a.len() == b.len(),
        drawn(a),
        drawn(b),
        s.no_duplicates(),
        shuffled(s, a, n) == shuffled(s, b, n),
    ensures
        forall|i: int| 1 <= i < n ==> #[trigger] a[i] == b[i],
    decreases n,
{
    if n > 1 {
        let i = n - 1;
        let (ja, jb) = (a[i] as int, b[i] as int);
        let (ta, tb) = (exchanged(s, i, ja), exchanged(s, i, jb));
        lemma_shuffled_keeps(ta, a, i);
        lemma_shuffled_keeps(tb, b, i);
        assert(shuffled(s, a, n)[i] == s[ja]);
        assert(shuffled(s, b, n)[i] == s[jb]);
        assert(ja == jb);
        lemma_draws_recovered(ta, a, b, i);
    }
}

/// Different draws give different orders of different items. As there are as many draws as
/// orders, uniform draws make every order equally likely.
pub proof fn lemma_draws_are_orders(s: Seq<usize>, a: Seq<usize>, b: Seq<usize>)
    requires
        s.len() == a.len() == b.len(),
        drawn(a),
        drawn(b),
        s.no_duplicates(),
        shuffled(s, a, s.len() as int) == shuffled(s, b, s.len() as int),
    ensures
        forall|i: int| 1 <= i < s.len() ==> #[trigger] a[i] == b[i],
{
    lemma_draws_recovered(s, a, b, s.len() as int);
}

/// Exchanges the last place with the place drawn for it, then the last but one, and so on.
pub fn shuffle(v: &mut Vec<usize>, draws: &Vec<usize>)
    requires
        old(v)@.len() == draws@.len(),
        drawn(draws@),
    ensures
        final(v)@ == shuffled(old(v)@, draws@, draws@.len() as int),
{
    let n: usize = v.len();
    let ghost start = v@;
    let mut i: usize = n;
    while i > 1
        invariant
            i <= n == v@.len() == draws@.len(),
            drawn(draws@),
            shuffled(start, draws@, n as int) == shuffled(v@, draws@, i as int),
        decreases i,
    {
        i -= 1;
        let j: usize = draws[i];
        let (a, b): (usize, usize) = (v[i], v[j]);
        v.set(i, b);
        v.set(j, a);
    }
}

/// The exchanges go from the last place to the first: the last place gets what was drawn for it, and the
/// places before it are shuffled among themselves, with the exchanged item in the drawn place.
pub proof fn lemma_last_place_gets_its_draw(s: Seq<usize>, draws: Seq<usize>, n: int)
    requires
        1 < n <= s.len() == draws.len(),
        drawn(draws),
    ensures
        shuffled(s, draws, n)[n - 1] == s[draws[n - 1] as int],
        shuffled(s, draws, n) == shuffled(s.update(n - 1, s[draws[n - 1] as int]).update(draws[n - 1] as int, s[n - 1]), draws, n - 1),
        shuffled(s, draws, 1) == s,
{
    assert(draws[n - 1] <= n - 1);
    lemma_shuffled_keeps(exchanged(s, n - 1, draws[n - 1] as int), draws, n - 1);
}

} // verus!
