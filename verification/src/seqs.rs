//! Sums, searches and filters over sequences.

use vstd::prelude::*;
use vstd::seq_lib::seq_to_set_is_finite;
use vstd::set_lib::{
    lemma_int_range, lemma_len_subset, lemma_subset_equality, set_int_range,
};

verus! {

/// The sum of a sequence of amounts.
pub open spec fn sum(s: Seq<u64>) -> nat
    decreases s.len(),
{
    if s.len() == 0 {
        0
    } else {
        sum(s.drop_last()) + s.last() as nat
    }
}

/// The first item that satisfies `p`.
pub open spec fn first_where<A>(s: Seq<A>, p: spec_fn(A) -> bool) -> Option<A> {
    let kept = s.filter(p);
    if kept.len() > 0 {
        Some(kept[0])
    } else {
        None
    }
}

/// One more item extends a filtered prefix by that item or not at all.
pub proof fn lemma_filter_step<A>(s: Seq<A>, p: spec_fn(A) -> bool, i: int)
    requires
        0 <= i < s.len(),
    ensures
        p(s[i]) ==> s.take(i + 1).filter(p) == s.take(i).filter(p).push(s[i]),
        !p(s[i]) ==> s.take(i + 1).filter(p) == s.take(i).filter(p),
{
    assert(s.take(i + 1) =~= s.take(i).push(s[i]));
    s.take(i).lemma_filter_push(s[i], p);
}

/// An empty prefix has nothing to filter, and the whole prefix is the sequence.
pub proof fn lemma_filter_ends<A>(s: Seq<A>, p: spec_fn(A) -> bool)
    ensures
        s.take(0).filter(p) == Seq::<A>::empty(),
        s.take(s.len() as int).filter(p) == s.filter(p),
{
    reveal(Seq::filter);
    assert(s.take(0) =~= Seq::<A>::empty());
    assert(s.take(s.len() as int) =~= s);
}

/// What a prefix filters to is a prefix of what the whole filters to.
pub proof fn lemma_filter_prefix<A>(s: Seq<A>, p: spec_fn(A) -> bool, n: int)
    requires
        0 <= n <= s.len(),
    ensures
        s.take(n).filter(p).len() <= s.filter(p).len(),
        s.take(n).filter(p) == s.filter(p).take(s.take(n).filter(p).len() as int),
{
    assert(s =~= s.take(n) + s.skip(n));
    Seq::filter_distributes_over_add(s.take(n), s.skip(n), p);
    assert(s.take(n).filter(p) =~= s.filter(p).take(s.take(n).filter(p).len() as int));
}

/// What is kept of a sequence is what is in it and satisfies `p`.
pub proof fn lemma_filter_members<A>(s: Seq<A>, p: spec_fn(A) -> bool)
    ensures
        forall|x: A| #[trigger] s.filter(p).contains(x) <==> s.contains(x) && p(x),
        forall|k: int|
            0 <= k < s.filter(p).len() ==> p(#[trigger] s.filter(p)[k]) && s.contains(
                s.filter(p)[k],
            ),
        s.filter(p).len() <= s.len(),
{
    let kept = s.filter(p);
    assert forall|k: int| 0 <= k < kept.len() implies p(#[trigger] kept[k]) && s.contains(
        kept[k],
    ) by {
        s.lemma_filter_pred(p, k);
        s.lemma_filter_contains_rev(p, kept[k]);
    }
    assert forall|x: A| #[trigger] kept.contains(x) <==> s.contains(x) && p(x) by {
        if s.contains(x) && p(x) {
            let i = choose|i: int| 0 <= i < s.len() && s[i] == x;
            s.lemma_filter_contains(p, i);
        }
    }
    lemma_filter_prefix(s, p, s.len() as int);
    s.lemma_filter_len(p);
}

/// Whether indices are those, in order, of all items of a sequence that satisfy `p`.
pub open spec fn picks<A>(at: Seq<int>, s: Seq<A>, p: spec_fn(A) -> bool) -> bool {
    &&& forall|k: int| 0 <= k < at.len() ==> 0 <= #[trigger] at[k] < s.len() && p(s[at[k]])
    &&& forall|k: int, l: int| 0 <= k < l < at.len() ==> #[trigger] at[k] < #[trigger] at[l]
    &&& forall|i: int| 0 <= i < s.len() && p(#[trigger] s[i]) ==> at.contains(i)
}

/// The items that are kept stand at such indices.
pub proof fn lemma_filter_picks<A>(s: Seq<A>, p: spec_fn(A) -> bool) -> (at: Seq<int>)
    ensures
        picks(at, s, p),
        at.len() == s.filter(p).len(),
        forall|k: int| 0 <= k < at.len() ==> s[#[trigger] at[k]] == s.filter(p)[k],
    decreases s.len(),
{
    lemma_filter_ends(s, p);
    if s.len() == 0 {
        assert(s =~= s.take(0));
        Seq::empty()
    } else {
        let n = s.len() - 1;
        let head = s.take(n);
        let before = lemma_filter_picks(head, p);
        lemma_filter_step(s, p, n);
        let at = if p(s[n]) {
            before.push(n)
        } else {
            before
        };
        assert forall|i: int| 0 <= i < s.len() && p(#[trigger] s[i]) implies at.contains(i) by {
            if i < n {
                assert(head[i] == s[i]);
                let k = choose|k: int| 0 <= k < before.len() && before[k] == i;
                assert(at[k] == i);
            } else {
                assert(at[before.len() as int] == i);
            }
        }
        assert forall|k: int| 0 <= k < at.len() implies 0 <= #[trigger] at[k] < s.len() && p(
            s[at[k]],
        ) && s[at[k]] == s.filter(p)[k] by {
            if k < before.len() {
                assert(at[k] == before[k]);
                assert(head[before[k]] == s[before[k]]);
            }
        }
        at
    }
}

/// Nothing but one item is kept only where no other satisfies `p`.
pub proof fn lemma_filter_single<A>(s: Seq<A>, p: spec_fn(A) -> bool, t: int)
    requires
        0 <= t < s.len(),
        p(s[t]),
    ensures
        s.filter(p).len() <= 1 <==> forall|k: int|
            0 <= k < s.len() && k != t ==> !p(#[trigger] s[k]),
{
    if s.filter(p).len() > 1 {
        let (a, b) = lemma_filter_indices(s, p, 0, 1);
        s.lemma_filter_pred(p, 0);
        s.lemma_filter_pred(p, 1);
        assert(p(s[a]) && p(s[b]));
    }
    assert forall|k: int| 0 <= k < s.len() && k != t && p(#[trigger] s[k]) implies s.filter(
        p,
    ).len() > 1 by {
        let (a, b) = if k < t {
            (k, t)
        } else {
            (t, k)
        };
        let head = s.take(b);
        assert(head[a] == s[a]);
        head.lemma_filter_contains(p, a);
        lemma_filter_step(s, p, b);
        lemma_filter_prefix(s, p, b + 1);
    }
}

/// The first match lies at the first index that satisfies `p`, and there is none only
/// where nothing does.
pub proof fn lemma_first_index<A>(s: Seq<A>, p: spec_fn(A) -> bool)
    ensures
        first_where(s, p) matches Some(x) ==> exists|i: int|
            0 <= i < s.len() && #[trigger] s[i] == x && p(x) && forall|k: int|
                0 <= k < i ==> !p(#[trigger] s[k]),
        first_where(s, p) is None <==> forall|i: int| 0 <= i < s.len() ==> !p(#[trigger] s[i]),
{
    if exists|i: int| 0 <= i < s.len() && p(#[trigger] s[i]) {
        let i = lemma_least(s, p, s.len() as int);
        lemma_first_at(s, p, i);
    } else {
        lemma_no_first(s, p);
    }
}

proof fn lemma_least<A>(s: Seq<A>, p: spec_fn(A) -> bool, n: int) -> (i: int)
    requires
        0 <= n <= s.len(),
        exists|k: int| 0 <= k < n && p(#[trigger] s[k]),
    ensures
        0 <= i < n,
        p(s[i]),
        forall|k: int| 0 <= k < i ==> !p(#[trigger] s[k]),
    decreases n,
{
    if exists|k: int| 0 <= k < n - 1 && p(#[trigger] s[k]) {
        lemma_least(s, p, n - 1)
    } else {
        n - 1
    }
}

/// Two predicates that agree on a sequence keep the same of it.
pub proof fn lemma_filter_agree<A>(s: Seq<A>, p: spec_fn(A) -> bool, q: spec_fn(A) -> bool)
    requires
        forall|i: int| 0 <= i < s.len() ==> p(#[trigger] s[i]) == q(s[i]),
    ensures
        s.filter(p) == s.filter(q),
    decreases s.len(),
{
    lemma_filter_ends(s, p);
    lemma_filter_ends(s, q);
    if s.len() > 0 {
        let n = s.len() - 1;
        lemma_filter_agree(s.take(n), p, q);
        lemma_filter_step(s, p, n);
        lemma_filter_step(s, q, n);
    } else {
        assert(s =~= s.take(0));
    }
}

/// A predicate that holds of all of a sequence keeps all of it.
pub proof fn lemma_filter_all<A>(s: Seq<A>, p: spec_fn(A) -> bool)
    requires
        forall|i: int| 0 <= i < s.len() ==> p(#[trigger] s[i]),
    ensures
        s.filter(p) == s,
    decreases s.len(),
{
    lemma_filter_ends(s, p);
    if s.len() > 0 {
        let n = s.len() - 1;
        lemma_filter_all(s.take(n), p);
        lemma_filter_step(s, p, n);
        assert(s =~= s.take(n).push(s[n]));
    } else {
        assert(s =~= s.take(0));
    }
}

/// Two items that are kept stand in the same order in the sequence.
pub proof fn lemma_filter_indices<A>(s: Seq<A>, p: spec_fn(A) -> bool, i: int, j: int) -> (at: (
    int,
    int,
))
    requires
        0 <= i < j < s.filter(p).len(),
    ensures
        0 <= at.0 < at.1 < s.len(),
        s[at.0] == s.filter(p)[i],
        s[at.1] == s.filter(p)[j],
    decreases s.len(),
{
    let n = s.len() - 1;
    if s.len() == 0 {
        lemma_filter_ends(s, p);
        (0, 0)
    } else {
        let head = s.take(n);
        lemma_filter_ends(s, p);
        lemma_filter_step(s, p, n);
        if j < head.filter(p).len() {
            lemma_filter_indices(head, p, i, j)
        } else {
            head.lemma_filter_contains_rev(p, head.filter(p)[i]);
            let a = choose|a: int| 0 <= a < head.len() && head[a] == head.filter(p)[i];
            (a, n)
        }
    }
}

/// The first match lies at the first index that satisfies `p`.
pub proof fn lemma_first_at<A>(s: Seq<A>, p: spec_fn(A) -> bool, i: int)
    requires
        0 <= i < s.len(),
        p(s[i]),
        forall|k: int| 0 <= k < i ==> !p(#[trigger] s[k]),
    ensures
        first_where(s, p) == Some(s[i]),
{
    lemma_none_before(s, p, i);
    lemma_filter_step(s, p, i);
    assert(s =~= s.take(i + 1) + s.skip(i + 1));
    Seq::filter_distributes_over_add(s.take(i + 1), s.skip(i + 1), p);
    assert(s.take(i + 1).filter(p) =~= seq![s[i]]);
    assert(s.filter(p)[0] == s[i]);
}

/// A prefix without a match filters to nothing.
pub proof fn lemma_none_before<A>(s: Seq<A>, p: spec_fn(A) -> bool, n: int)
    requires
        0 <= n <= s.len(),
        forall|k: int| 0 <= k < n ==> !p(#[trigger] s[k]),
    ensures
        s.take(n).filter(p) == Seq::<A>::empty(),
    decreases n,
{
    if n == 0 {
        lemma_filter_ends(s, p);
    } else {
        lemma_none_before(s, p, n - 1);
        lemma_filter_step(s, p, n - 1);
    }
}

/// A sequence without a match has no first match.
pub proof fn lemma_no_first<A>(s: Seq<A>, p: spec_fn(A) -> bool)
    requires
        forall|k: int| 0 <= k < s.len() ==> !p(#[trigger] s[k]),
    ensures
        first_where(s, p) == None::<A>,
        s.filter(p) == Seq::<A>::empty(),
{
    lemma_none_before(s, p, s.len() as int);
    lemma_filter_ends(s, p);
}

/// One more amount adds itself to the sum of a prefix.
pub proof fn lemma_sum_step(s: Seq<u64>, i: int)
    requires
        0 <= i < s.len(),
    ensures
        sum(s.take(i + 1)) == sum(s.take(i)) + s[i],
{
    assert(s.take(i + 1).drop_last() =~= s.take(i));
}

/// The sum of a prefix is at most the sum of the whole.
pub proof fn lemma_sum_prefix(s: Seq<u64>, n: int)
    requires
        0 <= n <= s.len(),
    ensures
        sum(s.take(n)) <= sum(s),
    decreases s.len() - n,
{
    if n == s.len() {
        assert(s.take(n) =~= s);
    } else {
        lemma_sum_step(s, n);
        lemma_sum_prefix(s, n + 1);
    }
}

/// The sum of two sequences put together.
pub proof fn lemma_sum_add(a: Seq<u64>, b: Seq<u64>)
    ensures
        sum(a + b) == sum(a) + sum(b),
    decreases b.len(),
{
    if b.len() == 0 {
        assert(a + b =~= a);
    } else {
        assert((a + b).drop_last() =~= a + b.drop_last());
        lemma_sum_add(a, b.drop_last());
    }
}

/// An amount that is put in adds itself to the sum.
pub proof fn lemma_sum_insert(s: Seq<u64>, at: int, x: u64)
    requires
        0 <= at <= s.len(),
    ensures
        sum(s.insert(at, x)) == sum(s) + x,
    decreases s.len() - at,
{
    let t = s.insert(at, x);
    if at == s.len() {
        assert(t.drop_last() =~= s);
    } else {
        lemma_sum_insert(s.drop_last(), at, x);
        assert(t.drop_last() =~= s.drop_last().insert(at, x));
        assert(t.last() == s.last());
    }
}

/// The sum does not depend on the order, if every item counts once.
pub proof fn lemma_sum_reordered(s: Seq<u64>, order: Seq<int>)
    requires
        order.len() == s.len(),
        forall|j: int| 0 <= j < s.len() ==> #[trigger] order.contains(j),
    ensures
        sum(order.map_values(|k: int| s[k])) == sum(s),
    decreases s.len(),
{
    let f = |k: int| s[k];
    if s.len() == 0 {
        assert(order.map_values(f) =~= s);
    } else {
        let n = s.len() - 1;
        assert(order.contains(n));
        let p = order.index_of(n);
        let rest = order.remove(p);
        let head = s.drop_last();
        lemma_order_within(order);
        assert forall|j: int| 0 <= j < head.len() implies #[trigger] rest.contains(j) by {
            assert(order.contains(j));
            let q = order.index_of(j);
            if q < p {
                assert(rest[q] == j);
            } else {
                assert(rest[q - 1] == j);
            }
        }
        lemma_sum_reordered(head, rest);
        lemma_order_within(rest);
        let g = |k: int| head[k];
        assert(rest.map_values(g) =~= rest.map_values(f)) by {
            assert forall|i: int| 0 <= i < rest.len() implies rest.map_values(g)[i]
                == rest.map_values(f)[i] by {
                assert(0 <= rest[i] < rest.len());
            }
        }
        assert(order.map_values(f) =~= rest.map_values(f).insert(p, s[n]));
        lemma_sum_insert(rest.map_values(f), p, s[n]);
    }
}

/// A list that holds every number below its length holds no other.
proof fn lemma_order_within(order: Seq<int>)
    requires
        forall|j: int| 0 <= j < order.len() ==> #[trigger] order.contains(j),
    ensures
        forall|i: int| 0 <= i < order.len() ==> 0 <= #[trigger] order[i] < order.len(),
{
    let n = order.len() as int;
    let range = set_int_range(0, n);
    lemma_int_range(0, n);
    order.lemma_cardinality_of_set();
    seq_to_set_is_finite(order);
    let held = order.to_set();
    assert(range.subset_of(held)) by {
        assert forall|j: int| range.contains(j) implies held.contains(j) by {
            assert(order.contains(j));
        }
    }
    lemma_len_subset(range, held);
    lemma_subset_equality(range, held);
    assert forall|i: int| 0 <= i < n implies 0 <= #[trigger] order[i] < n by {
        assert(held.contains(order[i]));
        assert(range.contains(order[i]));
    }
}

/// An amount that takes the place of another changes the sum by the difference.
pub proof fn lemma_sum_update(s: Seq<u64>, at: int, x: u64)
    requires
        0 <= at < s.len(),
    ensures
        sum(s.update(at, x)) + s[at] == sum(s) + x,
    decreases s.len() - at,
{
    let t = s.update(at, x);
    if at == s.len() - 1 {
        assert(t.drop_last() =~= s.drop_last());
    } else {
        lemma_sum_update(s.drop_last(), at, x);
        assert(t.drop_last() =~= s.drop_last().update(at, x));
        assert(t.last() == s.last());
    }
}

/// Adds up a list of amounts.
pub fn total(amounts: &Vec<u64>) -> (r: u64)
    requires
        sum(amounts@) <= u64::MAX,
    ensures
        r == sum(amounts@),
{
    let mut acc: u64 = 0;
    let mut i: usize = 0;
    assert(amounts@.take(0) =~= Seq::<u64>::empty());
    while i < amounts.len()
        invariant
            i <= amounts.len(),
            sum(amounts@) <= u64::MAX,
            acc == sum(amounts@.take(i as int)),
        decreases amounts.len() - i,
    {
        proof {
            lemma_sum_step(amounts@, i as int);
            lemma_sum_prefix(amounts@, i + 1);
        }
        acc = acc + amounts[i];
        i += 1;
    }
    assert(amounts@.take(i as int) =~= amounts@);
    acc
}

/// Adds up a list of amounts, if the sum fits.
pub fn checked_total(amounts: &Vec<u64>) -> (r: Option<u64>)
    ensures
        r is Some <==> sum(amounts@) <= u64::MAX,
        r matches Some(total) ==> total == sum(amounts@),
{
    let mut acc: u64 = 0;
    let mut i: usize = 0;
    assert(amounts@.take(0) =~= Seq::<u64>::empty());
    while i < amounts.len()
        invariant
            i <= amounts.len(),
            acc == sum(amounts@.take(i as int)),
        decreases amounts.len() - i,
    {
        proof {
            lemma_sum_step(amounts@, i as int);
            lemma_sum_prefix(amounts@, i + 1);
        }
        match acc.checked_add(amounts[i]) {
            None => {
                return None;
            },
            Some(next) => {
                acc = next;
            },
        }
        i += 1;
    }
    assert(amounts@.take(i as int) =~= amounts@);
    Some(acc)
}

/// Tells whether an index is in a list of indices.
pub fn has_id(ids: &Vec<i64>, id: i64) -> (r: bool)
    ensures
        r == ids@.contains(id),
{
    let mut i: usize = 0;
    while i < ids.len()
        invariant
            i <= ids.len(),
            forall|k: int| 0 <= k < i ==> ids@[k] != id,
        decreases ids.len() - i,
    {
        if ids[i] == id {
            return true;
        }
        i += 1;
    }
    false
}

} // verus!
