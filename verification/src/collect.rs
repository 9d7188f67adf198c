//! Sequence builders shared by the contracts of this crate, with the facts
//! about them that the proofs need.

use vstd::prelude::*;

verus! {

/// The indices below `n` that satisfy `keep`, in ascending order.
pub open spec fn indices_where(n: nat, keep: spec_fn(int) -> bool) -> Seq<usize>
    decreases n,
{
    if n == 0 {
        Seq::empty()
    } else {
        let rest = indices_where((n - 1) as nat, keep);
        if keep(n - 1) {
            rest.push((n - 1) as usize)
        } else {
            rest
        }
    }
}

/// `indices_where` lists exactly the indices that satisfy `keep`, each once and
/// in ascending order.
pub proof fn lemma_indices_where(n: nat, keep: spec_fn(int) -> bool)
    requires
        n <= usize::MAX,
    ensures
        indices_where(n, keep).len() <= n,
        forall|k: int|
            0 <= k < indices_where(n, keep).len() ==> {
                &&& (#[trigger] indices_where(n, keep)[k]) < n
                &&& keep(indices_where(n, keep)[k] as int)
            },
        forall|v: usize| v < n && keep(v as int) ==> #[trigger] indices_where(n, keep).contains(v),
        forall|a: int, b: int|
            0 <= a < b < indices_where(n, keep).len() ==> (#[trigger] indices_where(n, keep)[a])
                < (#[trigger] indices_where(n, keep)[b]),
    decreases n,
{
    if n > 0 {
        let rest = indices_where((n - 1) as nat, keep);
        lemma_indices_where((n - 1) as nat, keep);
        let all = indices_where(n, keep);
        assert forall|v: usize| v < n && keep(v as int) implies #[trigger] all.contains(v) by {
            if v < n - 1 {
                assert(rest.contains(v));
                let k = choose|k: int| 0 <= k < rest.len() && rest[k] == v;
                assert(all[k] == v);
            } else {
                assert(all[all.len() - 1] == v);
            }
        }
    }
}

/// The concatenation of `part(x)` over the items `x` of `items`, in order.
pub open spec fn flat_map<A, B>(items: Seq<A>, part: spec_fn(A) -> Seq<B>) -> Seq<B>
    decreases items.len(),
{
    if items.len() == 0 {
        Seq::empty()
    } else {
        flat_map(items.drop_last(), part) + part(items.last())
    }
}

/// The total length of `part(x)` over the items `x` of `items`.
pub open spec fn total_len<A, B>(items: Seq<A>, part: spec_fn(A) -> Seq<B>) -> nat
    decreases items.len(),
{
    if items.len() == 0 {
        0
    } else {
        total_len(items.drop_last(), part) + part(items.last()).len()
    }
}

/// Extending the items by one appends that item's part.
pub proof fn lemma_flat_map_step<A, B>(items: Seq<A>, part: spec_fn(A) -> Seq<B>, i: int)
    requires
        0 <= i < items.len(),
    ensures
        flat_map(items.take(i + 1), part) == flat_map(items.take(i), part) + part(items[i]),
        total_len(items.take(i + 1), part) == total_len(items.take(i), part) + part(items[i]).len(),
{
    assert(items.take(i + 1).drop_last() =~= items.take(i));
}

/// A flat map is as long as its parts together.
pub proof fn lemma_flat_map_len<A, B>(items: Seq<A>, part: spec_fn(A) -> Seq<B>)
    ensures
        flat_map(items, part).len() == total_len(items, part),
    decreases items.len(),
{
    if items.len() > 0 {
        lemma_flat_map_len(items.drop_last(), part);
    }
}

/// The part of item `i` sits in the flat map as one block, right after the
/// parts of the items before it.
pub proof fn lemma_flat_map_block<A, B>(items: Seq<A>, part: spec_fn(A) -> Seq<B>, i: int)
    requires
        0 <= i < items.len(),
    ensures
        total_len(items.take(i), part) + part(items[i]).len() <= flat_map(items, part).len(),
        flat_map(items, part).subrange(
            total_len(items.take(i), part) as int,
            (total_len(items.take(i), part) + part(items[i]).len()) as int,
        ) == part(items[i]),
    decreases items.len(),
{
    let rest = items.drop_last();
    lemma_flat_map_len(rest, part);
    if i == items.len() - 1 {
        assert(items.take(i) =~= rest);
        assert(flat_map(items, part).subrange(
            total_len(rest, part) as int,
            (total_len(rest, part) + part(items[i]).len()) as int,
        ) =~= part(items[i]));
    } else {
        lemma_flat_map_block(rest, part, i);
        assert(rest.take(i) =~= items.take(i));
        let lo = total_len(items.take(i), part) as int;
        let hi = lo + part(items[i]).len();
        assert(flat_map(items, part).subrange(lo, hi) =~= flat_map(rest, part).subrange(lo, hi));
    }
}

/// A value is in a flat map exactly when it is in the part of some item.
pub proof fn lemma_flat_map_contains<A, B>(items: Seq<A>, part: spec_fn(A) -> Seq<B>, value: B)
    ensures
        flat_map(items, part).contains(value) <==> exists|i: int|
            0 <= i < items.len() && (#[trigger] part(items[i])).contains(value),
    decreases items.len(),
{
    if items.len() > 0 {
        let rest = items.drop_last();
        let front = flat_map(rest, part);
        let back = part(items.last());
        lemma_flat_map_contains(rest, part, value);
        if flat_map(items, part).contains(value) {
            let k = choose|k: int| 0 <= k < (front + back).len() && (front + back)[k] == value;
            if k < front.len() {
                assert(front[k] == value);
                let i = choose|i: int| 0 <= i < rest.len() && (#[trigger] part(rest[i])).contains(value);
                assert(part(items[i]).contains(value));
            } else {
                assert(back[k - front.len()] == value);
                assert(part(items[items.len() - 1]).contains(value));
            }
        }
        if exists|i: int| 0 <= i < items.len() && (#[trigger] part(items[i])).contains(value) {
            let i = choose|i: int| 0 <= i < items.len() && (#[trigger] part(items[i])).contains(value);
            if i < rest.len() {
                assert(part(rest[i]).contains(value));
                let k = choose|k: int| 0 <= k < front.len() && front[k] == value;
                assert((front + back)[k] == value);
            } else {
                let k = choose|k: int| 0 <= k < back.len() && back[k] == value;
                assert((front + back)[front.len() + k] == value);
            }
        }
    }
}

/// After a push, a sequence holds what it held before and the pushed value.
pub proof fn lemma_push_contains<A>(items: Seq<A>, value: A)
    ensures
        forall|x: A| #[trigger] items.push(value).contains(x) <==> items.contains(x) || x == value,
{
    assert forall|x: A| #[trigger] items.push(value).contains(x) <==> items.contains(x) || x
        == value by {
        if items.contains(x) {
            let k = choose|k: int| 0 <= k < items.len() && items[k] == x;
            assert(items.push(value)[k] == x);
        }
        if x == value {
            assert(items.push(value)[items.len() as int] == x);
        }
    }
}

/// A sequence of distinct numbers below `n` has at most `n` items.
pub proof fn lemma_distinct_below(items: Seq<usize>, n: nat)
    requires
        items.no_duplicates(),
        forall|k: int| 0 <= k < items.len() ==> items[k] < n,
    ensures
        items.len() <= n,
    decreases n,
{
    if n == 0 {
        if items.len() > 0 {
            assert(items[0] < n);
        }
    } else if exists|k: int| 0 <= k < items.len() && items[k] == n - 1 {
        let k = choose|k: int| 0 <= k < items.len() && items[k] == n - 1;
        let rest = items.remove(k);
        assert forall|a: int| 0 <= a < rest.len() implies rest[a] < n - 1 by {
            if a < k {
                assert(rest[a] == items[a]);
            } else {
                assert(rest[a] == items[a + 1]);
            }
        }
        assert forall|a: int, b: int| 0 <= a < rest.len() && 0 <= b < rest.len() && a != b implies rest[a]
            != rest[b] by {
            let a0 = if a < k { a } else { a + 1 };
            let b0 = if b < k { b } else { b + 1 };
            assert(rest[a] == items[a0] && rest[b] == items[b0]);
        }
        lemma_distinct_below(rest, (n - 1) as nat);
    } else {
        assert forall|a: int| 0 <= a < items.len() implies items[a] < n - 1 by {
            assert(items[a] < n);
        }
        lemma_distinct_below(items, (n - 1) as nat);
    }
}

/// The first `part(x)` that is present, over the items `x` of `items` in
/// order; `None` if no item has one.
pub open spec fn first_some<A, B>(items: Seq<A>, part: spec_fn(A) -> Option<B>) -> Option<B>
    decreases items.len(),
{
    if items.len() == 0 {
        None
    } else {
        match part(items[0]) {
            Some(value) => Some(value),
            None => first_some(items.drop_first(), part),
        }
    }
}

/// Items without a part at the front of the list do not change the first
/// part that is present.
pub proof fn lemma_first_some_skip<A, B>(items: Seq<A>, part: spec_fn(A) -> Option<B>, i: int)
    requires
        0 <= i <= items.len(),
        forall|j: int| 0 <= j < i ==> part(#[trigger] items[j]) is None,
    ensures
        first_some(items, part) == first_some(items.skip(i), part),
        i < items.len() && part(items[i]) is Some ==> first_some(items, part) == part(items[i]),
        i == items.len() ==> first_some(items, part) is None,
    decreases i,
{
    if i == 0 {
        assert(items.skip(0) =~= items);
    } else {
        let rest = items.drop_first();
        assert(part(items[0]) is None);
        assert forall|j: int| 0 <= j < i - 1 implies part(#[trigger] rest[j]) is None by {
            assert(rest[j] == items[j + 1]);
        }
        lemma_first_some_skip(rest, part, i - 1);
        assert(rest.skip(i - 1) =~= items.skip(i));
        if i < items.len() {
            assert(rest[i - 1] == items[i]);
        }
    }
}

/// What `first_some` gives is the part of the first item that has one; if it
/// gives nothing, no item has a part.
pub proof fn lemma_first_some<A, B>(items: Seq<A>, part: spec_fn(A) -> Option<B>)
    ensures
        match first_some(items, part) {
            Some(value) => exists|i: int|
                0 <= i < items.len() && part(#[trigger] items[i]) == Some(value) && forall|j: int|
                    0 <= j < i ==> part(#[trigger] items[j]) is None,
            None => forall|i: int| 0 <= i < items.len() ==> part(#[trigger] items[i]) is None,
        },
    decreases items.len(),
{
    if items.len() > 0 {
        let rest = items.drop_first();
        match part(items[0]) {
            Some(value) => {
                assert(part(items[0]) == Some(value));
            },
            None => {
                lemma_first_some(rest, part);
                match first_some(rest, part) {
                    Some(value) => {
                        let i = choose|i: int|
                            0 <= i < rest.len() && part(#[trigger] rest[i]) == Some(value)
                                && forall|j: int| 0 <= j < i ==> part(#[trigger] rest[j]) is None;
                        assert(items[i + 1] == rest[i]);
                        assert forall|j: int| 0 <= j < i + 1 implies part(
                            #[trigger] items[j],
                        ) is None by {
                            if j > 0 {
                                assert(items[j] == rest[j - 1]);
                            }
                        }
                    },
                    None => {
                        assert forall|i: int| 0 <= i < items.len() implies part(
                            #[trigger] items[i],
                        ) is None by {
                            if i > 0 {
                                assert(items[i] == rest[i - 1]);
                            }
                        }
                    },
                }
            },
        }
    }
}

} // verus!
