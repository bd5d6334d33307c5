//! Searching sequences.

use vstd::prelude::*;

verus! {

/// Where in a sequence the first item that meets a condition stands; the
/// sequence's length if none does.
pub open spec fn first_where<T>(s: Seq<T>, meets: spec_fn(T) -> bool) -> int
    decreases s.len(),
{
    if s.len() == 0 {
        0
    } else {
        let earlier = first_where(s.drop_last(), meets);
        if earlier < s.len() - 1 || meets(s.last()) {
            earlier
        } else {
            s.len() as int
        }
    }
}

/// The first item that meets a condition meets it, and none before it does.
pub proof fn lemma_first_where<T>(s: Seq<T>, meets: spec_fn(T) -> bool)
    ensures
        0 <= first_where(s, meets) <= s.len(),
        first_where(s, meets) < s.len() ==> meets(s[first_where(s, meets)]),
        forall|j: int| 0 <= j < first_where(s, meets) ==> !meets(#[trigger] s[j]),
    decreases s.len(),
{
    if s.len() > 0 {
        lemma_first_where(s.drop_last(), meets);
        let earlier = first_where(s.drop_last(), meets);
        assert forall|j: int| 0 <= j < first_where(s, meets) implies !meets(#[trigger] s[j]) by {
            if j < s.len() - 1 {
                assert(s[j] == s.drop_last()[j]);
            }
        }
        if earlier < s.len() - 1 {
            assert(s[earlier] == s.drop_last()[earlier]);
        }
    }
}

/// An item that meets a condition, with none before it that does, is the first.
pub proof fn lemma_first_where_is<T>(s: Seq<T>, meets: spec_fn(T) -> bool, i: int)
    requires
        0 <= i <= s.len(),
        i < s.len() ==> meets(s[i]),
        forall|j: int| 0 <= j < i ==> !meets(#[trigger] s[j]),
    ensures
        first_where(s, meets) == i,
{
    lemma_first_where(s, meets);
    let f = first_where(s, meets);
    if f < i {
        assert(!meets(s[f]));
    }
}

/// Conditions that agree item by item are first met at the same place.
pub proof fn lemma_first_where_alike<S, T>(
    s: Seq<S>,
    meets: spec_fn(S) -> bool,
    t: Seq<T>,
    also: spec_fn(T) -> bool,
)
    requires
        s.len() == t.len(),
        forall|i: int| 0 <= i < s.len() ==> meets(#[trigger] s[i]) == also(t[i]),
    ensures
        first_where(s, meets) == first_where(t, also),
{
    lemma_first_where(s, meets);
    let f = first_where(s, meets);
    assert forall|j: int| 0 <= j < f implies !also(#[trigger] t[j]) by {
        assert(!meets(s[j]));
    }
    if f < s.len() {
        assert(meets(s[f]));
    }
    lemma_first_where_is(t, also, f);
}

/// One item more leaves the first in place where there was one.
pub proof fn lemma_first_where_take<T>(s: Seq<T>, meets: spec_fn(T) -> bool, n: int)
    requires
        0 <= n < s.len(),
    ensures
        first_where(s.take(n + 1), meets) == if first_where(s.take(n), meets) < n {
            first_where(s.take(n), meets)
        } else if meets(s[n]) {
            n
        } else {
            n + 1
        },
{
    assert(s.take(n + 1).drop_last() =~= s.take(n));
    lemma_first_where(s.take(n), meets);
}

/// The first number below a bound that meets a condition; the bound if none does.
pub open spec fn first_slot(n: nat, meets: spec_fn(int) -> bool) -> int {
    first_where(Seq::new(n, |i: int| i), meets)
}

/// A number that meets a condition, with none before it that does, is the first.
pub proof fn lemma_first_slot_is(n: nat, meets: spec_fn(int) -> bool, i: int)
    requires
        0 <= i <= n,
        i < n ==> meets(i),
        forall|j: int| 0 <= j < i ==> !#[trigger] meets(j),
    ensures
        first_slot(n, meets) == i,
{
    let all = Seq::new(n, |i: int| i);
    assert forall|j: int| 0 <= j < i implies !meets(#[trigger] all[j]) by {
        assert(all[j] == j);
    }
    lemma_first_where_is(all, meets, i);
}

/// The numbers below a bound that meet a condition, in order.
pub open spec fn slots_where(n: nat, meets: spec_fn(int) -> bool) -> Seq<int>
    decreases n,
{
    if n == 0 {
        Seq::empty()
    } else if meets(n - 1) {
        slots_where((n - 1) as nat, meets).push(n - 1)
    } else {
        slots_where((n - 1) as nat, meets)
    }
}

/// A number is listed exactly if it is below the bound and meets the condition, and
/// the least number comes first.
pub proof fn lemma_slots_where(n: nat, meets: spec_fn(int) -> bool)
    ensures
        forall|i: int| #[trigger] slots_where(n, meets).contains(i) <==> 0 <= i < n && meets(i),
        forall|j: int, k: int|
            0 <= j < k < slots_where(n, meets).len() ==> #[trigger] slots_where(n, meets)[j]
                < #[trigger] slots_where(n, meets)[k],
    decreases n,
{
    if n > 0 {
        lemma_slots_where((n - 1) as nat, meets);
        let fewer = slots_where((n - 1) as nat, meets);
        assert forall|i: int| #[trigger] slots_where(n, meets).contains(i) <==> 0 <= i < n && meets(
            i,
        ) by {
            if fewer.contains(i) {
                let k = choose|k: int| 0 <= k < fewer.len() && fewer[k] == i;
                assert(slots_where(n, meets)[k] == i);
            }
            if slots_where(n, meets).contains(i) && !fewer.contains(i) {
                let k = choose|k: int|
                    0 <= k < slots_where(n, meets).len() && slots_where(n, meets)[k] == i;
                if k < fewer.len() {
                    assert(fewer[k] == i);
                }
            }
            if i == n - 1 && meets(i) {
                assert(slots_where(n, meets)[fewer.len() as int] == i);
            }
        }
        assert forall|j: int, k: int|
            0 <= j < k < slots_where(n, meets).len() implies #[trigger] slots_where(n, meets)[j]
            < #[trigger] slots_where(n, meets)[k] by {
            assert(fewer.contains(fewer[j]));
        }
    }
}

/// Whether each item stands before every later one in an order.
pub open spec fn ordered<T>(s: Seq<T>, lt: spec_fn(T, T) -> bool) -> bool {
    forall|i: int, j: int| 0 <= i < j < s.len() ==> lt(#[trigger] s[i], #[trigger] s[j])
}

/// Two sequences that hold the same items, in the same strict order, are one.
pub proof fn lemma_ordered_unique<T>(a: Seq<T>, b: Seq<T>, lt: spec_fn(T, T) -> bool)
    requires
        ordered(a, lt),
        ordered(b, lt),
        forall|x: T, y: T| #[trigger] lt(x, y) ==> !lt(y, x),
        forall|x: T| #![trigger a.contains(x)] #![trigger b.contains(x)] a.contains(x) == b.contains(x),
    ensures
        a == b,
    decreases a.len(),
{
    if a.len() == 0 {
        if b.len() > 0 {
            assert(b.contains(b[0]));
        }
        assert(a =~= b);
    } else {
        assert(a.contains(a.last()));
        let j = choose|j: int| 0 <= j < b.len() && b[j] == a.last();
        assert(b.contains(b.last()));
        let i = choose|i: int| 0 <= i < a.len() && a[i] == b.last();
        if j < b.len() - 1 {
            assert(lt(b[j], b[b.len() - 1]));
            if i < a.len() - 1 {
                assert(lt(a[i], a[a.len() - 1]));
            }
        }
        assert(a.last() == b.last());
        let c = a.drop_last();
        let d = b.drop_last();
        assert forall|x: T| #![trigger c.contains(x)] #![trigger d.contains(x)] c.contains(x)
            == d.contains(x) by {
            if c.contains(x) {
                let k = choose|k: int| 0 <= k < c.len() && c[k] == x;
                assert(a[k] == x);
                assert(lt(a[k], a[a.len() - 1]));
                assert(a.contains(x));
                let m = choose|m: int| 0 <= m < b.len() && b[m] == x;
                assert(d[m] == x);
            }
            if d.contains(x) {
                let k = choose|k: int| 0 <= k < d.len() && d[k] == x;
                assert(b[k] == x);
                assert(lt(b[k], b[b.len() - 1]));
                assert(b.contains(x));
                let m = choose|m: int| 0 <= m < a.len() && a[m] == x;
                assert(c[m] == x);
            }
        }
        assert forall|i: int, j: int| 0 <= i < j < c.len() implies lt(
            #[trigger] c[i],
            #[trigger] c[j],
        ) by {
            assert(lt(a[i], a[j]));
        }
        assert forall|i: int, j: int| 0 <= i < j < d.len() implies lt(
            #[trigger] d[i],
            #[trigger] d[j],
        ) by {
            assert(lt(b[i], b[j]));
        }
        lemma_ordered_unique(c, d, lt);
        assert(a =~= c.push(a.last()));
        assert(b =~= d.push(b.last()));
    }
}

/// The items of a sequence, each where it is first mentioned.
pub open spec fn mentioned<T>(s: Seq<T>) -> Seq<T>
    decreases s.len(),
{
    if s.len() == 0 {
        Seq::empty()
    } else {
        let earlier = mentioned(s.drop_last());
        if earlier.contains(s.last()) {
            earlier
        } else {
            earlier.push(s.last())
        }
    }
}

/// What is mentioned of a longer beginning.
pub proof fn lemma_mentioned_next<T>(s: Seq<T>, n: int)
    requires
        0 <= n < s.len(),
    ensures
        mentioned(s.take(n + 1)) == if mentioned(s.take(n)).contains(s[n]) {
            mentioned(s.take(n))
        } else {
            mentioned(s.take(n)).push(s[n])
        },
{
    assert(s.take(n + 1).drop_last() =~= s.take(n));
}

/// Every item is mentioned, and none twice.
pub proof fn lemma_mentioned<T>(s: Seq<T>)
    ensures
        mentioned(s).no_duplicates(),
        forall|x: T| #[trigger] mentioned(s).contains(x) <==> s.contains(x),
    decreases s.len(),
{
    if s.len() > 0 {
        let less = s.drop_last();
        let earlier = mentioned(less);
        lemma_mentioned(less);
        assert forall|x: T| #[trigger] mentioned(s).contains(x) <==> s.contains(x) by {
            if s.contains(x) {
                let i = s.index_of(x);
                if i < less.len() {
                    assert(less[i] == x);
                    assert(earlier.contains(x));
                    let j = earlier.index_of(x);
                    assert(mentioned(s)[j] == x);
                } else if !earlier.contains(x) {
                    assert(mentioned(s)[earlier.len() as int] == x);
                }
            }
            if mentioned(s).contains(x) {
                let j = mentioned(s).index_of(x);
                if j < earlier.len() {
                    assert(earlier[j] == x);
                    assert(earlier.contains(x));
                    let i = less.index_of(x);
                    assert(s[i] == x);
                } else {
                    assert(s[s.len() - 1] == x);
                }
            }
        }
    }
}

} // verus!
