//! Stable sorting by a stated order.

use vstd::prelude::*;

verus! {

/// An order of values, by which of two comes first.
pub trait Order<T> {
    /// Whether `a` comes strictly before `b`.
    spec fn before(a: T, b: T) -> bool;

    /// Whether `a` comes strictly before `b`.
    fn less(a: &T, b: &T) -> (r: bool)
        ensures
            r == Self::before(*a, *b),
    ;
}

/// An order in which any two values that tie compare alike to all others.
pub trait WeakOrder<T>: Order<T> {
    proof fn asymmetric(a: T, b: T)
        requires
            Self::before(a, b),
        ensures
            !Self::before(b, a),
    ;

    proof fn transitive(a: T, b: T, c: T)
        requires
            !Self::before(b, a),
            !Self::before(c, b),
        ensures
            !Self::before(c, a),
    ;
}

/// `s` with `x` put before the first element that does not come before it.
pub open spec fn inserted<T, O: Order<T>>(x: T, s: Seq<T>) -> Seq<T>
    decreases s.len(),
{
    if s.len() == 0 {
        seq![x]
    } else if O::before(s[0], x) {
        seq![s[0]] + inserted::<T, O>(x, s.drop_first())
    } else {
        seq![x] + s
    }
}

/// `s` in the order `O`; elements that tie keep their order.
pub open spec fn sorted<T, O: Order<T>>(s: Seq<T>) -> Seq<T>
    decreases s.len(),
{
    if s.len() == 0 {
        Seq::empty()
    } else {
        inserted::<T, O>(s[0], sorted::<T, O>(s.drop_first()))
    }
}

/// Whether no element comes before one that stands left of it.
pub open spec fn ordered<T, O: Order<T>>(s: Seq<T>) -> bool {
    forall|i: int, j: int| 0 <= i < j < s.len() ==> !O::before(#[trigger] s[j], #[trigger] s[i])
}

proof fn lemma_inserted_at<T, O: Order<T>>(x: T, s: Seq<T>, k: int)
    requires
        0 <= k <= s.len(),
        forall|i: int| 0 <= i < k ==> O::before(#[trigger] s[i], x),
        k < s.len() ==> !O::before(s[k], x),
    ensures
        inserted::<T, O>(x, s) == s.insert(k, x),
    decreases s.len(),
{
    if s.len() == 0 {
        assert(s.insert(k, x) =~= seq![x]);
    } else if k == 0 {
        assert(s.insert(k, x) =~= seq![x] + s);
    } else {
        let rest = s.drop_first();
        assert forall|i: int| 0 <= i < k - 1 implies O::before(#[trigger] rest[i], x) by {
            assert(rest[i] == s[i + 1]);
        }
        if k < s.len() {
            assert(rest[k - 1] == s[k]);
        }
        assert(O::before(s[0], x));
        lemma_inserted_at::<T, O>(x, rest, k - 1);
        assert(s.insert(k, x) =~= seq![s[0]] + rest.insert(k - 1, x));
    }
}

/// `items` in the order `O`; elements that tie keep their order.
pub fn stable_sort<T, O: Order<T>>(items: Vec<T>) -> (out: Vec<T>)
    ensures
        out@ == sorted::<T, O>(items@),
{
    let ghost all = items@;
    let mut rest: Vec<T> = items;
    let mut out: Vec<T> = Vec::new();
    assert(all.skip(all.len() as int) =~= Seq::<T>::empty());
    assert(all.take(all.len() as int) =~= all);
    while rest.len() > 0
        invariant
            rest@.len() <= all.len(),
            rest@ == all.take(rest@.len() as int),
            out@ == sorted::<T, O>(all.skip(rest@.len() as int)),
        decreases rest@.len(),
    {
        let ghost n = rest@.len();
        let x: T = match rest.pop() {
            Some(x) => x,
            None => return out,
        };
        let count: usize = out.len();
        let mut k: usize = 0;
        while k < count && O::less(&out[k], &x)
            invariant
                count == out@.len(),
                k <= count,
                forall|i: int| 0 <= i < k ==> O::before(#[trigger] out@[i], x),
            decreases count - k,
        {
            k += 1;
        }
        proof {
            lemma_inserted_at::<T, O>(x, out@, k as int);
            assert(all.skip(n - 1)[0] == x);
            assert(all.skip(n - 1).drop_first() =~= all.skip(n as int));
            assert(rest@ =~= all.take(n - 1));
        }
        out.insert(k, x);
    }
    assert(all.skip(0) =~= all);
    out
}

proof fn lemma_inserted_keeps<T, O: Order<T>>(x: T, s: Seq<T>)
    ensures
        inserted::<T, O>(x, s).to_multiset() == s.to_multiset().insert(x),
        inserted::<T, O>(x, s).len() == s.len() + 1,
    decreases s.len(),
{
    broadcast use vstd::seq_lib::group_to_multiset_ensures;

    if s.len() == 0 {
        assert(seq![x] =~= s.push(x));
    } else if O::before(s[0], x) {
        let rest = s.drop_first();
        lemma_inserted_keeps::<T, O>(x, rest);
        vstd::seq_lib::lemma_multiset_commutative(seq![s[0]], inserted::<T, O>(x, rest));
        vstd::seq_lib::lemma_multiset_commutative(seq![s[0]], rest);
        assert(s =~= seq![s[0]] + rest);
        assert(s.to_multiset().insert(x) =~= seq![s[0]].to_multiset().add(
            rest.to_multiset().insert(x),
        ));
    } else {
        vstd::seq_lib::lemma_multiset_commutative(seq![x], s);
        assert(seq![x] =~= Seq::<T>::empty().push(x));
        assert(seq![x].to_multiset() =~= vstd::multiset::Multiset::singleton(x));
        assert(seq![x].to_multiset().add(s.to_multiset()) =~= s.to_multiset().insert(x));
    }
}

/// Sorting loses nothing and adds nothing.
pub proof fn sorting_keeps_elements<T, O: Order<T>>(s: Seq<T>)
    ensures
        sorted::<T, O>(s).to_multiset() == s.to_multiset(),
        sorted::<T, O>(s).len() == s.len(),
    decreases s.len(),
{
    broadcast use vstd::seq_lib::group_to_multiset_ensures;

    if s.len() == 0 {
        assert(s =~= Seq::<T>::empty());
    } else {
        let rest = s.drop_first();
        sorting_keeps_elements::<T, O>(rest);
        lemma_inserted_keeps::<T, O>(s[0], sorted::<T, O>(rest));
        assert(s =~= seq![s[0]] + rest);
        vstd::seq_lib::lemma_multiset_commutative(seq![s[0]], rest);
        assert(seq![s[0]] =~= Seq::<T>::empty().push(s[0]));
        assert(seq![s[0]].to_multiset() =~= vstd::multiset::Multiset::singleton(s[0]));
        assert(seq![s[0]].to_multiset().add(rest.to_multiset()) =~= rest.to_multiset().insert(
            s[0],
        ));
    }
}

proof fn lemma_inserted_ordered<T, O: WeakOrder<T>>(x: T, s: Seq<T>)
    requires
        ordered::<T, O>(s),
    ensures
        ordered::<T, O>(inserted::<T, O>(x, s)),
        inserted::<T, O>(x, s).len() == s.len() + 1,
        forall|y: T|
            (s.len() > 0 ==> !O::before(s[0], y)) && !O::before(x, y) ==> !#[trigger] O::before(
                inserted::<T, O>(x, s)[0],
                y,
            ),
    decreases s.len(),
{
    let r = inserted::<T, O>(x, s);
    if s.len() == 0 {
    } else if O::before(s[0], x) {
        let rest = s.drop_first();
        assert forall|i: int, j: int| 0 <= i < j < rest.len() implies !O::before(
            #[trigger] rest[j],
            #[trigger] rest[i],
        ) by {
            assert(rest[j] == s[j + 1] && rest[i] == s[i + 1]);
        }
        lemma_inserted_ordered::<T, O>(x, rest);
        let t = inserted::<T, O>(x, rest);
        O::asymmetric(s[0], x);
        if rest.len() > 0 {
            assert(rest[0] == s[1]);
        }
        assert(!O::before(t[0], s[0]));
        assert forall|i: int, j: int| 0 <= i < j < r.len() implies !O::before(
            #[trigger] r[j],
            #[trigger] r[i],
        ) by {
            assert(r[j] == t[j - 1]);
            if i == 0 {
                if j > 1 {
                    assert(!O::before(t[j - 1], t[0]));
                    O::transitive(s[0], t[0], t[j - 1]);
                }
            } else {
                assert(r[i] == t[i - 1]);
            }
        }
    } else {
        assert forall|i: int, j: int| 0 <= i < j < r.len() implies !O::before(
            #[trigger] r[j],
            #[trigger] r[i],
        ) by {
            assert(r[j] == s[j - 1]);
            if i == 0 {
                if j > 1 {
                    assert(!O::before(s[j - 1], s[0]));
                    O::transitive(x, s[0], s[j - 1]);
                }
            } else {
                assert(r[i] == s[i - 1]);
            }
        }
    }
}

/// What comes out of the sort is in order.
pub proof fn sorting_orders<T, O: WeakOrder<T>>(s: Seq<T>)
    ensures
        ordered::<T, O>(sorted::<T, O>(s)),
    decreases s.len(),
{
    if s.len() > 0 {
        sorting_orders::<T, O>(s.drop_first());
        lemma_inserted_ordered::<T, O>(s[0], sorted::<T, O>(s.drop_first()));
    }
}

/// Whether neither of two values comes before the other.
pub open spec fn tied<T, O: Order<T>>(a: T, b: T) -> bool {
    !O::before(a, b) && !O::before(b, a)
}

/// The elements of `s` that tie with `x`, in their order.
pub open spec fn ties<T, O: Order<T>>(s: Seq<T>, x: T) -> Seq<T>
    decreases s.len(),
{
    if s.len() == 0 {
        Seq::empty()
    } else if tied::<T, O>(s[0], x) {
        seq![s[0]] + ties::<T, O>(s.drop_first(), x)
    } else {
        ties::<T, O>(s.drop_first(), x)
    }
}

proof fn lemma_inserted_stable<T, O: WeakOrder<T>>(y: T, s: Seq<T>, x: T)
    ensures
        ties::<T, O>(inserted::<T, O>(y, s), x) == ties::<T, O>(seq![y] + s, x),
    decreases s.len(),
{
    reveal_with_fuel(ties, 3);
    assert((seq![y] + s).drop_first() =~= s);
    if s.len() == 0 {
        assert(seq![y] + s =~= seq![y]);
    } else if O::before(s[0], y) {
        let rest = s.drop_first();
        lemma_inserted_stable::<T, O>(y, rest, x);
        let r = inserted::<T, O>(y, s);
        assert(r.drop_first() =~= inserted::<T, O>(y, rest));
        assert((seq![y] + rest).drop_first() =~= rest);
        if tied::<T, O>(y, x) && tied::<T, O>(s[0], x) {
            // Both tie with x, so neither comes before the other.
            O::transitive(y, x, s[0]);
            assert(false);
        }
    }
}

/// Elements that tie come out in the order in which they went in.
pub proof fn sorting_is_stable<T, O: WeakOrder<T>>(s: Seq<T>, x: T)
    ensures
        ties::<T, O>(sorted::<T, O>(s), x) == ties::<T, O>(s, x),
    decreases s.len(),
{
    if s.len() > 0 {
        let rest = s.drop_first();
        sorting_is_stable::<T, O>(rest, x);
        lemma_inserted_stable::<T, O>(s[0], sorted::<T, O>(rest), x);
        let t = sorted::<T, O>(rest);
        assert((seq![s[0]] + t).drop_first() =~= t);
    }
}

} // verus!
