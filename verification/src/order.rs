//! Stable sorting.

use vstd::prelude::*;

verus! {

/// Things with a place in a ranking, where several may share a rank.
pub trait Ranked: View + Sized {
    /// Whether `a` may stand before `b`.
    spec fn not_after(a: Self::V, b: Self::V) -> bool;

    /// Any two things can be compared.
    proof fn lemma_total(a: Self::V, b: Self::V)
        ensures
            Self::not_after(a, b) || Self::not_after(b, a),
    ;

    /// The ranking is consistent.
    proof fn lemma_transitive(a: Self::V, b: Self::V, c: Self::V)
        requires
            Self::not_after(a, b),
            Self::not_after(b, c),
        ensures
            Self::not_after(a, c),
    ;

    /// Whether `self` may stand before `other`.
    fn may_precede(&self, other: &Self) -> (res: bool)
        ensures
            res == Self::not_after(self@, other@),
    ;
}

/// The views of a list.
pub open spec fn views<T: Ranked>(list: Seq<T>) -> Seq<T::V> {
    Seq::new(list.len(), |i: int| list[i]@)
}

/// Each item may stand before all that follow it.
pub open spec fn ranked<T: Ranked>(list: Seq<T::V>) -> bool {
    forall|i: int, j: int| 0 <= i < j < list.len() ==> T::not_after(list[i], list[j])
}

/// Whether an item shares the rank of `x`.
pub open spec fn peer<T: Ranked>(x: T::V) -> spec_fn(T::V) -> bool {
    |y: T::V| T::not_after(x, y) && T::not_after(y, x)
}

/// `to` holds the items of `from`, and items of one rank are in the order in
/// which `from` has them.
pub open spec fn rearranged<T: Ranked>(from: Seq<T::V>, to: Seq<T::V>) -> bool {
    &&& to.to_multiset() == from.to_multiset()
    &&& forall|x: T::V| #[trigger] to.filter(peer::<T>(x)) == from.filter(peer::<T>(x))
}

/// What is left of two ranked lists and what has been taken off their ends
/// still make up both.
spec fn split<T: Ranked>(whole: Seq<T::V>, a: Seq<T::V>, b: Seq<T::V>, taken: Seq<T::V>) -> bool {
    &&& (a + b + taken).to_multiset() == whole.to_multiset()
    &&& forall|x: T::V|
        #[trigger] whole.filter(peer::<T>(x)) == a.filter(peer::<T>(x)) + b.filter(peer::<T>(x))
            + taken.filter(peer::<T>(x))
}

/// Every item of `front` may stand before every item of `back`.
spec fn all_before<T: Ranked>(front: Seq<T::V>, back: Seq<T::V>) -> bool {
    forall|i: int, j: int|
        0 <= i < front.len() && 0 <= j < back.len() ==> T::not_after(front[i], back[j])
}

/// Taking the last of the second list.
proof fn lemma_take_second<T: Ranked>(
    whole: Seq<T::V>,
    a: Seq<T::V>,
    b: Seq<T::V>,
    taken: Seq<T::V>,
)
    requires
        split::<T>(whole, a, b, taken),
        b.len() > 0,
    ensures
        split::<T>(whole, a, b.drop_last(), seq![b.last()] + taken),
{
    let one = seq![b.last()];
    let rest = b.drop_last();
    assert(b =~= rest + one);
    assert(a + rest + (one + taken) =~= a + b + taken);
    assert forall|x: T::V|
        #[trigger] whole.filter(peer::<T>(x)) == a.filter(peer::<T>(x)) + rest.filter(peer::<T>(x))
            + (one + taken).filter(peer::<T>(x)) by {
        let p = peer::<T>(x);
        Seq::filter_distributes_over_add(rest, one, p);
        Seq::filter_distributes_over_add(one, taken, p);
        assert(a.filter(p) + rest.filter(p) + (one.filter(p) + taken.filter(p)) =~= a.filter(p) + (
        rest.filter(p) + one.filter(p)) + taken.filter(p));
    }
}

/// Taking the last of the first list, where it ranks after all of the second.
proof fn lemma_take_first<T: Ranked>(
    whole: Seq<T::V>,
    a: Seq<T::V>,
    b: Seq<T::V>,
    taken: Seq<T::V>,
)
    requires
        split::<T>(whole, a, b, taken),
        a.len() > 0,
        forall|i: int| 0 <= i < b.len() ==> !T::not_after(a.last(), #[trigger] b[i]),
    ensures
        split::<T>(whole, a.drop_last(), b, seq![a.last()] + taken),
{
    let one = seq![a.last()];
    let rest = a.drop_last();
    assert(a =~= rest + one);
    assert((rest + b + (one + taken)).to_multiset() == whole.to_multiset()) by {
        vstd::seq_lib::lemma_multiset_commutative(rest + one + b, taken);
        vstd::seq_lib::lemma_multiset_commutative(rest + one, b);
        vstd::seq_lib::lemma_multiset_commutative(rest, one);
        vstd::seq_lib::lemma_multiset_commutative(rest + b, one + taken);
        vstd::seq_lib::lemma_multiset_commutative(rest, b);
        vstd::seq_lib::lemma_multiset_commutative(one, taken);
        assert((rest + b + (one + taken)).to_multiset() =~= (a + b + taken).to_multiset());
    }
    assert forall|x: T::V|
        #[trigger] whole.filter(peer::<T>(x)) == rest.filter(peer::<T>(x)) + b.filter(peer::<T>(x))
            + (one + taken).filter(peer::<T>(x)) by {
        let p = peer::<T>(x);
        Seq::filter_distributes_over_add(rest, one, p);
        Seq::filter_distributes_over_add(one, taken, p);
        if p(a.last()) {
            assert forall|i: int| 0 <= i < b.len() implies !p(#[trigger] b[i]) by {
                if p(b[i]) {
                    T::lemma_transitive(a.last(), x, b[i]);
                }
            }
            lemma_filter_none(b, p);
            assert(rest.filter(p) + b.filter(p) + (one.filter(p) + taken.filter(p)) =~= (
            rest.filter(p) + one.filter(p)) + b.filter(p) + taken.filter(p));
        } else {
            assert(one[0] == a.last());
            lemma_filter_none(one, p);
            assert(rest.filter(p) + b.filter(p) + (one.filter(p) + taken.filter(p)) =~= (
            rest.filter(p) + one.filter(p)) + b.filter(p) + taken.filter(p));
        }
    }
}

/// Nothing comes through a filter that lets nothing through.
proof fn lemma_filter_none<A>(s: Seq<A>, p: spec_fn(A) -> bool)
    requires
        forall|i: int| 0 <= i < s.len() ==> !p(#[trigger] s[i]),
    ensures
        s.filter(p) =~= Seq::empty(),
    decreases s.len(),
{
    reveal(Seq::filter);
    if s.len() > 0 {
        assert forall|i: int| 0 <= i < s.len() - 1 implies !p(#[trigger] s.drop_last()[i]) by {
            assert(s.drop_last()[i] == s[i]);
        }
        lemma_filter_none(s.drop_last(), p);
        assert(!p(s[s.len() - 1]));
    }
}

/// The list of `items` from its last to its first.
fn turned<T: Ranked>(items: Vec<T>) -> (res: Vec<T>)
    ensures
        views(res@) == views(items@).reverse(),
{
    let ghost all = views(items@);
    let mut left = items;
    let mut out: Vec<T> = Vec::new();
    while left.len() > 0
        invariant
            left@.len() <= all.len(),
            views(left@) =~= all.take(left@.len() as int),
            views(out@) =~= all.skip(left@.len() as int).reverse(),
        decreases left@.len(),
    {
        let ghost before = views(left@);
        let ghost done = views(out@);
        match left.pop() {
            Some(item) => {
                out.push(item);
                proof {
                    assert(item@ == before.last());
                    assert(views(out@) =~= done.push(before.last()));
                    assert(views(left@) =~= before.drop_last());
                }
            },
            None => {},
        }
    }
    out
}

/// Merges two ranked lists; of two items of one rank the one of `first` comes first.
fn merge<T: Ranked>(first: Vec<T>, second: Vec<T>) -> (res: Vec<T>)
    requires
        ranked::<T>(views(first@)),
        ranked::<T>(views(second@)),
    ensures
        ranked::<T>(views(res@)),
        rearranged::<T>(views(first@) + views(second@), views(res@)),
{
    let ghost whole = views(first@) + views(second@);
    let mut a = first;
    let mut b = second;
    let mut out: Vec<T> = Vec::new();
    let ghost mut taken: Seq<T::V> = Seq::empty();
    proof {
        assert(views(a@) + views(b@) + taken =~= whole);
        assert forall|x: T::V|
            #[trigger] whole.filter(peer::<T>(x)) == views(a@).filter(peer::<T>(x)) + views(
                b@,
            ).filter(peer::<T>(x)) + taken.filter(peer::<T>(x)) by {
            let p = peer::<T>(x);
            Seq::filter_distributes_over_add(views(a@), views(b@), p);
            lemma_filter_none(taken, p);
            assert(views(a@).filter(p) + views(b@).filter(p) + taken.filter(p) =~= views(
                a@,
            ).filter(p) + views(b@).filter(p));
        }
    }
    while a.len() > 0 || b.len() > 0
        invariant
            ranked::<T>(views(a@)),
            ranked::<T>(views(b@)),
            ranked::<T>(taken),
            all_before::<T>(views(a@), taken),
            all_before::<T>(views(b@), taken),
            split::<T>(whole, views(a@), views(b@), taken),
            views(out@) =~= taken.reverse(),
        decreases a@.len() + b@.len(),
    {
        let ghost va = views(a@);
        let ghost vb = views(b@);
        let ghost done = views(out@);
        let ghost old_taken = taken;
        let from_second = if a.len() == 0 {
            true
        } else if b.len() == 0 {
            false
        } else {
            a[a.len() - 1].may_precede(&b[b.len() - 1])
        };
        if from_second {
            if let Some(item) = b.pop() {
                out.push(item);
                proof {
                    lemma_take_second::<T>(whole, va, vb, taken);
                    taken = seq![vb.last()] + taken;
                    assert(views(b@) =~= vb.drop_last());
                    assert(views(out@) =~= done.push(vb.last()));
                    assert(taken.reverse() =~= old_taken.reverse().push(vb.last()));
                    assert forall|i: int| 0 <= i < va.len() implies T::not_after(
                        #[trigger] va[i],
                        vb.last(),
                    ) by {
                        if i < va.len() - 1 {
                            T::lemma_transitive(va[i], va.last(), vb.last());
                        }
                    }
                }
            }
        } else {
            proof {
                assert forall|i: int| 0 <= i < vb.len() implies !T::not_after(
                    va.last(),
                    #[trigger] vb[i],
                ) by {
                    if T::not_after(va.last(), vb[i]) && i < vb.len() - 1 {
                        T::lemma_transitive(va.last(), vb[i], vb.last());
                    }
                }
            }
            if let Some(item) = a.pop() {
                out.push(item);
                proof {
                    lemma_take_first::<T>(whole, va, vb, taken);
                    taken = seq![va.last()] + taken;
                    assert(views(a@) =~= va.drop_last());
                    assert(views(out@) =~= done.push(va.last()));
                    assert(taken.reverse() =~= old_taken.reverse().push(va.last()));
                    assert forall|i: int| 0 <= i < vb.len() implies T::not_after(
                        #[trigger] vb[i],
                        va.last(),
                    ) by {
                        T::lemma_total(va.last(), vb[i]);
                    }
                }
            }
        }
    }
    let res = turned(out);
    proof {
        assert(views(res@) =~= taken);
        assert(views(a@) + views(b@) + taken =~= taken);
        assert forall|x: T::V| #[trigger] taken.filter(peer::<T>(x)) == whole.filter(
            peer::<T>(x),
        ) by {
            let p = peer::<T>(x);
            lemma_filter_none(views(a@), p);
            lemma_filter_none(views(b@), p);
            assert(whole.filter(peer::<T>(x)) =~= taken.filter(p));
        }
    }
    res
}

/// Sorts a list; items of one rank keep their order.
pub fn sorted<T: Ranked>(items: Vec<T>) -> (res: Vec<T>)
    ensures
        ranked::<T>(views(res@)),
        rearranged::<T>(views(items@), views(res@)),
    decreases items@.len(),
{
    if items.len() < 2 {
        return items;
    }
    let ghost whole = views(items@);
    let mut first = items;
    let half = first.len() / 2;
    let second = first.split_off(half);
    let ghost va = views(first@);
    let ghost vb = views(second@);
    let a = sorted(first);
    let b = sorted(second);
    let res = merge(a, b);
    proof {
        assert(whole =~= va + vb);
        vstd::seq_lib::lemma_multiset_commutative(va, vb);
        vstd::seq_lib::lemma_multiset_commutative(views(a@), views(b@));
        assert forall|x: T::V| #[trigger] views(res@).filter(peer::<T>(x)) == whole.filter(
            peer::<T>(x),
        ) by {
            let p = peer::<T>(x);
            Seq::filter_distributes_over_add(va, vb, p);
            Seq::filter_distributes_over_add(views(a@), views(b@), p);
        }
    }
    res
}

} // verus!
