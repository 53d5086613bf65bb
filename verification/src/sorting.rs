//! Ordering of string lists, as `sort` and `dedup` on `Vec<String>` do.
use vstd::prelude::*;

use crate::text::{
    lemma_lex_lt_transitive, lemma_lex_total, lex_le, lex_lt,
    string_lt, views,
};

verus! {

/// The strings are in increasing order.
pub open spec fn ascending(s: Seq<Seq<char>>) -> bool {
    forall|i: int, j: int| 0 <= i < j < s.len() ==> lex_le(s[i], s[j])
}

/// The strings are in strictly increasing order, so each occurs once.
pub open spec fn strictly_ascending(s: Seq<Seq<char>>) -> bool {
    forall|i: int, j: int| 0 <= i < j < s.len() ==> lex_lt(s[i], s[j])
}

proof fn lemma_views_insert(v: Seq<String>, p: int, x: String)
    requires
        0 <= p <= v.len(),
    ensures
        views(v.insert(p, x)) == views(v).insert(p, x@),
{
    assert(views(v.insert(p, x)) =~= views(v).insert(p, x@));
}

/// Inserts `x` after the strings that are not greater than it.
fn insert_sorted(out: &mut Vec<String>, x: String)
    requires
        ascending(views(old(out)@)),
    ensures
        ascending(views(final(out)@)),
        views(final(out)@).to_multiset() == views(old(out)@).to_multiset().insert(x@),
{
    let mut p: usize = 0;
    while p < out.len() && !string_lt(&x, &out[p])
        invariant
            p <= out.len(),
            forall|k: int| 0 <= k < p ==> lex_le(views(out@)[k], x@),
        decreases out.len() - p,
    {
        proof {
            lemma_lex_total(x@, out@[p as int]@);
        }
        p = p + 1;
    }
    let ghost before = views(out@);
    let ghost xv = x@;
    out.insert(p, x);
    proof {
        lemma_views_insert(old(out)@, p as int, x);
        let now = views(out@);
        assert(now == before.insert(p as int, xv));
        assert forall|i: int, j: int| 0 <= i < j < now.len() implies lex_le(now[i], now[j]) by {
            if p < before.len() {
                assert(lex_lt(xv, before[p as int]));
            }
            if i < p && j == p {
            } else if i == p && j > p {
                assert(lex_le(before[p as int], before[j - 1]));
                if before[p as int] != before[j - 1] {
                    lemma_lex_lt_transitive(xv, before[p as int], before[j - 1]);
                }
            } else if i < p && j > p {
                assert(lex_le(before[i], before[j - 1]));
            } else if j < p {
            } else {
                assert(lex_le(before[i - 1], before[j - 1]));
            }
        }
        vstd::seq_lib::to_multiset_insert(before, p as int, xv);
    }
}

/// The strings in increasing order (`Vec::sort`).
pub fn sort_strings(v: Vec<String>) -> (r: Vec<String>)
    ensures
        ascending(views(r@)),
        views(r@).to_multiset() == views(v@).to_multiset(),
{
    let ghost input = v@;
    let mut rest = v;
    let mut out: Vec<String> = Vec::new();
    let ghost mut taken: int = 0;
    assert(views(input.take(0)) =~= Seq::<Seq<char>>::empty());
    assert(views(out@) =~= Seq::<Seq<char>>::empty());
    while rest.len() > 0
        invariant
            0 <= taken <= input.len(),
            rest@ == input.skip(taken),
            ascending(views(out@)),
            views(out@).to_multiset() == views(input.take(taken)).to_multiset(),
        decreases rest.len(),
    {
        let x = rest.remove(0);
        let ghost xv = x@;
        insert_sorted(&mut out, x);
        proof {
            assert(views(input.take(taken + 1)) =~= views(input.take(taken)).push(xv));
            vstd::seq_lib::to_multiset_build(views(input.take(taken)), xv);
            assert(input.skip(taken + 1) =~= input.skip(taken).drop_first());
            taken = taken + 1;
        }
    }
    assert(input.take(taken) =~= input);
    out
}

/// Inserts `x` unless an equal string is there, keeping the order strict.
pub fn insert_sorted_unique(out: &mut Vec<String>, x: String)
    requires
        strictly_ascending(views(old(out)@)),
    ensures
        strictly_ascending(views(final(out)@)),
        views(final(out)@).to_set() == views(old(out)@).to_set().insert(x@),
{
    let mut p: usize = 0;
    while p < out.len() && string_lt(&out[p], &x)
        invariant
            p <= out.len(),
            forall|k: int| 0 <= k < p ==> lex_lt(views(out@)[k], x@),
        decreases out.len() - p,
    {
        p = p + 1;
    }
    let ghost before = views(out@);
    let ghost xv = x@;
    if p < out.len() && !string_lt(&x, &out[p]) {
        proof {
            lemma_lex_total(x@, out@[p as int]@);
            assert(before[p as int] == xv);
            assert(before.to_set().insert(xv) =~= before.to_set());
        }
        return ;
    }
    out.insert(p, x);
    proof {
        lemma_views_insert(old(out)@, p as int, x);
        let now = views(out@);
        assert(now == before.insert(p as int, xv));
        assert forall|i: int, j: int| 0 <= i < j < now.len() implies lex_lt(now[i], now[j]) by {
            if i < p && j == p {
            } else if i == p && j > p {
                if j - 1 > p {
                    lemma_lex_lt_transitive(xv, before[p as int], before[j - 1]);
                }
            } else if i < p && j > p {
            } else if j < p {
            } else {
            }
        }
        assert(now.to_set() =~= before.to_set().insert(xv)) by {
            assert forall|y: Seq<char>| now.to_set().contains(y) <==> before.to_set().insert(
                xv,
            ).contains(y) by {
                if now.contains(y) {
                    let k = choose|k: int| 0 <= k < now.len() && now[k] == y;
                    if k < p {
                        assert(before[k] == y);
                    } else if k > p {
                        assert(before[k - 1] == y);
                    }
                }
                if before.contains(y) {
                    let k = choose|k: int| 0 <= k < before.len() && before[k] == y;
                    if k < p {
                        assert(now[k] == y);
                    } else {
                        assert(now[k + 1] == y);
                    }
                }
                if y == xv {
                    assert(now[p as int] == y);
                }
            }
        }
    }
}

/// Filtering a sequence with one more item at its end.
pub proof fn lemma_filter_push<A>(s: Seq<A>, x: A, pred: spec_fn(A) -> bool)
    ensures
        s.push(x).filter(pred) == (if pred(x) {
            s.filter(pred).push(x)
        } else {
            s.filter(pred)
        }),
{
    reveal(Seq::filter);
    assert(s.push(x).drop_last() =~= s);
}

/// Inserting an item before no later item that the filter keeps filters as
/// appending it does: the kept items stay in their order.
pub proof fn lemma_filter_insert<A>(s: Seq<A>, p: int, x: A, pred: spec_fn(A) -> bool)
    requires
        0 <= p <= s.len(),
        pred(x) ==> forall|i: int| p <= i < s.len() ==> !pred(#[trigger] s[i]),
    ensures
        s.insert(p, x).filter(pred) == s.push(x).filter(pred),
{
    let a = s.take(p);
    let b = s.skip(p);
    assert(s.insert(p, x) =~= a + seq![x] + b);
    assert(s =~= a + b);
    Seq::filter_distributes_over_add(a + seq![x], b, pred);
    Seq::filter_distributes_over_add(a, seq![x], pred);
    Seq::filter_distributes_over_add(a, b, pred);
    lemma_filter_push(s, x, pred);
    lemma_filter_push(Seq::<A>::empty(), x, pred);
    assert(Seq::<A>::empty().push(x) =~= seq![x]);
    assert(Seq::<A>::empty().filter(pred) =~= Seq::<A>::empty()) by {
        reveal(Seq::filter);
    }
    if pred(x) {
        if b.filter(pred).len() > 0 {
            let e = b.filter(pred)[0];
            b.lemma_filter_pred(pred, 0);
            assert(b.filter(pred).contains(e));
            b.lemma_filter_contains_rev(pred, e);
            let j = choose|j: int| 0 <= j < b.len() && b[j] == e;
            assert(s[p + j] == b[j]);
        }
        assert(b.filter(pred) =~= Seq::<A>::empty());
    }
}

/// Items listed in the order of a key: `key_before(a, b)` says that an
/// item of key `a` is listed before one of key `b`. The order on keys is
/// strict: irreflexive and transitive.
pub trait SortKey: Sized {
    type Key;

    /// The key by which the item is listed.
    spec fn sort_key(&self) -> Self::Key;

    /// Whether items of key `a` come strictly before items of key `b`.
    spec fn key_before(a: Self::Key, b: Self::Key) -> bool;

    proof fn lemma_key_irreflexive(a: Self::Key)
        ensures
            !Self::key_before(a, a),
    ;

    proof fn lemma_key_transitive(a: Self::Key, b: Self::Key, c: Self::Key)
        requires
            Self::key_before(a, b),
            Self::key_before(b, c),
        ensures
            Self::key_before(a, c),
    ;

    /// Whether `self` comes strictly before `other`.
    fn goes_before(&self, other: &Self) -> (r: bool)
        ensures
            r == Self::key_before(self.sort_key(), other.sort_key()),
    ;
}

/// No item is listed after an item that comes strictly after it.
pub open spec fn in_key_order<T: SortKey>(s: Seq<T>) -> bool {
    forall|i: int, j: int|
        0 <= i < j < s.len() ==> !T::key_before(#[trigger] s[j].sort_key(), #[trigger] s[i].sort_key())
}

/// Whether an item has the key `k`.
pub open spec fn key_is<T: SortKey>(k: T::Key) -> spec_fn(T) -> bool {
    |x: T| x.sort_key() == k
}

/// Sorts by key, keeping items of equal keys in their order (a stable
/// insertion sort).
pub fn stable_sort<T: SortKey>(v: Vec<T>) -> (r: Vec<T>)
    ensures
        in_key_order(r@),
        r@.to_multiset() == v@.to_multiset(),
        forall|k: T::Key| #[trigger] r@.filter(key_is::<T>(k)) == v@.filter(key_is::<T>(k)),
{
    let ghost input = v@;
    let mut rest = v;
    let mut out: Vec<T> = Vec::new();
    let ghost mut taken: int = 0;
    assert(input.take(0) =~= Seq::<T>::empty());
    while rest.len() > 0
        invariant
            0 <= taken <= input.len(),
            rest@ == input.skip(taken),
            in_key_order(out@),
            out@.to_multiset() == input.take(taken).to_multiset(),
            forall|k: T::Key| #[trigger] out@.filter(key_is::<T>(k)) == input.take(taken).filter(
                key_is::<T>(k),
            ),
        decreases rest.len(),
    {
        let x = rest.remove(0);
        let mut p: usize = 0;
        while p < out.len() && !x.goes_before(&out[p])
            invariant
                p <= out.len(),
                forall|k: int| 0 <= k < p ==> !T::key_before(x.sort_key(), #[trigger] out@[k].sort_key()),
            decreases out.len() - p,
        {
            p = p + 1;
        }
        let ghost before = out@;
        out.insert(p, x);
        proof {
            assert forall|i: int, j: int| 0 <= i < j < out@.len() implies !T::key_before(
                #[trigger] out@[j].sort_key(),
                #[trigger] out@[i].sort_key(),
            ) by {
                if i == p && j > p {
                    let y = before[j - 1].sort_key();
                    if T::key_before(y, x.sort_key()) {
                        T::lemma_key_transitive(y, x.sort_key(), before[p as int].sort_key());
                        if j - 1 == p {
                            T::lemma_key_irreflexive(y);
                        } else {
                            assert(!T::key_before(y, before[p as int].sort_key()));
                        }
                    }
                } else if i < p && j > p {
                    assert(out@[i] == before[i] && out@[j] == before[j - 1]);
                } else if i > p {
                    assert(out@[i] == before[i - 1] && out@[j] == before[j - 1]);
                } else if j < p {
                    assert(out@[i] == before[i] && out@[j] == before[j]);
                } else {
                    assert(out@[i] == before[i] && out@[j] == x);
                }
            }
            vstd::seq_lib::to_multiset_insert(before, p as int, x);
            assert(input.take(taken + 1) =~= input.take(taken).push(x));
            vstd::seq_lib::to_multiset_build(input.take(taken), x);
            assert forall|k: T::Key| #[trigger] out@.filter(key_is::<T>(k)) == input.take(
                taken + 1,
            ).filter(key_is::<T>(k)) by {
                assert forall|i: int| p <= i < before.len() && x.sort_key() == k implies !(
                    #[trigger] before[i].sort_key() == k) by {
                    assert(T::key_before(x.sort_key(), before[p as int].sort_key()));
                    if i == p {
                        T::lemma_key_irreflexive(k);
                    } else {
                        assert(!T::key_before(before[i].sort_key(), before[p as int].sort_key()));
                    }
                }
                lemma_filter_insert(before, p as int, x, key_is::<T>(k));
                lemma_filter_push(before, x, key_is::<T>(k));
                lemma_filter_push(input.take(taken), x, key_is::<T>(k));
            }
            assert(input.skip(taken + 1) =~= input.skip(taken).drop_first());
            taken = taken + 1;
        }
    }
    assert(input.take(taken) =~= input);
    out
}

} // verus!
