//! Stable sorting of display-ordered collections, and reordering lemmas.
//!
//! Code definitions, themes and files are kept in display order and can be
//! sorted by display name.  The sort is specified by [`sort_by_stable`], a
//! straight insertion sort: it keeps the prior relative order of entries
//! whose keys tie.  The lemmas here establish the facts callers rely on:
//! sorting permutes the entries (multiset equality), yields a sorted
//! sequence, is idempotent, and preserves the relative order of tied
//! entries; positional moves and swaps also permute the entries.

use vstd::prelude::*;
use vstd::relations::{sorted_by, strongly_connected, transitive};
use vstd::seq_lib::group_to_multiset_ensures;
use crate::strorder::chars_le;
use crate::strorder::lemma_chars_le_total;
use crate::strorder::lemma_chars_le_trans;

verus! {

/// The sequence of views of a sequence of values.
pub open spec fn views_of<T: View>(s: Seq<T>) -> Seq<T::V> {
    s.map_values(|x: T| x@)
}

/// Places `x` immediately before the first entry `y` of `s` with
/// `leq(x, y)`; entries that tie with `x` therefore stay behind it.
pub open spec fn insert_by<T>(leq: spec_fn(T, T) -> bool, x: T, s: Seq<T>) -> Seq<T>
    decreases s.len(),
{
    if s.len() == 0 {
        seq![x]
    } else if leq(x, s[0]) {
        seq![x] + s
    } else {
        seq![s[0]] + insert_by(leq, x, s.drop_first())
    }
}

/// Straight insertion sort: stable for entries whose keys tie.
pub open spec fn sort_by_stable<T>(leq: spec_fn(T, T) -> bool, s: Seq<T>) -> Seq<T>
    decreases s.len(),
{
    if s.len() == 0 {
        Seq::empty()
    } else {
        insert_by(leq, s[0], sort_by_stable(leq, s.drop_first()))
    }
}

/// Inserting adds exactly one occurrence of `x` to the entries.
pub proof fn lemma_insert_by_multiset<T>(leq: spec_fn(T, T) -> bool, x: T, s: Seq<T>)
    ensures
        insert_by(leq, x, s).to_multiset() =~= s.to_multiset().insert(x),
    decreases s.len(),
{
    broadcast use group_to_multiset_ensures;
    broadcast use vstd::multiset::group_multiset_axioms;

    if s.len() == 0 {
        assert(seq![x] =~= Seq::<T>::empty().push(x));
    } else if leq(x, s[0]) {
        assert(seq![x] + s =~= s.insert(0, x));
        let t = s.insert(0, x);
        assert(t.remove(0) =~= s);
        assert(t[0] == x);
        assert(t.remove(0).to_multiset() =~= t.to_multiset().remove(x));
        assert(t.to_multiset().count(x) > 0);
        assert(t.to_multiset() =~= s.to_multiset().insert(x));
    } else {
        lemma_insert_by_multiset(leq, x, s.drop_first());
        let rec = insert_by(leq, x, s.drop_first());
        let t = seq![s[0]] + rec;
        assert(t.remove(0) =~= rec);
        assert(t[0] == s[0]);
        assert(t.remove(0).to_multiset() =~= t.to_multiset().remove(s[0]));
        assert(t.contains(s[0]));
        assert(t.to_multiset().count(s[0]) > 0);
        assert(s.remove(0) =~= s.drop_first());
        assert(s.remove(0).to_multiset() =~= s.to_multiset().remove(s[0]));
        assert(s.contains(s[0]));
        assert(s.to_multiset().count(s[0]) > 0);
        assert forall|e: T|
            t.to_multiset().count(e) == s.to_multiset().insert(x).count(e) by {
            assert(rec.to_multiset().count(e) == t.to_multiset().remove(s[0]).count(e));
            assert(rec.to_multiset().count(e) == s.drop_first().to_multiset().insert(x).count(e));
            assert(s.drop_first().to_multiset().count(e) == s.to_multiset().remove(s[0]).count(
                e,
            ));
        }
        assert(t.to_multiset() =~= s.to_multiset().insert(x));
    }
}

/// Sorting permutes the entries.
pub proof fn lemma_sort_by_stable_multiset<T>(leq: spec_fn(T, T) -> bool, s: Seq<T>)
    ensures
        sort_by_stable(leq, s).to_multiset() =~= s.to_multiset(),
        sort_by_stable(leq, s).len() == s.len(),
        forall|x: T| sort_by_stable(leq, s).contains(x) <==> s.contains(x),
    decreases s.len(),
{
    broadcast use group_to_multiset_ensures;
    broadcast use vstd::multiset::group_multiset_axioms;

    let t = sort_by_stable(leq, s);
    if s.len() == 0 {
    } else {
        lemma_sort_by_stable_multiset(leq, s.drop_first());
        lemma_insert_by_multiset(leq, s[0], sort_by_stable(leq, s.drop_first()));
        assert(s.remove(0) =~= s.drop_first());
        assert(s.remove(0).to_multiset() =~= s.to_multiset().remove(s[0]));
        assert(s.contains(s[0]));
        assert(s.to_multiset().count(s[0]) > 0);
        assert forall|e: T| t.to_multiset().count(e) == s.to_multiset().count(e) by {
            assert(s.drop_first().to_multiset().count(e) == s.to_multiset().remove(s[0]).count(
                e,
            ));
        }
        assert(t.to_multiset() =~= s.to_multiset());
    }
    assert(t.to_multiset().len() == t.len());
    assert(s.to_multiset().len() == s.len());
    assert forall|x: T| t.contains(x) <==> s.contains(x) by {
        assert(t.contains(x) <==> t.to_multiset().count(x) > 0);
        assert(s.contains(x) <==> s.to_multiset().count(x) > 0);
    }
}

/// An entry of the inserted sequence is the inserted value or an entry of
/// the original.
pub proof fn lemma_insert_by_contains<T>(leq: spec_fn(T, T) -> bool, x: T, s: Seq<T>, y: T)
    requires
        insert_by(leq, x, s).contains(y),
    ensures
        y == x || s.contains(y),
{
    broadcast use group_to_multiset_ensures;
    broadcast use vstd::multiset::group_multiset_axioms;

    lemma_insert_by_multiset(leq, x, s);
    assert(insert_by(leq, x, s).to_multiset().count(y) > 0);
    if y != x {
        assert(s.to_multiset().count(y) > 0);
    }
}

/// Inserting into a sorted sequence keeps it sorted.
pub proof fn lemma_insert_by_sorted<T>(leq: spec_fn(T, T) -> bool, x: T, s: Seq<T>)
    requires
        sorted_by(s, leq),
        strongly_connected(leq),
        transitive(leq),
    ensures
        sorted_by(insert_by(leq, x, s), leq),
    decreases s.len(),
{
    let t = insert_by(leq, x, s);
    if s.len() == 0 {
    } else if leq(x, s[0]) {
        assert forall|i: int, j: int| 0 <= i < j < t.len() implies leq(t[i], t[j]) by {
            if i == 0 {
                assert(t[j] == s[j - 1]);
                if j > 1 {
                    assert(leq(s[0], s[j - 1]));
                }
            }
        }
    } else {
        assert(leq(s[0], x));
        assert(sorted_by(s.drop_first(), leq));
        lemma_insert_by_sorted(leq, x, s.drop_first());
        let rec = insert_by(leq, x, s.drop_first());
        assert forall|i: int, j: int| 0 <= i < j < t.len() implies leq(t[i], t[j]) by {
            if i == 0 {
                assert(t[j] == rec[j - 1]);
                assert(rec.contains(rec[j - 1]));
                lemma_insert_by_contains(leq, x, s.drop_first(), rec[j - 1]);
                if rec[j - 1] == x {
                } else {
                    let k = choose|k: int|
                        0 <= k < s.drop_first().len() && s.drop_first()[k] == rec[j - 1];
                    assert(s[k + 1] == rec[j - 1]);
                    assert(leq(s[0], s[k + 1]));
                }
            }
        }
    }
}

/// The sort yields a sorted sequence.
pub proof fn lemma_sort_by_stable_sorted<T>(leq: spec_fn(T, T) -> bool, s: Seq<T>)
    requires
        strongly_connected(leq),
        transitive(leq),
    ensures
        sorted_by(sort_by_stable(leq, s), leq),
    decreases s.len(),
{
    if s.len() > 0 {
        lemma_sort_by_stable_sorted(leq, s.drop_first());
        lemma_insert_by_sorted(leq, s[0], sort_by_stable(leq, s.drop_first()));
    }
}

/// Sorting an already sorted sequence leaves it unchanged.
pub proof fn lemma_sort_by_stable_of_sorted<T>(leq: spec_fn(T, T) -> bool, s: Seq<T>)
    requires
        sorted_by(s, leq),
    ensures
        sort_by_stable(leq, s) == s,
    decreases s.len(),
{
    if s.len() == 0 {
        assert(sort_by_stable(leq, s) =~= s);
    } else {
        let df = s.drop_first();
        assert(sorted_by(df, leq));
        lemma_sort_by_stable_of_sorted(leq, df);
        if df.len() == 0 {
            assert(seq![s[0]] =~= s);
        } else {
            assert(leq(s[0], df[0]));
            assert(seq![s[0]] + df =~= s);
        }
    }
}

/// Sorting twice gives the same order as sorting once.
pub proof fn lemma_sort_by_stable_idempotent<T>(leq: spec_fn(T, T) -> bool, s: Seq<T>)
    requires
        strongly_connected(leq),
        transitive(leq),
    ensures
        sort_by_stable(leq, sort_by_stable(leq, s)) == sort_by_stable(leq, s),
{
    lemma_sort_by_stable_sorted(leq, s);
    lemma_sort_by_stable_of_sorted(leq, sort_by_stable(leq, s));
}

proof fn lemma_filter_singleton<T>(x: T, p: spec_fn(T) -> bool)
    ensures
        seq![x].filter(p) == if p(x) {
            seq![x]
        } else {
            Seq::<T>::empty()
        },
{
    reveal_with_fuel(Seq::filter, 2);
    assert(seq![x].drop_last() =~= Seq::<T>::empty());
    assert(Seq::<T>::empty().filter(p) == Seq::<T>::empty());
    assert(seq![x].last() == x);
    if p(x) {
        assert(Seq::<T>::empty().push(x) =~= seq![x]);
    }
}

/// How insertion interacts with a tie class: when every entry satisfying
/// `p` is at-or-after `x` in the order, inserting an `x` that satisfies `p`
/// puts it before all of them.
pub proof fn lemma_insert_by_filter<T>(
    leq: spec_fn(T, T) -> bool,
    x: T,
    s: Seq<T>,
    p: spec_fn(T) -> bool,
)
    requires
        forall|z: T| p(x) && #[trigger] p(z) ==> leq(x, z),
    ensures
        insert_by(leq, x, s).filter(p) == if p(x) {
            seq![x] + s.filter(p)
        } else {
            s.filter(p)
        },
    decreases s.len(),
{
    broadcast use vstd::seq_lib::group_filter_ensures;

    lemma_filter_singleton(x, p);
    if s.len() == 0 {
        reveal(Seq::filter);
        if p(x) {
            assert(seq![x] + Seq::<T>::empty().filter(p) =~= seq![x]);
        }
    } else if leq(x, s[0]) {
        Seq::filter_distributes_over_add(seq![x], s, p);
    } else {
        lemma_insert_by_filter(leq, x, s.drop_first(), p);
        lemma_filter_singleton(s[0], p);
        let rec = insert_by(leq, x, s.drop_first());
        Seq::filter_distributes_over_add(seq![s[0]], rec, p);
        assert(seq![s[0]] + s.drop_first() =~= s);
        Seq::filter_distributes_over_add(seq![s[0]], s.drop_first(), p);
        if p(x) {
            assert(!p(s[0]));
            assert(Seq::<T>::empty() + (seq![x] + s.drop_first().filter(p)) =~= seq![x]
                + s.filter(p));
        }
    }
}

/// Stability: entries of one tie class (all mutually at-or-before each
/// other in the order) keep their relative order across the sort.
pub proof fn lemma_sort_by_stable_ties<T>(
    leq: spec_fn(T, T) -> bool,
    s: Seq<T>,
    p: spec_fn(T) -> bool,
)
    requires
        forall|y: T, z: T| #[trigger] p(y) && #[trigger] p(z) ==> leq(y, z),
    ensures
        sort_by_stable(leq, s).filter(p) == s.filter(p),
    decreases s.len(),
{
    broadcast use vstd::seq_lib::group_filter_ensures;

    if s.len() == 0 {
        reveal(Seq::filter);
    } else {
        lemma_sort_by_stable_ties(leq, s.drop_first(), p);
        lemma_insert_by_filter(leq, s[0], sort_by_stable(leq, s.drop_first()), p);
        lemma_filter_singleton(s[0], p);
        assert(seq![s[0]] + s.drop_first() =~= s);
        Seq::filter_distributes_over_add(seq![s[0]], s.drop_first(), p);
        if p(s[0]) {
            assert(seq![s[0]] + s.drop_first().filter(p) =~= s.filter(p));
        } else {
            assert(Seq::<T>::empty() + s.drop_first().filter(p) =~= s.filter(p));
        }
    }
}

/// Inserting a value at an index adds one occurrence of it to the entries.
pub proof fn lemma_seq_insert_multiset<T>(s: Seq<T>, i: int, x: T)
    requires
        0 <= i <= s.len(),
    ensures
        s.insert(i, x).to_multiset() =~= s.to_multiset().insert(x),
{
    broadcast use group_to_multiset_ensures;
    broadcast use vstd::multiset::group_multiset_axioms;

    let t = s.insert(i, x);
    assert(t.remove(i) =~= s);
    assert(t[i] == x);
    assert(t.remove(i).to_multiset() =~= t.to_multiset().remove(x));
    assert(t.contains(x));
    assert(t.to_multiset().count(x) > 0);
    assert forall|e: T| t.to_multiset().count(e) == s.to_multiset().insert(x).count(e) by {
        assert(s.to_multiset().count(e) == t.to_multiset().remove(x).count(e));
    }
}

/// Relocating one entry does not change the entries themselves: the result
/// is a permutation of the original, containing exactly the same values.
pub proof fn lemma_seq_move_permutes<T>(s: Seq<T>, from: int, to: int)
    requires
        0 <= from < s.len(),
        0 <= to < s.len(),
    ensures
        s.remove(from).insert(to, s[from]).to_multiset() =~= s.to_multiset(),
        s.remove(from).insert(to, s[from]).len() == s.len(),
        forall|x: T| s.remove(from).insert(to, s[from]).contains(x) <==> s.contains(x),
{
    broadcast use group_to_multiset_ensures;
    broadcast use vstd::multiset::group_multiset_axioms;

    let t = s.remove(from).insert(to, s[from]);
    assert(s.remove(from).to_multiset() =~= s.to_multiset().remove(s[from]));
    lemma_seq_insert_multiset(s.remove(from), to, s[from]);
    assert(s.contains(s[from]));
    assert(s.to_multiset().count(s[from]) > 0);
    assert forall|e: T| t.to_multiset().count(e) == s.to_multiset().count(e) by {
        assert(t.to_multiset().count(e) == s.remove(from).to_multiset().insert(s[from]).count(e));
    }
    assert(t.to_multiset() =~= s.to_multiset());
    assert(t.to_multiset().len() == t.len());
    assert(s.to_multiset().len() == s.len());
    assert forall|x: T| t.contains(x) <==> s.contains(x) by {
        assert(t.contains(x) <==> t.to_multiset().count(x) > 0);
        assert(s.contains(x) <==> s.to_multiset().count(x) > 0);
    }
}

/// Overwriting one entry exchanges its value in the entries.
pub proof fn lemma_seq_update_multiset<T>(s: Seq<T>, i: int, v: T)
    requires
        0 <= i < s.len(),
    ensures
        s.update(i, v).to_multiset() =~= s.to_multiset().remove(s[i]).insert(v),
{
    broadcast use group_to_multiset_ensures;
    broadcast use vstd::multiset::group_multiset_axioms;

    assert(s.update(i, v) =~= s.remove(i).insert(i, v));
    assert(s.remove(i).to_multiset() =~= s.to_multiset().remove(s[i]));
    lemma_seq_insert_multiset(s.remove(i), i, v);
}

/// Exchanging two entries does not change the entries themselves.
pub proof fn lemma_seq_swap_permutes<T>(s: Seq<T>, a: int, b: int)
    requires
        0 <= a < s.len(),
        0 <= b < s.len(),
    ensures
        s.update(a, s[b]).update(b, s[a]).to_multiset() =~= s.to_multiset(),
        s.update(a, s[b]).update(b, s[a]).len() == s.len(),
        forall|x: T| s.update(a, s[b]).update(b, s[a]).contains(x) <==> s.contains(x),
{
    broadcast use group_to_multiset_ensures;
    broadcast use vstd::multiset::group_multiset_axioms;

    let u = s.update(a, s[b]);
    let t = u.update(b, s[a]);
    if a == b {
        assert(t =~= s);
    } else {
        lemma_seq_update_multiset(s, a, s[b]);
        lemma_seq_update_multiset(u, b, u[b]);
        assert(u[b] == s[b]);
        assert(s.contains(s[a]));
        assert(s.to_multiset().count(s[a]) > 0);
        assert(u.contains(s[b])) by {
            assert(u[b] == s[b]);
        }
        assert(u.to_multiset().count(s[b]) > 0);
        assert forall|e: T| t.to_multiset().count(e) == s.to_multiset().count(e) by {
            assert(t.to_multiset().count(e) == u.to_multiset().remove(s[b]).insert(s[a]).count(e));
            assert(u.to_multiset().count(e) == s.to_multiset().remove(s[a]).insert(s[b]).count(e));
        }
        assert(t.to_multiset() =~= s.to_multiset());
    }
    assert(t.to_multiset().len() == t.len());
    assert(s.to_multiset().len() == s.len());
    assert forall|x: T| t.contains(x) <==> s.contains(x) by {
        assert(t.contains(x) <==> t.to_multiset().count(x) > 0);
        assert(s.contains(x) <==> s.to_multiset().count(x) > 0);
    }
}

/// How filtering interacts with appending one value.
pub proof fn lemma_filter_push<T>(s: Seq<T>, x: T, p: spec_fn(T) -> bool)
    ensures
        s.push(x).filter(p) == if p(x) {
            s.filter(p).push(x)
        } else {
            s.filter(p)
        },
{
    reveal(Seq::filter);
    assert(s.push(x).drop_last() =~= s);
    assert(s.push(x).last() == x);
}

/// A permutation of a duplicate-free sequence is duplicate-free.
pub proof fn lemma_no_dup_from_multiset<T>(s: Seq<T>, t: Seq<T>)
    requires
        s.no_duplicates(),
        s.to_multiset() == t.to_multiset(),
    ensures
        t.no_duplicates(),
{
    s.lemma_multiset_has_no_duplicates();
    t.lemma_multiset_has_no_duplicates_conv();
}

/// Removing an entry from a duplicate-free sequence keeps it
/// duplicate-free.
pub proof fn lemma_no_dup_remove<T>(s: Seq<T>, i: int)
    requires
        0 <= i < s.len(),
        s.no_duplicates(),
    ensures
        s.remove(i).no_duplicates(),
{
    let t = s.remove(i);
    assert forall|a: int, b: int|
        0 <= a < t.len() && 0 <= b < t.len() && a != b implies t[a] != t[b] by {
        let a2 = if a < i {
            a
        } else {
            a + 1
        };
        let b2 = if b < i {
            b
        } else {
            b + 1
        };
        assert(t[a] == s[a2]);
        assert(t[b] == s[b2]);
    }
}

/// Appending a fresh value to a duplicate-free sequence keeps it
/// duplicate-free.
pub proof fn lemma_no_dup_push<T>(s: Seq<T>, x: T)
    requires
        s.no_duplicates(),
        !s.contains(x),
    ensures
        s.push(x).no_duplicates(),
{
    let t = s.push(x);
    assert forall|a: int, b: int|
        0 <= a < t.len() && 0 <= b < t.len() && a != b implies t[a] != t[b] by {
        if a < s.len() && b < s.len() {
        } else if a < s.len() {
            assert(t[a] == s[a]);
            assert(s.contains(s[a]));
        } else if b < s.len() {
            assert(t[b] == s[b]);
            assert(s.contains(s[b]));
        }
    }
}

/// Mapping a function over two sequences with the same entries yields
/// sequences with the same entries.
pub proof fn lemma_to_multiset_map_values<A, B>(s: Seq<A>, t: Seq<A>, f: spec_fn(A) -> B)
    requires
        s.to_multiset() == t.to_multiset(),
    ensures
        s.map_values(f).to_multiset() =~= t.map_values(f).to_multiset(),
    decreases s.len(),
{
    broadcast use group_to_multiset_ensures;
    broadcast use vstd::multiset::group_multiset_axioms;

    if s.len() == 0 {
        assert(s.to_multiset().len() == s.len());
        assert(t.to_multiset().len() == t.len());
        assert(t.len() == 0);
        assert(s.map_values(f) =~= Seq::<B>::empty());
        assert(t.map_values(f) =~= Seq::<B>::empty());
    } else {
        let x = s[0];
        assert(s.contains(x));
        assert(s.to_multiset().count(x) > 0);
        assert(t.to_multiset().count(x) > 0);
        assert(t.contains(x));
        let j = choose|j: int| 0 <= j < t.len() && t[j] == x;
        assert(s.remove(0) =~= s.drop_first());
        assert(s.remove(0).to_multiset() =~= s.to_multiset().remove(x));
        assert(t.remove(j).to_multiset() =~= t.to_multiset().remove(x));
        lemma_to_multiset_map_values(s.drop_first(), t.remove(j), f);
        let sm = s.map_values(f);
        let tm = t.map_values(f);
        assert(sm.remove(0) =~= s.drop_first().map_values(f));
        assert(sm[0] == f(x));
        assert(sm.remove(0).to_multiset() =~= sm.to_multiset().remove(f(x)));
        assert(sm.contains(f(x)));
        assert(sm.to_multiset().count(f(x)) > 0);
        assert(tm.remove(j) =~= t.remove(j).map_values(f));
        assert(tm[j] == f(x));
        assert(tm.remove(j).to_multiset() =~= tm.to_multiset().remove(f(x)));
        assert(tm.contains(f(x)));
        assert(tm.to_multiset().count(f(x)) > 0);
        assert forall|e: B| sm.to_multiset().count(e) == tm.to_multiset().count(e) by {
            assert(sm.to_multiset().remove(f(x)).count(e) == tm.to_multiset().remove(f(x)).count(
                e,
            ));
        }
    }
}

/// Pins down where `insert_by` places the new value: at the first index
/// whose entry is at-or-after it in the order.
pub proof fn lemma_insert_by_at<T>(leq: spec_fn(T, T) -> bool, x: T, s: Seq<T>, j: int)
    requires
        0 <= j <= s.len(),
        forall|k: int| 0 <= k < j ==> !leq(x, #[trigger] s[k]),
        j < s.len() ==> leq(x, s[j]),
    ensures
        insert_by(leq, x, s) == s.insert(j, x),
    decreases j,
{
    if j == 0 {
        if s.len() == 0 {
            assert(seq![x] =~= s.insert(0, x));
        } else {
            assert(leq(x, s[0]));
            assert(seq![x] + s =~= s.insert(0, x));
        }
    } else {
        assert(!leq(x, s[0]));
        lemma_insert_by_at(leq, x, s.drop_first(), j - 1);
        assert(seq![s[0]] + s.drop_first().insert(j - 1, x) =~= s.insert(j, x));
    }
}

/// A value whose entries can be ordered by a display name drawn from its
/// abstract view.
pub trait SortableByName: View + Sized {
    /// The name the entries are ordered by.
    spec fn sort_key(v: Self::V) -> Seq<char>;

    /// Decides the name order on two values.
    fn key_le(&self, other: &Self) -> (r: bool)
        ensures
            r == chars_le(Self::sort_key(self@), Self::sort_key(other@)),
    ;
}

/// The name order lifted to views.
pub open spec fn by_name_le<T: SortableByName>() -> spec_fn(T::V, T::V) -> bool {
    |a: T::V, b: T::V| chars_le(T::sort_key(a), T::sort_key(b))
}

/// The lifted name order relates every pair and is transitive.
pub proof fn lemma_by_name_le_props<T: SortableByName>()
    ensures
        strongly_connected(by_name_le::<T>()),
        transitive(by_name_le::<T>()),
{
    let leq = by_name_le::<T>();
    assert forall|a: T::V, b: T::V| #[trigger] leq(a, b) || #[trigger] leq(b, a) by {
        lemma_chars_le_total(T::sort_key(a), T::sort_key(b));
    }
    assert forall|a: T::V, b: T::V, c: T::V|
        #[trigger] leq(a, b) && #[trigger] leq(b, c) implies leq(a, c) by {
        lemma_chars_le_trans(T::sort_key(a), T::sort_key(b), T::sort_key(c));
    }
}

/// Inserts `x` into a vector already sorted by name, before the first entry
/// whose name is at-or-after its own.
fn vec_insert_by_name<T: SortableByName>(v: &mut Vec<T>, x: T)
    ensures
        views_of(final(v)@) == insert_by(by_name_le::<T>(), x@, views_of(old(v)@)),
{
    let ghost leq = by_name_le::<T>();
    let ghost orig = views_of(v@);
    let mut j: usize = 0;
    loop
        invariant
            j <= v.len(),
            v@ == old(v)@,
            leq == by_name_le::<T>(),
            orig == views_of(v@),
            forall|k: int| 0 <= k < j ==> !leq(x@, #[trigger] orig[k]),
        ensures
            j <= v.len(),
            v@ == old(v)@,
            forall|k: int| 0 <= k < j ==> !leq(x@, #[trigger] orig[k]),
            j < v.len() ==> leq(x@, orig[j as int]),
        decreases v.len() - j,
    {
        if j >= v.len() {
            break ;
        }
        let le = x.key_le(&v[j]);
        proof {
            assert(orig[j as int] == v@[j as int]@);
        }
        if le {
            break ;
        }
        j = j + 1;
    }
    proof {
        lemma_insert_by_at(leq, x@, orig, j as int);
    }
    v.insert(j, x);
    proof {
        assert(views_of(v@) =~= orig.insert(j as int, x@));
    }
}

/// Sorts a vector by display name with a stable insertion sort.
pub fn vec_sort_by_name<T: SortableByName>(v: &mut Vec<T>)
    ensures
        views_of(final(v)@) == sort_by_stable(by_name_le::<T>(), views_of(old(v)@)),
{
    let ghost leq = by_name_le::<T>();
    let ghost orig = views_of(old(v)@);
    let mut sorted: Vec<T> = Vec::new();
    proof {
        assert(orig.skip(orig.len() as int) =~= Seq::<T::V>::empty());
        assert(views_of(sorted@) =~= Seq::<T::V>::empty());
    }
    loop
        invariant
            v@.len() <= old(v)@.len(),
            views_of(v@) == orig.take(v@.len() as int),
            views_of(sorted@) == sort_by_stable(leq, orig.skip(v@.len() as int)),
            leq == by_name_le::<T>(),
            orig == views_of(old(v)@),
        ensures
            v@.len() == 0,
            views_of(sorted@) == sort_by_stable(leq, orig.skip(0)),
        decreases v.len(),
    {
        let n = v.len();
        if n == 0 {
            break ;
        }
        let ghost rest = orig.skip(n - 1);
        let x = v.pop().unwrap();
        proof {
            assert(orig.take(n as int)[n - 1] == x@);
            assert(rest[0] == orig[n - 1]);
            assert(rest.drop_first() =~= orig.skip(n as int));
            assert(views_of(v@) =~= orig.take(n - 1));
        }
        vec_insert_by_name(&mut sorted, x);
        proof {
            assert(views_of(sorted@) == insert_by(leq, x@, sort_by_stable(leq, rest.drop_first())));
            assert(sort_by_stable(leq, rest) == insert_by(
                leq,
                rest[0],
                sort_by_stable(leq, rest.drop_first()),
            ));
        }
    }
    proof {
        assert(orig.skip(0) =~= orig);
    }
    *v = sorted;
}

} // verus!
