//! Lists of rows: copies of them, and putting them in order by a number.
use crate::search::{first_index, lemma_first_index, lemma_first_index_is};
use vstd::prelude::*;

verus! {

/// What the rows of a list hold.
pub open spec fn views<T: View>(s: Seq<T>) -> Seq<T::V> {
    Seq::new(s.len(), |i: int| s[i]@)
}

/// A row that can be copied.
pub trait Duplicate: View + Sized {
    /// A row that holds the same.
    fn duplicate(&self) -> (r: Self)
        ensures
            r@ == self@,
    ;
}

/// Copy a list of rows.
pub fn duplicate_all<T: Duplicate>(s: &[T]) -> (r: Vec<T>)
    ensures
        views(r@) == views(s@),
{
    let mut out: Vec<T> = Vec::new();
    for i in 0..s.len()
        invariant
            out@.len() == i,
            forall|k: int| 0 <= k < i ==> (#[trigger] out@[k])@ == s@[k]@,
    {
        out.push(s[i].duplicate());
    }
    assert(views(out@) =~= views(s@));
    out
}

/// A row that is ordered by a number.
pub trait Keyed: View + Sized {
    /// The number of what a row holds.
    spec fn key_of(m: Self::V) -> u32;

    /// The number of the row.
    fn key(&self) -> (r: u32)
        ensures
            r == Self::key_of(self@),
    ;
}

/// The number by which rows of a type are ordered.
pub open spec fn row_key<T: Keyed>() -> spec_fn(T::V) -> u32 {
    |m: T::V| T::key_of(m)
}

/// Where the number of a row is `k` or more.
pub open spec fn reaches<M>(s: Seq<M>, key: spec_fn(M) -> u32, k: u32) -> spec_fn(int) -> bool {
    |i: int| key(s[i]) >= k
}

/// Put a row before the first one whose number is not less.
pub open spec fn insert_row<M>(s: Seq<M>, key: spec_fn(M) -> u32, m: M) -> Seq<M> {
    s.insert(first_index(s.len(), reaches(s, key, key(m))), m)
}

/// Rows in order of their numbers; those with the same number keep their order.
pub open spec fn sort_rows<M>(s: Seq<M>, key: spec_fn(M) -> u32) -> Seq<M>
    decreases s.len(),
{
    if s.len() == 0 {
        s
    } else {
        insert_row(sort_rows(s.drop_first(), key), key, s.first())
    }
}

/// The numbers do not fall.
pub open spec fn in_order<M>(s: Seq<M>, key: spec_fn(M) -> u32) -> bool {
    forall|i: int, j: int| 0 <= i <= j < s.len() ==> key(#[trigger] s[i]) <= key(#[trigger] s[j])
}

/// The numbers rise.
pub open spec fn rising<M>(s: Seq<M>, key: spec_fn(M) -> u32) -> bool {
    forall|i: int, j: int| 0 <= i < j < s.len() ==> key(#[trigger] s[i]) < key(#[trigger] s[j])
}

/// Where a row and the next one have the same number.
pub open spec fn repeats<M>(s: Seq<M>, key: spec_fn(M) -> u32) -> spec_fn(int) -> bool {
    |i: int| key(s[i]) == key(s[i + 1])
}

/// The first row that has the same number as the next one; one less than the
/// length where there is none.
pub open spec fn first_repeat<M>(s: Seq<M>, key: spec_fn(M) -> u32) -> int {
    first_index((s.len() - 1) as nat, repeats(s, key))
}

/// Sorting puts rows in order of their numbers.
pub proof fn law_sorting_puts_in_order<M>(s: Seq<M>, key: spec_fn(M) -> u32)
    ensures
        in_order(sort_rows(s, key), key),
        sort_rows(s, key).len() == s.len(),
    decreases s.len(),
{
    if s.len() > 0 {
        let t = sort_rows(s.drop_first(), key);
        let m = s.first();
        law_sorting_puts_in_order(s.drop_first(), key);
        let f = reaches(t, key, key(m));
        let k = first_index(t.len(), f);
        lemma_first_index(t.len(), f);
        let r = t.insert(k, m);
        assert forall|i: int, j: int| 0 <= i <= j < r.len() implies key(#[trigger] r[i]) <= key(
            #[trigger] r[j],
        ) by {
            if i < k {
                assert(!f(i));
                assert(r[i] == t[i]);
            } else if i > k {
                assert(r[i] == t[i - 1]);
            }
            if j < k {
                assert(r[j] == t[j]);
            } else if j > k {
                assert(r[j] == t[j - 1]);
                assert(f(k));
                assert(key(t[k]) <= key(t[j - 1]));
            }
        }
    }
}

/// Sorting keeps the rows, each as often as it is there.
pub proof fn law_sorting_keeps_the_rows<M>(s: Seq<M>, key: spec_fn(M) -> u32)
    ensures
        sort_rows(s, key).to_multiset() == s.to_multiset(),
    decreases s.len(),
{
    broadcast use vstd::seq_lib::group_to_multiset_ensures;

    if s.len() > 0 {
        let t = sort_rows(s.drop_first(), key);
        let m = s.first();
        law_sorting_keeps_the_rows(s.drop_first(), key);
        lemma_first_index(t.len(), reaches(t, key, key(m)));
        let k = first_index(t.len(), reaches(t, key, key(m)));
        vstd::seq_lib::lemma_multiset_commutative(seq![m], s.drop_first());
        assert(seq![m] + s.drop_first() =~= s);
        assert(t.insert(k, m) =~= t.subrange(0, k) + seq![m] + t.subrange(k, t.len() as int));
        vstd::seq_lib::lemma_multiset_commutative(t.subrange(0, k), seq![m]);
        vstd::seq_lib::lemma_multiset_commutative(
            t.subrange(0, k) + seq![m],
            t.subrange(k, t.len() as int),
        );
        vstd::seq_lib::lemma_multiset_commutative(t.subrange(0, k), t.subrange(k, t.len() as int));
        assert(t.subrange(0, k) + t.subrange(k, t.len() as int) =~= t);
        assert(sort_rows(s, key).to_multiset() =~= s.to_multiset());
    }
}

/// Rows in order, none of which has the number of the next, rise.
pub proof fn lemma_rising<M>(s: Seq<M>, key: spec_fn(M) -> u32)
    requires
        in_order(s, key),
        s.len() > 0 ==> first_repeat(s, key) == s.len() - 1,
    ensures
        rising(s, key),
{
    if s.len() > 0 {
        let f = repeats(s, key);
        lemma_first_index((s.len() - 1) as nat, f);
        assert forall|i: int, j: int| 0 <= i < j < s.len() implies key(#[trigger] s[i]) < key(
            #[trigger] s[j],
        ) by {
            assert(!f(i));
            assert(key(s[i]) <= key(s[i + 1]));
            assert(key(s[i + 1]) <= key(s[j]));
        }
    }
}

/// Put rows in order.
pub fn sort<T: Keyed>(rows: Vec<T>) -> (r: Vec<T>)
    ensures
        views(r@) == sort_rows(views(rows@), row_key::<T>()),
{
    let ghost all = views(rows@);
    let ghost key = row_key::<T>();
    let mut rest = rows;
    let mut out: Vec<T> = Vec::new();
    assert(views(out@) =~= sort_rows(all.subrange(all.len() as int, all.len() as int), key));
    while rest.len() > 0
        invariant
            all.len() >= rest@.len(),
            key == row_key::<T>(),
            views(rest@) == all.subrange(0, rest@.len() as int),
            views(out@) == sort_rows(all.subrange(rest@.len() as int, all.len() as int), key),
        decreases rest@.len(),
    {
        let ghost before = rest@;
        let ghost n = rest@.len() as int;
        if let Some(row) = rest.pop() {
            let k: u32 = row.key();
            let ghost t = views(out@);
            let ghost f = reaches(t, key, k);
            assert(row@ == all[n - 1]) by {
                assert(views(before)[n - 1] == all[n - 1]);
            }
            let mut at: usize = 0;
            while at < out.len() && out[at].key() < k
                invariant
                    at <= out@.len(),
                    key == row_key::<T>(),
                    t == views(out@),
                    f == reaches(t, key, k),
                    forall|j: int| 0 <= j < at ==> !#[trigger] f(j),
                decreases out@.len() - at,
            {
                at = at + 1;
            }
            proof {
                lemma_first_index_is(t.len(), f, at as int);
                let tail = all.subrange(n - 1, all.len() as int);
                assert(tail.drop_first() =~= all.subrange(n, all.len() as int));
                assert(tail.first() == row@);
            }
            let ghost placed = row@;
            out.insert(at, row);
            assert(views(out@) =~= t.insert(at as int, placed));
            assert(views(rest@) =~= all.subrange(0, rest@.len() as int));
        }
    }
    assert(all.subrange(0, all.len() as int) =~= all);
    out
}

} // verus!
