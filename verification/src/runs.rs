//! Run-length encoding of a list of numbers.
use crate::bytes::{
    cat, empty_left, group_be_len, lemma_cat_len, lemma_cat_piece, lemma_cat_push, lemma_u32_at,
    low32, low32_of, put_bytes, put_u32, u32_at, u32_be,
};
use vstd::prelude::*;

verus! {

/// The runs of equal numbers in a list, as length and number. Of a length that
/// does not fit in 32 bits the low ones stand.
pub open spec fn runs(s: Seq<u32>) -> Seq<(u32, u32)>
    decreases s.len(),
{
    if s.len() == 0 {
        Seq::empty()
    } else {
        let before = runs(s.drop_last());
        let x = s.last();
        if before.len() > 0 && before.last().1 == x {
            before.drop_last().push((low32(before.last().0 + 1), x))
        } else {
            before.push((1, x))
        }
    }
}

/// The list that runs stand for.
pub open spec fn expand(r: Seq<(u32, u32)>) -> Seq<u32>
    decreases r.len(),
{
    if r.len() == 0 {
        Seq::empty()
    } else {
        expand(r.drop_last()) + Seq::new(r.last().0 as nat, |i: int| r.last().1)
    }
}

/// The runs of equal numbers in a list.
pub fn run_lengths(values: &Vec<u32>) -> (r: Vec<(u32, u32)>)
    ensures
        r@ == runs(values@),
{
    let mut out: Vec<(u32, u32)> = Vec::new();
    assert(values@.take(0) =~= Seq::<u32>::empty());
    for i in 0..values.len()
        invariant
            out@ == runs(values@.take(i as int)),
    {
        let x: u32 = values[i];
        let ghost now = values@.take(i + 1);
        assert(now.drop_last() =~= values@.take(i as int));
        let n: usize = out.len();
        if n > 0 && out[n - 1].1 == x {
            let count: u32 = ((out[n - 1].0 as u64 + 1) % 0x1_0000_0000) as u32;
            let ghost had = out@;
            out[n - 1] = (count, x);
            assert(out@ =~= had.drop_last().push((count, x)));
        } else {
            out.push((1, x));
        }
    }
    assert(values@.take(values@.len() as int) =~= values@);
    out
}

proof fn lemma_run_len(s: Seq<u32>)
    ensures
        s.len() > 0 ==> runs(s).len() > 0,
        s.len() <= u32::MAX && runs(s).len() > 0 ==> 1 <= runs(s).last().0 <= s.len(),
    decreases s.len(),
{
    if s.len() > 0 {
        lemma_run_len(s.drop_last());
    }
}

/// The runs of a list stand for that list.
pub proof fn law_runs_stand_for_the_list(s: Seq<u32>)
    requires
        s.len() <= u32::MAX,
    ensures
        expand(runs(s)) == s,
    decreases s.len(),
{
    if s.len() > 0 {
        let prefix = s.drop_last();
        let before = runs(prefix);
        let x = s.last();
        law_runs_stand_for_the_list(prefix);
        lemma_run_len(prefix);
        if before.len() > 0 && before.last().1 == x {
            let count = low32(before.last().0 + 1);
            let now = before.drop_last().push((count, x));
            assert(count == before.last().0 + 1);
            assert(now.drop_last() =~= before.drop_last());
            assert(Seq::new(count as nat, |i: int| x) =~= Seq::new(
                before.last().0 as nat,
                |i: int| before.last().1,
            ).push(x));
            assert(expand(now) =~= expand(before).push(x));
        } else {
            let now = before.push((1u32, x));
            assert(now.drop_last() =~= before);
            assert(Seq::new(1nat, |i: int| x) =~= seq![x]);
            assert(expand(now) =~= expand(before).push(x));
        }
        assert(s =~= prefix.push(x));
    } else {
        assert(expand(runs(s)) =~= s);
    }
}

/// Two neighbouring runs have different numbers, and no run is empty.
pub proof fn law_runs_are_as_long_as_possible(s: Seq<u32>)
    requires
        s.len() <= u32::MAX,
    ensures
        forall|i: int| 0 <= i < runs(s).len() ==> (#[trigger] runs(s)[i]).0 >= 1,
        forall|i: int|
            0 <= i < runs(s).len() - 1 ==> (#[trigger] runs(s)[i]).1 != runs(s)[i + 1].1,
    decreases s.len(),
{
    if s.len() > 0 {
        law_runs_are_as_long_as_possible(s.drop_last());
        lemma_run_len(s.drop_last());
    }
}

/// The rows of a table of runs.
pub open spec fn run_rows(r: Seq<(u32, u32)>) -> spec_fn(int) -> Seq<u8> {
    |i: int| u32_be(r[i].0) + u32_be(r[i].1)
}

/// A table of runs: how many there are, then length and number of each.
pub open spec fn run_table(r: Seq<(u32, u32)>) -> Seq<u8> {
    u32_be(low32(r.len() as int)) + cat(r.len(), run_rows(r))
}

/// Append a table of runs.
pub fn put_run_table(out: &mut Vec<u8>, r: &Vec<(u32, u32)>)
    ensures
        final(out)@ == old(out)@ + run_table(r@),
{
    broadcast use empty_left;

    let mut table: Vec<u8> = Vec::new();
    put_u32(&mut table, low32_of(r.len()));
    let ghost before = table@;
    let ghost f = run_rows(r@);
    assert(table@ =~= before + cat(0, f));
    for i in 0..r.len()
        invariant
            f == run_rows(r@),
            table@ == before + cat(i as nat, f),
    {
        let ghost had = table@;
        put_u32(&mut table, r[i].0);
        put_u32(&mut table, r[i].1);
        proof {
            assert(table@ =~= had + f(i as int));
            lemma_cat_push(before, i as nat, f);
        }
    }
    put_bytes(out, table.as_slice());
}

/// A table of runs that was written is read back row by row.
pub proof fn law_run_table_is_read_back(r: Seq<(u32, u32)>, i: int)
    requires
        0 <= i < r.len(),
    ensures
        run_table(r).len() == 4 + 8 * r.len(),
        u32_at(run_table(r), 0) == low32(r.len() as int),
        u32_at(run_table(r), 4 + 8 * i) == r[i].0,
        u32_at(run_table(r), 8 + 8 * i) == r[i].1,
{
    broadcast use group_be_len;

    let f = run_rows(r);
    let s = run_table(r);
    let rows = cat(r.len(), f);
    lemma_cat_len(r.len(), f, 8);
    lemma_cat_len(i as nat, f, 8);
    lemma_cat_piece(r.len(), f, i);
    assert(s.subrange(0, 4) =~= u32_be(low32(r.len() as int)));
    lemma_u32_at(s, 0, low32(r.len() as int));
    let row = rows.subrange(8 * i, 8 * i + 8);
    assert(row == f(i));
    assert(s.subrange(4 + 8 * i, 8 + 8 * i) =~= row.subrange(0, 4));
    assert(row.subrange(0, 4) =~= u32_be(r[i].0));
    lemma_u32_at(s, 4 + 8 * i, r[i].0);
    assert(s.subrange(8 + 8 * i, 12 + 8 * i) =~= row.subrange(4, 8));
    assert(row.subrange(4, 8) =~= u32_be(r[i].1));
    lemma_u32_at(s, 8 + 8 * i, r[i].1);
}

} // verus!
