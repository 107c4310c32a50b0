//! What the tables of a track say.
use crate::bytes::{
    cat, group_be_len, i32_at, i32_be, i64_at, i64_be, lemma_cat_len, lemma_cat_piece, lemma_i32_at,
    lemma_i64_at, lemma_part, lemma_u32_at, lemma_u64_at, u32_at, u32_be, u64_at, u64_be,
};
use crate::fragments::{trun_body, trun_rows, NON_SYNC_FLAGS};
use crate::mux_boxes::{
    elst_body, elst_rows, has_wide_edit, self_at, self_number, wide_edit, written_references,
};
use crate::mux_groups::sample_delta;
use crate::mux_tables::{
    same_sizes, size32, size_bytes, size_pairs, size_rows, stsz_body, stz2_body, sync_numbers,
    within,
};
use crate::mux_types::{DataReferenceModel, MuxEdit, MuxSample};
use crate::mux_valid::{self_count, valid_data_references};
use crate::parts::SubSampleInfo;
use crate::rows::{rising, row_key, views};
use crate::search::lemma_first_index;
use vstd::prelude::*;

verus! {

/// The size of sample `i` that an `stsz` body says: the one for all, or where that
/// is 0 the one in the table.
pub open spec fn stsz_size(s: Seq<u8>, i: int) -> u32 {
    if u32_at(s, 4) != 0 {
        u32_at(s, 4)
    } else if s.len() >= 12 + 4 * (i + 1) {
        u32_at(s, 12 + 4 * i)
    } else {
        0
    }
}

pub proof fn lemma_row_at(s: Seq<u8>, head: nat, n: nat, f: spec_fn(int) -> Seq<u8>, k: nat, i: int)
    requires
        s.len() == head + cat(n, f).len(),
        s.subrange(head as int, s.len() as int) == cat(n, f),
        forall|j: int| 0 <= j < n ==> (#[trigger] f(j)).len() == k,
        0 <= i < n,
    ensures
        0 <= k * i,
        head + k * i + k <= s.len(),
        s.subrange(head + k * i, head + k * i + k) == f(i),
{
    lemma_cat_len(i as nat, f, k);
    lemma_cat_piece(n, f, i);
    let p = cat(i as nat, f).len() as int;
    assert(p == k * i) by (nonlinear_arith)
        requires
            p == i * k,
    ;
    assert(f(i).len() == k);
    lemma_part(s, head as int, s.len() as int, p, p + k);
}

/// The `stsz` box says the size of every sample, in 32 bits.
pub proof fn law_stsz_says_the_sizes(s: Seq<MuxSample>, i: int)
    requires
        0 <= i < s.len(),
    ensures
        stsz_size(stsz_body(s), i) == size32(s[i]),
{
    broadcast use group_be_len;

    let b = stsz_body(s);
    if same_sizes(s) {
        assert(b.subrange(4, 8) =~= u32_be(size32(s[0])));
        lemma_u32_at(b, 4, size32(s[0]));
        assert(size32(s[i]) == size32(s[0]));
    } else {
        let f = size_rows(s);
        assert(b.subrange(4, 8) =~= u32_be(0));
        lemma_u32_at(b, 4, 0);
        assert(b.subrange(12, b.len() as int) =~= cat(s.len(), f));
        lemma_row_at(b, 12, s.len(), f, 4, i);
        lemma_u32_at(b, 12 + 4 * i, size32(s[i]));
    }
}

/// The size of sample `i` that an `stz2` body says, in four or eight bits.
pub open spec fn stz2_size(s: Seq<u8>, i: int) -> u8 {
    if u32_at(s, 4) == 4 {
        if i % 2 == 0 {
            (s[12 + i / 2] / 16) as u8
        } else {
            (s[12 + i / 2] % 16) as u8
        }
    } else {
        s[12 + i]
    }
}

/// The `stz2` box says the size of every sample.
pub proof fn law_stz2_says_the_sizes(s: Seq<MuxSample>, i: int)
    requires
        0 <= i < s.len(),
        within(s, 0xff),
    ensures
        stz2_size(stz2_body(s), i) == s[i].data@.len(),
{
    broadcast use group_be_len;

    let b = stz2_body(s);
    if within(s, 0xf) {
        let f = size_pairs(s);
        let k = i / 2;
        assert(b.subrange(4, 8) =~= u32_be(4));
        lemma_u32_at(b, 4, 4);
        assert(b.subrange(12, b.len() as int) =~= cat((s.len() + 1) / 2, f));
        lemma_row_at(b, 12, (s.len() + 1) / 2, f, 1, k);
        assert(b[12 + k] == f(k)[0]) by {
            assert(b.subrange(12 + 1 * k, 12 + 1 * k + 1)[0] == b[12 + k]);
        }
        assert(s[2 * k].data@.len() <= 0xf);
        if 2 * k + 1 < s.len() {
            assert(s[2 * k + 1].data@.len() <= 0xf);
        }
    } else {
        let f = size_bytes(s);
        assert(b.subrange(4, 8) =~= u32_be(8));
        lemma_u32_at(b, 4, 8);
        assert(b.subrange(12, b.len() as int) =~= cat(s.len(), f));
        lemma_row_at(b, 12, s.len(), f, 1, i);
        assert(b[12 + i] == f(i)[0]) by {
            assert(b.subrange(12 + 1 * i, 12 + 1 * i + 1)[0] == b[12 + i]);
        }
        assert(s[i].data@.len() <= 0xff);
    }
}

proof fn lemma_sync_numbers(s: Seq<MuxSample>, n: nat)
    requires
        n <= s.len() <= 0xffff_ffff,
    ensures
        forall|i: int|
            0 <= i < n ==> (sync_numbers(s, n).contains((i + 1) as u32) <==> (
            #[trigger] s[i]).keyframe),
        forall|k: int| 0 <= k < sync_numbers(s, n).len() ==> 1 <= #[trigger] sync_numbers(s, n)[k] <= n,
        forall|j: int, k: int|
            0 <= j < k < sync_numbers(s, n).len() ==> #[trigger] sync_numbers(s, n)[j]
                < #[trigger] sync_numbers(s, n)[k],
    decreases n,
{
    if n > 0 {
        let m = (n - 1) as nat;
        lemma_sync_numbers(s, m);
        let before = sync_numbers(s, m);
        let all = sync_numbers(s, n);
        assert forall|i: int| 0 <= i < n implies (all.contains((i + 1) as u32) <==> (
        #[trigger] s[i]).keyframe) by {
            if i < m {
                if s[i].keyframe {
                    let k = choose|k: int| 0 <= k < before.len() && before[k] == (i + 1) as u32;
                    assert(all[k] == (i + 1) as u32);
                } else if all.contains((i + 1) as u32) {
                    let k = choose|k: int| 0 <= k < all.len() && all[k] == (i + 1) as u32;
                    assert(k < before.len());
                    assert(before[k] == (i + 1) as u32);
                    assert(before.contains((i + 1) as u32));
                }
            } else {
                if s[i].keyframe {
                    assert(all[before.len() as int] == (i + 1) as u32);
                } else if all.contains((i + 1) as u32) {
                    let k = choose|k: int| 0 <= k < all.len() && all[k] == (i + 1) as u32;
                    assert(before[k] <= m);
                }
            }
        }
    }
}

/// The `stss` box names exactly the sync samples, in rising order.
pub proof fn law_stss_names_the_sync_samples(s: Seq<MuxSample>)
    requires
        s.len() <= 0xffff_ffff,
    ensures
        ({
            let v = sync_numbers(s, s.len());
            &&& forall|i: int|
                0 <= i < s.len() ==> (v.contains((i + 1) as u32) <==> (#[trigger] s[i]).keyframe)
            &&& forall|j: int, k: int|
                0 <= j < k < v.len() ==> #[trigger] v[j] < #[trigger] v[k]
        }),
{
    lemma_sync_numbers(s, s.len());
}

/// The sum of the first `n` differences of a list of parts.
pub open spec fn delta_sum(rows: Seq<SubSampleInfo>, n: nat) -> int
    decreases n,
{
    if n == 0 {
        0
    } else {
        delta_sum(rows, (n - 1) as nat) + sample_delta(rows, n - 1)
    }
}

/// The differences in a `subs` box add up to the number of each sample.
pub proof fn law_differences_add_up(rows: Seq<SubSampleInfo>, n: nat)
    requires
        0 < n <= rows.len(),
        rising(views(rows), row_key::<SubSampleInfo>()),
    ensures
        delta_sum(rows, n) == rows[n - 1].sample_number,
    decreases n,
{
    if n > 1 {
        law_differences_add_up(rows, (n - 1) as nat);
        let v = views(rows);
        assert(row_key::<SubSampleInfo>()(v[n - 2]) < row_key::<SubSampleInfo>()(v[n - 1]));
    } else {
        assert(delta_sum(rows, 0) == 0);
    }
}

proof fn lemma_self_count(m: Seq<DataReferenceModel>, n: nat)
    requires
        n <= m.len(),
        forall|i: int| 0 <= i < n ==> !(#[trigger] m[i] is SelfRef),
    ensures
        self_count(m, n) == 0,
    decreases n,
{
    if n > 0 {
        lemma_self_count(m, (n - 1) as nat);
    }
}

/// The data reference that a sample description names is the one to this file.
pub proof fn law_samples_are_in_this_file(m: Seq<DataReferenceModel>)
    requires
        valid_data_references(m),
        m.len() <= 0xffff,
    ensures
        1 <= self_number(m) <= written_references(m).len(),
        written_references(m)[self_number(m) - 1] is SelfRef,
{
    let f = self_at(m);
    lemma_first_index(m.len(), f);
    if m.len() > 0 && crate::search::first_index(m.len(), f) == m.len() {
        assert forall|i: int| 0 <= i < m.len() implies !(#[trigger] m[i] is SelfRef) by {
            assert(!f(i));
        }
        lemma_self_count(m, m.len());
    }
}

/// The edits that an `elst` body says.
pub open spec fn edit_at(s: Seq<u8>, i: int) -> MuxEdit {
    if s[0] == 1 {
        MuxEdit {
            track_duration: u64_at(s, 8 + 20 * i),
            media_time: i64_at(s, 16 + 20 * i),
            media_rate: i32_at(s, 24 + 20 * i),
        }
    } else {
        MuxEdit {
            track_duration: u32_at(s, 8 + 12 * i) as u64,
            media_time: i32_at(s, 12 + 12 * i) as i64,
            media_rate: i32_at(s, 16 + 12 * i),
        }
    }
}

proof fn lemma_wide_edit(s: Seq<u8>, p: int, e: MuxEdit)
    requires
        0 <= p,
        p + 20 <= s.len(),
        s.subrange(p, p + 20) == u64_be(e.track_duration) + i64_be(e.media_time) + i32_be(
            e.media_rate,
        ),
    ensures
        u64_at(s, p) == e.track_duration,
        i64_at(s, p + 8) == e.media_time,
        i32_at(s, p + 16) == e.media_rate,
{
    broadcast use group_be_len;

    let row = s.subrange(p, p + 20);
    lemma_part(s, p, p + 20, 0, 8);
    lemma_part(s, p, p + 20, 8, 16);
    lemma_part(s, p, p + 20, 16, 20);
    assert(row.subrange(0, 8) =~= u64_be(e.track_duration));
    assert(row.subrange(8, 16) =~= i64_be(e.media_time));
    assert(row.subrange(16, 20) =~= i32_be(e.media_rate));
    lemma_u64_at(s, p, e.track_duration);
    lemma_i64_at(s, p + 8, e.media_time);
    lemma_i32_at(s, p + 16, e.media_rate);
}

proof fn lemma_narrow_edit(s: Seq<u8>, p: int, e: MuxEdit)
    requires
        !wide_edit(e),
        0 <= p,
        p + 12 <= s.len(),
        s.subrange(p, p + 12) == u32_be(e.track_duration as u32) + i32_be(e.media_time as i32)
            + i32_be(e.media_rate),
    ensures
        u32_at(s, p) == e.track_duration,
        i32_at(s, p + 4) == e.media_time,
        i32_at(s, p + 8) == e.media_rate,
{
    broadcast use group_be_len;

    let row = s.subrange(p, p + 12);
    lemma_part(s, p, p + 12, 0, 4);
    lemma_part(s, p, p + 12, 4, 8);
    lemma_part(s, p, p + 12, 8, 12);
    assert(row.subrange(0, 4) =~= u32_be(e.track_duration as u32));
    assert(row.subrange(4, 8) =~= i32_be(e.media_time as i32));
    assert(row.subrange(8, 12) =~= i32_be(e.media_rate));
    lemma_u32_at(s, p, e.track_duration as u32);
    lemma_i32_at(s, p + 4, e.media_time as i32);
    lemma_i32_at(s, p + 8, e.media_rate);
}

proof fn lemma_elst_head(v: Seq<MuxEdit>)
    ensures
        elst_body(v)[0] == (if has_wide_edit(v) {
            1u8
        } else {
            0u8
        }),
        elst_body(v).len() == 8 + cat(v.len(), elst_rows(v, has_wide_edit(v))).len(),
        elst_body(v).subrange(8, elst_body(v).len() as int) == cat(
            v.len(),
            elst_rows(v, has_wide_edit(v)),
        ),
{
    broadcast use group_be_len;

    let s = elst_body(v);
    crate::bytes::lemma_be_bytes(0, 0, 0);
    crate::bytes::lemma_be_bytes(0, 0x0100_0000, 0);
    assert(s.subrange(8, s.len() as int) =~= cat(v.len(), elst_rows(v, has_wide_edit(v))));
}

/// The `elst` box says every edit.
pub proof fn law_elst_says_the_edits(v: Seq<MuxEdit>, i: int)
    requires
        0 <= i < v.len(),
    ensures
        edit_at(elst_body(v), i) == v[i],
{
    broadcast use group_be_len;

    let s = elst_body(v);
    let wide = has_wide_edit(v);
    let f = elst_rows(v, wide);
    lemma_elst_head(v);
    if wide {
        lemma_row_at(s, 8, v.len(), f, 20, i);
        lemma_wide_edit(s, 8 + 20 * i, v[i]);
    } else {
        assert(!wide_edit(v[i]));
        lemma_row_at(s, 8, v.len(), f, 12, i);
        lemma_narrow_edit(s, 8 + 12 * i, v[i]);
    }
}

proof fn lemma_three_numbers(s: Seq<u8>, p: int, x: u32, y: u32, z: u32)
    requires
        0 <= p,
        p + 12 <= s.len(),
        s.subrange(p, p + 12) == u32_be(x) + u32_be(y) + u32_be(z),
    ensures
        u32_at(s, p) == x,
        u32_at(s, p + 4) == y,
        u32_at(s, p + 8) == z,
{
    broadcast use group_be_len;

    let row = s.subrange(p, p + 12);
    lemma_part(s, p, p + 12, 0, 4);
    lemma_part(s, p, p + 12, 4, 8);
    lemma_part(s, p, p + 12, 8, 12);
    assert(row.subrange(0, 4) =~= u32_be(x));
    assert(row.subrange(4, 8) =~= u32_be(y));
    assert(row.subrange(8, 12) =~= u32_be(z));
    lemma_u32_at(s, p, x);
    lemma_u32_at(s, p + 4, y);
    lemma_u32_at(s, p + 8, z);
}

proof fn lemma_trun_head(s: Seq<MuxSample>, data_offset: i32)
    ensures
        ({
            let b = trun_body(s, data_offset);
            &&& i32_at(b, 8) == data_offset
            &&& b.len() == 12 + cat(s.len(), trun_rows(s)).len()
            &&& b.subrange(12, b.len() as int) == cat(s.len(), trun_rows(s))
        }),
{
    broadcast use group_be_len;

    let b = trun_body(s, data_offset);
    assert(b.subrange(8, 12) =~= i32_be(data_offset));
    lemma_i32_at(b, 8, data_offset);
    assert(b.subrange(12, b.len() as int) =~= cat(s.len(), trun_rows(s)));
}

/// The `trun` box says duration, size and flags of every sample of a run, and where
/// its data start.
pub proof fn law_trun_says_the_samples(s: Seq<MuxSample>, data_offset: i32, i: int)
    requires
        0 <= i < s.len(),
    ensures
        ({
            let b = trun_body(s, data_offset);
            &&& i32_at(b, 8) == data_offset
            &&& u32_at(b, 12 + 12 * i) == s[i].duration
            &&& u32_at(b, 16 + 12 * i) == size32(s[i])
            &&& u32_at(b, 20 + 12 * i) == (if s[i].keyframe {
                0
            } else {
                NON_SYNC_FLAGS
            })
        }),
{
    broadcast use group_be_len;

    let b = trun_body(s, data_offset);
    let f = trun_rows(s);
    lemma_trun_head(s, data_offset);
    lemma_row_at(b, 12, s.len(), f, 12, i);
    lemma_three_numbers(
        b,
        12 + 12 * i,
        s[i].duration,
        size32(s[i]),
        if s[i].keyframe {
            0
        } else {
            NON_SYNC_FLAGS
        },
    );
}

} // verus!
