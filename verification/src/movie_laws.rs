//! What a reader finds in a movie file: of every track its samples, when they play and
//! what they are.
use crate::bytes::{
    cat, group_be_len, lemma_cat_len, lemma_cat_piece, lemma_part, lemma_u32_at, lemma_u64_at,
    low32, signed32, twos32, u32_at, u32_be, u64_at, u64_be,
};
use crate::fourcc::{CO64, CTTS, STCO, STSC, STSS, STSZ, STTS, STZ2};
use crate::movie_walk::{addressable, file_of, lemma_track_boxes, resource, stbl_in, stbl_of, Movie};
use crate::mux_layout::{
    law_samples_stand_where_the_tables_say, needs_wide, sample_rows, track_places,
};
use crate::mux_tables::{
    co64_body, compact_sizes, ctts_body, durations, has_negative_offset, has_offset,
    has_other_than_sync, number_rows, offsets, stco_body, stsc_body, stss_body, stsz_body,
    stts_body, stz2_body, sync_numbers,
};
use crate::mux_types::{MuxSample, TrackWrite};
use crate::runs::{expand, law_run_table_is_read_back, law_runs_stand_for_the_list, run_table, runs};
use crate::table_laws::{
    law_stss_names_the_sync_samples, law_stsz_says_the_sizes, law_stz2_says_the_sizes, stsz_size,
    stz2_size,
};
use crate::walk::{first_box, inside};
use vstd::prelude::*;

verus! {

/// How many samples a chunk holds, by the first `rows` rows of an `stsc` body: the last
/// of them that starts no later than the chunk says it.
pub open spec fn per_chunk(stsc: Seq<u8>, rows: nat, chunk: int) -> int
    decreases rows,
{
    if rows == 0 {
        0
    } else if u32_at(stsc, 8 + 12 * (rows - 1)) <= chunk {
        u32_at(stsc, 12 + 12 * (rows - 1)) as int
    } else {
        per_chunk(stsc, (rows - 1) as nat, chunk)
    }
}

/// Which sample description the samples of a chunk have, counted from 1.
pub open spec fn chunk_description(stsc: Seq<u8>, rows: nat, chunk: int) -> int
    decreases rows,
{
    if rows == 0 {
        0
    } else if u32_at(stsc, 8 + 12 * (rows - 1)) <= chunk {
        u32_at(stsc, 16 + 12 * (rows - 1)) as int
    } else {
        chunk_description(stsc, (rows - 1) as nat, chunk)
    }
}

/// The chunk that holds sample `j`, counted from the first sample of `chunk`, and how
/// many samples stand before it there.
pub open spec fn chunk_of(stsc: Seq<u8>, chunks: int, chunk: int, j: int) -> Option<(int, int)>
    decreases chunks + 1 - chunk,
{
    let n = per_chunk(stsc, u32_at(stsc, 4) as nat, chunk);
    if chunk > chunks {
        None
    } else if j < n {
        Some((chunk, j))
    } else {
        chunk_of(stsc, chunks, chunk + 1, j - n)
    }
}

/// How many samples the first `chunks` chunks hold.
pub open spec fn samples_in_chunks(stsc: Seq<u8>, chunks: nat) -> int
    decreases chunks,
{
    if chunks == 0 {
        0
    } else {
        samples_in_chunks(stsc, (chunks - 1) as nat) + per_chunk(
            stsc,
            u32_at(stsc, 4) as nat,
            chunks as int,
        )
    }
}

/// How many chunks a sample table lists, in 64 or in 32 bits.
pub open spec fn chunk_count(stbl: Seq<u8>) -> int {
    match first_box(stbl, CO64) {
        Some(b) => u32_at(b, 4) as int,
        None => u32_at(inside(stbl, STCO), 4) as int,
    }
}

/// Where a chunk starts in the file.
pub open spec fn chunk_start(stbl: Seq<u8>, chunk: int) -> int {
    match first_box(stbl, CO64) {
        Some(b) => u64_at(b, 8 + 8 * (chunk - 1)) as int,
        None => u32_at(inside(stbl, STCO), 8 + 4 * (chunk - 1)) as int,
    }
}

/// How long sample `j` is, in either form of the table.
pub open spec fn sample_size(stbl: Seq<u8>, j: int) -> int {
    match first_box(stbl, STZ2) {
        Some(b) => stz2_size(b, j) as int,
        None => stsz_size(inside(stbl, STSZ), j) as int,
    }
}

/// How many samples the table of sizes counts.
pub open spec fn sample_count(stbl: Seq<u8>) -> int {
    match first_box(stbl, STZ2) {
        Some(b) => u32_at(b, 8) as int,
        None => u32_at(inside(stbl, STSZ), 8) as int,
    }
}

/// How long the `n` samples from `j` on are together.
pub open spec fn sizes_from(stbl: Seq<u8>, j: int, n: nat) -> int
    decreases n,
{
    if n == 0 {
        0
    } else {
        sizes_from(stbl, j, (n - 1) as nat) + sample_size(stbl, j + n - 1)
    }
}

/// Where sample `j` starts in the file: behind the samples before it in its chunk.
pub open spec fn sample_start(stbl: Seq<u8>, j: int) -> Option<int> {
    match chunk_of(inside(stbl, STSC), chunk_count(stbl), 1, j) {
        Some((chunk, k)) => Some(chunk_start(stbl, chunk) + sizes_from(stbl, j - k, k as nat)),
        None => None,
    }
}

proof fn lemma_stsc(s: Seq<MuxSample>)
    requires
        s.len() <= 0xffff_ffff,
    ensures
        ({
            let b = stsc_body(s);
            &&& b.len() == 20
            &&& u32_at(b, 4) == 1
            &&& u32_at(b, 8) == 1
            &&& u32_at(b, 12) == s.len()
            &&& u32_at(b, 16) == 1
        }),
{
    broadcast use group_be_len;

    let b = stsc_body(s);
    assert(b.subrange(4, 8) =~= u32_be(1));
    assert(b.subrange(8, 12) =~= u32_be(1));
    assert(b.subrange(12, 16) =~= u32_be(s.len() as u32));
    assert(b.subrange(16, 20) =~= u32_be(1));
    lemma_u32_at(b, 4, 1);
    lemma_u32_at(b, 8, 1);
    lemma_u32_at(b, 12, s.len() as u32);
    lemma_u32_at(b, 16, 1);
}

/// The samples of a track are in one chunk: of the only chunk, all of them.
proof fn lemma_one_chunk(s: Seq<MuxSample>, j: int)
    requires
        s.len() <= 0xffff_ffff,
        0 <= j < s.len(),
    ensures
        chunk_of(stsc_body(s), 1, 1, j) == Some((1int, j)),
        samples_in_chunks(stsc_body(s), 1) == s.len(),
        chunk_description(stsc_body(s), u32_at(stsc_body(s), 4) as nat, 1) == 1,
{
    lemma_stsc(s);
    let b = stsc_body(s);
    assert(per_chunk(b, 1, 1) == s.len());
    reveal_with_fuel(samples_in_chunks, 2);
    assert(chunk_description(b, 1, 1) == 1);
}

proof fn lemma_chunk_place(stbl: Seq<u8>, t: TrackWrite, offset: u64, wide: bool)
    requires
        first_box(stbl, CO64) == crate::movie_walk::some_if(wide, co64_body(offset)),
        first_box(stbl, STCO) == crate::movie_walk::some_if(
            !wide,
            stco_body(low32(offset as int)),
        ),
        wide || offset <= 0xffff_ffff,
    ensures
        chunk_count(stbl) == 1,
        chunk_start(stbl, 1) == offset,
{
    broadcast use group_be_len;

    if wide {
        let b = co64_body(offset);
        assert(b.subrange(4, 8) =~= u32_be(1));
        assert(b.subrange(8, 16) =~= u64_be(offset));
        lemma_u32_at(b, 4, 1);
        lemma_u64_at(b, 8, offset);
    } else {
        let b = stco_body(low32(offset as int));
        assert(b.subrange(4, 8) =~= u32_be(1));
        assert(b.subrange(8, 12) =~= u32_be(offset as u32));
        lemma_u32_at(b, 4, 1);
        lemma_u32_at(b, 8, offset as u32);
    }
}

proof fn lemma_count_at(s: Seq<MuxSample>)
    requires
        s.len() <= 0xffff_ffff,
    ensures
        u32_at(stsz_body(s), 8) == s.len(),
        u32_at(stz2_body(s), 8) == s.len(),
{
    broadcast use group_be_len;

    let a = stsz_body(s);
    let b = stz2_body(s);
    assert(a.subrange(8, 12) =~= u32_be(s.len() as u32));
    assert(b.subrange(8, 12) =~= u32_be(s.len() as u32));
    lemma_u32_at(a, 8, s.len() as u32);
    lemma_u32_at(b, 8, s.len() as u32);
}

/// The length of a sample fits in the table.
pub open spec fn fit_sizes(s: Seq<MuxSample>) -> bool {
    s.len() <= 0xffff_ffff && forall|k: int|
        0 <= k < s.len() ==> (#[trigger] s[k]).data@.len() <= 0xffff_ffff
}

#[verifier::rlimit(40)]
#[verifier::spinoff_prover]
proof fn lemma_sizes(stbl: Seq<u8>, t: TrackWrite, j: int)
    requires
        first_box(stbl, STZ2) == crate::movie_walk::some_if(
            compact_sizes(t),
            stz2_body(t.samples@),
        ),
        first_box(stbl, STSZ) == crate::movie_walk::some_if(
            !compact_sizes(t),
            stsz_body(t.samples@),
        ),
        fit_sizes(t.samples@),
        0 <= j < t.samples@.len(),
    ensures
        sample_size(stbl, j) == t.samples@[j].data@.len(),
        sample_count(stbl) == t.samples@.len(),
{
    let s = t.samples@;
    lemma_count_at(s);
    if compact_sizes(t) {
        law_stz2_says_the_sizes(s, j);
    } else {
        law_stsz_says_the_sizes(s, j);
        assert(s[j].data@.len() <= 0xffff_ffff);
    }
}

proof fn lemma_sizes_from(stbl: Seq<u8>, t: TrackWrite, n: nat)
    requires
        first_box(stbl, STZ2) == crate::movie_walk::some_if(
            compact_sizes(t),
            stz2_body(t.samples@),
        ),
        first_box(stbl, STSZ) == crate::movie_walk::some_if(
            !compact_sizes(t),
            stsz_body(t.samples@),
        ),
        fit_sizes(t.samples@),
        n <= t.samples@.len(),
    ensures
        sizes_from(stbl, 0, n) == cat(n, sample_rows(t.samples@)).len(),
    decreases n,
{
    if n > 0 {
        lemma_sizes_from(stbl, t, (n - 1) as nat);
        lemma_sizes(stbl, t, n - 1);
    }
}

/// A reader that goes by the chunks, the offsets and the sizes that a written file lists
/// finds every sample of every track: the chunks of a track hold as many samples as the
/// track has, and sample `j` stands where the tables lead to, with the length that they
/// say and with the first sample description.
pub proof fn law_samples_are_found_in_the_file(m: Movie, i: int, j: int)
    requires
        addressable(m),
        0 <= i < m.tracks.len(),
        fit_sizes(m.tracks[i].samples@),
        0 <= j < m.tracks[i].samples@.len(),
    ensures
        ({
            let file = file_of(m);
            let stbl = stbl_in(file, i);
            let stsc = inside(stbl, STSC);
            let data = m.tracks[i].samples@[j].data@;
            &&& samples_in_chunks(stsc, chunk_count(stbl) as nat) == m.tracks[i].samples@.len()
            &&& sample_count(stbl) == m.tracks[i].samples@.len()
            &&& chunk_description(
                stsc,
                u32_at(stsc, 4) as nat,
                (chunk_of(stsc, chunk_count(stbl), 1, j)->Some_0).0,
            ) == 1
            &&& sample_size(stbl, j) == data.len()
            &&& match sample_start(stbl, j) {
                Some(at) => 0 <= at && at + data.len() <= file.len() && file.subrange(
                    at,
                    at + data.len(),
                ) == data,
                None => false,
            }
        }),
{
    let t = m.tracks[i];
    let place = track_places(m.tracks)[i];
    let wide = needs_wide(m.tracks);
    let stbl = stbl_of(m, i);
    reveal(file_of);
    reveal(addressable);
    lemma_track_boxes(m, i);
    law_samples_stand_where_the_tables_say(m.tracks, resource(m), i, j);
    lemma_one_chunk(t.samples@, j);
    lemma_chunk_place(stbl, t, place.chunk_offset, wide);
    lemma_sizes(stbl, t, j);
    lemma_sizes_from(stbl, t, j as nat);
}

/// How many samples the first `n` rows of a table of runs are for. The rows stand from
/// `p` on.
pub open spec fn run_total(s: Seq<u8>, p: int, n: nat) -> int
    decreases n,
{
    if n == 0 {
        0
    } else {
        run_total(s, p, (n - 1) as nat) + u32_at(s, p + 8 * (n - 1))
    }
}

/// What the first `n` rows of a table of runs say of sample `j`.
pub open spec fn run_value(s: Seq<u8>, p: int, n: nat, j: int) -> Option<u32>
    decreases n,
{
    if n == 0 {
        None
    } else if run_total(s, p, (n - 1) as nat) <= j < run_total(s, p, n) {
        Some(u32_at(s, p + 8 * (n - 1) + 4))
    } else {
        run_value(s, p, (n - 1) as nat, j)
    }
}

proof fn lemma_run_value(s: Seq<u8>, p: int, r: Seq<(u32, u32)>, n: nat, j: int)
    requires
        n <= r.len(),
        forall|k: int|
            0 <= k < r.len() ==> u32_at(s, p + 8 * k) == (#[trigger] r[k]).0 && u32_at(
                s,
                p + 8 * k + 4,
            ) == r[k].1,
    ensures
        run_total(s, p, n) == expand(r.take(n as int)).len(),
        0 <= j < expand(r.take(n as int)).len() ==> run_value(s, p, n, j) == Some(
            expand(r.take(n as int))[j],
        ),
    decreases n,
{
    if n > 0 {
        let m = (n - 1) as nat;
        lemma_run_value(s, p, r, m, j);
        let a = r.take(n as int);
        assert(a.drop_last() =~= r.take(m as int));
        assert(a.last() == r[n - 1]);
        assert(u32_at(s, p + 8 * (n - 1)) == r[n - 1].0);
    }
}

proof fn lemma_behind(head: Seq<u8>, b: Seq<u8>, i: int)
    requires
        head.len() == 4,
        0 <= i,
        i + 4 <= b.len(),
    ensures
        u32_at(head + b, 4 + i) == u32_at(b, i),
{
}

proof fn lemma_table_row(head: Seq<u8>, r: Seq<(u32, u32)>, k: int)
    requires
        head.len() == 4,
        r.len() <= 0xffff_ffff,
        0 <= k < r.len(),
    ensures
        u32_at(head + run_table(r), 4) == r.len(),
        u32_at(head + run_table(r), 8 + 8 * k) == r[k].0,
        u32_at(head + run_table(r), 8 + 8 * k + 4) == r[k].1,
{
    law_run_table_is_read_back(r, k);
    let b = run_table(r);
    lemma_behind(head, b, 0);
    lemma_behind(head, b, 4 + 8 * k);
    lemma_behind(head, b, 8 + 8 * k);
}

#[verifier::spinoff_prover]
#[verifier::rlimit(30)]
pub proof fn lemma_table(head: Seq<u8>, v: Seq<u32>, j: int)
    requires
        head.len() == 4,
        v.len() <= 0xffff_ffff,
        runs(v).len() <= 0xffff_ffff,
        0 <= j < v.len(),
    ensures
        ({
            let s = head + run_table(runs(v));
            let n = u32_at(s, 4) as nat;
            &&& n == runs(v).len()
            &&& run_total(s, 8, n) == v.len()
            &&& run_value(s, 8, n, j) == Some(v[j])
        }),
{
    let r = runs(v);
    let s = head + run_table(r);
    law_runs_stand_for_the_list(v);
    assert(r.len() > 0) by {
        if r.len() == 0 {
            assert(expand(r).len() == 0);
        }
    }
    lemma_table_row(head, r, 0);
    assert forall|k: int| 0 <= k < r.len() implies u32_at(s, 8 + 8 * k) == (#[trigger] r[k]).0
        && u32_at(s, 8 + 8 * k + 4) == r[k].1 by {
        lemma_table_row(head, r, k);
    }
    lemma_run_value(s, 8, r, r.len(), j);
    assert(r.take(r.len() as int) =~= r);
}

pub proof fn lemma_runs_are_few(v: Seq<u32>)
    ensures
        runs(v).len() <= v.len(),
    decreases v.len(),
{
    if v.len() > 0 {
        lemma_runs_are_few(v.drop_last());
    }
}

/// How long sample `j` lasts, as the sample table says it.
pub open spec fn sample_duration(stbl: Seq<u8>, j: int) -> Option<u32> {
    let b = inside(stbl, STTS);
    run_value(b, 8, u32_at(b, 4) as nat, j)
}

/// How much later than it is decoded sample `j` is shown; without a table not at all. In
/// version 1 the number may be negative.
pub open spec fn sample_offset(stbl: Seq<u8>, j: int) -> Option<int> {
    match first_box(stbl, CTTS) {
        None => Some(0),
        Some(b) => match run_value(b, 8, u32_at(b, 4) as nat, j) {
            None => None,
            Some(x) => Some(
                if b[0] == 1 {
                    signed32(x) as int
                } else {
                    x as int
                },
            ),
        },
    }
}

/// A table of numbers holds a number.
pub open spec fn lists(b: Seq<u8>, x: int) -> bool {
    exists|k: int| 0 <= k < u32_at(b, 4) && #[trigger] u32_at(b, 8 + 4 * k) == x
}

/// Whether sample `j` is a sync sample; without a table all are.
pub open spec fn sample_is_sync(stbl: Seq<u8>, j: int) -> bool {
    match first_box(stbl, STSS) {
        None => true,
        Some(b) => lists(b, j + 1),
    }
}

proof fn lemma_durations(s: Seq<MuxSample>, j: int)
    requires
        s.len() <= 0xffff_ffff,
        0 <= j < s.len(),
    ensures
        ({
            let b = stts_body(s);
            &&& run_total(b, 8, u32_at(b, 4) as nat) == s.len()
            &&& run_value(b, 8, u32_at(b, 4) as nat, j) == Some(s[j].duration)
        }),
{
    broadcast use group_be_len;

    lemma_runs_are_few(durations(s));
    lemma_table(u32_be(0), durations(s), j);
}

proof fn lemma_offset_table(s: Seq<MuxSample>, j: int)
    requires
        s.len() <= 0xffff_ffff,
        0 <= j < s.len(),
    ensures
        ({
            let b = ctts_body(s);
            let x = run_value(b, 8, u32_at(b, 4) as nat, j);
            &&& run_total(b, 8, u32_at(b, 4) as nat) == s.len()
            &&& x is Some
            &&& s[j].composition_offset == (if b[0] == 1 {
                signed32(x->Some_0) as int
            } else {
                x->Some_0 as int
            })
            &&& b[0] <= 1
        }),
{
    broadcast use group_be_len;

    let version = if has_negative_offset(s) {
        0x0100_0000u32
    } else {
        0u32
    };
    lemma_runs_are_few(offsets(s));
    lemma_table(u32_be(version), offsets(s), j);
    crate::bytes::lemma_be_bytes(0, version, 0);
    assert(ctts_body(s)[0] == u32_be(version)[0]);
    assert(offsets(s)[j] == twos32(s[j].composition_offset));
    if !has_negative_offset(s) {
        assert(s[j].composition_offset >= 0);
    }
}

proof fn lemma_numbers_at(v: Seq<u32>, k: int)
    requires
        v.len() <= 0xffff_ffff,
        0 <= k < v.len(),
    ensures
        ({
            let b = u32_be(0) + u32_be(low32(v.len() as int)) + cat(v.len(), number_rows(v));
            &&& u32_at(b, 4) == v.len()
            &&& u32_at(b, 8 + 4 * k) == v[k]
        }),
{
    broadcast use group_be_len;

    let f = number_rows(v);
    let b = u32_be(0) + u32_be(low32(v.len() as int)) + cat(v.len(), f);
    assert(b.subrange(4, 8) =~= u32_be(v.len() as u32));
    lemma_u32_at(b, 4, v.len() as u32);
    lemma_cat_len(k as nat, f, 4);
    lemma_cat_piece(v.len(), f, k);
    assert(b.subrange(8, b.len() as int) =~= cat(v.len(), f));
    lemma_part(b, 8, b.len() as int, 4 * k, 4 * k + 4);
    lemma_u32_at(b, 8 + 4 * k, v[k]);
}

proof fn lemma_sync_table(s: Seq<MuxSample>, j: int)
    requires
        s.len() <= 0xffff_ffff,
        0 <= j < s.len(),
        has_other_than_sync(s),
    ensures
        s[j].keyframe <==> lists(stss_body(s), j + 1),
{
    broadcast use group_be_len;

    let v = sync_numbers(s, s.len());
    let b = stss_body(s);
    law_stss_names_the_sync_samples(s);
    lemma_sync_count(s, s.len());
    assert(s[j].keyframe <==> v.contains((j + 1) as u32));
    if v.len() == 0 {
        assert(b.subrange(4, 8) =~= u32_be(0));
        lemma_u32_at(b, 4, 0);
    } else {
        lemma_numbers_at(v, 0);
    }
    if s[j].keyframe {
        let k = choose|k: int| 0 <= k < v.len() && v[k] == (j + 1) as u32;
        lemma_numbers_at(v, k);
        assert(u32_at(b, 8 + 4 * k) == j + 1);
    }
    if exists|k: int| 0 <= k < u32_at(b, 4) && #[trigger] u32_at(b, 8 + 4 * k) == j + 1 {
        let k = choose|k: int|
            0 <= k < u32_at(b, 4) && #[trigger] u32_at(b, 8 + 4 * k) == j + 1;
        lemma_numbers_at(v, k);
        assert(v[k] == (j + 1) as u32);
    }
}

proof fn lemma_sync_count(s: Seq<MuxSample>, n: nat)
    requires
        n <= s.len(),
    ensures
        sync_numbers(s, n).len() <= n,
    decreases n,
{
    if n > 0 {
        lemma_sync_count(s, (n - 1) as nat);
    }
}

proof fn lemma_times(stbl: Seq<u8>, s: Seq<MuxSample>, j: int)
    requires
        s.len() <= 0xffff_ffff,
        0 <= j < s.len(),
        first_box(stbl, STTS) == Some(stts_body(s)),
        first_box(stbl, CTTS) == crate::movie_walk::some_if(has_offset(s), ctts_body(s)),
        first_box(stbl, STSS) == crate::movie_walk::some_if(has_other_than_sync(s), stss_body(s)),
    ensures
        ({
            let stts = inside(stbl, STTS);
            &&& run_total(stts, 8, u32_at(stts, 4) as nat) == s.len()
            &&& sample_duration(stbl, j) == Some(s[j].duration)
            &&& sample_offset(stbl, j) == Some(s[j].composition_offset as int)
            &&& sample_is_sync(stbl, j) == s[j].keyframe
        }),
{
    lemma_durations(s, j);
    if has_offset(s) {
        lemma_offset_table(s, j);
    } else {
        assert(s[j].composition_offset == 0);
    }
    assert(sample_offset(stbl, j) == Some(s[j].composition_offset as int));
    if has_other_than_sync(s) {
        lemma_sync_table(s, j);
    } else {
        assert(s[j].keyframe);
    }
    assert(sample_is_sync(stbl, j) <==> s[j].keyframe);
}

/// A reader finds of every sample of every track how long it lasts, how much later than
/// decoded it is shown, and whether it is a sync sample. The table of durations counts
/// all samples.
pub proof fn law_sample_times_are_found_in_the_file(m: Movie, i: int, j: int)
    requires
        addressable(m),
        0 <= i < m.tracks.len(),
        m.tracks[i].samples@.len() <= 0xffff_ffff,
        0 <= j < m.tracks[i].samples@.len(),
    ensures
        ({
            let stbl = stbl_in(file_of(m), i);
            let s = m.tracks[i].samples@;
            let stts = inside(stbl, STTS);
            &&& run_total(stts, 8, u32_at(stts, 4) as nat) == s.len()
            &&& sample_duration(stbl, j) == Some(s[j].duration)
            &&& sample_offset(stbl, j) == Some(s[j].composition_offset as int)
            &&& sample_is_sync(stbl, j) == s[j].keyframe
        }),
{
    lemma_track_boxes(m, i);
    lemma_times(stbl_of(m, i), m.tracks[i].samples@, j);
}

} // verus!
