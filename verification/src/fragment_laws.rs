//! What a reader finds in a fragmented file: the tracks that it declares, and of every
//! fragment the runs of samples that belong to them.
use crate::atom::{atom, lemma_atom_len};
use crate::bytes::{
    cat, empty_right, group_be_len, i32_at, lemma_cat_piece, lemma_u32_at, low32, u32_at, u32_be,
};
use crate::fourcc::{
    DASH, FTYP, ISO5, ISOM, MDAT, MDIA, MFHD, MOOF, MOOV, MP42, MSDH, MVEX, MVHD, TFHD, TKHD, TRAF,
    TRAK, TREX, TRUN,
};
use crate::fragments::{
    data_offsets_of, data_start, fragment_bytes, fragment_media, fragment_number, fragment_rows,
    fragmented_file, fragmented_ftyp_atom, init_moov_body, init_stbl_body, init_trak_atoms,
    init_trak_body, law_fragments_stand_in_the_file, law_samples_stand_where_trun_says, moof_body,
    moof_size, run_samples, saio_offsets_of, traf_atoms, traf_aux_atoms, traf_body, trex_atoms,
    trex_body, trun_body, NON_SYNC_FLAGS, TFHD_DEFAULT_BASE_IS_MOOF, TRUN_FLAGS,
};
use crate::header::tkhd_of;
use crate::mux_boxes::{mvhd_body, tkhd_body};
use crate::mux_layout::sample_rows;

use crate::mux_trak::mdia_body;
use crate::mux_types::{FragmentationMode, MuxSample, TrackWrite};
use crate::read_back::law_track_header_is_read_back;
use crate::slices::{fragments_of, law_runs_follow_each_other, RunModel};
use crate::table_laws::law_trun_says_the_samples;
use crate::walk::{
    first_box, holds_one, inside, inside_nth, lemma_atom_is_one, lemma_found, lemma_found_alone,
    lemma_list_found, lemma_nth_behind, lemma_nth_of_cat, lemma_one_then_passes, lemma_passes_atom,
    lemma_passes_both, lemma_passes_cat, lemma_passes_then_one, nth_box, passes,
};
use vstd::prelude::*;

verus! {

/// The body of the `trak` box of track `i`, as a reader finds it.
pub open spec fn declared_track(file: Seq<u8>, i: int) -> Seq<u8> {
    inside_nth(inside(file, MOOV), TRAK, i)
}

/// The number that the header of a track says.
#[verifier::opaque]
pub open spec fn header_id(trak: Seq<u8>) -> Option<u32> {
    match tkhd_of(inside(trak, TKHD)) {
        Ok(h) => Some(h.track_id),
        Err(_) => None,
    }
}

/// The body of the `trex` box of track `i`, as a reader finds it.
pub open spec fn track_defaults(file: Seq<u8>, i: int) -> Seq<u8> {
    inside_nth(inside(inside(file, MOOV), MVEX), TREX, i)
}

/// The body of `traf` box `i` of fragment `k`, as a reader finds it.
pub open spec fn track_fragment(file: Seq<u8>, k: int, i: int) -> Seq<u8> {
    inside_nth(inside_nth(file, MOOF, k), TRAF, i)
}

/// A flag of a box is set.
pub open spec fn has_flag(s: Seq<u8>, flag: u32) -> bool {
    (u32_at(s, 0) / flag) % 2 == 1
}

/// Where the rows of a `trun` box start: behind the count, the data offset and the flags
/// of the first sample, where they are there.
pub open spec fn trun_start(s: Seq<u8>) -> int {
    8 + (if has_flag(s, 0x1) {
        4int
    } else {
        0
    }) + (if has_flag(s, 0x4) {
        4int
    } else {
        0
    })
}

/// How long a row of a `trun` box is: duration, size, flags and composition offset,
/// where they are there.
pub open spec fn trun_row_len(s: Seq<u8>) -> int {
    (if has_flag(s, 0x100) {
        4int
    } else {
        0
    }) + (if has_flag(s, 0x200) {
        4int
    } else {
        0
    }) + (if has_flag(s, 0x400) {
        4int
    } else {
        0
    }) + (if has_flag(s, 0x800) {
        4int
    } else {
        0
    })
}

/// The duration of sample `j` of a run, if the box says one.
pub open spec fn trun_duration(s: Seq<u8>, j: int) -> Option<u32> {
    if has_flag(s, 0x100) {
        Some(u32_at(s, trun_start(s) + trun_row_len(s) * j))
    } else {
        None
    }
}

/// The size of sample `j` of a run, if the box says one.
pub open spec fn trun_size(s: Seq<u8>, j: int) -> Option<u32> {
    if has_flag(s, 0x200) {
        Some(
            u32_at(
                s,
                trun_start(s) + trun_row_len(s) * j + (if has_flag(s, 0x100) {
                    4int
                } else {
                    0
                }),
            ),
        )
    } else {
        None
    }
}

/// The flags of sample `j` of a run, if the box says them.
pub open spec fn trun_sample_flags(s: Seq<u8>, j: int) -> Option<u32> {
    if has_flag(s, 0x400) {
        Some(
            u32_at(
                s,
                trun_start(s) + trun_row_len(s) * j + (if has_flag(s, 0x100) {
                    4int
                } else {
                    0
                }) + (if has_flag(s, 0x200) {
                    4int
                } else {
                    0
                }),
            ),
        )
    } else {
        None
    }
}

/// Where the data of a run start, counted from the base.
pub open spec fn trun_data_offset(s: Seq<u8>) -> Option<i32> {
    if has_flag(s, 0x1) {
        Some(i32_at(s, 8))
    } else {
        None
    }
}

/// How long the first `n` samples of a run are together.
pub open spec fn trun_sizes(s: Seq<u8>, n: nat) -> int
    decreases n,
{
    if n == 0 {
        0
    } else {
        trun_sizes(s, (n - 1) as nat) + (match trun_size(s, n - 1) {
            Some(x) => x as int,
            None => 0,
        })
    }
}

/// Sample flags say that a sample is no sync sample in bit sixteen.
pub open spec fn flags_say_sync(flags: u32) -> bool {
    (flags / 0x1_0000) % 2 == 0
}

spec fn code_number(c: [u8; 4]) -> int {
    c@[0] * 0x100_0000 + c@[1] * 0x1_0000 + c@[2] * 0x100 + c@[3]
}

proof fn lemma_file_parts(
    fb: Seq<u8>,
    moov: Seq<u8>,
    n: nat,
    f: spec_fn(int) -> Seq<u8>,
    g: spec_fn(int) -> Seq<u8>,
    h: spec_fn(int) -> Seq<u8>,
    k: int,
)
    requires
        (atom(FTYP, fb) + atom(MOOV, moov) + cat(n, f)).len() <= 0xffff_ffff,
        forall|j: int| 0 <= j < n ==> #[trigger] f(j) == atom(MOOF, g(j)) + atom(MDAT, h(j)),
    ensures
        ({
            let file = atom(FTYP, fb) + atom(MOOV, moov) + cat(n, f);
            &&& first_box(file, MOOV) == Some(moov)
            &&& moov.len() <= 0xffff_ffff - 8
            &&& 0 <= k < n ==> nth_box(file, MOOF, k as nat) == Some(g(k)) && g(k).len()
                <= 0xffff_ffff - 8
        }),
{
    broadcast use empty_right;

    let a = atom(FTYP, fb);
    let b = atom(MOOV, moov);
    let file = a + b + cat(n, f);
    lemma_atom_len(FTYP, fb);
    lemma_atom_len(MOOV, moov);
    assert(code_number(FTYP) != code_number(MOOV));
    assert(code_number(FTYP) != code_number(MOOF));
    assert(code_number(MOOV) != code_number(MOOF));
    assert(code_number(MDAT) != code_number(MOOF));
    lemma_passes_atom(FTYP, fb, MOOV);
    lemma_atom_is_one(MOOV, moov);
    lemma_passes_then_one(a, b, MOOV, moov);
    lemma_found(a + b, cat(n, f), MOOV, moov);
    lemma_passes_atom(FTYP, fb, MOOF);
    lemma_passes_atom(MOOV, moov, MOOF);
    lemma_passes_both(a, b, MOOF);
    assert forall|j: int| 0 <= j < n implies holds_one(#[trigger] f(j), MOOF, g(j)) by {
        lemma_cat_piece(n, f, j);
        lemma_atom_len(MOOF, g(j));
        lemma_atom_len(MDAT, h(j));
        lemma_atom_is_one(MOOF, g(j));
        lemma_passes_atom(MDAT, h(j), MOOF);
        lemma_one_then_passes(atom(MOOF, g(j)), atom(MDAT, h(j)), MOOF, g(j));
    }
    if 0 <= k < n {
        lemma_cat_piece(n, f, k);
        lemma_atom_len(MOOF, g(k));
        lemma_nth_behind(a + b, n, f, g, MOOF, Seq::empty(), k);
    }
}

proof fn lemma_moov_parts(
    mvhd: Seq<u8>,
    n: nat,
    f: spec_fn(int) -> Seq<u8>,
    g: spec_fn(int) -> Seq<u8>,
    mvex: Seq<u8>,
    i: int,
)
    requires
        (atom(MVHD, mvhd) + cat(n, f) + atom(MVEX, mvex)).len() <= 0xffff_ffff,
        forall|k: int| 0 <= k < n ==> #[trigger] f(k) == atom(TRAK, g(k)),
        0 <= i < n,
    ensures
        ({
            let s = atom(MVHD, mvhd) + cat(n, f) + atom(MVEX, mvex);
            &&& first_box(s, MVHD) == Some(mvhd)
            &&& nth_box(s, TRAK, i as nat) == Some(g(i))
            &&& g(i).len() <= 0xffff_ffff - 8
            &&& first_box(s, MVEX) == Some(mvex)
            &&& mvex.len() <= 0xffff_ffff - 8
        }),
{
    let s = atom(MVHD, mvhd) + cat(n, f) + atom(MVEX, mvex);
    assert(code_number(MVHD) != code_number(TRAK));
    assert(code_number(MVHD) != code_number(MVEX));
    assert(code_number(TRAK) != code_number(MVEX));
    lemma_atom_len(MVHD, mvhd);
    lemma_atom_len(MVEX, mvex);
    lemma_list_found(MVHD, mvhd, n, f, g, TRAK, atom(MVEX, mvex), i);
    lemma_passes_atom(MVHD, mvhd, MVEX);
    assert forall|k: int| 0 <= k < n implies passes(#[trigger] f(k), MVEX) by {
        lemma_cat_piece(n, f, k);
        lemma_atom_len(TRAK, g(k));
        lemma_passes_atom(TRAK, g(k), MVEX);
    }
    lemma_passes_cat(n, f, MVEX);
    lemma_passes_both(atom(MVHD, mvhd), cat(n, f), MVEX);
    lemma_atom_is_one(MVEX, mvex);
    lemma_passes_then_one(atom(MVHD, mvhd) + cat(n, f), atom(MVEX, mvex), MVEX, mvex);
    lemma_found_alone(s, MVEX, mvex);
}

proof fn lemma_trex_parts(n: nat, f: spec_fn(int) -> Seq<u8>, g: spec_fn(int) -> Seq<u8>, i: int)
    requires
        cat(n, f).len() <= 0xffff_ffff,
        forall|k: int| 0 <= k < n ==> #[trigger] f(k) == atom(TREX, g(k)),
        0 <= i < n,
    ensures
        nth_box(cat(n, f), TREX, i as nat) == Some(g(i)),
{
    broadcast use empty_right;

    assert forall|k: int| 0 <= k < n implies holds_one(#[trigger] f(k), TREX, g(k)) by {
        lemma_cat_piece(n, f, k);
        lemma_atom_len(TREX, g(k));
        lemma_atom_is_one(TREX, g(k));
    }
    lemma_nth_of_cat(n, f, g, TREX, Seq::empty(), i);
}

proof fn lemma_first_of(code: [u8; 4], body: Seq<u8>, rest: Seq<u8>)
    requires
        (atom(code, body) + rest).len() <= 0xffff_ffff,
    ensures
        first_box(atom(code, body) + rest, code) == Some(body),
{
    lemma_atom_len(code, body);
    lemma_atom_is_one(code, body);
    lemma_found(atom(code, body), rest, code, body);
}

/// The body of the `moof` box of fragment `k`.
pub open spec fn moof_in(tracks: Seq<TrackWrite>, mode: FragmentationMode, k: int) -> Seq<u8> {
    let runs = fragments_of(tracks, mode)[k];
    let number = fragment_number(k);
    moof_body(
        number,
        tracks,
        runs,
        data_offsets_of(number, tracks, runs),
        saio_offsets_of(number, tracks, runs),
    )
}

proof fn lemma_found_in_file(
    tracks: Seq<TrackWrite>,
    movie_ts: u32,
    mode: FragmentationMode,
    k: int,
)
    requires
        fragmented_file(tracks, movie_ts, mode).len() <= 0xffff_ffff,
    ensures
        ({
            let file = fragmented_file(tracks, movie_ts, mode);
            &&& first_box(file, MOOV) == Some(init_moov_body(tracks, movie_ts))
            &&& init_moov_body(tracks, movie_ts).len() <= 0xffff_ffff - 8
            &&& 0 <= k < fragments_of(tracks, mode).len() ==> nth_box(file, MOOF, k as nat) == Some(
                moof_in(tracks, mode, k),
            ) && moof_in(tracks, mode, k).len() <= 0xffff_ffff - 8
        }),
{
    reveal(fragmented_file);
    let fr = fragments_of(tracks, mode);
    let f = fragment_rows(tracks, fr);
    let g = |k: int| moof_in(tracks, mode, k);
    let h = |k: int| fragment_media(tracks, fr[k]);
    let body = ISO5@ + u32_be(0x200) + ISO5@ + ISOM@ + MP42@ + DASH@ + MSDH@;
    assert forall|j: int| 0 <= j < fr.len() implies #[trigger] f(j) == atom(MOOF, g(j)) + atom(
        MDAT,
        h(j),
    ) by {
        assert(g(j) == moof_in(tracks, mode, j));
        assert(h(j) == fragment_media(tracks, fr[j]));
    }
    lemma_file_parts(body, init_moov_body(tracks, movie_ts), fr.len(), f, g, h, k);
}

proof fn lemma_found_in_moov(tracks: Seq<TrackWrite>, movie_ts: u32, i: int)
    requires
        init_moov_body(tracks, movie_ts).len() <= 0xffff_ffff - 8,
        0 <= i < tracks.len(),
    ensures
        ({
            let moov = init_moov_body(tracks, movie_ts);
            let mvex = cat(tracks.len(), trex_atoms(tracks));
            &&& first_box(moov, MVHD) == Some(
                mvhd_body(movie_ts, 0, low32((tracks.len() + 1) as int)),
            )
            &&& nth_box(moov, TRAK, i as nat) == Some(init_trak_body(tracks[i], low32(i + 1)))
            &&& init_trak_body(tracks[i], low32(i + 1)).len() <= 0xffff_ffff - 8
            &&& first_box(moov, MVEX) == Some(mvex)
            &&& nth_box(mvex, TREX, i as nat) == Some(trex_body(tracks[i].kind, low32(i + 1)))
        }),
{
    reveal(init_moov_body);
    let n = tracks.len();
    let f = init_trak_atoms(tracks);
    let g = |k: int| init_trak_body(tracks[k], low32(k + 1));
    let x = trex_atoms(tracks);
    let y = |k: int| trex_body(tracks[k].kind, low32(k + 1));
    let mvhd = mvhd_body(movie_ts, 0, low32((n + 1) as int));
    assert forall|k: int| 0 <= k < n implies #[trigger] f(k) == atom(TRAK, g(k)) by {
        assert(g(k) == init_trak_body(tracks[k], low32(k + 1)));
    }
    assert forall|k: int| 0 <= k < n implies #[trigger] x(k) == atom(TREX, y(k)) by {
        assert(y(k) == trex_body(tracks[k].kind, low32(k + 1)));
    }
    lemma_moov_parts(mvhd, n, f, g, cat(n, x), i);
    lemma_trex_parts(n, x, y, i);
}

proof fn lemma_trex(kind: crate::mux_types::MuxTrackKind, id: u32)
    ensures
        ({
            let s = trex_body(kind, id);
            &&& s.len() == 24
            &&& u32_at(s, 4) == id
            &&& u32_at(s, 8) == 1
            &&& u32_at(s, 12) == 0
            &&& u32_at(s, 16) == 0
            &&& flags_say_sync(u32_at(s, 20)) == !(kind is Video)
        }),
{
    reveal(trex_body);
    broadcast use group_be_len;

    let s = trex_body(kind, id);
    let flags = if kind is Video {
        NON_SYNC_FLAGS
    } else {
        0u32
    };
    assert(s.subrange(4, 8) =~= u32_be(id));
    assert(s.subrange(8, 12) =~= u32_be(1));
    assert(s.subrange(12, 16) =~= u32_be(0));
    assert(s.subrange(16, 20) =~= u32_be(0));
    assert(s.subrange(20, 24) =~= u32_be(flags));
    lemma_u32_at(s, 4, id);
    lemma_u32_at(s, 8, 1);
    lemma_u32_at(s, 12, 0);
    lemma_u32_at(s, 16, 0);
    lemma_u32_at(s, 20, flags);
}

proof fn lemma_declared(tracks: Seq<TrackWrite>, movie_ts: u32, mode: FragmentationMode, i: int)
    requires
        fragmented_file(tracks, movie_ts, mode).len() <= 0xffff_ffff,
        0 <= i < tracks.len(),
    ensures
        ({
            let file = fragmented_file(tracks, movie_ts, mode);
            let trak = init_trak_body(tracks[i], low32(i + 1));
            &&& declared_track(file, i) == trak
            &&& trak.len() <= 0xffff_ffff
            &&& track_defaults(file, i) == trex_body(tracks[i].kind, low32(i + 1))
        }),
{
    lemma_found_in_file(tracks, movie_ts, mode, 0);
    lemma_found_in_moov(tracks, movie_ts, i);
}

proof fn lemma_init_header(t: TrackWrite, id: u32)
    requires
        init_trak_body(t, id).len() <= 0xffff_ffff,
    ensures
        header_id(init_trak_body(t, id)) == Some(id),
{
    reveal(init_trak_body);
    reveal(header_id);
    lemma_first_of(
        TKHD,
        tkhd_body(t.kind, id, 0),
        atom(MDIA, mdia_body(t, 0, init_stbl_body(t))),
    );
    law_track_header_is_read_back(t.kind, id, 0);
}

/// A fragmented file declares every track under the number that it got when it was
/// added, one more than its place: the header of the track says it, and the defaults of
/// the track. By default a sample has the first sample description and is a sync sample
/// unless it is a picture.
#[verifier::rlimit(60)]
#[verifier::spinoff_prover]
pub proof fn law_fragmented_file_declares_its_tracks(
    tracks: Seq<TrackWrite>,
    movie_ts: u32,
    mode: FragmentationMode,
    i: int,
)
    requires
        fragmented_file(tracks, movie_ts, mode).len() <= 0xffff_ffff,
        tracks.len() <= 0xffff_ffff,
        0 <= i < tracks.len(),
    ensures
        ({
            let file = fragmented_file(tracks, movie_ts, mode);
            let trex = track_defaults(file, i);
            &&& header_id(declared_track(file, i)) == Some((i + 1) as u32)
            &&& u32_at(trex, 4) == i + 1
            &&& u32_at(trex, 8) == 1
            &&& flags_say_sync(u32_at(trex, 20)) == !(tracks[i].kind is Video)
        }),
{
    lemma_declared(tracks, movie_ts, mode, i);
    lemma_init_header(tracks[i], low32(i + 1));
    lemma_trex(tracks[i].kind, low32(i + 1));
}

proof fn lemma_traf_parts(tfhd: Seq<u8>, trun: Seq<u8>, rest: Seq<u8>)
    requires
        (atom(TFHD, tfhd) + atom(TRUN, trun) + rest).len() <= 0xffff_ffff,
    ensures
        ({
            let s = atom(TFHD, tfhd) + atom(TRUN, trun) + rest;
            &&& first_box(s, TFHD) == Some(tfhd)
            &&& first_box(s, TRUN) == Some(trun)
        }),
{
    let s = atom(TFHD, tfhd) + atom(TRUN, trun) + rest;
    assert(code_number(TFHD) != code_number(TRUN));
    lemma_atom_len(TFHD, tfhd);
    lemma_atom_len(TRUN, trun);
    assert(s =~= atom(TFHD, tfhd) + (atom(TRUN, trun) + rest));
    lemma_first_of(TFHD, tfhd, atom(TRUN, trun) + rest);
    lemma_passes_atom(TFHD, tfhd, TRUN);
    lemma_atom_is_one(TRUN, trun);
    lemma_passes_then_one(atom(TFHD, tfhd), atom(TRUN, trun), TRUN, trun);
    lemma_found(atom(TFHD, tfhd) + atom(TRUN, trun), rest, TRUN, trun);
}

proof fn lemma_found_in_moof(
    number: u32,
    tracks: Seq<TrackWrite>,
    runs: Seq<RunModel>,
    a: Seq<i32>,
    x: Seq<u64>,
    i: int,
)
    requires
        moof_body(number, tracks, runs, a, x).len() <= 0xffff_ffff,
        0 <= i < runs.len(),
    ensures
        ({
            let moof = moof_body(number, tracks, runs, a, x);
            let traf = traf_body(tracks, runs[i], a[i], x[i]);
            &&& first_box(moof, MFHD) == Some(u32_be(0) + u32_be(number))
            &&& nth_box(moof, TRAF, i as nat) == Some(traf)
            &&& first_box(traf, TFHD) == Some(
                u32_be(TFHD_DEFAULT_BASE_IS_MOOF) + u32_be(low32(runs[i].track_idx + 1)),
            )
            &&& first_box(traf, TRUN) == Some(trun_body(run_samples(tracks, runs[i]), a[i]))
        }),
{
    broadcast use empty_right;

    let f = traf_atoms(tracks, runs, a, x);
    let g = |k: int| traf_body(tracks, runs[k], a[k], x[k]);
    let mfhd = u32_be(0) + u32_be(number);
    assert(code_number(MFHD) != code_number(TRAF));
    assert forall|k: int| 0 <= k < runs.len() implies #[trigger] f(k) == atom(TRAF, g(k)) by {
        assert(g(k) == traf_body(tracks, runs[k], a[k], x[k]));
    }
    lemma_list_found(MFHD, mfhd, runs.len(), f, g, TRAF, Seq::empty(), i);
    lemma_traf_parts(
        u32_be(TFHD_DEFAULT_BASE_IS_MOOF) + u32_be(low32(runs[i].track_idx + 1)),
        trun_body(run_samples(tracks, runs[i]), a[i]),
        traf_aux_atoms(tracks, runs[i], x[i]),
    );
}

proof fn lemma_two_numbers(x: u32, y: u32)
    ensures
        u32_at(u32_be(x) + u32_be(y), 0) == x,
        u32_at(u32_be(x) + u32_be(y), 4) == y,
{
    broadcast use group_be_len;

    let s = u32_be(x) + u32_be(y);
    assert(s.subrange(0, 4) =~= u32_be(x));
    assert(s.subrange(4, 8) =~= u32_be(y));
    lemma_u32_at(s, 0, x);
    lemma_u32_at(s, 4, y);
}

proof fn lemma_fragment_headers(
    tracks: Seq<TrackWrite>,
    movie_ts: u32,
    mode: FragmentationMode,
    k: int,
    i: int,
)
    requires
        fragmented_file(tracks, movie_ts, mode).len() <= 0xffff_ffff,
        0 <= k < fragments_of(tracks, mode).len(),
        0 <= i < fragments_of(tracks, mode)[k].len(),
    ensures
        ({
            let file = fragmented_file(tracks, movie_ts, mode);
            &&& inside(track_fragment(file, k, i), TFHD) == u32_be(TFHD_DEFAULT_BASE_IS_MOOF)
                + u32_be(low32(fragments_of(tracks, mode)[k][i].track_idx + 1))
            &&& inside(inside_nth(file, MOOF, k), MFHD) == u32_be(0) + u32_be(fragment_number(k))
        }),
{
    let runs = fragments_of(tracks, mode)[k];
    let number = fragment_number(k);
    lemma_found_in_file(tracks, movie_ts, mode, k);
    lemma_found_in_moof(
        number,
        tracks,
        runs,
        data_offsets_of(number, tracks, runs),
        saio_offsets_of(number, tracks, runs),
        i,
    );
}

/// Every fragment of a fragmented file has a run for every track, in the order of the
/// tracks, and names it by the number under which the file declares it. Fragments are
/// numbered from 1, and offsets count from the first byte of the fragment.
#[verifier::rlimit(60)]
#[verifier::spinoff_prover]
pub proof fn law_fragments_name_their_tracks(
    tracks: Seq<TrackWrite>,
    movie_ts: u32,
    mode: FragmentationMode,
    k: int,
    i: int,
)
    requires
        fragmented_file(tracks, movie_ts, mode).len() <= 0xffff_ffff,
        tracks.len() <= 0xffff_ffff,
        0 <= i < tracks.len(),
        tracks[0].samples@.len() > 0,
        mode != FragmentationMode::ByFrameCount(0),
        0 <= k < fragments_of(tracks, mode).len(),
    ensures
        ({
            let file = fragmented_file(tracks, movie_ts, mode);
            let tfhd = inside(track_fragment(file, k, i), TFHD);
            let mfhd = inside(inside_nth(file, MOOF, k), MFHD);
            &&& u32_at(tfhd, 4) == i + 1
            &&& header_id(declared_track(file, i)) == Some(u32_at(tfhd, 4))
            &&& u32_at(tfhd, 4) == u32_at(track_defaults(file, i), 4)
            &&& u32_at(tfhd, 0) == 0x2_0000
            &&& k + 1 <= 0xffff_ffff ==> u32_at(mfhd, 4) == k + 1
        }),
{
    let runs = fragments_of(tracks, mode)[k];
    let number = fragment_number(k);
    law_fragmented_file_declares_its_tracks(tracks, movie_ts, mode, i);
    law_runs_follow_each_other(tracks, mode, i);
    assert(runs[i].track_idx == i && runs.len() == tracks.len());
    lemma_fragment_headers(tracks, movie_ts, mode, k, i);
    lemma_two_numbers(TFHD_DEFAULT_BASE_IS_MOOF, low32(i + 1));
    lemma_two_numbers(0, number);
}

proof fn lemma_trun_read(s: Seq<MuxSample>, data_offset: i32, j: int)
    requires
        s.len() <= 0xffff_ffff,
        0 <= j < s.len(),
        s[j].data@.len() <= 0xffff_ffff,
    ensures
        ({
            let b = trun_body(s, data_offset);
            &&& u32_at(b, 4) == s.len()
            &&& trun_data_offset(b) == Some(data_offset)
            &&& trun_duration(b, j) == Some(s[j].duration)
            &&& trun_size(b, j) == Some(s[j].data@.len() as u32)
            &&& trun_sample_flags(b, j) is Some
            &&& flags_say_sync(trun_sample_flags(b, j)->Some_0) == s[j].keyframe
        }),
{
    broadcast use group_be_len;

    let b = trun_body(s, data_offset);
    law_trun_says_the_samples(s, data_offset, j);
    assert(b.subrange(0, 4) =~= u32_be(TRUN_FLAGS));
    assert(b.subrange(4, 8) =~= u32_be(s.len() as u32));
    lemma_u32_at(b, 0, TRUN_FLAGS);
    lemma_u32_at(b, 4, s.len() as u32);
    assert(has_flag(b, 0x1) && !has_flag(b, 0x4) && has_flag(b, 0x100) && has_flag(b, 0x200)
        && has_flag(b, 0x400) && !has_flag(b, 0x800));
    assert(trun_start(b) == 12);
    assert(trun_row_len(b) == 12);
}

/// Every sample of a run fits in the table.
pub open spec fn run_fits_table(s: Seq<MuxSample>) -> bool {
    s.len() <= 0xffff_ffff && forall|k: int|
        0 <= k < s.len() ==> (#[trigger] s[k]).data@.len() <= 0xffff_ffff
}

proof fn lemma_trun_sizes(s: Seq<MuxSample>, data_offset: i32, n: nat)
    requires
        run_fits_table(s),
        n <= s.len(),
    ensures
        trun_sizes(trun_body(s, data_offset), n) == cat(n, sample_rows(s)).len(),
    decreases n,
{
    if n > 0 {
        lemma_trun_sizes(s, data_offset, (n - 1) as nat);
        assert(s[n - 1].data@.len() <= 0xffff_ffff);
        lemma_trun_read(s, data_offset, n - 1);
    }
}

/// A reader that goes by the `trun` box of a track in a fragment finds the samples of the
/// run: as many as the run has, and of each its duration, its size, whether it is a sync
/// sample, and its data. They stand behind the samples before it in the run, and the run
/// where the box says, counted from the first byte of the fragment.
#[verifier::rlimit(60)]
#[verifier::spinoff_prover]
pub proof fn law_fragment_samples_are_found_in_the_file(
    tracks: Seq<TrackWrite>,
    movie_ts: u32,
    mode: FragmentationMode,
    k: int,
    i: int,
    j: int,
)
    requires
        fragmented_file(tracks, movie_ts, mode).len() <= 0x7fff_ffff,
        0 <= k < fragments_of(tracks, mode).len(),
        0 <= i < fragments_of(tracks, mode)[k].len(),
        run_fits_table(run_samples(tracks, fragments_of(tracks, mode)[k][i])),
        0 <= j < run_samples(tracks, fragments_of(tracks, mode)[k][i]).len(),
        moof_size(fragment_number(k), tracks, fragments_of(tracks, mode)[k]) + 8 + fragment_media(
            tracks,
            fragments_of(tracks, mode)[k],
        ).len() <= 0x7fff_ffff,
    ensures
        ({
            let file = fragmented_file(tracks, movie_ts, mode);
            let fr = fragments_of(tracks, mode);
            let trun = inside(track_fragment(file, k, i), TRUN);
            let s = run_samples(tracks, fr[k][i]);
            let base = (fragmented_ftyp_atom() + atom(MOOV, init_moov_body(tracks, movie_ts)) + cat(
                k as nat,
                fragment_rows(tracks, fr),
            )).len() as int;
            &&& u32_at(trun, 4) == s.len()
            &&& trun_duration(trun, j) == Some(s[j].duration)
            &&& trun_size(trun, j) == Some(s[j].data@.len() as u32)
            &&& flags_say_sync(trun_sample_flags(trun, j)->Some_0) == s[j].keyframe
            &&& match trun_data_offset(trun) {
                Some(offset) => {
                    let at = base + offset + trun_sizes(trun, j as nat);
                    &&& base <= at
                    &&& at + s[j].data@.len() <= file.len()
                    &&& file.subrange(at, at + s[j].data@.len()) == s[j].data@
                },
                None => false,
            }
        }),
{
    let file = fragmented_file(tracks, movie_ts, mode);
    let fr = fragments_of(tracks, mode);
    let runs = fr[k];
    let number = fragment_number(k);
    let s = run_samples(tracks, runs[i]);
    let a = data_offsets_of(number, tracks, runs);
    let one = fragment_bytes(number, tracks, runs);
    lemma_found_in_file(tracks, movie_ts, mode, k);
    lemma_found_in_moof(number, tracks, runs, a, saio_offsets_of(number, tracks, runs), i);
    lemma_trun_read(s, a[i], j);
    lemma_trun_sizes(s, a[i], j as nat);
    law_fragments_stand_in_the_file(tracks, movie_ts, mode, k);
    lemma_start_small(number, tracks, runs, i);
    law_samples_stand_where_trun_says(number, tracks, runs, i, j);
    let base = (fragmented_ftyp_atom() + atom(MOOV, init_moov_body(tracks, movie_ts)) + cat(
        k as nat,
        fragment_rows(tracks, fr),
    )).len() as int;
    let at = a[i] + cat(j as nat, sample_rows(s)).len();
    crate::bytes::lemma_part(file, base, base + one.len(), at, at + s[j].data@.len());
}

proof fn lemma_start_small(number: u32, tracks: Seq<TrackWrite>, runs: Seq<RunModel>, i: int)
    requires
        0 <= i < runs.len(),
        moof_size(number, tracks, runs) + 8 + fragment_media(tracks, runs).len() <= 0x7fff_ffff,
    ensures
        data_start(number, tracks, runs, i) <= 0x7fff_ffff,
{
    lemma_cat_piece(runs.len(), crate::fragments::data_rows(tracks, runs), i);
}

} // verus!
