//! Fragmented files: an initial `moov` box without samples, then pairs of `moof`
//! and `mdat` boxes.
use crate::atom::{atom, lemma_atom_len, push_atom};
use crate::bytes::{
    cat, empty_left, empty_right, group_be_len, i32_be, lemma_cat_piece, lemma_cat_push,
    lemma_low64_two, lemma_part, low32, low32_of, low32_plus, low64, plus64, put_bytes, put_code,
    put_i32, put_u32, put_zeros, signed32, u32_be, zeros,
};
use crate::fourcc::{
    DASH, FTYP, ISO5, ISOM, MDAT, MDIA, MFHD, MOOF, MOOV, MP42, MSDH, MVEX, MVHD, SAIO, SAIZ, STCO,
    STSC, STSD, STSZ, STTS, TFHD, TKHD, TRAF, TRAK, TREX, TRUN,
};
use crate::mux_boxes::{build_mvhd, build_stsd, build_tkhd, mvhd_body, stsd_body, tkhd_body};
use crate::mux_groups::{build_saio_offset, build_saiz_blobs, saio_body, saiz_body};
use crate::mux_layout::{blob_rows, blobs_len, put_blobs, put_samples, sample_rows, samples_len};
use crate::mux_tables::size32;
use crate::mux_trak::{build_mdia, mdia_body};
use crate::mux_types::{FragmentationMode, MuxSample, MuxTrackKind, TrackWrite};
use crate::slices::{
    fragment_models, fragments_of, law_runs_follow_each_other, run_models, slice_fragments,
    FragmentRun, RunModel,
};
use vstd::prelude::*;
use vstd::slice::slice_subrange;

verus! {

/// The `ftyp` box of a fragmented file.
pub open spec fn fragmented_ftyp_atom() -> Seq<u8> {
    atom(FTYP, ISO5@ + u32_be(0x200) + ISO5@ + ISOM@ + MP42@ + DASH@ + MSDH@)
}

/// Serialise the `ftyp` box of a fragmented file.
pub fn build_ftyp_fragmented() -> (r: Vec<u8>)
    ensures
        r@ == fragmented_ftyp_atom(),
{
    broadcast use empty_left;

    let mut body: Vec<u8> = Vec::new();
    put_code(&mut body, ISO5);
    put_u32(&mut body, 0x200);
    put_code(&mut body, ISO5);
    put_code(&mut body, ISOM);
    put_code(&mut body, MP42);
    put_code(&mut body, DASH);
    put_code(&mut body, MSDH);
    let mut out: Vec<u8> = Vec::new();
    push_atom(&mut out, FTYP, body.as_slice());
    out
}

/// The body of an `stbl` box that describes samples and holds none.
pub open spec fn init_stbl_body(t: TrackWrite) -> Seq<u8> {
    atom(STSD, stsd_body(t)) + atom(STTS, zeros(8)) + atom(STSC, zeros(8)) + atom(STSZ, zeros(12))
        + atom(STCO, zeros(8))
}

/// Serialise the body of an `stbl` box that holds no samples.
pub fn build_init_stbl(t: &TrackWrite) -> (r: Vec<u8>)
    ensures
        r@ == init_stbl_body(*t),
{
    broadcast use empty_left;

    let mut short: Vec<u8> = Vec::new();
    put_zeros(&mut short, 8);
    let mut long: Vec<u8> = Vec::new();
    put_zeros(&mut long, 12);
    let mut stbl: Vec<u8> = Vec::new();
    let stsd = build_stsd(t);
    push_atom(&mut stbl, STSD, stsd.as_slice());
    push_atom(&mut stbl, STTS, short.as_slice());
    push_atom(&mut stbl, STSC, short.as_slice());
    push_atom(&mut stbl, STSZ, long.as_slice());
    push_atom(&mut stbl, STCO, short.as_slice());
    stbl
}

/// The body of a `trak` box that holds no samples.
#[verifier::opaque]
pub open spec fn init_trak_body(t: TrackWrite, track_id: u32) -> Seq<u8> {
    atom(TKHD, tkhd_body(t.kind, track_id, 0)) + atom(MDIA, mdia_body(t, 0, init_stbl_body(t)))
}

/// Serialise the body of a `trak` box that holds no samples.
pub fn build_init_trak(t: &TrackWrite, track_id: u32) -> (r: Vec<u8>)
    ensures
        r@ == init_trak_body(*t, track_id),
{
    broadcast use empty_left;

    proof {
        reveal(init_trak_body);
    }
    let mut trak: Vec<u8> = Vec::new();
    let tkhd = build_tkhd(&t.kind, track_id, 0);
    push_atom(&mut trak, TKHD, tkhd.as_slice());
    let stbl = build_init_stbl(t);
    let mdia = build_mdia(t, 0, stbl.as_slice());
    push_atom(&mut trak, MDIA, mdia.as_slice());
    trak
}

/// The flags of a sample that is no sync sample.
pub const NON_SYNC_FLAGS: u32 = 0x0001_0000;

/// The body of the `trex` box: samples of a picture are by default no sync
/// samples.
#[verifier::opaque]
pub open spec fn trex_body(kind: MuxTrackKind, track_id: u32) -> Seq<u8> {
    u32_be(0) + u32_be(track_id) + u32_be(1) + u32_be(0) + u32_be(0) + u32_be(
        if kind is Video {
            NON_SYNC_FLAGS
        } else {
            0u32
        },
    )
}

/// Serialise the body of the `trex` box.
pub fn build_trex(t: &TrackWrite, track_id: u32) -> (r: Vec<u8>)
    ensures
        r@ == trex_body(t.kind, track_id),
{
    broadcast use empty_left;

    proof {
        reveal(trex_body);
    }
    let flags: u32 = match &t.kind {
        MuxTrackKind::Video { .. } => NON_SYNC_FLAGS,
        _ => 0,
    };
    let mut p: Vec<u8> = Vec::new();
    put_u32(&mut p, 0);
    put_u32(&mut p, track_id);
    put_u32(&mut p, 1);
    put_u32(&mut p, 0);
    put_u32(&mut p, 0);
    put_u32(&mut p, flags);
    p
}

/// The `trak` boxes without samples, numbered from 1.
pub open spec fn init_trak_atoms(tracks: Seq<TrackWrite>) -> spec_fn(int) -> Seq<u8> {
    |i: int| atom(TRAK, init_trak_body(tracks[i], low32(i + 1)))
}

/// The `trex` boxes, numbered from 1.
pub open spec fn trex_atoms(tracks: Seq<TrackWrite>) -> spec_fn(int) -> Seq<u8> {
    |i: int| atom(TREX, trex_body(tracks[i].kind, low32(i + 1)))
}

/// The body of the `moov` box of a fragmented file.
#[verifier::opaque]
pub open spec fn init_moov_body(tracks: Seq<TrackWrite>, movie_ts: u32) -> Seq<u8> {
    atom(MVHD, mvhd_body(movie_ts, 0, low32((tracks.len() + 1) as int))) + cat(
        tracks.len(),
        init_trak_atoms(tracks),
    ) + atom(MVEX, cat(tracks.len(), trex_atoms(tracks)))
}

/// Serialise the body of the `moov` box of a fragmented file.
pub fn build_init_moov(tracks: &Vec<TrackWrite>, movie_ts: u32) -> (r: Vec<u8>)
    ensures
        r@ == init_moov_body(tracks@, movie_ts),
{
    broadcast use empty_left;

    proof {
        reveal(init_moov_body);
    }
    let mut moov: Vec<u8> = Vec::new();
    let mvhd = build_mvhd(movie_ts, 0, low32_plus(tracks.len(), 1));
    push_atom(&mut moov, MVHD, mvhd.as_slice());
    let ghost before = moov@;
    let ghost f = init_trak_atoms(tracks@);
    let ghost g = trex_atoms(tracks@);
    let mut mvex: Vec<u8> = Vec::new();
    assert(moov@ =~= before + cat(0, f));
    for i in 0..tracks.len()
        invariant
            f == init_trak_atoms(tracks@),
            g == trex_atoms(tracks@),
            moov@ == before + cat(i as nat, f),
            mvex@ == cat(i as nat, g),
    {
        let id: u32 = low32_plus(i, 1);
        let trak = build_init_trak(&tracks[i], id);
        push_atom(&mut moov, TRAK, trak.as_slice());
        let trex = build_trex(&tracks[i], id);
        push_atom(&mut mvex, TREX, trex.as_slice());
        proof {
            lemma_cat_push(before, i as nat, f);
        }
    }
    push_atom(&mut moov, MVEX, mvex.as_slice());
    moov
}

/// Offsets in a `traf` box count from the first byte of the `moof` box.
pub const TFHD_DEFAULT_BASE_IS_MOOF: u32 = 0x02_0000;

/// A `trun` box holds its data offset and the duration, size and flags of each
/// sample.
pub const TRUN_FLAGS: u32 = 0x0701;

/// The rows of the `trun` box.
pub open spec fn trun_rows(s: Seq<MuxSample>) -> spec_fn(int) -> Seq<u8> {
    |i: int|
        u32_be(s[i].duration) + u32_be(size32(s[i])) + u32_be(
            if s[i].keyframe {
                0u32
            } else {
                NON_SYNC_FLAGS
            },
        )
}

/// The body of the `trun` box.
pub open spec fn trun_body(s: Seq<MuxSample>, data_offset: i32) -> Seq<u8> {
    u32_be(TRUN_FLAGS) + u32_be(low32(s.len() as int)) + i32_be(data_offset) + cat(
        s.len(),
        trun_rows(s),
    )
}

/// Serialise the body of the `trun` box.
pub fn build_trun(samples: &[MuxSample], data_offset: i32) -> (r: Vec<u8>)
    ensures
        r@ == trun_body(samples@, data_offset),
{
    broadcast use empty_left;

    let mut p: Vec<u8> = Vec::new();
    put_u32(&mut p, TRUN_FLAGS);
    put_u32(&mut p, low32_of(samples.len()));
    put_i32(&mut p, data_offset);
    let ghost before = p@;
    let ghost f = trun_rows(samples@);
    assert(p@ =~= before + cat(0, f));
    for i in 0..samples.len()
        invariant
            f == trun_rows(samples@),
            p@ == before + cat(i as nat, f),
    {
        let mut row: Vec<u8> = Vec::new();
        put_u32(&mut row, samples[i].duration);
        put_u32(&mut row, low32_of(samples[i].data.len()));
        put_u32(&mut row, if samples[i].keyframe {
            0
        } else {
            NON_SYNC_FLAGS
        });
        assert(row@ == f(i as int)) by {
            broadcast use empty_left;

        }
        put_bytes(&mut p, row.as_slice());
        proof {
            lemma_cat_push(before, i as nat, f);
        }
    }
    p
}

/// The samples of a run.
pub open spec fn run_samples(tracks: Seq<TrackWrite>, r: RunModel) -> Seq<MuxSample> {
    tracks[r.track_idx].samples@.subrange(r.lo, r.hi)
}

/// The auxiliary information of the samples of a run.
pub open spec fn run_blobs(tracks: Seq<TrackWrite>, r: RunModel) -> Seq<Vec<u8>> {
    match tracks[r.track_idx].sample_aux {
        Some(a) => a.per_sample@.subrange(r.lo, r.hi),
        None => Seq::empty(),
    }
}

/// The run lies inside its track and, where the track has auxiliary information,
/// inside that.
pub open spec fn run_fits(tracks: Seq<TrackWrite>, r: RunModel) -> bool {
    &&& 0 <= r.track_idx < tracks.len()
    &&& 0 <= r.lo <= r.hi <= tracks[r.track_idx].samples@.len()
    &&& tracks[r.track_idx].sample_aux matches Some(a) ==> r.hi <= a.per_sample@.len()
}

/// All runs fit.
pub open spec fn runs_fit(tracks: Seq<TrackWrite>, runs: Seq<RunModel>) -> bool {
    forall|i: int| 0 <= i < runs.len() ==> run_fits(tracks, #[trigger] runs[i])
}

/// The boxes of the auxiliary information of a run.
pub open spec fn traf_aux_atoms(tracks: Seq<TrackWrite>, r: RunModel, saio_offset: u64) -> Seq<u8> {
    match tracks[r.track_idx].sample_aux {
        Some(a) => atom(
            SAIZ,
            saiz_body(a.aux_info_type, a.aux_info_type_parameter, run_blobs(tracks, r)),
        ) + atom(SAIO, saio_body(a.aux_info_type, a.aux_info_type_parameter, saio_offset)),
        None => Seq::empty(),
    }
}

/// The body of the `traf` box of a run.
pub open spec fn traf_body(
    tracks: Seq<TrackWrite>,
    r: RunModel,
    data_offset: i32,
    saio_offset: u64,
) -> Seq<u8> {
    atom(TFHD, u32_be(TFHD_DEFAULT_BASE_IS_MOOF) + u32_be(low32(r.track_idx + 1))) + atom(
        TRUN,
        trun_body(run_samples(tracks, r), data_offset),
    ) + traf_aux_atoms(tracks, r, saio_offset)
}

fn samples_of<'a>(tracks: &'a Vec<TrackWrite>, run: &FragmentRun) -> (r: &'a [MuxSample])
    requires
        run_fits(tracks@, run@),
    ensures
        r@ == run_samples(tracks@, run@),
{
    slice_subrange(tracks[run.track_idx].samples.as_slice(), run.lo, run.hi)
}

/// Serialise the body of the `traf` box of a run.
pub fn build_traf(
    tracks: &Vec<TrackWrite>,
    run: &FragmentRun,
    data_offset: i32,
    saio_offset: u64,
) -> (r: Vec<u8>)
    requires
        run_fits(tracks@, run@),
    ensures
        r@ == traf_body(tracks@, run@, data_offset, saio_offset),
{
    broadcast use {empty_left, empty_right};

    let mut tfhd: Vec<u8> = Vec::new();
    put_u32(&mut tfhd, TFHD_DEFAULT_BASE_IS_MOOF);
    put_u32(&mut tfhd, low32_plus(run.track_idx, 1));
    let mut traf: Vec<u8> = Vec::new();
    push_atom(&mut traf, TFHD, tfhd.as_slice());
    let trun = build_trun(samples_of(tracks, run), data_offset);
    push_atom(&mut traf, TRUN, trun.as_slice());
    if let Some(a) = &tracks[run.track_idx].sample_aux {
        let blobs = slice_subrange(a.per_sample.as_slice(), run.lo, run.hi);
        let mut aux: Vec<u8> = Vec::new();
        let saiz = build_saiz_blobs(a.aux_info_type, a.aux_info_type_parameter, blobs);
        push_atom(&mut aux, SAIZ, saiz.as_slice());
        let saio = build_saio_offset(a.aux_info_type, a.aux_info_type_parameter, saio_offset);
        push_atom(&mut aux, SAIO, saio.as_slice());
        assert(aux@ == traf_aux_atoms(tracks@, run@, saio_offset));
        put_bytes(&mut traf, aux.as_slice());
    }
    traf
}

/// The `traf` boxes of a fragment.
pub open spec fn traf_atoms(
    tracks: Seq<TrackWrite>,
    runs: Seq<RunModel>,
    data_offsets: Seq<i32>,
    saio_offsets: Seq<u64>,
) -> spec_fn(int) -> Seq<u8> {
    |i: int| atom(TRAF, traf_body(tracks, runs[i], data_offsets[i], saio_offsets[i]))
}

/// The body of the `moof` box of a fragment.
pub open spec fn moof_body(
    number: u32,
    tracks: Seq<TrackWrite>,
    runs: Seq<RunModel>,
    data_offsets: Seq<i32>,
    saio_offsets: Seq<u64>,
) -> Seq<u8> {
    atom(MFHD, u32_be(0) + u32_be(number)) + cat(
        runs.len(),
        traf_atoms(tracks, runs, data_offsets, saio_offsets),
    )
}

/// Serialise the body of the `moof` box of a fragment.
pub fn build_moof(
    sequence_number: u32,
    tracks: &Vec<TrackWrite>,
    fragment: &Vec<FragmentRun>,
    data_offsets: &Vec<i32>,
    saio_offsets: &Vec<u64>,
) -> (r: Vec<u8>)
    requires
        runs_fit(tracks@, run_models(fragment@)),
        data_offsets@.len() == fragment@.len(),
        saio_offsets@.len() == fragment@.len(),
    ensures
        r@ == moof_body(
            sequence_number,
            tracks@,
            run_models(fragment@),
            data_offsets@,
            saio_offsets@,
        ),
{
    broadcast use empty_left;

    let ghost runs = run_models(fragment@);
    let ghost f = traf_atoms(tracks@, runs, data_offsets@, saio_offsets@);
    let mut mfhd: Vec<u8> = Vec::new();
    put_u32(&mut mfhd, 0);
    put_u32(&mut mfhd, sequence_number);
    let mut moof: Vec<u8> = Vec::new();
    push_atom(&mut moof, MFHD, mfhd.as_slice());
    let ghost before = moof@;
    assert(moof@ =~= before + cat(0, f));
    for i in 0..fragment.len()
        invariant
            runs == run_models(fragment@),
            runs_fit(tracks@, runs),
            data_offsets@.len() == fragment@.len(),
            saio_offsets@.len() == fragment@.len(),
            f == traf_atoms(tracks@, runs, data_offsets@, saio_offsets@),
            moof@ == before + cat(i as nat, f),
    {
        assert(run_fits(tracks@, runs[i as int]));
        let traf = build_traf(tracks, &fragment[i], data_offsets[i], saio_offsets[i]);
        push_atom(&mut moof, TRAF, traf.as_slice());
        proof {
            lemma_cat_push(before, i as nat, f);
        }
    }
    moof
}

/// The length of the `moof` box of a fragment whose offsets fit in 32 bits.
pub open spec fn moof_size(number: u32, tracks: Seq<TrackWrite>, runs: Seq<RunModel>) -> int {
    (8 + moof_body(
        number,
        tracks,
        runs,
        Seq::new(runs.len(), |i: int| 0i32),
        Seq::new(runs.len(), |i: int| 0u64),
    ).len()) as int
}

/// Measure the `moof` box of a fragment, in 64 bits.
pub fn measure_moof(
    sequence_number: u32,
    tracks: &Vec<TrackWrite>,
    fragment: &Vec<FragmentRun>,
) -> (r: u64)
    requires
        runs_fit(tracks@, run_models(fragment@)),
    ensures
        r == low64(moof_size(sequence_number, tracks@, run_models(fragment@))),
{
    let n: usize = fragment.len();
    let mut data_offsets: Vec<i32> = Vec::new();
    let mut saio_offsets: Vec<u64> = Vec::new();
    for i in 0..n
        invariant
            data_offsets@ == Seq::new(i as nat, |k: int| 0i32),
            saio_offsets@ == Seq::new(i as nat, |k: int| 0u64),
    {
        data_offsets.push(0);
        saio_offsets.push(0);
        assert(data_offsets@ =~= Seq::new((i + 1) as nat, |k: int| 0i32));
        assert(saio_offsets@ =~= Seq::new((i + 1) as nat, |k: int| 0u64));
    }
    let moof = build_moof(sequence_number, tracks, fragment, &data_offsets, &saio_offsets);
    plus64(moof.len() as u64, 8)
}

/// The data of the runs of a fragment.
pub open spec fn data_rows(tracks: Seq<TrackWrite>, runs: Seq<RunModel>) -> spec_fn(int) -> Seq<u8> {
    |i: int|
        cat(
            run_samples(tracks, runs[i]).len(),
            sample_rows(run_samples(tracks, runs[i])),
        )
}

/// The auxiliary information of the runs of a fragment.
pub open spec fn aux_rows(tracks: Seq<TrackWrite>, runs: Seq<RunModel>) -> spec_fn(int) -> Seq<u8> {
    |i: int| cat(run_blobs(tracks, runs[i]).len(), blob_rows(run_blobs(tracks, runs[i])))
}

/// Where the data of run `i` start, counted from the first byte of the `moof`
/// box: behind that box, the header of the `mdat` box and the data of the runs
/// before.
pub open spec fn data_start(
    number: u32,
    tracks: Seq<TrackWrite>,
    runs: Seq<RunModel>,
    i: int,
) -> int {
    moof_size(number, tracks, runs) + 8 + cat(i as nat, data_rows(tracks, runs)).len()
}

/// Where the auxiliary information of run `i` starts, counted from the first
/// byte of the `moof` box: behind the data of all runs and the auxiliary
/// information of the runs before.
pub open spec fn run_aux_start(
    number: u32,
    tracks: Seq<TrackWrite>,
    runs: Seq<RunModel>,
    i: int,
) -> int {
    data_start(number, tracks, runs, runs.len() as int) + cat(
        i as nat,
        aux_rows(tracks, runs),
    ).len()
}

/// The data offsets that the `trun` boxes of a fragment hold.
pub open spec fn data_offsets_of(
    number: u32,
    tracks: Seq<TrackWrite>,
    runs: Seq<RunModel>,
) -> Seq<i32> {
    Seq::new(runs.len(), |i: int| signed32(low32(data_start(number, tracks, runs, i))))
}

/// The offsets that the `saio` boxes of a fragment hold.
pub open spec fn saio_offsets_of(
    number: u32,
    tracks: Seq<TrackWrite>,
    runs: Seq<RunModel>,
) -> Seq<u64> {
    Seq::new(runs.len(), |i: int| low64(run_aux_start(number, tracks, runs, i)))
}

/// The body of the `mdat` box of a fragment.
pub open spec fn fragment_media(tracks: Seq<TrackWrite>, runs: Seq<RunModel>) -> Seq<u8> {
    cat(runs.len(), data_rows(tracks, runs)) + cat(runs.len(), aux_rows(tracks, runs))
}

/// The `moof` box of a fragment.
pub open spec fn moof_atom(number: u32, tracks: Seq<TrackWrite>, runs: Seq<RunModel>) -> Seq<u8> {
    atom(
        MOOF,
        moof_body(
            number,
            tracks,
            runs,
            data_offsets_of(number, tracks, runs),
            saio_offsets_of(number, tracks, runs),
        ),
    )
}

/// A fragment: its `moof` box and its `mdat` box.
pub open spec fn fragment_bytes(number: u32, tracks: Seq<TrackWrite>, runs: Seq<RunModel>) -> Seq<
    u8,
> {
    moof_atom(number, tracks, runs) + atom(MDAT, fragment_media(tracks, runs))
}

fn blobs_of<'a>(tracks: &'a Vec<TrackWrite>, run: &FragmentRun) -> (r: Option<&'a [Vec<u8>]>)
    requires
        run_fits(tracks@, run@),
    ensures
        match r {
            Some(b) => b@ == run_blobs(tracks@, run@),
            None => run_blobs(tracks@, run@).len() == 0,
        },
{
    match &tracks[run.track_idx].sample_aux {
        Some(a) => Some(slice_subrange(a.per_sample.as_slice(), run.lo, run.hi)),
        None => None,
    }
}

proof fn lemma_low32_of_low64(n: int)
    ensures
        low32(low64(n) as int) == low32(n),
{
    assert(0x1_0000_0000int * 0x1_0000_0000 == 0x1_0000_0000_0000_0000);
    vstd::arithmetic::div_mod::lemma_mod_mod(n, 0x1_0000_0000, 0x1_0000_0000);
}

fn low_signed32(x: u64) -> (r: i32)
    ensures
        r == signed32(low32(x as int)),
{
    let low: u32 = (x % 0x1_0000_0000) as u32;
    if low < 0x8000_0000 {
        low as i32
    } else {
        (low as i64 - 0x1_0000_0000) as i32
    }
}

fn place_data(
    number: u32,
    tracks: &Vec<TrackWrite>,
    fragment: &Vec<FragmentRun>,
) -> (r: (Vec<i32>, u64))
    requires
        runs_fit(tracks@, run_models(fragment@)),
    ensures
        r.0@ == data_offsets_of(number, tracks@, run_models(fragment@)),
        r.1 == low64(
            data_start(number, tracks@, run_models(fragment@), fragment@.len() as int),
        ),
{
    let ghost runs = run_models(fragment@);
    let ghost f = data_rows(tracks@, runs);
    let size: u64 = measure_moof(number, tracks, fragment);
    proof {
        lemma_low64_two(moof_size(number, tracks@, runs), 8);
    }
    let mut cursor: u64 = plus64(size, 8);
    let mut offsets: Vec<i32> = Vec::new();
    for i in 0..fragment.len()
        invariant
            runs == run_models(fragment@),
            runs_fit(tracks@, runs),
            f == data_rows(tracks@, runs),
            cursor == low64(data_start(number, tracks@, runs, i as int)),
            offsets@.len() == i,
            forall|k: int|
                0 <= k < i ==> #[trigger] offsets@[k] == signed32(
                    low32(data_start(number, tracks@, runs, k)),
                ),
    {
        assert(run_fits(tracks@, runs[i as int]));
        let n: u64 = samples_len(samples_of(tracks, &fragment[i]));
        proof {
            lemma_low32_of_low64(data_start(number, tracks@, runs, i as int));
            lemma_low64_two(
                data_start(number, tracks@, runs, i as int),
                f(i as int).len() as int,
            );
            assert(cat((i + 1) as nat, f) == cat(i as nat, f) + f(i as int));
        }
        offsets.push(low_signed32(cursor));
        cursor = plus64(cursor, n);
    }
    assert(offsets@ =~= data_offsets_of(number, tracks@, runs));
    (offsets, cursor)
}

fn place_aux(
    number: u32,
    tracks: &Vec<TrackWrite>,
    fragment: &Vec<FragmentRun>,
    start: u64,
) -> (r: Vec<u64>)
    requires
        runs_fit(tracks@, run_models(fragment@)),
        start == low64(
            data_start(number, tracks@, run_models(fragment@), fragment@.len() as int),
        ),
    ensures
        r@ == saio_offsets_of(number, tracks@, run_models(fragment@)),
{
    let ghost runs = run_models(fragment@);
    let ghost f = aux_rows(tracks@, runs);
    let mut cursor: u64 = start;
    let mut offsets: Vec<u64> = Vec::new();
    for i in 0..fragment.len()
        invariant
            runs == run_models(fragment@),
            runs_fit(tracks@, runs),
            f == aux_rows(tracks@, runs),
            cursor == low64(run_aux_start(number, tracks@, runs, i as int)),
            offsets@.len() == i,
            forall|k: int|
                0 <= k < i ==> #[trigger] offsets@[k] == low64(
                    run_aux_start(number, tracks@, runs, k),
                ),
    {
        assert(run_fits(tracks@, runs[i as int]));
        let n: u64 = match blobs_of(tracks, &fragment[i]) {
            Some(b) => blobs_len(b),
            None => 0,
        };
        proof {
            assert(n == low64(f(i as int).len() as int));
            lemma_low64_two(
                run_aux_start(number, tracks@, runs, i as int),
                f(i as int).len() as int,
            );
            assert(cat((i + 1) as nat, f) == cat(i as nat, f) + f(i as int));
        }
        offsets.push(cursor);
        cursor = plus64(cursor, n);
    }
    assert(offsets@ =~= saio_offsets_of(number, tracks@, runs));
    offsets
}

fn build_fragment_media(tracks: &Vec<TrackWrite>, fragment: &Vec<FragmentRun>) -> (r: Vec<u8>)
    requires
        runs_fit(tracks@, run_models(fragment@)),
    ensures
        r@ == fragment_media(tracks@, run_models(fragment@)),
{
    let ghost runs = run_models(fragment@);
    let ghost f = data_rows(tracks@, runs);
    let ghost g = aux_rows(tracks@, runs);
    let mut out: Vec<u8> = Vec::new();
    for i in 0..fragment.len()
        invariant
            runs == run_models(fragment@),
            runs_fit(tracks@, runs),
            f == data_rows(tracks@, runs),
            out@ == cat(i as nat, f),
    {
        assert(run_fits(tracks@, runs[i as int]));
        put_samples(&mut out, samples_of(tracks, &fragment[i]));
    }
    let ghost before = out@;
    assert(out@ =~= before + cat(0, g));
    for i in 0..fragment.len()
        invariant
            runs == run_models(fragment@),
            runs_fit(tracks@, runs),
            g == aux_rows(tracks@, runs),
            out@ == before + cat(i as nat, g),
    {
        assert(run_fits(tracks@, runs[i as int]));
        match blobs_of(tracks, &fragment[i]) {
            Some(b) => put_blobs(&mut out, b),
            None => {
                assert(g(i as int) =~= Seq::empty());
                assert(out@ =~= before + cat(i as nat, g) + g(i as int));
            },
        }
        proof {
            lemma_cat_push(before, i as nat, g);
        }
    }
    out
}

/// Serialise a fragment.
pub fn build_fragment(
    sequence_number: u32,
    tracks: &Vec<TrackWrite>,
    fragment: &Vec<FragmentRun>,
) -> (r: Vec<u8>)
    requires
        runs_fit(tracks@, run_models(fragment@)),
    ensures
        r@ == fragment_bytes(sequence_number, tracks@, run_models(fragment@)),
{
    broadcast use empty_left;

    let (data_offsets, end) = place_data(sequence_number, tracks, fragment);
    let saio_offsets = place_aux(sequence_number, tracks, fragment, end);
    let moof = build_moof(sequence_number, tracks, fragment, &data_offsets, &saio_offsets);
    let media = build_fragment_media(tracks, fragment);
    let mut out: Vec<u8> = Vec::new();
    push_atom(&mut out, MOOF, moof.as_slice());
    push_atom(&mut out, MDAT, media.as_slice());
    out
}

/// The number of fragment `k`: from 1 on, as far as 32 bits reach.
pub open spec fn fragment_number(k: int) -> u32 {
    if k + 1 > 0xffff_ffff {
        0xffff_ffff
    } else {
        (k + 1) as u32
    }
}

/// The fragments of a file.
pub open spec fn fragment_rows(
    tracks: Seq<TrackWrite>,
    fragments: Seq<Seq<RunModel>>,
) -> spec_fn(int) -> Seq<u8> {
    |k: int| fragment_bytes(fragment_number(k), tracks, fragments[k])
}

/// A fragmented file.
#[verifier::opaque]
pub open spec fn fragmented_file(
    tracks: Seq<TrackWrite>,
    movie_ts: u32,
    mode: FragmentationMode,
) -> Seq<u8> {
    fragmented_ftyp_atom() + atom(MOOV, init_moov_body(tracks, movie_ts)) + cat(
        fragments_of(tracks, mode).len(),
        fragment_rows(tracks, fragments_of(tracks, mode)),
    )
}

/// The auxiliary information of each track is as long as its list of samples.
pub open spec fn aux_matches(tracks: Seq<TrackWrite>) -> bool {
    forall|i: int|
        0 <= i < tracks.len() ==> ((#[trigger] tracks[i]).sample_aux matches Some(a)
            ==> a.per_sample@.len() == tracks[i].samples@.len())
}

/// The runs of every fragment fit.
pub proof fn lemma_fragments_fit(tracks: Seq<TrackWrite>, mode: FragmentationMode, k: int)
    requires
        tracks.len() > 0,
        tracks[0].samples@.len() > 0,
        mode != FragmentationMode::ByFrameCount(0),
        aux_matches(tracks),
        0 <= k < fragments_of(tracks, mode).len(),
    ensures
        runs_fit(tracks, fragments_of(tracks, mode)[k]),
{
    let fr = fragments_of(tracks, mode);
    assert forall|i: int| 0 <= i < fr[k].len() implies run_fits(tracks, #[trigger] fr[k][i]) by {
        law_runs_follow_each_other(tracks, mode, 0);
        assert(fr[k].len() == tracks.len());
        law_runs_follow_each_other(tracks, mode, i);
        assert(fr[k][i].track_idx == i);
    }
}

/// Write a fragmented file.
pub fn encode_fragments(
    tracks: &Vec<TrackWrite>,
    movie_ts: u32,
    mode: FragmentationMode,
) -> (r: Vec<u8>)
    requires
        tracks@.len() > 0,
        tracks@[0].samples@.len() > 0,
        mode != FragmentationMode::ByFrameCount(0),
        aux_matches(tracks@),
    ensures
        r@ == fragmented_file(tracks@, movie_ts, mode),
{
    proof {
        reveal(fragmented_file);
    }
    let fragments = slice_fragments(tracks, mode);
    let ghost fr = fragments_of(tracks@, mode);
    let ghost f = fragment_rows(tracks@, fr);
    let mut out = build_ftyp_fragmented();
    let moov = build_init_moov(tracks, movie_ts);
    push_atom(&mut out, MOOV, moov.as_slice());
    let ghost before = out@;
    let mut number: u32 = 1;
    assert(out@ =~= before + cat(0, f));
    for k in 0..fragments.len()
        invariant
            tracks@.len() > 0,
            tracks@[0].samples@.len() > 0,
            mode != FragmentationMode::ByFrameCount(0),
            aux_matches(tracks@),
            fr == fragments_of(tracks@, mode),
            fragment_models(fragments@) == fr,
            f == fragment_rows(tracks@, fr),
            number == fragment_number(k as int),
            out@ == before + cat(k as nat, f),
    {
        assert(run_models(fragments@[k as int]@) == fr[k as int]);
        proof {
            lemma_fragments_fit(tracks@, mode, k as int);
        }
        let fragment = build_fragment(number, tracks, &fragments[k]);
        put_bytes(&mut out, fragment.as_slice());
        proof {
            lemma_cat_push(before, k as nat, f);
        }
        if number < 0xffff_ffff {
            number = number + 1;
        }
    }
    out
}

proof fn lemma_same_lengths(n: nat, f: spec_fn(int) -> Seq<u8>, g: spec_fn(int) -> Seq<u8>)
    requires
        forall|i: int| 0 <= i < n ==> (#[trigger] f(i)).len() == g(i).len(),
    ensures
        cat(n, f).len() == cat(n, g).len(),
    decreases n,
{
    if n > 0 {
        lemma_same_lengths((n - 1) as nat, f, g);
        assert(f(n - 1).len() == g(n - 1).len());
    }
}

proof fn lemma_traf_len(
    tracks: Seq<TrackWrite>,
    r: RunModel,
    a: i32,
    b: i32,
    x: u64,
    y: u64,
)
    requires
        x <= 0xffff_ffff,
        y <= 0xffff_ffff,
    ensures
        traf_body(tracks, r, a, x).len() == traf_body(tracks, r, b, y).len(),
{
    broadcast use group_be_len;

    let s = run_samples(tracks, r);
    assert(trun_body(s, a).len() == trun_body(s, b).len());
    if let Some(aux) = tracks[r.track_idx].sample_aux {
        let code = aux.aux_info_type;
        let parameter = aux.aux_info_type_parameter;
        assert(saio_body(code, parameter, x).len() == saio_body(code, parameter, y).len());
    }
}

/// The `moof` box of a fragment is as long as it was measured, where the offsets
/// of auxiliary information fit in 32 bits.
pub proof fn law_moof_is_as_long_as_measured(
    number: u32,
    tracks: Seq<TrackWrite>,
    runs: Seq<RunModel>,
)
    requires
        forall|i: int|
            0 <= i < runs.len() ==> #[trigger] saio_offsets_of(number, tracks, runs)[i]
                <= 0xffff_ffff,
    ensures
        moof_atom(number, tracks, runs).len() == moof_size(number, tracks, runs),
{
    let n = runs.len();
    let a = data_offsets_of(number, tracks, runs);
    let x = saio_offsets_of(number, tracks, runs);
    let b = Seq::new(n, |i: int| 0i32);
    let y = Seq::new(n, |i: int| 0u64);
    let f = traf_atoms(tracks, runs, a, x);
    let g = traf_atoms(tracks, runs, b, y);
    assert forall|i: int| 0 <= i < n implies (#[trigger] f(i)).len() == g(i).len() by {
        lemma_traf_len(tracks, runs[i], a[i], b[i], x[i], y[i]);
        lemma_atom_len(TRAF, traf_body(tracks, runs[i], a[i], x[i]));
        lemma_atom_len(TRAF, traf_body(tracks, runs[i], b[i], y[i]));
    }
    lemma_same_lengths(n, f, g);
    lemma_atom_len(MOOF, moof_body(number, tracks, runs, a, x));
}

proof fn lemma_cat_rises(n: nat, f: spec_fn(int) -> Seq<u8>, i: nat)
    requires
        i <= n,
    ensures
        cat(i, f).len() <= cat(n, f).len(),
    decreases n,
{
    if i < n {
        lemma_cat_rises((n - 1) as nat, f, i);
    }
}

proof fn lemma_fragment_at(number: u32, tracks: Seq<TrackWrite>, runs: Seq<RunModel>)
    requires
        moof_size(number, tracks, runs) + 8 + fragment_media(tracks, runs).len() <= 0xffff_ffff,
    ensures
        ({
            let all = fragment_bytes(number, tracks, runs);
            let at = moof_size(number, tracks, runs) + 8;
            &&& all.len() == at + fragment_media(tracks, runs).len()
            &&& all.subrange(at, all.len() as int) == fragment_media(tracks, runs)
        }),
{
    broadcast use group_be_len;

    let media = fragment_media(tracks, runs);
    let x = saio_offsets_of(number, tracks, runs);
    let g = aux_rows(tracks, runs);
    assert forall|i: int| 0 <= i < runs.len() implies #[trigger] x[i] <= 0xffff_ffff by {
        lemma_cat_rises(runs.len(), g, i as nat);
        assert(run_aux_start(number, tracks, runs, i) <= 0xffff_ffff);
    }
    law_moof_is_as_long_as_measured(number, tracks, runs);
    lemma_atom_len(MDAT, media);
    let all = fragment_bytes(number, tracks, runs);
    let at = moof_size(number, tracks, runs) + 8;
    assert(all.subrange(at, all.len() as int) =~= media);
}

proof fn lemma_inner(s: Seq<u8>, a: int, media: Seq<u8>, lo: int, hi: int, piece: Seq<u8>)
    requires
        0 <= a <= s.len(),
        s.subrange(a, s.len() as int) == media,
        0 <= lo <= hi <= media.len(),
        media.subrange(lo, hi) == piece,
    ensures
        a + hi <= s.len(),
        s.subrange(a + lo, a + hi) == piece,
{
    assert(s.subrange(a + lo, a + hi) =~= media.subrange(lo, hi));
}

proof fn lemma_nested(
    all: Seq<u8>,
    a: int,
    lead: Seq<u8>,
    trail: Seq<u8>,
    n: nat,
    f: spec_fn(int) -> Seq<u8>,
    i: int,
    m: nat,
    g: spec_fn(int) -> Seq<u8>,
    j: int,
)
    requires
        0 <= a <= all.len(),
        all.subrange(a, all.len() as int) == lead + cat(n, f) + trail,
        0 <= i < n,
        f(i) == cat(m, g),
        0 <= j < m,
    ensures
        ({
            let at = a + lead.len() + cat(i as nat, f).len() + cat(j as nat, g).len();
            &&& at + g(j).len() <= all.len()
            &&& all.subrange(at, at + g(j).len()) == g(j)
        }),
{
    let media = lead + cat(n, f) + trail;
    let middle = cat(n, f);
    lemma_cat_piece(n, f, i);
    let p = cat(i as nat, f).len() as int;
    lemma_cat_piece(m, g, j);
    let q = cat(j as nat, g).len() as int;
    let len = g(j).len() as int;
    let d = lead.len() as int;
    lemma_part(middle, p, p + f(i).len(), q, q + len);
    assert(media.subrange(d + p + q, d + p + q + len) =~= middle.subrange(p + q, p + q + len));
    lemma_inner(all, a, media, d + p + q, d + p + q + len, g(j));
}

#[verifier::rlimit(40)]
proof fn lemma_offsets(number: u32, tracks: Seq<TrackWrite>, runs: Seq<RunModel>, i: int)
    requires
        0 <= i < runs.len(),
        moof_size(number, tracks, runs) + 8 + fragment_media(tracks, runs).len() <= 0xffff_ffff,
    ensures
        data_start(number, tracks, runs, i) <= 0x7fff_ffff ==> data_offsets_of(
            number,
            tracks,
            runs,
        )[i] == data_start(number, tracks, runs, i),
        saio_offsets_of(number, tracks, runs)[i] == run_aux_start(number, tracks, runs, i),
{
    lemma_cat_rises(runs.len(), data_rows(tracks, runs), i as nat);
    lemma_cat_rises(runs.len(), aux_rows(tracks, runs), i as nat);
    let x = data_start(number, tracks, runs, i);
    assert(0 <= x <= 0xffff_ffff);
    let y = run_aux_start(number, tracks, runs, i);
    assert(0 <= y <= 0xffff_ffff);
}

/// Each sample of a run stands where the `trun` box of the run says, counted from
/// the first byte of the `moof` box: behind the samples before it in the run.
pub proof fn law_samples_stand_where_trun_says(
    number: u32,
    tracks: Seq<TrackWrite>,
    runs: Seq<RunModel>,
    i: int,
    j: int,
)
    requires
        0 <= i < runs.len(),
        0 <= j < run_samples(tracks, runs[i]).len(),
        data_start(number, tracks, runs, i) <= 0x7fff_ffff,
        moof_size(number, tracks, runs) + 8 + fragment_media(tracks, runs).len() <= 0xffff_ffff,
    ensures
        ({
            let all = fragment_bytes(number, tracks, runs);
            let s = run_samples(tracks, runs[i]);
            let at = data_offsets_of(number, tracks, runs)[i] + cat(
                j as nat,
                sample_rows(s),
            ).len();
            &&& 0 <= at
            &&& at + s[j].data@.len() <= all.len()
            &&& all.subrange(at, at + s[j].data@.len()) == s[j].data@
        }),
{
    let f = data_rows(tracks, runs);
    let n = runs.len();
    let s = run_samples(tracks, runs[i]);
    let g = sample_rows(s);
    let aux = cat(n, aux_rows(tracks, runs));
    let a = moof_size(number, tracks, runs) + 8;
    lemma_fragment_at(number, tracks, runs);
    lemma_offsets(number, tracks, runs, i);
    let none = Seq::<u8>::empty();
    assert(none + cat(n, f) + aux =~= fragment_media(tracks, runs));
    lemma_nested(fragment_bytes(number, tracks, runs), a, none, aux, n, f, i, s.len(), g, j);
}

/// The auxiliary information of each sample of a run stands where the `saio` box
/// of the run says, counted from the first byte of the `moof` box.
pub proof fn law_aux_stands_where_saio_says(
    number: u32,
    tracks: Seq<TrackWrite>,
    runs: Seq<RunModel>,
    i: int,
    j: int,
)
    requires
        0 <= i < runs.len(),
        0 <= j < run_blobs(tracks, runs[i]).len(),
        moof_size(number, tracks, runs) + 8 + fragment_media(tracks, runs).len() <= 0xffff_ffff,
    ensures
        ({
            let all = fragment_bytes(number, tracks, runs);
            let b = run_blobs(tracks, runs[i]);
            let at = saio_offsets_of(number, tracks, runs)[i] + cat(j as nat, blob_rows(b)).len();
            &&& at + b[j]@.len() <= all.len()
            &&& all.subrange(at, at + b[j]@.len()) == b[j]@
        }),
{
    let f = aux_rows(tracks, runs);
    let n = runs.len();
    let b = run_blobs(tracks, runs[i]);
    let g = blob_rows(b);
    let data = cat(n, data_rows(tracks, runs));
    let a = moof_size(number, tracks, runs) + 8;
    lemma_fragment_at(number, tracks, runs);
    lemma_offsets(number, tracks, runs, i);
    let none = Seq::<u8>::empty();
    assert(data + cat(n, f) + none =~= fragment_media(tracks, runs));
    lemma_nested(fragment_bytes(number, tracks, runs), a, data, none, n, f, i, b.len(), g, j);
}

/// A fragment of a file stands behind the boxes before it and the fragments
/// before it.
pub proof fn law_fragments_stand_in_the_file(
    tracks: Seq<TrackWrite>,
    movie_ts: u32,
    mode: FragmentationMode,
    k: int,
)
    requires
        0 <= k < fragments_of(tracks, mode).len(),
    ensures
        ({
            let file = fragmented_file(tracks, movie_ts, mode);
            let fr = fragments_of(tracks, mode);
            let head = fragmented_ftyp_atom() + atom(MOOV, init_moov_body(tracks, movie_ts));
            let at = (head + cat(k as nat, fragment_rows(tracks, fr))).len() as int;
            let one = fragment_bytes(fragment_number(k), tracks, fr[k]);
            &&& at + one.len() <= file.len()
            &&& file.subrange(at, at + one.len()) == one
        }),
{
    reveal(fragmented_file);
    let file = fragmented_file(tracks, movie_ts, mode);
    let fr = fragments_of(tracks, mode);
    let f = fragment_rows(tracks, fr);
    let head = fragmented_ftyp_atom() + atom(MOOV, init_moov_body(tracks, movie_ts));
    lemma_cat_piece(fr.len(), f, k);
    let p = cat(k as nat, f).len() as int;
    let media = cat(fr.len(), f);
    assert(file.subrange(head.len() as int, file.len() as int) =~= media);
    lemma_inner(file, head.len() as int, media, p, p + f(k).len(), f(k));
}

} // verus!
