//! The leaf boxes of a track: headers, references, edits and the sample
//! description.
use crate::atom::{atom, push_atom};
use crate::bytes::{
    cat, empty_left, empty_right, i16_be, i32_be, i64_be, lemma_cat_push, low16, low32, low32_of,
    low64, plus64, put_bytes, put_code, put_i16, put_i32, put_i64, put_u16, put_u32, put_u64,
    put_u8, put_zeros, u16_be, u32_be, u64_be, zeros,
};
use crate::fourcc::{
    CHNL, CLAP, CLEF, COLR, DREF, ELST, ENOF, FIEL, GAMA, GMIN, HINT, META, MHLR, PASP, PROF, SOUN,
    SRAT, STXT, SUBT, TCMI, TEXT, TMCD, URL, URN, VIDE,
};
use crate::media_meta::{colr_body, Tapt, TaptDims};
use crate::mux_tables::{decode_time, number_rows, put_numbers};
use crate::mux_types::{
    AudioDescriptionWrite, DataReferenceModel, DataReferenceWrite, MuxEdit, MuxTrackKind,
    TrackReference, TrackWrite, VisualExtensions,
};
use crate::parts::{chnl_body, default_gmin, Gmin, Tcmi};
use crate::rows::views;
use crate::sample_entry::{
    ended_text, metadata_entry_body, metadata_entry_format, put_ended_text, simple_text_body,
    subtitle_entry_body, subtitle_entry_format,
};
use crate::search::{first_index, lemma_first_index_is};
use vstd::prelude::*;

verus! {

/// The identity matrix: ones in 16.16 and 2.30 fixed point.
pub open spec fn identity_matrix() -> Seq<u8> {
    u32_be(0x1_0000) + zeros(12) + u32_be(0x1_0000) + zeros(12) + u32_be(0x4000_0000)
}

fn put_identity_matrix(out: &mut Vec<u8>)
    ensures
        final(out)@ == old(out)@ + identity_matrix(),
{
    broadcast use empty_left;

    let mut m: Vec<u8> = Vec::new();
    put_u32(&mut m, 0x1_0000);
    put_zeros(&mut m, 12);
    put_u32(&mut m, 0x1_0000);
    put_zeros(&mut m, 12);
    put_u32(&mut m, 0x4000_0000);
    put_bytes(out, m.as_slice());
}

/// The body of the `mvhd` box.
pub open spec fn mvhd_body(time_scale: u32, duration: u32, next_track_id: u32) -> Seq<u8> {
    zeros(12) + u32_be(time_scale) + u32_be(duration) + u32_be(0x1_0000) + u16_be(0x100) + zeros(10)
        + identity_matrix() + zeros(24) + u32_be(next_track_id)
}

/// Serialise the body of the `mvhd` box.
pub fn build_mvhd(time_scale: u32, duration: u32, next_track_id: u32) -> (r: Vec<u8>)
    ensures
        r@ == mvhd_body(time_scale, duration, next_track_id),
{
    broadcast use empty_left;

    let mut p: Vec<u8> = Vec::new();
    put_zeros(&mut p, 12);
    put_u32(&mut p, time_scale);
    put_u32(&mut p, duration);
    put_u32(&mut p, 0x1_0000);
    put_u16(&mut p, 0x100);
    put_zeros(&mut p, 10);
    put_identity_matrix(&mut p);
    put_zeros(&mut p, 24);
    put_u32(&mut p, next_track_id);
    p
}

/// The duration of a track in units of its media, in 64 bits.
pub open spec fn media_duration(t: TrackWrite) -> u64 {
    low64(decode_time(t.samples@, t.samples@.len()))
}

/// The duration of a track in units of the movie, rounded to the nearest, half
/// up.
#[verifier::opaque]
pub open spec fn movie_duration(t: TrackWrite, movie_ts: u32) -> u64 {
    if t.media_timescale == 0 {
        0
    } else {
        low64(
            (media_duration(t) * movie_ts + t.media_timescale as int / 2)
                / t.media_timescale as int,
        )
    }
}

/// The duration in 32 bits; what is longer counts as the longest.
pub open spec fn short_duration(d: u64) -> u32 {
    if d > 0xffff_ffff {
        0xffff_ffff
    } else {
        d as u32
    }
}

/// The duration of a track in units of its media.
pub fn track_media_duration(t: &TrackWrite) -> (r: u64)
    ensures
        r == media_duration(*t),
{
    let mut sum: u64 = 0;
    for i in 0..t.samples.len()
        invariant
            sum == low64(decode_time(t.samples@, i as nat)),
    {
        proof {
            crate::bytes::lemma_low64_sum(
                decode_time(t.samples@, i as nat),
                t.samples@[i as int].duration as int,
            );
        }
        sum = plus64(sum, t.samples[i].duration as u64);
    }
    sum
}

/// The duration of a track in units of the movie.
pub fn track_movie_duration(t: &TrackWrite, movie_ts: u32) -> (r: u64)
    ensures
        r == movie_duration(*t, movie_ts),
{
    proof {
        reveal(movie_duration);
    }
    let media: u64 = track_media_duration(t);
    if t.media_timescale == 0 {
        return 0;
    }
    let den: u128 = t.media_timescale as u128;
    assert(media * movie_ts <= 0xffff_ffff_ffff_ffff * 0xffff_ffff) by (nonlinear_arith)
        requires
            media <= 0xffff_ffff_ffff_ffff,
            movie_ts <= 0xffff_ffff,
    ;
    let num: u128 = media as u128 * movie_ts as u128;
    (((num + den / 2) / den) % 0x1_0000_0000_0000_0000) as u64
}

/// A duration in 32 bits.
pub fn to_short_duration(d: u64) -> (r: u32)
    ensures
        r == short_duration(d),
{
    if d > 0xffff_ffff {
        0xffff_ffff
    } else {
        d as u32
    }
}

/// Width and height of a track; 0 where it is not a picture.
pub open spec fn dimensions(kind: MuxTrackKind) -> (u16, u16) {
    match kind {
        MuxTrackKind::Video { width, height, .. } => (width, height),
        _ => (0, 0),
    }
}

/// The volume of a track, 8.8 fixed point; 0 where it is not audio.
pub open spec fn volume(kind: MuxTrackKind) -> u16 {
    if kind is Audio {
        0x100
    } else {
        0
    }
}

/// The body of the `tkhd` box of a track that is enabled.
pub open spec fn tkhd_body(kind: MuxTrackKind, track_id: u32, duration: u32) -> Seq<u8> {
    u32_be(7) + zeros(8) + u32_be(track_id) + zeros(4) + u32_be(duration) + zeros(12) + u16_be(
        volume(kind),
    ) + zeros(2) + identity_matrix() + u32_be((dimensions(kind).0 * 0x1_0000) as u32) + u32_be(
        (dimensions(kind).1 * 0x1_0000) as u32,
    )
}

/// Serialise the body of the `tkhd` box.
pub fn build_tkhd(kind: &MuxTrackKind, track_id: u32, duration: u32) -> (r: Vec<u8>)
    ensures
        r@ == tkhd_body(*kind, track_id, duration),
{
    broadcast use empty_left;

    let mut w: u32 = 0;
    let mut h: u32 = 0;
    let mut vol: u16 = 0;
    match kind {
        MuxTrackKind::Video { width, height, .. } => {
            w = *width as u32 * 0x1_0000;
            h = *height as u32 * 0x1_0000;
        },
        MuxTrackKind::Audio { .. } => {
            vol = 0x100;
        },
        _ => {},
    }
    let mut p: Vec<u8> = Vec::new();
    put_u32(&mut p, 7);
    put_zeros(&mut p, 8);
    put_u32(&mut p, track_id);
    put_zeros(&mut p, 4);
    put_u32(&mut p, duration);
    put_zeros(&mut p, 12);
    put_u16(&mut p, vol);
    put_zeros(&mut p, 2);
    put_identity_matrix(&mut p);
    put_u32(&mut p, w);
    put_u32(&mut p, h);
    p
}

/// The body of the `mdhd` box.
pub open spec fn mdhd_body(time_scale: u32, duration: u32, language: u16) -> Seq<u8> {
    zeros(12) + u32_be(time_scale) + u32_be(duration) + u16_be(language) + zeros(2)
}

/// Serialise the body of the `mdhd` box.
pub fn build_mdhd(time_scale: u32, duration: u32, language: u16) -> (r: Vec<u8>)
    ensures
        r@ == mdhd_body(time_scale, duration, language),
{
    broadcast use empty_left;

    let mut p: Vec<u8> = Vec::new();
    put_zeros(&mut p, 12);
    put_u32(&mut p, time_scale);
    put_u32(&mut p, duration);
    put_u16(&mut p, language);
    put_zeros(&mut p, 2);
    p
}

/// The handler of a kind of track.
pub open spec fn handler(kind: MuxTrackKind) -> [u8; 4] {
    match kind {
        MuxTrackKind::Video { .. } => VIDE,
        MuxTrackKind::Audio { .. } => SOUN,
        MuxTrackKind::Timecode { .. } => TMCD,
        MuxTrackKind::Text { .. } => TEXT,
        MuxTrackKind::Metadata { .. } => META,
        MuxTrackKind::Subtitle { .. } => SUBT,
        MuxTrackKind::SimpleText { .. } => TEXT,
        MuxTrackKind::Hint { .. } => HINT,
    }
}

/// The body of the `hdlr` box, with an empty name.
pub open spec fn track_hdlr_body(kind: MuxTrackKind) -> Seq<u8> {
    u32_be(0) + MHLR@ + handler(kind)@ + zeros(12) + seq![0u8]
}

/// Serialise the body of the `hdlr` box.
pub fn build_hdlr(kind: &MuxTrackKind) -> (r: Vec<u8>)
    ensures
        r@ == track_hdlr_body(*kind),
{
    broadcast use empty_left;

    let subtype = match kind {
        MuxTrackKind::Video { .. } => VIDE,
        MuxTrackKind::Audio { .. } => SOUN,
        MuxTrackKind::Timecode { .. } => TMCD,
        MuxTrackKind::Text { .. } => TEXT,
        MuxTrackKind::Metadata { .. } => META,
        MuxTrackKind::Subtitle { .. } => SUBT,
        MuxTrackKind::SimpleText { .. } => TEXT,
        MuxTrackKind::Hint { .. } => HINT,
    };
    let mut p: Vec<u8> = Vec::new();
    put_u32(&mut p, 0);
    put_code(&mut p, MHLR);
    put_code(&mut p, subtype);
    put_zeros(&mut p, 12);
    put_u8(&mut p, 0);
    p
}

/// The body of the `elng` box.
pub open spec fn elng_body(tag: Seq<char>) -> Seq<u8> {
    u32_be(0) + ended_text(tag)
}

/// Serialise the body of the `elng` box.
pub fn build_elng(tag: &str) -> (r: Vec<u8>)
    ensures
        r@ == elng_body(tag@),
{
    broadcast use empty_left;

    let mut p: Vec<u8> = Vec::new();
    put_u32(&mut p, 0);
    put_ended_text(&mut p, tag);
    p
}

/// The box of an aperture that may be there.
pub open spec fn aperture_atom(code: [u8; 4], d: Option<TaptDims>) -> Seq<u8> {
    match d {
        Some(d) => atom(code, d.body()),
        None => Seq::empty(),
    }
}

/// The body of the `tapt` box.
pub open spec fn tapt_body(t: Tapt) -> Seq<u8> {
    aperture_atom(CLEF, t.clef) + aperture_atom(PROF, t.prof) + aperture_atom(ENOF, t.enof)
}

fn push_aperture(out: &mut Vec<u8>, code: [u8; 4], d: &Option<TaptDims>)
    ensures
        final(out)@ == old(out)@ + aperture_atom(code, *d),
{
    broadcast use empty_right;

    if let Some(d) = d {
        let body = d.to_body_bytes();
        push_atom(out, code, body.as_slice());
    }
}

/// Serialise the body of the `tapt` box.
pub fn build_tapt(tapt: &Tapt) -> (r: Vec<u8>)
    ensures
        r@ == tapt_body(*tapt),
{
    broadcast use empty_left;

    let mut out: Vec<u8> = Vec::new();
    push_aperture(&mut out, CLEF, &tapt.clef);
    push_aperture(&mut out, PROF, &tapt.prof);
    push_aperture(&mut out, ENOF, &tapt.enof);
    out
}

/// The boxes of references.
pub open spec fn tref_atoms(v: Seq<TrackReference>) -> spec_fn(int) -> Seq<u8> {
    |i: int|
        atom(v[i].reference_type, cat(v[i].track_ids@.len(), number_rows(v[i].track_ids@)))
}

/// The body of the `tref` box.
pub open spec fn tref_body(v: Seq<TrackReference>) -> Seq<u8> {
    cat(v.len(), tref_atoms(v))
}

/// Serialise the body of the `tref` box.
pub fn build_tref(references: &Vec<TrackReference>) -> (r: Vec<u8>)
    ensures
        r@ == tref_body(references@),
{
    let ghost f = tref_atoms(references@);
    let mut tref: Vec<u8> = Vec::new();
    for i in 0..references.len()
        invariant
            f == tref_atoms(references@),
            tref@ == cat(i as nat, f),
    {
        broadcast use empty_left;

        let mut body: Vec<u8> = Vec::new();
        put_numbers(&mut body, &references[i].track_ids);
        push_atom(&mut tref, references[i].reference_type, body.as_slice());
    }
    tref
}

/// An edit needs 64 bits.
pub open spec fn wide_edit(e: MuxEdit) -> bool {
    e.track_duration > 0xffff_ffff || e.media_time > 0x7fff_ffff || e.media_time < -0x8000_0000
}

/// Some edit needs 64 bits.
pub open spec fn has_wide_edit(v: Seq<MuxEdit>) -> bool {
    exists|i: int| 0 <= i < v.len() && wide_edit(#[trigger] v[i])
}

/// The rows of the `elst` box.
pub open spec fn elst_rows(v: Seq<MuxEdit>, wide: bool) -> spec_fn(int) -> Seq<u8> {
    |i: int|
        if wide {
            u64_be(v[i].track_duration) + i64_be(v[i].media_time) + i32_be(v[i].media_rate)
        } else {
            u32_be(v[i].track_duration as u32) + i32_be(v[i].media_time as i32) + i32_be(
                v[i].media_rate,
            )
        }
}

/// The body of the `elst` box, in version 1 where an edit needs 64 bits.
pub open spec fn elst_body(v: Seq<MuxEdit>) -> Seq<u8> {
    let wide = has_wide_edit(v);
    u32_be(
        if wide {
            0x0100_0000u32
        } else {
            0u32
        },
    ) + u32_be(low32(v.len() as int)) + cat(v.len(), elst_rows(v, wide))
}

/// Serialise the body of the `elst` box.
pub fn build_elst(edits: &[MuxEdit]) -> (r: Vec<u8>)
    ensures
        r@ == elst_body(edits@),
{
    broadcast use empty_left;

    let mut wide = false;
    for i in 0..edits.len()
        invariant
            wide == exists|k: int| 0 <= k < i && wide_edit(#[trigger] edits@[k]),
    {
        let e = edits[i];
        if e.track_duration > 0xffff_ffff || e.media_time > 0x7fff_ffff || e.media_time
            < -0x8000_0000 {
            assert(wide_edit(edits@[i as int]));
            wide = true;
        }
    }
    let mut p: Vec<u8> = Vec::new();
    put_u32(&mut p, if wide {
        0x0100_0000
    } else {
        0
    });
    put_u32(&mut p, low32_of(edits.len()));
    let ghost before = p@;
    let ghost f = elst_rows(edits@, wide);
    assert(p@ =~= before + cat(0, f));
    for i in 0..edits.len()
        invariant
            wide == has_wide_edit(edits@),
            f == elst_rows(edits@, wide),
            p@ == before + cat(i as nat, f),
    {
        let e = edits[i];
        let mut row: Vec<u8> = Vec::new();
        if wide {
            put_u64(&mut row, e.track_duration);
            put_i64(&mut row, e.media_time);
        } else {
            assert(!wide_edit(edits@[i as int]));
            put_u32(&mut row, e.track_duration as u32);
            put_i32(&mut row, e.media_time as i32);
        }
        put_i32(&mut row, e.media_rate);
        assert(row@ == f(i as int)) by {
            broadcast use empty_left;

        }
        put_bytes(&mut p, row.as_slice());
        proof {
            lemma_cat_push(before, i as nat, f);
        }
    }
    p
}

/// The body of the `edts` box.
pub open spec fn edts_body(v: Seq<MuxEdit>) -> Seq<u8> {
    atom(ELST, elst_body(v))
}

/// Serialise the body of the `edts` box.
pub fn build_edts(edits: &[MuxEdit]) -> (r: Vec<u8>)
    ensures
        r@ == edts_body(edits@),
{
    broadcast use empty_left;

    let mut edts: Vec<u8> = Vec::new();
    let elst = build_elst(edits);
    push_atom(&mut edts, ELST, elst.as_slice());
    edts
}

/// The body of the `vmhd` box.
pub open spec fn vmhd_body() -> Seq<u8> {
    u32_be(1) + zeros(8)
}

/// Serialise the body of the `vmhd` box.
pub fn build_vmhd() -> (r: Vec<u8>)
    ensures
        r@ == vmhd_body(),
{
    broadcast use empty_left;

    let mut p: Vec<u8> = Vec::new();
    put_u32(&mut p, 1);
    put_zeros(&mut p, 8);
    p
}

/// Serialise the body of the `smhd` box.
pub fn build_smhd() -> (r: Vec<u8>)
    ensures
        r@ == zeros(8),
{
    broadcast use empty_left;

    let mut p: Vec<u8> = Vec::new();
    put_zeros(&mut p, 8);
    p
}

/// The body of the `gmin` box that is written: the one that is asked for, or the
/// default.
pub open spec fn gmin_body(g: Option<Gmin>) -> Seq<u8> {
    match g {
        Some(g) => g.body(),
        None => default_gmin().body(),
    }
}

/// The body of the `gmhd` box of a time-code track.
pub open spec fn gmhd_tmcd_body(tcmi: Tcmi, gmin: Option<Gmin>) -> Seq<u8> {
    atom(GMIN, gmin_body(gmin)) + atom(TMCD, atom(TCMI, tcmi.body@))
}

fn build_gmin(gmin: Option<Gmin>) -> (r: Vec<u8>)
    ensures
        r@ == gmin_body(gmin),
{
    match gmin {
        Some(g) => g.to_body_bytes(),
        None => Gmin::default().to_body_bytes(),
    }
}

/// Serialise the body of the `gmhd` box of a time-code track.
pub fn build_gmhd_tmcd(tcmi: &Tcmi, gmin: Option<Gmin>) -> (r: Vec<u8>)
    ensures
        r@ == gmhd_tmcd_body(*tcmi, gmin),
{
    broadcast use empty_left;

    let mut gmhd: Vec<u8> = Vec::new();
    let g = build_gmin(gmin);
    push_atom(&mut gmhd, GMIN, g.as_slice());
    let mut tmcd: Vec<u8> = Vec::new();
    push_atom(&mut tmcd, TCMI, tcmi.body.as_slice());
    push_atom(&mut gmhd, TMCD, tmcd.as_slice());
    gmhd
}

/// The bytes of a matrix.
pub open spec fn matrix_rows(m: Seq<i32>) -> spec_fn(int) -> Seq<u8> {
    |i: int| i32_be(m[i])
}

/// The matrix of a text track: the one that is asked for, or the identity.
pub open spec fn text_matrix(m: Option<[i32; 9]>) -> Seq<i32> {
    match m {
        Some(m) => m@,
        None => seq![0x1_0000i32, 0, 0, 0, 0x1_0000, 0, 0, 0, 0x4000_0000],
    }
}

/// The body of the `gmhd` box of a text track.
pub open spec fn gmhd_text_body(gmin: Option<Gmin>, matrix: Option<[i32; 9]>) -> Seq<u8> {
    atom(GMIN, gmin_body(gmin)) + atom(TEXT, cat(9, matrix_rows(text_matrix(matrix))))
}

/// Serialise the body of the `gmhd` box of a text track.
pub fn build_gmhd_text(gmin: Option<Gmin>, matrix: Option<[i32; 9]>) -> (r: Vec<u8>)
    ensures
        r@ == gmhd_text_body(gmin, matrix),
{
    broadcast use empty_left;

    let mut gmhd: Vec<u8> = Vec::new();
    let g = build_gmin(gmin);
    push_atom(&mut gmhd, GMIN, g.as_slice());
    let m: [i32; 9] = match matrix {
        Some(m) => m,
        None => [0x1_0000, 0, 0, 0, 0x1_0000, 0, 0, 0, 0x4000_0000],
    };
    assert(m@ =~= text_matrix(matrix));
    let ghost f = matrix_rows(m@);
    let mut text: Vec<u8> = Vec::new();
    for i in 0..9usize
        invariant
            f == matrix_rows(m@),
            text@ == cat(i as nat, f),
    {
        put_i32(&mut text, m[i]);
    }
    push_atom(&mut gmhd, TEXT, text.as_slice());
    gmhd
}

/// What a list of data references holds.
pub open spec fn reference_models(v: Seq<DataReferenceWrite>) -> Seq<DataReferenceModel> {
    views(v)
}

/// The box of a data reference. Flag 1 says that the media is in this file.
pub open spec fn data_reference_atom(m: DataReferenceModel) -> Seq<u8> {
    match m {
        DataReferenceModel::SelfRef => atom(URL, u32_be(1)),
        DataReferenceModel::Url(u) => atom(URL, u32_be(0) + ended_text(u)),
        DataReferenceModel::Urn { name, location } => atom(
            URN,
            u32_be(0) + ended_text(name) + (if location.len() == 0 {
                Seq::empty()
            } else {
                ended_text(location)
            }),
        ),
    }
}

/// The boxes of data references.
pub open spec fn data_reference_atoms(m: Seq<DataReferenceModel>) -> spec_fn(int) -> Seq<u8> {
    |i: int| data_reference_atom(m[i])
}

/// The references that are written: those that are asked for, or one to this
/// file.
pub open spec fn written_references(m: Seq<DataReferenceModel>) -> Seq<DataReferenceModel> {
    if m.len() == 0 {
        seq![DataReferenceModel::SelfRef]
    } else {
        m
    }
}

/// The body of the `dinf` box.
pub open spec fn dinf_body(m: Seq<DataReferenceModel>) -> Seq<u8> {
    let all = written_references(m);
    atom(
        DREF,
        u32_be(0) + u32_be(low32(all.len() as int)) + cat(all.len(), data_reference_atoms(all)),
    )
}

fn push_self_reference(out: &mut Vec<u8>)
    ensures
        final(out)@ == old(out)@ + data_reference_atom(DataReferenceModel::SelfRef),
{
    broadcast use empty_left;

    let mut body: Vec<u8> = Vec::new();
    put_u32(&mut body, 1);
    push_atom(out, URL, body.as_slice());
}

fn push_data_reference(out: &mut Vec<u8>, d: &DataReferenceWrite)
    ensures
        final(out)@ == old(out)@ + data_reference_atom(d@),
{
    broadcast use {empty_left, empty_right};

    match d {
        DataReferenceWrite::SelfRef => push_self_reference(out),
        DataReferenceWrite::Url(u) => {
            let mut body: Vec<u8> = Vec::new();
            put_u32(&mut body, 0);
            put_ended_text(&mut body, u.as_str());
            push_atom(out, URL, body.as_slice());
        },
        DataReferenceWrite::Urn { name, location } => {
            let mut body: Vec<u8> = Vec::new();
            put_u32(&mut body, 0);
            put_ended_text(&mut body, name.as_str());
            if !location.as_str().is_empty() {
                put_ended_text(&mut body, location.as_str());
            }
            push_atom(out, URN, body.as_slice());
        },
    }
}

/// Serialise the body of the `dinf` box.
pub fn build_dinf(refs: &Vec<DataReferenceWrite>) -> (r: Vec<u8>)
    ensures
        r@ == dinf_body(reference_models(refs@)),
{
    broadcast use empty_left;

    let ghost m = reference_models(refs@);
    let ghost all = written_references(m);
    let ghost f = data_reference_atoms(all);
    let mut dref: Vec<u8> = Vec::new();
    put_u32(&mut dref, 0);
    if refs.len() == 0 {
        put_u32(&mut dref, 1);
        let ghost before = dref@;
        push_self_reference(&mut dref);
        proof {
            assert(before + cat(0, f) =~= before);
            lemma_cat_push(before, 0, f);
        }
    } else {
        put_u32(&mut dref, low32_of(refs.len()));
        let ghost before = dref@;
        assert(dref@ =~= before + cat(0, f));
        for i in 0..refs.len()
            invariant
                m == reference_models(refs@),
                all == m,
                f == data_reference_atoms(all),
                dref@ == before + cat(i as nat, f),
        {
            push_data_reference(&mut dref, &refs[i]);
            proof {
                lemma_cat_push(before, i as nat, f);
            }
        }
    }
    let mut dinf: Vec<u8> = Vec::new();
    push_atom(&mut dinf, DREF, dref.as_slice());
    dinf
}

/// Where references to this file stand.
pub open spec fn self_at(m: Seq<DataReferenceModel>) -> spec_fn(int) -> bool {
    |i: int| m[i] is SelfRef
}

/// The number, counted from 1, of the reference to this file; 1 where there is
/// none.
pub open spec fn self_number(m: Seq<DataReferenceModel>) -> u16 {
    let k = first_index(m.len(), self_at(m));
    if k < m.len() {
        low16(k + 1)
    } else {
        1
    }
}

/// The number of the reference to this file.
pub fn self_ref_index(refs: &Vec<DataReferenceWrite>) -> (r: u16)
    ensures
        r == self_number(reference_models(refs@)),
{
    let ghost m = reference_models(refs@);
    let ghost f = self_at(m);
    for i in 0..refs.len()
        invariant
            m == reference_models(refs@),
            f == self_at(m),
            forall|j: int| 0 <= j < i ==> !#[trigger] f(j),
    {
        if let DataReferenceWrite::SelfRef = &refs[i] {
            proof {
                lemma_first_index_is(m.len(), f, i as int);
            }
            return ((i % 0x1_0000 + 1) % 0x1_0000) as u16;
        }
    }
    proof {
        lemma_first_index_is(m.len(), f, m.len() as int);
    }
    1
}

/// The boxes that decorate a visual sample description.
pub open spec fn extension_atoms(v: VisualExtensions) -> Seq<u8> {
    (match v.colr {
        Some(c) => atom(COLR, colr_body(c@)),
        None => Seq::empty(),
    }) + (match v.pasp {
        Some(p) => atom(PASP, p.body()),
        None => Seq::empty(),
    }) + (match v.clap {
        Some(c) => atom(CLAP, c.body()),
        None => Seq::empty(),
    }) + (match v.fiel {
        Some(f) => atom(FIEL, f.body()),
        None => Seq::empty(),
    }) + (match v.gamma {
        Some(g) => atom(GAMA, u32_be(g)),
        None => Seq::empty(),
    })
}

impl VisualExtensions {
    /// Serialise the boxes that are there.
    pub fn to_framed_atoms(&self) -> (r: Vec<u8>)
        ensures
            r@ == extension_atoms(*self),
    {
        broadcast use {empty_left, empty_right};

        let mut out: Vec<u8> = Vec::new();
        if let Some(c) = &self.colr {
            let body = c.to_body_bytes();
            push_atom(&mut out, COLR, body.as_slice());
        }
        if let Some(p) = &self.pasp {
            let body = p.to_body_bytes();
            push_atom(&mut out, PASP, body.as_slice());
        }
        if let Some(c) = &self.clap {
            let body = c.to_body_bytes();
            push_atom(&mut out, CLAP, body.as_slice());
        }
        if let Some(f) = &self.fiel {
            let body = f.to_body_bytes();
            push_atom(&mut out, FIEL, body.as_slice());
        }
        if let Some(g) = self.gamma {
            let mut body: Vec<u8> = Vec::new();
            put_u32(&mut body, g);
            push_atom(&mut out, GAMA, body.as_slice());
        }
        out
    }
}

/// A sample description: its length, its format, the number of the data
/// reference, and what the format needs.
pub open spec fn stsd_entry(format: [u8; 4], body: Seq<u8>, reference: u16) -> Seq<u8> {
    u32_be(low32((16 + body.len()) as int)) + format@ + zeros(6) + u16_be(reference) + body
}

/// Serialise a sample description.
pub fn wrap_stsd_entry(format: &[u8; 4], body: &[u8], data_reference_index: u16) -> (r: Vec<u8>)
    ensures
        r@ == stsd_entry(*format, body@, data_reference_index),
{
    broadcast use empty_left;

    let mut out: Vec<u8> = Vec::new();
    put_u32(&mut out, crate::bytes::low32_plus(body.len(), 16));
    put_code(&mut out, *format);
    put_zeros(&mut out, 6);
    put_u16(&mut out, data_reference_index);
    put_bytes(&mut out, body);
    out
}

/// The fixed fields of a visual sample description: width, height, 72 dots per
/// inch, one frame per sample, no name, 24 bits, no colour table.
pub open spec fn video_fields(width: u16, height: u16) -> Seq<u8> {
    zeros(16) + u16_be(width) + u16_be(height) + u32_be(0x0048_0000) + u32_be(0x0048_0000) + zeros(
        4,
    ) + u16_be(1) + zeros(32) + u16_be(24) + i16_be((-1) as i16)
}

fn build_video_fields(width: u16, height: u16) -> (r: Vec<u8>)
    ensures
        r@ == video_fields(width, height),
{
    broadcast use empty_left;

    let mut p: Vec<u8> = Vec::new();
    put_zeros(&mut p, 16);
    put_u16(&mut p, width);
    put_u16(&mut p, height);
    put_u32(&mut p, 0x0048_0000);
    put_u32(&mut p, 0x0048_0000);
    put_zeros(&mut p, 4);
    put_u16(&mut p, 1);
    put_zeros(&mut p, 32);
    put_u16(&mut p, 24);
    put_i16(&mut p, -1);
    p
}

/// The compression id of an audio sample description: -2 for frames of variable
/// length.
pub open spec fn compression_id(d: AudioDescriptionWrite) -> i16 {
    match d {
        AudioDescriptionWrite::QtffV1 { vbr, .. } => if vbr {
            (-2) as i16
        } else {
            0
        },
        _ => 0,
    }
}

/// The fields that version 1 of QuickTime adds.
pub open spec fn ratio_fields(d: AudioDescriptionWrite) -> Seq<u8> {
    match d {
        AudioDescriptionWrite::QtffV1 { fields, .. } => u32_be(fields.samples_per_packet) + u32_be(
            fields.bytes_per_packet,
        ) + u32_be(fields.bytes_per_frame) + u32_be(fields.bytes_per_sample),
        _ => Seq::empty(),
    }
}

/// A sampling rate in 16.16 fixed point; what is higher counts as the highest.
pub open spec fn fixed_rate(rate: u32) -> u32 {
    if rate > 0xffff {
        0xffff_0000
    } else {
        (rate * 0x1_0000) as u32
    }
}

/// The fixed fields of an audio sample description.
pub open spec fn audio_fields(
    d: AudioDescriptionWrite,
    channels: u16,
    bits_per_sample: u16,
    sample_rate: u32,
) -> Seq<u8> {
    u16_be(
        if d is V0 {
            0u16
        } else {
            1u16
        },
    ) + zeros(6) + u16_be(channels) + u16_be(bits_per_sample) + i16_be(compression_id(d)) + zeros(2)
        + u32_be(fixed_rate(sample_rate)) + ratio_fields(d)
}

fn build_audio_fields(
    d: &AudioDescriptionWrite,
    channels: u16,
    bits_per_sample: u16,
    sample_rate: u32,
) -> (r: Vec<u8>)
    ensures
        r@ == audio_fields(*d, channels, bits_per_sample, sample_rate),
{
    broadcast use {empty_left, empty_right};

    let mut version: u16 = 1;
    let mut id: i16 = 0;
    let mut ratios: Vec<u8> = Vec::new();
    match d {
        AudioDescriptionWrite::V0 => {
            version = 0;
        },
        AudioDescriptionWrite::QtffV1 { fields, vbr } => {
            if *vbr {
                id = -2;
            }
            put_u32(&mut ratios, fields.samples_per_packet);
            put_u32(&mut ratios, fields.bytes_per_packet);
            put_u32(&mut ratios, fields.bytes_per_frame);
            put_u32(&mut ratios, fields.bytes_per_sample);
        },
        AudioDescriptionWrite::IsoV1(_) => {},
    }
    let mut p: Vec<u8> = Vec::new();
    put_u16(&mut p, version);
    put_zeros(&mut p, 6);
    put_u16(&mut p, channels);
    put_u16(&mut p, bits_per_sample);
    put_i16(&mut p, id);
    put_zeros(&mut p, 2);
    put_u32(&mut p, if sample_rate > 0xffff {
        0xffff_0000
    } else {
        sample_rate * 0x1_0000
    });
    put_bytes(&mut p, ratios.as_slice());
    p
}

/// The boxes that version 1 of the ISO base media file format adds.
pub open spec fn audio_atoms(d: AudioDescriptionWrite) -> Seq<u8> {
    match d {
        AudioDescriptionWrite::IsoV1(v1) => (match v1.sampling_rate {
            Some(rate) => atom(SRAT, u32_be(0) + u32_be(rate)),
            None => Seq::empty(),
        }) + (match v1.channel_layout {
            Some(l) => atom(CHNL, chnl_body(l)),
            None => Seq::empty(),
        }),
        _ => Seq::empty(),
    }
}

fn build_audio_atoms(d: &AudioDescriptionWrite) -> (r: Vec<u8>)
    ensures
        r@ == audio_atoms(*d),
{
    broadcast use {empty_left, empty_right};

    let mut out: Vec<u8> = Vec::new();
    if let AudioDescriptionWrite::IsoV1(v1) = d {
        if let Some(rate) = v1.sampling_rate {
            let mut srat: Vec<u8> = Vec::new();
            put_u32(&mut srat, 0);
            put_u32(&mut srat, rate);
            push_atom(&mut out, SRAT, srat.as_slice());
        }
        if let Some(l) = &v1.channel_layout {
            let body = l.to_body_bytes();
            push_atom(&mut out, CHNL, body.as_slice());
        }
    }
    out
}

/// The format of the sample description of a track.
pub open spec fn entry_format(kind: MuxTrackKind) -> [u8; 4] {
    match kind {
        MuxTrackKind::Video { format, .. } => format,
        MuxTrackKind::Audio { format, .. } => format,
        MuxTrackKind::Timecode { .. } => TMCD,
        MuxTrackKind::Text { .. } => TEXT,
        MuxTrackKind::Metadata { description } => metadata_entry_format(description),
        MuxTrackKind::Subtitle { description } => subtitle_entry_format(description),
        MuxTrackKind::SimpleText { .. } => STXT,
        MuxTrackKind::Hint { protocol, .. } => protocol,
    }
}

/// The body of the sample description of a track: what its kind needs, the extra
/// atoms, and the boxes that decorate a picture or a sound.
pub open spec fn entry_body(t: TrackWrite) -> Seq<u8> {
    match t.kind {
        MuxTrackKind::Video { width, height, .. } => video_fields(width, height)
            + t.extra_stsd_atoms@ + extension_atoms(t.visual_extensions),
        MuxTrackKind::Audio { channels, bits_per_sample, sample_rate, .. } => audio_fields(
            t.audio_description,
            channels,
            bits_per_sample,
            sample_rate,
        ) + t.extra_stsd_atoms@ + audio_atoms(t.audio_description),
        MuxTrackKind::Timecode { description, .. } => description.body@ + t.extra_stsd_atoms@,
        MuxTrackKind::Text { description } => description.body@ + t.extra_stsd_atoms@,
        MuxTrackKind::Metadata { description } => metadata_entry_body(description)
            + t.extra_stsd_atoms@,
        MuxTrackKind::Subtitle { description } => subtitle_entry_body(description)
            + t.extra_stsd_atoms@,
        MuxTrackKind::SimpleText { description } => simple_text_body(description)
            + t.extra_stsd_atoms@,
        MuxTrackKind::Hint { description, .. } => description@ + t.extra_stsd_atoms@,
    }
}

/// The body of the `stsd` box: one sample description. The box has version 1
/// where the description is a version 1 audio entry of the ISO base media file
/// format.
pub open spec fn stsd_body(t: TrackWrite) -> Seq<u8> {
    u32_be(
        if t.audio_description is IsoV1 {
            0x0100_0000u32
        } else {
            0u32
        },
    ) + u32_be(1) + stsd_entry(
        entry_format(t.kind),
        entry_body(t),
        self_number(reference_models(t.data_references@)),
    )
}

fn build_entry_format(kind: &MuxTrackKind) -> (r: [u8; 4])
    ensures
        r == entry_format(*kind),
{
    match kind {
        MuxTrackKind::Video { format, .. } => *format,
        MuxTrackKind::Audio { format, .. } => *format,
        MuxTrackKind::Timecode { .. } => TMCD,
        MuxTrackKind::Text { .. } => TEXT,
        MuxTrackKind::Metadata { description } => description.format(),
        MuxTrackKind::Subtitle { description } => description.format(),
        MuxTrackKind::SimpleText { .. } => STXT,
        MuxTrackKind::Hint { protocol, .. } => *protocol,
    }
}

fn build_entry_body(t: &TrackWrite) -> (r: Vec<u8>)
    ensures
        r@ == entry_body(*t),
{
    broadcast use empty_left;

    let mut e: Vec<u8> = Vec::new();
    match &t.kind {
        MuxTrackKind::Video { width, height, .. } => {
            let fields = build_video_fields(*width, *height);
            let atoms = t.visual_extensions.to_framed_atoms();
            put_bytes(&mut e, fields.as_slice());
            put_bytes(&mut e, t.extra_stsd_atoms.as_slice());
            put_bytes(&mut e, atoms.as_slice());
        },
        MuxTrackKind::Audio { channels, bits_per_sample, sample_rate, .. } => {
            let fields = build_audio_fields(
                &t.audio_description,
                *channels,
                *bits_per_sample,
                *sample_rate,
            );
            let atoms = build_audio_atoms(&t.audio_description);
            put_bytes(&mut e, fields.as_slice());
            put_bytes(&mut e, t.extra_stsd_atoms.as_slice());
            put_bytes(&mut e, atoms.as_slice());
        },
        MuxTrackKind::Timecode { description, .. } => {
            put_bytes(&mut e, description.body.as_slice());
            put_bytes(&mut e, t.extra_stsd_atoms.as_slice());
        },
        MuxTrackKind::Text { description } => {
            put_bytes(&mut e, description.body.as_slice());
            put_bytes(&mut e, t.extra_stsd_atoms.as_slice());
        },
        MuxTrackKind::Metadata { description } => {
            let body = description.to_body_bytes();
            put_bytes(&mut e, body.as_slice());
            put_bytes(&mut e, t.extra_stsd_atoms.as_slice());
        },
        MuxTrackKind::Subtitle { description } => {
            let body = description.to_body_bytes();
            put_bytes(&mut e, body.as_slice());
            put_bytes(&mut e, t.extra_stsd_atoms.as_slice());
        },
        MuxTrackKind::SimpleText { description } => {
            let body = description.to_body_bytes();
            put_bytes(&mut e, body.as_slice());
            put_bytes(&mut e, t.extra_stsd_atoms.as_slice());
        },
        MuxTrackKind::Hint { description, .. } => {
            put_bytes(&mut e, description.as_slice());
            put_bytes(&mut e, t.extra_stsd_atoms.as_slice());
        },
    }
    e
}

/// Serialise the body of the `stsd` box.
pub fn build_stsd(t: &TrackWrite) -> (r: Vec<u8>)
    ensures
        r@ == stsd_body(*t),
{
    broadcast use empty_left;

    let reference: u16 = self_ref_index(&t.data_references);
    let format = build_entry_format(&t.kind);
    let body = build_entry_body(t);
    let entry = wrap_stsd_entry(&format, body.as_slice(), reference);
    let mut stsd: Vec<u8> = Vec::new();
    put_u32(&mut stsd, match &t.audio_description {
        AudioDescriptionWrite::IsoV1(_) => 0x0100_0000,
        _ => 0,
    });
    put_u32(&mut stsd, 1);
    put_bytes(&mut stsd, entry.as_slice());
    stsd
}

} // verus!
