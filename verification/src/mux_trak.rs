//! The boxes that hold boxes: sample table, media, track and movie.
use crate::atom::{atom, push_atom};
use crate::bytes::{
    cat, empty_left, empty_right, lemma_cat_push, low32, low32_plus, put_bytes, put_u32, u32_be,
    zeros,
};
use crate::fourcc::{
    CLIP, CO64, CSGP, CSLG, CTTS, DINF, EDTS, ELNG, GMHD, HDLR, HMHD, KIND, LOAD, MATT, MDHD, MDIA,
    META, MINF, MVHD, NMHD, PADB, SAIO, SAIZ, SBGP, SDTP, SGPD, SMHD, STBL, STCO, STDP, STHD, STSC,
    STSD, STSH, STSS, STTS, SUBS, TAPT, TKHD, TRAK, TREF, TRGR, TSEL, UDTA, VMHD,
};
use crate::kind::{kind_body, KindEntry};
use crate::matte::matt_body;
use crate::mux_boxes::{
    build_dinf, build_edts, build_elng, build_gmhd_text, build_gmhd_tmcd, build_hdlr, build_mdhd,
    build_mvhd, build_smhd, build_stsd, build_tapt, build_tkhd, build_tref, build_vmhd, dinf_body,
    edts_body, elng_body, gmhd_text_body, gmhd_tmcd_body, mdhd_body, media_duration, movie_duration,
    mvhd_body, reference_models, short_duration, stsd_body, tapt_body, tkhd_body, to_short_duration,
    track_hdlr_body, track_media_duration, track_movie_duration, tref_body, vmhd_body,
};
use crate::mux_groups::{
    build_csgp, build_padb, build_saio, build_saiz, build_sbgp, build_sdtp, build_sgpd, build_stdp,
    build_stsh, build_subs, csgp_body, padb_body, saio_body, saiz_body, sbgp_body, sdtp_body,
    sgpd_body, stdp_body, stsh_body, subs_body,
};
use crate::mux_meta::{
    build_meta, build_udta, meta_item_models, meta_items_body, udta_body, user_data_models,
};
use crate::mux_tables::{
    build_co64, build_cslg, build_ctts, build_stco, build_stsc, build_stss, build_stts, co64_body,
    cslg_body, ctts_body, has_offset, has_other_than_sync, push_sample_size_atom, size_atom,
    stco_body, stsc_body, stss_body, stts_body, wanted_cslg,
};
use crate::mux_types::{
    MovMetaItem, MovMetadata, MuxTrackKind, SampleGroupBoxForm, SampleGroupDescriptionWrite,
    SampleToGroupWrite, TrackWrite,
};
use crate::parts::TrackGroupTypeEntry;
use vstd::prelude::*;

verus! {

/// An atom that stands only where it is wanted.
pub open spec fn atom_if(wanted: bool, code: [u8; 4], body: Seq<u8>) -> Seq<u8> {
    if wanted {
        atom(code, body)
    } else {
        Seq::empty()
    }
}

/// The boxes of the sample table that say what samples are and when they play.
pub open spec fn time_atoms(t: TrackWrite) -> Seq<u8> {
    atom(STSD, stsd_body(t)) + atom(STTS, stts_body(t.samples@)) + atom_if(
        has_offset(t.samples@),
        CTTS,
        ctts_body(t.samples@),
    ) + (match wanted_cslg(t) {
        Some(c) => atom(CSLG, cslg_body(c)),
        None => Seq::empty(),
    }) + atom_if(has_other_than_sync(t.samples@), STSS, stss_body(t.samples@))
}

fn build_time_atoms(t: &TrackWrite) -> (r: Vec<u8>)
    ensures
        r@ == time_atoms(*t),
{
    broadcast use {empty_left, empty_right};

    let mut out: Vec<u8> = Vec::new();
    let stsd = build_stsd(t);
    push_atom(&mut out, STSD, stsd.as_slice());
    let stts = build_stts(t);
    push_atom(&mut out, STTS, stts.as_slice());
    if let Some(ctts) = build_ctts(t) {
        push_atom(&mut out, CTTS, ctts.as_slice());
    }
    if let Some(cslg) = build_cslg(t) {
        push_atom(&mut out, CSLG, cslg.as_slice());
    }
    if let Some(stss) = build_stss(t) {
        push_atom(&mut out, STSS, stss.as_slice());
    }
    out
}

/// The box that says where the only chunk starts, in 64 bits where `wide`.
pub open spec fn chunk_atom(chunk_offset: u64, wide: bool) -> Seq<u8> {
    if wide {
        atom(CO64, co64_body(chunk_offset))
    } else {
        atom(STCO, stco_body(low32(chunk_offset as int)))
    }
}

/// The boxes of the sample table that say where samples are.
pub open spec fn place_atoms(t: TrackWrite, chunk_offset: u64, wide: bool) -> Seq<u8> {
    atom(STSC, stsc_body(t.samples@)) + size_atom(t) + chunk_atom(chunk_offset, wide)
}

fn build_place_atoms(t: &TrackWrite, chunk_offset: u64, wide: bool) -> (r: Vec<u8>)
    requires
        t.samples@.len() > 0,
    ensures
        r@ == place_atoms(*t, chunk_offset, wide),
{
    broadcast use empty_left;

    let mut out: Vec<u8> = Vec::new();
    let stsc = build_stsc(t);
    push_atom(&mut out, STSC, stsc.as_slice());
    push_sample_size_atom(&mut out, t);
    if wide {
        let co64 = build_co64(chunk_offset);
        push_atom(&mut out, CO64, co64.as_slice());
    } else {
        let stco = build_stco((chunk_offset % 0x1_0000_0000) as u32);
        push_atom(&mut out, STCO, stco.as_slice());
    }
    out
}

/// The boxes of the sample table that tell more of single samples.
pub open spec fn sample_atoms(t: TrackWrite) -> Seq<u8> {
    atom_if(t.sdtp@.len() > 0, SDTP, sdtp_body(t.sdtp@)) + atom_if(
        t.stdp@.len() > 0,
        STDP,
        stdp_body(t.stdp@),
    ) + atom_if(t.padb@.len() > 0, PADB, padb_body(t.padb@)) + atom_if(
        t.stsh@.len() > 0,
        STSH,
        stsh_body(t.stsh@),
    ) + atom_if(t.subs@.len() > 0, SUBS, subs_body(t.subs@))
}

fn build_sample_atoms(t: &TrackWrite) -> (r: Vec<u8>)
    ensures
        r@ == sample_atoms(*t),
{
    broadcast use {empty_left, empty_right};

    let mut out: Vec<u8> = Vec::new();
    if t.sdtp.len() > 0 {
        let body = build_sdtp(&t.sdtp);
        push_atom(&mut out, SDTP, body.as_slice());
    }
    if t.stdp.len() > 0 {
        let body = build_stdp(&t.stdp);
        push_atom(&mut out, STDP, body.as_slice());
    }
    if t.padb.len() > 0 {
        let body = build_padb(&t.padb);
        push_atom(&mut out, PADB, body.as_slice());
    }
    if t.stsh.len() > 0 {
        let body = build_stsh(&t.stsh);
        push_atom(&mut out, STSH, body.as_slice());
    }
    if t.subs.len() > 0 {
        let body = build_subs(&t.subs);
        push_atom(&mut out, SUBS, body.as_slice());
    }
    out
}

/// The two boxes of auxiliary information, where a track has it and its place
/// is known.
pub open spec fn aux_atoms(t: TrackWrite, aux_offset: Option<u64>) -> Seq<u8> {
    if let (Some(a), Some(off)) = (t.sample_aux, aux_offset) {
        atom(SAIZ, saiz_body(a.aux_info_type, a.aux_info_type_parameter, a.per_sample@)) + atom(
            SAIO,
            saio_body(a.aux_info_type, a.aux_info_type_parameter, off),
        )
    } else {
        Seq::empty()
    }
}

fn build_aux_atoms(t: &TrackWrite, aux_offset: Option<u64>) -> (r: Vec<u8>)
    ensures
        r@ == aux_atoms(*t, aux_offset),
{
    broadcast use empty_left;

    let mut out: Vec<u8> = Vec::new();
    if let Some(a) = &t.sample_aux {
        if let Some(off) = aux_offset {
            let saiz = build_saiz(a);
            push_atom(&mut out, SAIZ, saiz.as_slice());
            let saio = build_saio(a, off);
            push_atom(&mut out, SAIO, saio.as_slice());
        }
    }
    out
}

/// The boxes that describe sample groups.
pub open spec fn description_atoms(v: Seq<SampleGroupDescriptionWrite>) -> spec_fn(int) -> Seq<u8> {
    |i: int| atom(SGPD, sgpd_body(v[i]))
}

/// The boxes that sort samples into groups.
pub open spec fn group_atoms(v: Seq<(SampleToGroupWrite, SampleGroupBoxForm)>) -> spec_fn(
    int,
) -> Seq<u8> {
    |i: int|
        match v[i].1 {
            SampleGroupBoxForm::Compact => atom(CSGP, csgp_body(v[i].0)),
            SampleGroupBoxForm::Classic => atom(SBGP, sbgp_body(v[i].0)),
        }
}

fn build_descriptions(v: &Vec<SampleGroupDescriptionWrite>) -> (r: Vec<u8>)
    ensures
        r@ == cat(v@.len(), description_atoms(v@)),
{
    let ghost f = description_atoms(v@);
    let mut out: Vec<u8> = Vec::new();
    for i in 0..v.len()
        invariant
            f == description_atoms(v@),
            out@ == cat(i as nat, f),
    {
        let body = build_sgpd(&v[i]);
        push_atom(&mut out, SGPD, body.as_slice());
    }
    out
}

fn build_groups(v: &Vec<(SampleToGroupWrite, SampleGroupBoxForm)>) -> (r: Vec<u8>)
    ensures
        r@ == cat(v@.len(), group_atoms(v@)),
{
    let ghost f = group_atoms(v@);
    let mut out: Vec<u8> = Vec::new();
    for i in 0..v.len()
        invariant
            f == group_atoms(v@),
            out@ == cat(i as nat, f),
    {
        let pair = &v[i];
        match pair.1 {
            SampleGroupBoxForm::Compact => {
                let body = build_csgp(&pair.0);
                push_atom(&mut out, CSGP, body.as_slice());
            },
            SampleGroupBoxForm::Classic => {
                let body = build_sbgp(&pair.0);
                push_atom(&mut out, SBGP, body.as_slice());
            },
        }
    }
    out
}

/// The body of the `stbl` box of a track whose only chunk starts at
/// `chunk_offset`, in 64 bits where `wide`, and whose auxiliary information
/// starts at `aux_offset`.
pub open spec fn stbl_body(
    t: TrackWrite,
    chunk_offset: u64,
    wide: bool,
    aux_offset: Option<u64>,
) -> Seq<u8> {
    time_atoms(t) + place_atoms(t, chunk_offset, wide) + sample_atoms(t) + aux_atoms(t, aux_offset)
        + cat(
        t.sample_group_descriptions@.len(),
        description_atoms(t.sample_group_descriptions@),
    ) + cat(t.sample_to_groups@.len(), group_atoms(t.sample_to_groups@))
}

/// Serialise the body of the `stbl` box.
pub fn build_stbl(
    t: &TrackWrite,
    chunk_offset: u64,
    need_co64: bool,
    aux_offset: Option<u64>,
) -> (r: Vec<u8>)
    requires
        t.samples@.len() > 0,
    ensures
        r@ == stbl_body(*t, chunk_offset, need_co64, aux_offset),
{
    let mut stbl = build_time_atoms(t);
    let place = build_place_atoms(t, chunk_offset, need_co64);
    put_bytes(&mut stbl, place.as_slice());
    let sample = build_sample_atoms(t);
    put_bytes(&mut stbl, sample.as_slice());
    let aux = build_aux_atoms(t, aux_offset);
    put_bytes(&mut stbl, aux.as_slice());
    let descriptions = build_descriptions(&t.sample_group_descriptions);
    put_bytes(&mut stbl, descriptions.as_slice());
    let groups = build_groups(&t.sample_to_groups);
    put_bytes(&mut stbl, groups.as_slice());
    stbl
}

/// The media header of a track: the box that its kind asks for.
pub open spec fn media_header_atom(t: TrackWrite) -> Seq<u8> {
    match t.kind {
        MuxTrackKind::Video { .. } => atom(VMHD, vmhd_body()),
        MuxTrackKind::Audio { .. } => atom(SMHD, zeros(8)),
        MuxTrackKind::Timecode { tcmi, .. } => atom(GMHD, gmhd_tmcd_body(tcmi, t.gmin)),
        MuxTrackKind::Text { .. } => atom(GMHD, gmhd_text_body(t.gmin, t.text_header_matrix)),
        MuxTrackKind::Metadata { .. } => atom(NMHD, u32_be(0)),
        MuxTrackKind::Subtitle { .. } => atom(STHD, u32_be(0)),
        MuxTrackKind::SimpleText { .. } => atom(NMHD, u32_be(0)),
        MuxTrackKind::Hint { hmhd, .. } => atom(HMHD, hmhd.body()),
    }
}

fn build_media_header(t: &TrackWrite) -> (r: Vec<u8>)
    ensures
        r@ == media_header_atom(*t),
{
    broadcast use empty_left;

    let mut out: Vec<u8> = Vec::new();
    let mut empty: Vec<u8> = Vec::new();
    put_u32(&mut empty, 0);
    match &t.kind {
        MuxTrackKind::Video { .. } => {
            let body = build_vmhd();
            push_atom(&mut out, VMHD, body.as_slice());
        },
        MuxTrackKind::Audio { .. } => {
            let body = build_smhd();
            push_atom(&mut out, SMHD, body.as_slice());
        },
        MuxTrackKind::Timecode { tcmi, .. } => {
            let body = build_gmhd_tmcd(tcmi, t.gmin);
            push_atom(&mut out, GMHD, body.as_slice());
        },
        MuxTrackKind::Text { .. } => {
            let body = build_gmhd_text(t.gmin, t.text_header_matrix);
            push_atom(&mut out, GMHD, body.as_slice());
        },
        MuxTrackKind::Metadata { .. } => push_atom(&mut out, NMHD, empty.as_slice()),
        MuxTrackKind::Subtitle { .. } => push_atom(&mut out, STHD, empty.as_slice()),
        MuxTrackKind::SimpleText { .. } => push_atom(&mut out, NMHD, empty.as_slice()),
        MuxTrackKind::Hint { hmhd, .. } => {
            let body = hmhd.to_body_bytes();
            push_atom(&mut out, HMHD, body.as_slice());
        },
    }
    out
}

/// The body of the `minf` box around a sample table.
pub open spec fn minf_body(t: TrackWrite, stbl: Seq<u8>) -> Seq<u8> {
    media_header_atom(t) + atom(DINF, dinf_body(reference_models(t.data_references@))) + atom(
        STBL,
        stbl,
    )
}

/// Serialise the body of the `minf` box around a sample table.
pub fn build_minf(t: &TrackWrite, stbl: &[u8]) -> (r: Vec<u8>)
    ensures
        r@ == minf_body(*t, stbl@),
{
    let mut minf = build_media_header(t);
    let dinf = build_dinf(&t.data_references);
    push_atom(&mut minf, DINF, dinf.as_slice());
    push_atom(&mut minf, STBL, stbl);
    minf
}

/// The body of the `mdia` box around a sample table.
pub open spec fn mdia_body(t: TrackWrite, duration: u32, stbl: Seq<u8>) -> Seq<u8> {
    atom(MDHD, mdhd_body(t.media_timescale, duration, t.media_language)) + atom(
        HDLR,
        track_hdlr_body(t.kind),
    ) + (match t.extended_language {
        Some(tag) => atom(ELNG, elng_body(tag@)),
        None => Seq::empty(),
    }) + atom(MINF, minf_body(t, stbl))
}

/// Serialise the body of the `mdia` box around a sample table.
pub fn build_mdia(t: &TrackWrite, duration: u32, stbl: &[u8]) -> (r: Vec<u8>)
    ensures
        r@ == mdia_body(*t, duration, stbl@),
{
    broadcast use {empty_left, empty_right};

    let mut mdia: Vec<u8> = Vec::new();
    let mdhd = build_mdhd(t.media_timescale, duration, t.media_language);
    push_atom(&mut mdia, MDHD, mdhd.as_slice());
    let hdlr = build_hdlr(&t.kind);
    push_atom(&mut mdia, HDLR, hdlr.as_slice());
    if let Some(tag) = &t.extended_language {
        let elng = build_elng(tag.as_str());
        push_atom(&mut mdia, ELNG, elng.as_slice());
    }
    let minf = build_minf(t, stbl);
    push_atom(&mut mdia, MINF, minf.as_slice());
    mdia
}

/// The boxes of memberships in track groups.
pub open spec fn membership_atoms(v: Seq<TrackGroupTypeEntry>) -> spec_fn(int) -> Seq<u8> {
    |i: int| v[i].framed()
}

/// The boxes between the header of a track and its media.
pub open spec fn setting_atoms(t: TrackWrite) -> Seq<u8> {
    (match t.tapt {
        Some(x) => atom(TAPT, tapt_body(x)),
        None => Seq::empty(),
    }) + (match t.load {
        Some(x) => atom(LOAD, x.body()),
        None => Seq::empty(),
    }) + (match t.clipping {
        Some(x) => atom(CLIP, x.body@),
        None => Seq::empty(),
    }) + (match t.matte {
        Some(x) => atom(MATT, matt_body(x.compressed@)),
        None => Seq::empty(),
    }) + atom_if(t.edits@.len() > 0, EDTS, edts_body(t.edits@)) + atom_if(
        t.track_references@.len() > 0,
        TREF,
        tref_body(t.track_references@),
    ) + atom_if(
        t.track_groups@.len() > 0,
        TRGR,
        cat(t.track_groups@.len(), membership_atoms(t.track_groups@)),
    )
}

fn build_memberships(v: &Vec<TrackGroupTypeEntry>) -> (r: Vec<u8>)
    ensures
        r@ == cat(v@.len(), membership_atoms(v@)),
{
    let ghost f = membership_atoms(v@);
    let mut out: Vec<u8> = Vec::new();
    for i in 0..v.len()
        invariant
            f == membership_atoms(v@),
            out@ == cat(i as nat, f),
    {
        let framed = v[i].to_framed_atom();
        put_bytes(&mut out, framed.as_slice());
    }
    out
}

fn build_settings(t: &TrackWrite) -> (r: Vec<u8>)
    ensures
        r@ == setting_atoms(*t),
{
    broadcast use {empty_left, empty_right};

    let mut out: Vec<u8> = Vec::new();
    if let Some(tapt) = &t.tapt {
        let body = build_tapt(tapt);
        push_atom(&mut out, TAPT, body.as_slice());
    }
    if let Some(load) = &t.load {
        let body = load.to_body_bytes();
        push_atom(&mut out, LOAD, body.as_slice());
    }
    if let Some(clipping) = &t.clipping {
        push_atom(&mut out, CLIP, clipping.body.as_slice());
    }
    if let Some(matte) = &t.matte {
        let body = matte.to_body_bytes();
        push_atom(&mut out, MATT, body.as_slice());
    }
    if t.edits.len() > 0 {
        let body = build_edts(t.edits.as_slice());
        push_atom(&mut out, EDTS, body.as_slice());
    }
    if t.track_references.len() > 0 {
        let body = build_tref(&t.track_references);
        push_atom(&mut out, TREF, body.as_slice());
    }
    if t.track_groups.len() > 0 {
        let body = build_memberships(&t.track_groups);
        push_atom(&mut out, TRGR, body.as_slice());
    }
    out
}

/// The boxes of the kinds of a track.
pub open spec fn kind_atoms(v: Seq<KindEntry>) -> spec_fn(int) -> Seq<u8> {
    |i: int| atom(KIND, kind_body(v[i]@))
}

/// The body of the `udta` box of a track.
pub open spec fn track_udta_body(t: TrackWrite) -> Seq<u8> {
    udta_body(user_data_models(t.metadata@)) + cat(
        t.track_kinds@.len(),
        kind_atoms(t.track_kinds@),
    ) + (match t.track_selection {
        Some(x) => atom(TSEL, x.body@),
        None => Seq::empty(),
    })
}

/// A track has something to say in its `udta` box.
pub open spec fn has_user_data(t: TrackWrite) -> bool {
    t.metadata@.len() > 0 || t.track_kinds@.len() > 0 || t.track_selection is Some
}

/// The boxes behind the media of a track.
pub open spec fn note_atoms(t: TrackWrite) -> Seq<u8> {
    atom_if(has_user_data(t), UDTA, track_udta_body(t)) + atom_if(
        t.apple_metadata@.len() > 0,
        META,
        meta_items_body(meta_item_models(t.apple_metadata@)),
    )
}

fn build_track_udta(t: &TrackWrite) -> (r: Vec<u8>)
    ensures
        r@ == track_udta_body(*t),
{
    broadcast use empty_right;

    let mut out = build_udta(&t.metadata);
    let ghost before = out@;
    let ghost f = kind_atoms(t.track_kinds@);
    assert(out@ =~= before + cat(0, f));
    for i in 0..t.track_kinds.len()
        invariant
            f == kind_atoms(t.track_kinds@),
            out@ == before + cat(i as nat, f),
    {
        let body = t.track_kinds[i].to_body_bytes();
        push_atom(&mut out, KIND, body.as_slice());
        proof {
            lemma_cat_push(before, i as nat, f);
        }
    }
    if let Some(sel) = &t.track_selection {
        push_atom(&mut out, TSEL, sel.body.as_slice());
    }
    out
}

fn build_notes(t: &TrackWrite) -> (r: Vec<u8>)
    ensures
        r@ == note_atoms(*t),
{
    broadcast use {empty_left, empty_right};

    let mut out: Vec<u8> = Vec::new();
    if t.metadata.len() > 0 || t.track_kinds.len() > 0 || t.track_selection.is_some() {
        let udta = build_track_udta(t);
        push_atom(&mut out, UDTA, udta.as_slice());
    }
    if t.apple_metadata.len() > 0 {
        let meta = build_meta(&t.apple_metadata);
        push_atom(&mut out, META, meta.as_slice());
    }
    out
}

/// Where the media of a track stand in the file.
pub struct TrackPlace {
    /// Where the samples start.
    pub chunk_offset: u64,
    /// Where the auxiliary information starts, if there is any.
    pub aux_offset: Option<u64>,
}

/// The body of the `trak` box.
pub open spec fn trak_body(
    t: TrackWrite,
    track_id: u32,
    movie_ts: u32,
    place: TrackPlace,
    wide: bool,
) -> Seq<u8> {
    atom(TKHD, tkhd_body(t.kind, track_id, short_duration(movie_duration(t, movie_ts))))
        + setting_atoms(t) + atom(
        MDIA,
        mdia_body(
            t,
            short_duration(media_duration(t)),
            stbl_body(t, place.chunk_offset, wide, place.aux_offset),
        ),
    ) + note_atoms(t)
}

/// Serialise the body of the `trak` box.
pub fn build_trak(
    t: &TrackWrite,
    track_id: u32,
    movie_ts: u32,
    place: &TrackPlace,
    need_co64: bool,
) -> (r: Vec<u8>)
    requires
        t.samples@.len() > 0,
    ensures
        r@ == trak_body(*t, track_id, movie_ts, *place, need_co64),
{
    broadcast use empty_left;

    let mut trak: Vec<u8> = Vec::new();
    let duration: u32 = to_short_duration(track_movie_duration(t, movie_ts));
    let tkhd = build_tkhd(&t.kind, track_id, duration);
    push_atom(&mut trak, TKHD, tkhd.as_slice());
    let settings = build_settings(t);
    put_bytes(&mut trak, settings.as_slice());
    let stbl = build_stbl(t, place.chunk_offset, need_co64, place.aux_offset);
    let media: u32 = to_short_duration(track_media_duration(t));
    let mdia = build_mdia(t, media, stbl.as_slice());
    push_atom(&mut trak, MDIA, mdia.as_slice());
    let notes = build_notes(t);
    put_bytes(&mut trak, notes.as_slice());
    trak
}

/// The longest of the first `n` tracks, in units of the movie.
pub open spec fn total_duration(tracks: Seq<TrackWrite>, movie_ts: u32, n: nat) -> u64
    decreases n,
{
    if n == 0 {
        0
    } else {
        let before = total_duration(tracks, movie_ts, (n - 1) as nat);
        let d = movie_duration(tracks[n - 1], movie_ts);
        if d > before {
            d
        } else {
            before
        }
    }
}

/// The duration of the movie: that of its longest track.
pub fn total_duration_in_movie_ts(tracks: &Vec<TrackWrite>, movie_ts: u32) -> (r: u64)
    ensures
        r == total_duration(tracks@, movie_ts, tracks@.len()),
{
    let mut max: u64 = 0;
    for i in 0..tracks.len()
        invariant
            max == total_duration(tracks@, movie_ts, i as nat),
    {
        let d: u64 = track_movie_duration(&tracks[i], movie_ts);
        if d > max {
            max = d;
        }
    }
    max
}

/// No track is longer than the movie, and one is as long.
pub proof fn law_movie_lasts_as_long_as_its_longest_track(
    tracks: Seq<TrackWrite>,
    movie_ts: u32,
    n: nat,
)
    requires
        0 < n <= tracks.len(),
    ensures
        forall|i: int|
            0 <= i < n ==> movie_duration(#[trigger] tracks[i], movie_ts) <= total_duration(
                tracks,
                movie_ts,
                n,
            ),
        exists|i: int|
            0 <= i < n && movie_duration(#[trigger] tracks[i], movie_ts) == total_duration(
                tracks,
                movie_ts,
                n,
            ),
    decreases n,
{
    let last = n - 1;
    if n > 1 {
        let m = (n - 1) as nat;
        law_movie_lasts_as_long_as_its_longest_track(tracks, movie_ts, m);
        let w = choose|i: int|
            0 <= i < m && movie_duration(#[trigger] tracks[i], movie_ts) == total_duration(
                tracks,
                movie_ts,
                m,
            );
        if total_duration(tracks, movie_ts, n) == total_duration(tracks, movie_ts, m) {
            assert(movie_duration(tracks[w], movie_ts) == total_duration(tracks, movie_ts, n));
        } else {
            assert(movie_duration(tracks[last], movie_ts) == total_duration(tracks, movie_ts, n));
        }
    } else {
        assert(total_duration(tracks, movie_ts, 0) == 0);
        assert(movie_duration(tracks[last], movie_ts) == total_duration(tracks, movie_ts, n));
    }
}

/// The boxes of tracks, numbered from 1.
pub open spec fn trak_atoms(
    tracks: Seq<TrackWrite>,
    movie_ts: u32,
    places: Seq<TrackPlace>,
    wide: bool,
) -> spec_fn(int) -> Seq<u8> {
    |i: int| atom(TRAK, trak_body(tracks[i], low32(i + 1), movie_ts, places[i], wide))
}

/// The body of the `moov` box.
pub open spec fn moov_body(
    tracks: Seq<TrackWrite>,
    movie_ts: u32,
    metadata: Seq<MovMetadata>,
    apple_metadata: Seq<MovMetaItem>,
    places: Seq<TrackPlace>,
    wide: bool,
) -> Seq<u8> {
    atom(
        MVHD,
        mvhd_body(
            movie_ts,
            short_duration(total_duration(tracks, movie_ts, tracks.len())),
            low32((tracks.len() + 1) as int),
        ),
    ) + cat(tracks.len(), trak_atoms(tracks, movie_ts, places, wide)) + atom_if(
        metadata.len() > 0,
        UDTA,
        udta_body(user_data_models(metadata)),
    ) + atom_if(
        apple_metadata.len() > 0,
        META,
        meta_items_body(meta_item_models(apple_metadata)),
    )
}

/// Serialise the body of the `moov` box.
pub fn build_moov(
    tracks: &Vec<TrackWrite>,
    movie_ts: u32,
    metadata: &Vec<MovMetadata>,
    apple_metadata: &Vec<MovMetaItem>,
    places: &Vec<TrackPlace>,
    need_co64: bool,
) -> (r: Vec<u8>)
    requires
        places@.len() == tracks@.len(),
        forall|i: int| 0 <= i < tracks@.len() ==> (#[trigger] tracks@[i]).samples@.len() > 0,
    ensures
        r@ == moov_body(tracks@, movie_ts, metadata@, apple_metadata@, places@, need_co64),
{
    broadcast use {empty_left, empty_right};

    let mut moov: Vec<u8> = Vec::new();
    let duration: u32 = to_short_duration(total_duration_in_movie_ts(tracks, movie_ts));
    let mvhd = build_mvhd(movie_ts, duration, low32_plus(tracks.len(), 1));
    push_atom(&mut moov, MVHD, mvhd.as_slice());
    let ghost before = moov@;
    let ghost f = trak_atoms(tracks@, movie_ts, places@, need_co64);
    assert(moov@ =~= before + cat(0, f));
    for i in 0..tracks.len()
        invariant
            places@.len() == tracks@.len(),
            forall|k: int| 0 <= k < tracks@.len() ==> (#[trigger] tracks@[k]).samples@.len() > 0,
            f == trak_atoms(tracks@, movie_ts, places@, need_co64),
            moov@ == before + cat(i as nat, f),
    {
        let trak = build_trak(&tracks[i], low32_plus(i, 1), movie_ts, &places[i], need_co64);
        push_atom(&mut moov, TRAK, trak.as_slice());
        proof {
            lemma_cat_push(before, i as nat, f);
        }
    }
    if metadata.len() > 0 {
        let udta = build_udta(metadata);
        push_atom(&mut moov, UDTA, udta.as_slice());
    }
    if apple_metadata.len() > 0 {
        let meta = build_meta(apple_metadata);
        push_atom(&mut moov, META, meta.as_slice());
    }
    moov
}

} // verus!
