//! The way of a reader through a movie: from the file to the boxes of each track.
use crate::atom::{atom, lemma_atom_len};
use crate::bytes::{cat, empty_left, empty_right, group_be_len, lemma_cat_piece, low32, u32_be};
use crate::fourcc::{
    CLIP, CO64, CSGP, CSLG, CTTS, DINF, EDTS, ELNG, FTYP, GMHD, HDLR, HMHD, ISOM, LOAD, MATT, MDAT,
    MDHD, MDIA, META, MINF, MOOV, MP42, MVHD, NMHD, PADB, QT, SAIO, SAIZ, SBGP, SDTP, SGPD, SMHD,
    STBL, STCO, STDP, STHD, STSC, STSD, STSH, STSS, STSZ, STTS, STZ2, SUBS, TAPT, TKHD, TRAK, TREF,
    TRGR, UDTA, VMHD,
};
use crate::matte::matt_body;
use crate::mux_boxes::{
    dinf_body, edts_body, elng_body, mdhd_body, media_duration, movie_duration, mvhd_body,
    reference_models, short_duration, stsd_body, tapt_body, tkhd_body, track_hdlr_body, tref_body,
};
use crate::mux_groups::{
    padb_body, saio_body, saiz_body, sdtp_body, stdp_body, stsh_body, subs_body,
};
use crate::mux_layout::{
    file_head, media_bytes, media_len, movie_resource, needs_wide, track_places,
};
use crate::mux_meta::{meta_item_models, meta_items_body, udta_body, user_data_models};
use crate::mux_tables::{
    co64_body, compact_sizes, cslg_body, ctts_body, has_offset, has_other_than_sync, stco_body,
    stsc_body, stss_body, stsz_body, stts_body, stz2_body, wanted_cslg,
};
use crate::mux_trak::{
    aux_atoms, description_atoms, group_atoms, has_user_data, mdia_body, media_header_atom,
    membership_atoms, minf_body, moov_body, place_atoms, sample_atoms, setting_atoms, stbl_body,
    time_atoms, total_duration, track_udta_body, trak_atoms, trak_body, TrackPlace,
};
use crate::mux_types::{MovMetaItem, MovMetadata, SampleGroupBoxForm, TrackWrite};
use crate::walk::{
    box_if, boxes, first_box, inside, inside_nth, lemma_boxes_1, lemma_boxes_2, lemma_boxes_4,
    lemma_boxes_7, lemma_boxes_append, lemma_boxes_found, lemma_file_found, lemma_list_found,
    lemma_passes_atom, lemma_passes_both, lemma_passes_cat, lemma_passes_nothing, lemma_three_found,
    nth_box, passes,
};
use vstd::prelude::*;

verus! {

/// A body that is there only where it is wanted.
pub open spec fn some_if(wanted: bool, body: Seq<u8>) -> Option<Seq<u8>> {
    if wanted {
        Some(body)
    } else {
        None
    }
}

/// The boxes of the sample table of a track.
#[verifier::opaque]
pub open spec fn stbl_list(t: TrackWrite, place: TrackPlace, wide: bool) -> Seq<
    ([u8; 4], Option<Seq<u8>>),
> {
    let aux = t.sample_aux is Some && place.aux_offset is Some;
    let a = t.sample_aux->Some_0;
    seq![
        (STSD, Some(stsd_body(t))),
        (STTS, Some(stts_body(t.samples@))),
        (CTTS, some_if(has_offset(t.samples@), ctts_body(t.samples@))),
        (CSLG, some_if(wanted_cslg(t) is Some, cslg_body(wanted_cslg(t)->Some_0))),
        (STSS, some_if(has_other_than_sync(t.samples@), stss_body(t.samples@))),
        (STSC, Some(stsc_body(t.samples@))),
        (STZ2, some_if(compact_sizes(t), stz2_body(t.samples@))),
        (STSZ, some_if(!compact_sizes(t), stsz_body(t.samples@))),
        (CO64, some_if(wide, co64_body(place.chunk_offset))),
        (STCO, some_if(!wide, stco_body(low32(place.chunk_offset as int)))),
        (SDTP, some_if(t.sdtp@.len() > 0, sdtp_body(t.sdtp@))),
        (STDP, some_if(t.stdp@.len() > 0, stdp_body(t.stdp@))),
        (PADB, some_if(t.padb@.len() > 0, padb_body(t.padb@))),
        (STSH, some_if(t.stsh@.len() > 0, stsh_body(t.stsh@))),
        (SUBS, some_if(t.subs@.len() > 0, subs_body(t.subs@))),
        (SAIZ, some_if(aux, saiz_body(a.aux_info_type, a.aux_info_type_parameter, a.per_sample@))),
        (
            SAIO,
            some_if(
                aux,
                saio_body(a.aux_info_type, a.aux_info_type_parameter, place.aux_offset->Some_0),
            ),
        ),
    ]
}

proof fn lemma_time_part(t: TrackWrite, place: TrackPlace, wide: bool)
    ensures
        boxes(stbl_list(t, place, wide).subrange(0, 5)) == time_atoms(t),
{
    broadcast use {empty_left, empty_right};

    reveal(stbl_list);
    let l = stbl_list(t, place, wide);
    let p = seq![l[0], l[1], l[2], l[3], l[4]];
    assert(l.subrange(0, 5) =~= p);
    reveal_with_fuel(boxes, 6);
    assert(p.drop_last() =~= seq![l[0], l[1], l[2], l[3]]);
    assert(p.drop_last().drop_last() =~= seq![l[0], l[1], l[2]]);
    assert(p.drop_last().drop_last().drop_last() =~= seq![l[0], l[1]]);
    assert(boxes(p) =~= box_if(l[0]) + box_if(l[1]) + box_if(l[2]) + box_if(l[3]) + box_if(l[4]));
}

proof fn lemma_place_part(t: TrackWrite, place: TrackPlace, wide: bool)
    ensures
        boxes(stbl_list(t, place, wide).subrange(5, 10)) == place_atoms(
            t,
            place.chunk_offset,
            wide,
        ),
{
    broadcast use {empty_left, empty_right};

    reveal(stbl_list);
    let l = stbl_list(t, place, wide);
    let p = seq![l[5], l[6], l[7], l[8], l[9]];
    assert(l.subrange(5, 10) =~= p);
    reveal_with_fuel(boxes, 6);
    assert(p.drop_last() =~= seq![l[5], l[6], l[7], l[8]]);
    assert(p.drop_last().drop_last() =~= seq![l[5], l[6], l[7]]);
    assert(p.drop_last().drop_last().drop_last() =~= seq![l[5], l[6]]);
    assert(boxes(p) =~= box_if(l[5]) + box_if(l[6]) + box_if(l[7]) + box_if(l[8]) + box_if(l[9]));
    assert(boxes(p) =~= place_atoms(t, place.chunk_offset, wide));
}

proof fn lemma_sample_part(t: TrackWrite, place: TrackPlace, wide: bool)
    ensures
        boxes(stbl_list(t, place, wide).subrange(10, 15)) == sample_atoms(t),
{
    broadcast use {empty_left, empty_right};

    reveal(stbl_list);
    let l = stbl_list(t, place, wide);
    let p = seq![l[10], l[11], l[12], l[13], l[14]];
    assert(l.subrange(10, 15) =~= p);
    reveal_with_fuel(boxes, 6);
    assert(p.drop_last() =~= seq![l[10], l[11], l[12], l[13]]);
    assert(p.drop_last().drop_last() =~= seq![l[10], l[11], l[12]]);
    assert(p.drop_last().drop_last().drop_last() =~= seq![l[10], l[11]]);
    assert(boxes(p) =~= box_if(l[10]) + box_if(l[11]) + box_if(l[12]) + box_if(l[13]) + box_if(
        l[14],
    ));
}

proof fn lemma_aux_part(t: TrackWrite, place: TrackPlace, wide: bool)
    ensures
        boxes(stbl_list(t, place, wide).subrange(15, 17)) == aux_atoms(t, place.aux_offset),
{
    broadcast use {empty_left, empty_right};

    reveal(stbl_list);
    let l = stbl_list(t, place, wide);
    let p = seq![l[15], l[16]];
    assert(l.subrange(15, 17) =~= p);
    reveal_with_fuel(boxes, 3);
    assert(p.drop_last() =~= seq![l[15]]);
    assert(boxes(p) =~= box_if(l[15]) + box_if(l[16]));
    assert(boxes(p) =~= aux_atoms(t, place.aux_offset));
}

/// The boxes of sample groups, which stand behind the others.
pub open spec fn group_boxes(t: TrackWrite) -> Seq<u8> {
    cat(t.sample_group_descriptions@.len(), description_atoms(t.sample_group_descriptions@)) + cat(
        t.sample_to_groups@.len(),
        group_atoms(t.sample_to_groups@),
    )
}

proof fn lemma_stbl_list(t: TrackWrite, place: TrackPlace, wide: bool)
    ensures
        stbl_body(t, place.chunk_offset, wide, place.aux_offset) == boxes(
            stbl_list(t, place, wide),
        ) + group_boxes(t),
{
    lemma_stbl_codes(t, place, wide, 0);
    let l = stbl_list(t, place, wide);
    let (a, b, c, d) = (
        l.subrange(0, 5),
        l.subrange(5, 10),
        l.subrange(10, 15),
        l.subrange(15, 17),
    );
    lemma_time_part(t, place, wide);
    lemma_place_part(t, place, wide);
    lemma_sample_part(t, place, wide);
    lemma_aux_part(t, place, wide);
    lemma_boxes_append(a, b);
    lemma_boxes_append(a + b, c);
    lemma_boxes_append(a + b + c, d);
    assert(a + b + c + d =~= l);
    assert(stbl_body(t, place.chunk_offset, wide, place.aux_offset) =~= boxes(l) + group_boxes(t));
}

proof fn lemma_groups_pass(t: TrackWrite, code: [u8; 4])
    requires
        group_boxes(t).len() <= 0xffff_ffff,
        code != SGPD && code != CSGP && code != SBGP,
    ensures
        passes(group_boxes(t), code),
{
    let v = t.sample_group_descriptions@;
    let w = t.sample_to_groups@;
    let f = description_atoms(v);
    let g = group_atoms(w);
    assert forall|i: int| 0 <= i < v.len() implies passes(#[trigger] f(i), code) by {
        lemma_cat_piece(v.len(), f, i);
        lemma_atom_len(SGPD, crate::mux_groups::sgpd_body(v[i]));
        lemma_passes_atom(SGPD, crate::mux_groups::sgpd_body(v[i]), code);
    }
    assert forall|i: int| 0 <= i < w.len() implies passes(#[trigger] g(i), code) by {
        lemma_cat_piece(w.len(), g, i);
        match w[i].1 {
            SampleGroupBoxForm::Compact => {
                lemma_atom_len(CSGP, crate::mux_groups::csgp_body(w[i].0));
                lemma_passes_atom(CSGP, crate::mux_groups::csgp_body(w[i].0), code);
            },
            SampleGroupBoxForm::Classic => {
                lemma_atom_len(SBGP, crate::mux_groups::sbgp_body(w[i].0));
                lemma_passes_atom(SBGP, crate::mux_groups::sbgp_body(w[i].0), code);
            },
        }
    }
    lemma_passes_cat(v.len(), f, code);
    lemma_passes_cat(w.len(), g, code);
    lemma_passes_both(cat(v.len(), f), cat(w.len(), g), code);
}

/// Numbers that tell the codes of the sample table apart.
spec fn code_number(c: [u8; 4]) -> int {
    c@[0] * 0x100_0000 + c@[1] * 0x1_0000 + c@[2] * 0x100 + c@[3]
}

#[verifier::rlimit(60)]
#[verifier::spinoff_prover]
proof fn lemma_stbl_codes(t: TrackWrite, place: TrackPlace, wide: bool, i: int)
    requires
        0 <= i < 17,
    ensures
        ({
            let l = stbl_list(t, place, wide);
            &&& l.len() == 17
            &&& forall|j: int| 0 <= j < 17 && j != i ==> (#[trigger] l[j]).0 != l[i].0
            &&& l[i].0 != SGPD && l[i].0 != CSGP && l[i].0 != SBGP
        }),
{
    reveal(stbl_list);
    let l = stbl_list(t, place, wide);
    assert forall|j: int| 0 <= j < 17 && j != i implies (#[trigger] l[j]).0 != l[i].0 by {
        if l[j].0 == l[i].0 {
            assert(code_number(l[j].0) == code_number(l[i].0));
        }
    }
}

/// Each box of the sample table is found where it is wanted, and only there.
pub proof fn lemma_stbl_found(t: TrackWrite, place: TrackPlace, wide: bool, i: int)
    requires
        stbl_body(t, place.chunk_offset, wide, place.aux_offset).len() <= 0xffff_ffff,
        0 <= i < 17,
    ensures
        ({
            let l = stbl_list(t, place, wide);
            first_box(stbl_body(t, place.chunk_offset, wide, place.aux_offset), l[i].0) == l[i].1
        }),
{
    let l = stbl_list(t, place, wide);
    lemma_stbl_list(t, place, wide);
    lemma_stbl_codes(t, place, wide, i);
    lemma_groups_pass(t, l[i].0);
    lemma_boxes_found(l, group_boxes(t), i);
}

/// What a reader finds in the sample table of a track.
pub open spec fn stbl_holds(s: Seq<u8>, t: TrackWrite, place: TrackPlace, wide: bool) -> bool {
    let aux = t.sample_aux is Some && place.aux_offset is Some;
    let a = t.sample_aux->Some_0;
    &&& first_box(s, STSD) == Some(stsd_body(t))
    &&& first_box(s, STTS) == Some(stts_body(t.samples@))
    &&& first_box(s, CTTS) == some_if(has_offset(t.samples@), ctts_body(t.samples@))
    &&& first_box(s, CSLG) == some_if(
        wanted_cslg(t) is Some,
        cslg_body(wanted_cslg(t)->Some_0),
    )
    &&& first_box(s, STSS) == some_if(has_other_than_sync(t.samples@), stss_body(t.samples@))
    &&& first_box(s, STSC) == Some(stsc_body(t.samples@))
    &&& first_box(s, STZ2) == some_if(compact_sizes(t), stz2_body(t.samples@))
    &&& first_box(s, STSZ) == some_if(!compact_sizes(t), stsz_body(t.samples@))
    &&& first_box(s, CO64) == some_if(wide, co64_body(place.chunk_offset))
    &&& first_box(s, STCO) == some_if(!wide, stco_body(low32(place.chunk_offset as int)))
    &&& first_box(s, SDTP) == some_if(t.sdtp@.len() > 0, sdtp_body(t.sdtp@))
    &&& first_box(s, STDP) == some_if(t.stdp@.len() > 0, stdp_body(t.stdp@))
    &&& first_box(s, PADB) == some_if(t.padb@.len() > 0, padb_body(t.padb@))
    &&& first_box(s, STSH) == some_if(t.stsh@.len() > 0, stsh_body(t.stsh@))
    &&& first_box(s, SUBS) == some_if(t.subs@.len() > 0, subs_body(t.subs@))
    &&& first_box(s, SAIZ) == some_if(
        aux,
        saiz_body(a.aux_info_type, a.aux_info_type_parameter, a.per_sample@),
    )
    &&& first_box(s, SAIO) == some_if(
        aux,
        saio_body(a.aux_info_type, a.aux_info_type_parameter, place.aux_offset->Some_0),
    )
}

proof fn lemma_stbl_entries(s: Seq<u8>, t: TrackWrite, place: TrackPlace, wide: bool)
    requires
        forall|i: int|
            0 <= i < 17 ==> first_box(s, (#[trigger] stbl_list(t, place, wide)[i]).0) == stbl_list(
                t,
                place,
                wide,
            )[i].1,
    ensures
        stbl_holds(s, t, place, wide),
{
    reveal(stbl_list);
    let l = stbl_list(t, place, wide);
    assert(first_box(s, l[0].0) == l[0].1);
    assert(first_box(s, l[1].0) == l[1].1);
    assert(first_box(s, l[2].0) == l[2].1);
    assert(first_box(s, l[3].0) == l[3].1);
    assert(first_box(s, l[4].0) == l[4].1);
    assert(first_box(s, l[5].0) == l[5].1);
    assert(first_box(s, l[6].0) == l[6].1);
    assert(first_box(s, l[7].0) == l[7].1);
    assert(first_box(s, l[8].0) == l[8].1);
    assert(first_box(s, l[9].0) == l[9].1);
    assert(first_box(s, l[10].0) == l[10].1);
    assert(first_box(s, l[11].0) == l[11].1);
    assert(first_box(s, l[12].0) == l[12].1);
    assert(first_box(s, l[13].0) == l[13].1);
    assert(first_box(s, l[14].0) == l[14].1);
    assert(first_box(s, l[15].0) == l[15].1);
    assert(first_box(s, l[16].0) == l[16].1);
}

/// A reader finds the boxes of the sample table.
pub proof fn lemma_stbl_holds(t: TrackWrite, place: TrackPlace, wide: bool)
    requires
        stbl_body(t, place.chunk_offset, wide, place.aux_offset).len() <= 0xffff_ffff,
    ensures
        stbl_holds(
            stbl_body(t, place.chunk_offset, wide, place.aux_offset),
            t,
            place,
            wide,
        ),
{
    let s = stbl_body(t, place.chunk_offset, wide, place.aux_offset);
    assert forall|i: int| 0 <= i < 17 implies first_box(
        s,
        (#[trigger] stbl_list(t, place, wide)[i]).0,
    ) == stbl_list(t, place, wide)[i].1 by {
        lemma_stbl_found(t, place, wide, i);
    }
    lemma_stbl_entries(s, t, place, wide);
}

proof fn lemma_list_alone(l: Seq<([u8; 4], Option<Seq<u8>>)>, i: int)
    requires
        boxes(l).len() <= 0xffff_ffff,
        0 <= i < l.len(),
        forall|j: int| 0 <= j < l.len() && j != i ==> (#[trigger] l[j]).0 != l[i].0,
    ensures
        first_box(boxes(l), l[i].0) == l[i].1,
{
    broadcast use empty_right;

    lemma_passes_nothing(l[i].0);
    lemma_boxes_found(l, Seq::empty(), i);
}

/// The boxes of a track.
#[verifier::opaque]
pub open spec fn trak_list(
    t: TrackWrite,
    track_id: u32,
    movie_ts: u32,
    place: TrackPlace,
    wide: bool,
) -> Seq<([u8; 4], Option<Seq<u8>>)> {
    seq![
        (TKHD, Some(tkhd_body(t.kind, track_id, short_duration(movie_duration(t, movie_ts))))),
        (TAPT, some_if(t.tapt is Some, tapt_body(t.tapt->Some_0))),
        (LOAD, some_if(t.load is Some, t.load->Some_0.body())),
        (CLIP, some_if(t.clipping is Some, t.clipping->Some_0.body@)),
        (MATT, some_if(t.matte is Some, matt_body(t.matte->Some_0.compressed@))),
        (EDTS, some_if(t.edits@.len() > 0, edts_body(t.edits@))),
        (TREF, some_if(t.track_references@.len() > 0, tref_body(t.track_references@))),
        (
            TRGR,
            some_if(
                t.track_groups@.len() > 0,
                cat(t.track_groups@.len(), membership_atoms(t.track_groups@)),
            ),
        ),
        (
            MDIA,
            Some(
                mdia_body(
                    t,
                    short_duration(media_duration(t)),
                    stbl_body(t, place.chunk_offset, wide, place.aux_offset),
                ),
            ),
        ),
        (UDTA, some_if(has_user_data(t), track_udta_body(t))),
        (
            META,
            some_if(
                t.apple_metadata@.len() > 0,
                meta_items_body(meta_item_models(t.apple_metadata@)),
            ),
        ),
    ]
}

proof fn lemma_setting_part(t: TrackWrite, id: u32, movie_ts: u32, place: TrackPlace, wide: bool)
    ensures
        boxes(trak_list(t, id, movie_ts, place, wide).subrange(1, 8)) == setting_atoms(t),
{
    broadcast use {empty_left, empty_right};

    reveal(trak_list);
    let l = trak_list(t, id, movie_ts, place, wide);
    let p = seq![l[1], l[2], l[3], l[4], l[5], l[6], l[7]];
    assert(l.subrange(1, 8) =~= p);
    lemma_boxes_7(l[1], l[2], l[3], l[4], l[5], l[6], l[7]);
}

#[verifier::rlimit(80)]
#[verifier::spinoff_prover]
proof fn lemma_trak_ends(t: TrackWrite, id: u32, movie_ts: u32, place: TrackPlace, wide: bool)
    ensures
        ({
            let l = trak_list(t, id, movie_ts, place, wide);
            &&& l.len() == 11
            &&& l[0].0 == TKHD
            &&& l[0].1 == Some(
                tkhd_body(t.kind, id, short_duration(movie_duration(t, movie_ts))),
            )
            &&& l[8].0 == MDIA
            &&& l[8].1 == Some(
                mdia_body(
                    t,
                    short_duration(media_duration(t)),
                    stbl_body(t, place.chunk_offset, wide, place.aux_offset),
                ),
            )
            &&& l[9].0 == UDTA
            &&& l[9].1 == some_if(has_user_data(t), track_udta_body(t))
            &&& l[10].0 == META
            &&& l[10].1 == some_if(
                t.apple_metadata@.len() > 0,
                meta_items_body(meta_item_models(t.apple_metadata@)),
            )
        }),
{
    reveal(trak_list);
}

proof fn lemma_four_parts(l: Seq<([u8; 4], Option<Seq<u8>>)>)
    requires
        l.len() == 11,
    ensures
        boxes(l) == box_if(l[0]) + boxes(l.subrange(1, 8)) + box_if(l[8]) + (box_if(l[9]) + box_if(
            l[10],
        )),
{
    let a = seq![l[0]];
    let b = l.subrange(1, 8);
    let c = seq![l[8]];
    let d = seq![l[9], l[10]];
    lemma_boxes_append(a, b);
    lemma_boxes_append(a + b, c);
    lemma_boxes_append(a + b + c, d);
    assert(a + b + c + d =~= l);
    lemma_boxes_1(l[0]);
    lemma_boxes_1(l[8]);
    lemma_boxes_2(l[9], l[10]);
}

proof fn lemma_trak_list(t: TrackWrite, id: u32, movie_ts: u32, place: TrackPlace, wide: bool)
    ensures
        trak_body(t, id, movie_ts, place, wide) == boxes(trak_list(t, id, movie_ts, place, wide)),
{
    lemma_setting_part(t, id, movie_ts, place, wide);
    lemma_trak_ends(t, id, movie_ts, place, wide);
    lemma_four_parts(trak_list(t, id, movie_ts, place, wide));
}

#[verifier::rlimit(60)]
#[verifier::spinoff_prover]
proof fn lemma_trak_codes(
    t: TrackWrite,
    id: u32,
    movie_ts: u32,
    place: TrackPlace,
    wide: bool,
    i: int,
)
    requires
        0 <= i < 11,
    ensures
        ({
            let l = trak_list(t, id, movie_ts, place, wide);
            l.len() == 11 && forall|j: int| 0 <= j < 11 && j != i ==> (#[trigger] l[j]).0 != l[i].0
        }),
{
    reveal(trak_list);
    let l = trak_list(t, id, movie_ts, place, wide);
    assert forall|j: int| 0 <= j < 11 && j != i implies (#[trigger] l[j]).0 != l[i].0 by {
        if l[j].0 == l[i].0 {
            assert(code_number(l[j].0) == code_number(l[i].0));
        }
    }
}

/// Each box of a track is found where it is wanted, and only there.
pub proof fn lemma_trak_found(
    t: TrackWrite,
    id: u32,
    movie_ts: u32,
    place: TrackPlace,
    wide: bool,
    i: int,
)
    requires
        trak_body(t, id, movie_ts, place, wide).len() <= 0xffff_ffff,
        0 <= i < 11,
    ensures
        ({
            let l = trak_list(t, id, movie_ts, place, wide);
            first_box(trak_body(t, id, movie_ts, place, wide), l[i].0) == l[i].1
        }),
{
    let l = trak_list(t, id, movie_ts, place, wide);
    lemma_trak_list(t, id, movie_ts, place, wide);
    lemma_trak_codes(t, id, movie_ts, place, wide, i);
    lemma_list_alone(l, i);
}

/// What a reader finds in the box of a track.
pub open spec fn trak_holds(
    s: Seq<u8>,
    t: TrackWrite,
    track_id: u32,
    movie_ts: u32,
    place: TrackPlace,
    wide: bool,
) -> bool {
    &&& first_box(s, TKHD) == Some(
        tkhd_body(t.kind, track_id, short_duration(movie_duration(t, movie_ts))),
    )
    &&& first_box(s, TAPT) == some_if(t.tapt is Some, tapt_body(t.tapt->Some_0))
    &&& first_box(s, LOAD) == some_if(t.load is Some, t.load->Some_0.body())
    &&& first_box(s, CLIP) == some_if(t.clipping is Some, t.clipping->Some_0.body@)
    &&& first_box(s, MATT) == some_if(t.matte is Some, matt_body(t.matte->Some_0.compressed@))
    &&& first_box(s, EDTS) == some_if(t.edits@.len() > 0, edts_body(t.edits@))
    &&& first_box(s, TREF) == some_if(
        t.track_references@.len() > 0,
        tref_body(t.track_references@),
    )
    &&& first_box(s, TRGR) == some_if(
        t.track_groups@.len() > 0,
        cat(t.track_groups@.len(), membership_atoms(t.track_groups@)),
    )
    &&& first_box(s, MDIA) == Some(
        mdia_body(
            t,
            short_duration(media_duration(t)),
            stbl_body(t, place.chunk_offset, wide, place.aux_offset),
        ),
    )
    &&& first_box(s, UDTA) == some_if(has_user_data(t), track_udta_body(t))
    &&& first_box(s, META) == some_if(
        t.apple_metadata@.len() > 0,
        meta_items_body(meta_item_models(t.apple_metadata@)),
    )
}

proof fn lemma_trak_entries(
    s: Seq<u8>,
    t: TrackWrite,
    id: u32,
    movie_ts: u32,
    place: TrackPlace,
    wide: bool,
)
    requires
        forall|i: int|
            0 <= i < 11 ==> first_box(s, (#[trigger] trak_list(t, id, movie_ts, place, wide)[i]).0)
                == trak_list(t, id, movie_ts, place, wide)[i].1,
    ensures
        trak_holds(s, t, id, movie_ts, place, wide),
{
    reveal(trak_list);
    let l = trak_list(t, id, movie_ts, place, wide);
    assert(first_box(s, l[0].0) == l[0].1);
    assert(first_box(s, l[1].0) == l[1].1);
    assert(first_box(s, l[2].0) == l[2].1);
    assert(first_box(s, l[3].0) == l[3].1);
    assert(first_box(s, l[4].0) == l[4].1);
    assert(first_box(s, l[5].0) == l[5].1);
    assert(first_box(s, l[6].0) == l[6].1);
    assert(first_box(s, l[7].0) == l[7].1);
    assert(first_box(s, l[8].0) == l[8].1);
    assert(first_box(s, l[9].0) == l[9].1);
    assert(first_box(s, l[10].0) == l[10].1);
}

/// A reader finds the boxes of a track.
pub proof fn lemma_trak_holds(
    t: TrackWrite,
    id: u32,
    movie_ts: u32,
    place: TrackPlace,
    wide: bool,
)
    requires
        trak_body(t, id, movie_ts, place, wide).len() <= 0xffff_ffff,
    ensures
        trak_holds(trak_body(t, id, movie_ts, place, wide), t, id, movie_ts, place, wide),
{
    let s = trak_body(t, id, movie_ts, place, wide);
    assert forall|i: int| 0 <= i < 11 implies first_box(
        s,
        (#[trigger] trak_list(t, id, movie_ts, place, wide)[i]).0,
    ) == trak_list(t, id, movie_ts, place, wide)[i].1 by {
        lemma_trak_found(t, id, movie_ts, place, wide, i);
    }
    lemma_trak_entries(s, t, id, movie_ts, place, wide);
}

/// The boxes of the media of a track.
pub open spec fn mdia_list(t: TrackWrite, duration: u32, stbl: Seq<u8>) -> Seq<
    ([u8; 4], Option<Seq<u8>>),
> {
    seq![
        (MDHD, Some(mdhd_body(t.media_timescale, duration, t.media_language))),
        (HDLR, Some(track_hdlr_body(t.kind))),
        (ELNG, some_if(t.extended_language is Some, elng_body(t.extended_language->Some_0@))),
        (MINF, Some(minf_body(t, stbl))),
    ]
}

proof fn lemma_mdia_list(t: TrackWrite, duration: u32, stbl: Seq<u8>)
    ensures
        mdia_body(t, duration, stbl) == boxes(mdia_list(t, duration, stbl)),
{
    broadcast use {empty_left, empty_right};

    let l = mdia_list(t, duration, stbl);
    lemma_boxes_4(l[0], l[1], l[2], l[3]);
    assert(l =~= seq![l[0], l[1], l[2], l[3]]);
}

#[verifier::rlimit(40)]
#[verifier::spinoff_prover]
proof fn lemma_mdia_codes(t: TrackWrite, duration: u32, stbl: Seq<u8>, i: int)
    requires
        0 <= i < 4,
    ensures
        ({
            let l = mdia_list(t, duration, stbl);
            l.len() == 4 && forall|j: int| 0 <= j < 4 && j != i ==> (#[trigger] l[j]).0 != l[i].0
        }),
{
    let l = mdia_list(t, duration, stbl);
    assert forall|j: int| 0 <= j < 4 && j != i implies (#[trigger] l[j]).0 != l[i].0 by {
        if l[j].0 == l[i].0 {
            assert(code_number(l[j].0) == code_number(l[i].0));
        }
    }
}

/// Each box of the media of a track is found where it is wanted, and only there.
pub proof fn lemma_mdia_found(t: TrackWrite, duration: u32, stbl: Seq<u8>, i: int)
    requires
        mdia_body(t, duration, stbl).len() <= 0xffff_ffff,
        0 <= i < 4,
    ensures
        ({
            let l = mdia_list(t, duration, stbl);
            first_box(mdia_body(t, duration, stbl), l[i].0) == l[i].1
        }),
{
    lemma_mdia_list(t, duration, stbl);
    lemma_mdia_codes(t, duration, stbl, i);
    lemma_list_alone(mdia_list(t, duration, stbl), i);
}

/// The code of the media header of a kind of track.
pub open spec fn media_header_code(kind: crate::mux_types::MuxTrackKind) -> [u8; 4] {
    match kind {
        crate::mux_types::MuxTrackKind::Video { .. } => VMHD,
        crate::mux_types::MuxTrackKind::Audio { .. } => SMHD,
        crate::mux_types::MuxTrackKind::Timecode { .. } => GMHD,
        crate::mux_types::MuxTrackKind::Text { .. } => GMHD,
        crate::mux_types::MuxTrackKind::Metadata { .. } => NMHD,
        crate::mux_types::MuxTrackKind::Subtitle { .. } => STHD,
        crate::mux_types::MuxTrackKind::SimpleText { .. } => NMHD,
        crate::mux_types::MuxTrackKind::Hint { .. } => HMHD,
    }
}

/// The media header that the kind of a track asks for, the data references and the
/// sample table are found.
pub proof fn lemma_minf_found(t: TrackWrite, stbl: Seq<u8>)
    requires
        minf_body(t, stbl).len() <= 0xffff_ffff,
    ensures
        ({
            let s = minf_body(t, stbl);
            let code = media_header_code(t.kind);
            &&& first_box(s, STBL) == Some(stbl)
            &&& first_box(s, DINF) == Some(dinf_body(reference_models(t.data_references@)))
            &&& first_box(s, code) is Some
            &&& media_header_atom(t) == atom(code, inside(s, code))
        }),
{
    let code = media_header_code(t.kind);
    let dinf = dinf_body(reference_models(t.data_references@));
    lemma_header_exists(t);
    let h = choose|h: Seq<u8>| media_header_atom(t) == #[trigger] atom(code, h);
    assert(code_number(code) != code_number(DINF));
    assert(code_number(code) != code_number(STBL));
    assert(code_number(DINF) != code_number(STBL));
    lemma_three_found(code, h, DINF, dinf, STBL, stbl);
}

proof fn lemma_header_exists(t: TrackWrite)
    ensures
        exists|h: Seq<u8>| media_header_atom(t) == #[trigger] atom(media_header_code(t.kind), h),
{
    let code = media_header_code(t.kind);
    match t.kind {
        crate::mux_types::MuxTrackKind::Video { .. } => {
            assert(media_header_atom(t) == atom(code, crate::mux_boxes::vmhd_body()));
        },
        crate::mux_types::MuxTrackKind::Audio { .. } => {
            assert(media_header_atom(t) == atom(code, crate::bytes::zeros(8)));
        },
        crate::mux_types::MuxTrackKind::Timecode { tcmi, .. } => {
            assert(media_header_atom(t) == atom(
                code,
                crate::mux_boxes::gmhd_tmcd_body(tcmi, t.gmin),
            ));
        },
        crate::mux_types::MuxTrackKind::Text { .. } => {
            assert(media_header_atom(t) == atom(
                code,
                crate::mux_boxes::gmhd_text_body(t.gmin, t.text_header_matrix),
            ));
        },
        crate::mux_types::MuxTrackKind::Hint { hmhd, .. } => {
            assert(media_header_atom(t) == atom(code, hmhd.body()));
        },
        _ => {
            assert(media_header_atom(t) == atom(code, u32_be(0)));
        },
    }
}

/// A movie as a reader holds it.
pub struct Movie {
    pub tracks: Seq<TrackWrite>,
    pub time_scale: u32,
    pub metadata: Seq<MovMetadata>,
    pub apple_metadata: Seq<MovMetaItem>,
}

/// The movie resource of a movie, and its body.
pub open spec fn resource(m: Movie) -> Seq<u8> {
    movie_resource(m.tracks, m.time_scale, m.metadata, m.apple_metadata)
}

/// The body of the `moov` box of a movie.
#[verifier::opaque]
pub open spec fn moov_of(m: Movie) -> Seq<u8> {
    moov_body(
        m.tracks,
        m.time_scale,
        m.metadata,
        m.apple_metadata,
        track_places(m.tracks),
        needs_wide(m.tracks),
    )
}

/// The file of a movie.
#[verifier::opaque]
pub open spec fn file_of(m: Movie) -> Seq<u8> {
    file_head(m.tracks) + resource(m)
}

/// The body of the `trak` box of track `i`.
#[verifier::opaque]
pub open spec fn trak_of(m: Movie, i: int) -> Seq<u8> {
    trak_body(
        m.tracks[i],
        low32(i + 1),
        m.time_scale,
        track_places(m.tracks)[i],
        needs_wide(m.tracks),
    )
}

/// The body of the `mdia` box of track `i`.
#[verifier::opaque]
pub open spec fn mdia_of(m: Movie, i: int) -> Seq<u8> {
    mdia_body(m.tracks[i], short_duration(media_duration(m.tracks[i])), stbl_of(m, i))
}

/// The body of the `stbl` box of track `i`.
#[verifier::opaque]
pub open spec fn stbl_of(m: Movie, i: int) -> Seq<u8> {
    let place = track_places(m.tracks)[i];
    stbl_body(m.tracks[i], place.chunk_offset, needs_wide(m.tracks), place.aux_offset)
}

/// The file can be addressed, and the movie resource has a length that 32 bits hold.
#[verifier::opaque]
pub open spec fn addressable(m: Movie) -> bool {
    file_head(m.tracks).len() <= 0xffff_ffff_ffff_ffff && resource(m).len() <= 0xffff_ffff
}

/// The movie resource is found behind the media.
pub proof fn lemma_moov_found(m: Movie)
    requires
        addressable(m),
    ensures
        first_box(file_of(m), MOOV) == Some(moov_of(m)),
        moov_of(m).len() <= 0xffff_ffff - 8,
        first_box(file_of(m), MDAT) == Some(media_bytes(m.tracks)),
{
    reveal(addressable);
    reveal(file_of);
    reveal(moov_of);
    let media = media_bytes(m.tracks);
    let body = QT@ + u32_be(0x200) + QT@ + ISOM@ + MP42@;
    lemma_head_len(m.tracks);
    lemma_atom_len(MOOV, moov_of(m));
    assert(code_number(FTYP) != code_number(MOOV));
    assert(code_number(FTYP) != code_number(MDAT));
    assert(code_number(MDAT) != code_number(MOOV));
    lemma_file_found(FTYP, body, media, MOOV, moov_of(m));
}

proof fn lemma_head_len(tracks: Seq<TrackWrite>)
    requires
        file_head(tracks).len() <= 0xffff_ffff_ffff_ffff,
    ensures
        media_len(tracks) == media_bytes(tracks).len(),
        16 + media_bytes(tracks).len() <= 0xffff_ffff_ffff_ffff,
        (QT@ + u32_be(0x200) + QT@ + ISOM@ + MP42@).len() == 20,
{
    broadcast use group_be_len;

    crate::mux_layout::lemma_media_start(tracks);
}

/// The track boxes are found in the order of the tracks, and the header of the movie in
/// front of them.
pub proof fn lemma_traks_found(m: Movie, i: int)
    requires
        moov_of(m).len() <= 0xffff_ffff - 8,
        0 <= i < m.tracks.len(),
    ensures
        nth_box(moov_of(m), TRAK, i as nat) == Some(trak_of(m, i)),
        trak_of(m, i).len() <= 0xffff_ffff - 8,
        first_box(moov_of(m), MVHD) == Some(
            mvhd_body(
                m.time_scale,
                short_duration(total_duration(m.tracks, m.time_scale, m.tracks.len())),
                low32((m.tracks.len() + 1) as int),
            ),
        ),
{
    reveal(moov_of);
    reveal(trak_of);
    let n = m.tracks.len();
    let f = trak_atoms(m.tracks, m.time_scale, track_places(m.tracks), needs_wide(m.tracks));
    let g = |k: int| trak_of(m, k);
    let mvhd = mvhd_body(
        m.time_scale,
        short_duration(total_duration(m.tracks, m.time_scale, n)),
        low32((n + 1) as int),
    );
    let x = crate::mux_trak::atom_if(
        m.metadata.len() > 0,
        UDTA,
        udta_body(user_data_models(m.metadata)),
    );
    let y = crate::mux_trak::atom_if(
        m.apple_metadata.len() > 0,
        META,
        meta_items_body(meta_item_models(m.apple_metadata)),
    );
    assert(code_number(MVHD) != code_number(TRAK));
    assert forall|k: int| 0 <= k < n implies #[trigger] f(k) == atom(TRAK, g(k)) by {
        assert(g(k) == trak_of(m, k));
    }
    lemma_regroup(atom(MVHD, mvhd), cat(n, f), x, y);
    lemma_list_found(MVHD, mvhd, n, f, g, TRAK, x + y, i);
}

proof fn lemma_regroup(a: Seq<u8>, b: Seq<u8>, x: Seq<u8>, y: Seq<u8>)
    ensures
        a + b + x + y == a + b + (x + y),
{
    assert(a + b + x + y =~= a + b + (x + y));
}

/// The body of the `trak` box of track `i`, as a reader finds it in a file.
pub open spec fn trak_in(file: Seq<u8>, i: int) -> Seq<u8> {
    inside_nth(inside(file, MOOV), TRAK, i)
}

/// The body of the `mdia` box of track `i`, as a reader finds it in a file.
pub open spec fn mdia_in(file: Seq<u8>, i: int) -> Seq<u8> {
    inside(trak_in(file, i), MDIA)
}

/// The body of the `stbl` box of track `i`, as a reader finds it in a file.
pub open spec fn stbl_in(file: Seq<u8>, i: int) -> Seq<u8> {
    inside(inside(mdia_in(file, i), MINF), STBL)
}

/// What a reader finds of each track in a file.
pub proof fn lemma_track_found(m: Movie, i: int)
    requires
        addressable(m),
        0 <= i < m.tracks.len(),
    ensures
        trak_in(file_of(m), i) == trak_of(m, i),
        mdia_in(file_of(m), i) == mdia_of(m, i),
        inside(mdia_of(m, i), MINF) == minf_of(m, i),
        stbl_in(file_of(m), i) == stbl_of(m, i),
        trak_of(m, i).len() <= 0xffff_ffff,
        mdia_of(m, i).len() <= 0xffff_ffff,
        minf_of(m, i).len() <= 0xffff_ffff,
        stbl_of(m, i).len() <= 0xffff_ffff,
{
    reveal(minf_of);
    reveal(trak_of);
    reveal(mdia_of);
    reveal(stbl_of);
    lemma_moov_found(m);
    lemma_traks_found(m, i);
    lemma_media_found(
        m.tracks[i],
        low32(i + 1),
        m.time_scale,
        track_places(m.tracks)[i],
        needs_wide(m.tracks),
    );
}

proof fn lemma_media_found(t: TrackWrite, id: u32, movie_ts: u32, place: TrackPlace, wide: bool)
    requires
        trak_body(t, id, movie_ts, place, wide).len() <= 0xffff_ffff,
    ensures
        ({
            let s = trak_body(t, id, movie_ts, place, wide);
            let stbl = stbl_body(t, place.chunk_offset, wide, place.aux_offset);
            let mdia = mdia_body(t, short_duration(media_duration(t)), stbl);
            let minf = minf_body(t, stbl);
            &&& inside(s, MDIA) == mdia
            &&& inside(mdia, MINF) == minf
            &&& inside(minf, STBL) == stbl
            &&& mdia.len() <= 0xffff_ffff
            &&& minf.len() <= 0xffff_ffff
            &&& stbl.len() <= 0xffff_ffff
        }),
{
    lemma_trak_holds(t, id, movie_ts, place, wide);
    lemma_inside_len(trak_body(t, id, movie_ts, place, wide), MDIA, 0);
    lemma_inner_media_found(
        t,
        short_duration(media_duration(t)),
        stbl_body(t, place.chunk_offset, wide, place.aux_offset),
    );
}

#[verifier::rlimit(80)]
#[verifier::spinoff_prover]
proof fn lemma_inner_media_found(t: TrackWrite, duration: u32, stbl: Seq<u8>)
    requires
        mdia_body(t, duration, stbl).len() <= 0xffff_ffff,
    ensures
        inside(mdia_body(t, duration, stbl), MINF) == minf_body(t, stbl),
        inside(minf_body(t, stbl), STBL) == stbl,
        minf_body(t, stbl).len() <= 0xffff_ffff,
        stbl.len() <= 0xffff_ffff,
{
    lemma_mdia_found(t, duration, stbl, 3);
    lemma_inside_len(mdia_body(t, duration, stbl), MINF, 0);
    lemma_minf_found(t, stbl);
    lemma_inside_len(minf_body(t, stbl), STBL, 0);
}

/// A box is no longer than what it stands in.
pub proof fn lemma_inside_len(s: Seq<u8>, code: [u8; 4], k: nat)
    ensures
        nth_box(s, code, k) matches Some(b) ==> b.len() <= s.len(),
    decreases s.len(),
{
    if crate::walk::has_box(s) {
        let rest = s.subrange(crate::walk::box_len(s), s.len() as int);
        lemma_inside_len(rest, code, k);
        if k > 0 {
            lemma_inside_len(rest, code, (k - 1) as nat);
        }
    }
}

/// The body of the `minf` box of track `i`.
#[verifier::opaque]
pub open spec fn minf_of(m: Movie, i: int) -> Seq<u8> {
    minf_body(m.tracks[i], stbl_of(m, i))
}

/// What a reader finds in the media of a track.
pub open spec fn mdia_holds(s: Seq<u8>, t: TrackWrite, duration: u32, minf: Seq<u8>) -> bool {
    &&& first_box(s, MDHD) == Some(mdhd_body(t.media_timescale, duration, t.media_language))
    &&& first_box(s, HDLR) == Some(track_hdlr_body(t.kind))
    &&& first_box(s, ELNG) == some_if(
        t.extended_language is Some,
        elng_body(t.extended_language->Some_0@),
    )
    &&& first_box(s, MINF) == Some(minf)
}

proof fn lemma_mdia_holds(t: TrackWrite, duration: u32, stbl: Seq<u8>)
    requires
        mdia_body(t, duration, stbl).len() <= 0xffff_ffff,
    ensures
        mdia_holds(mdia_body(t, duration, stbl), t, duration, minf_body(t, stbl)),
{
    lemma_mdia_found(t, duration, stbl, 0);
    lemma_mdia_found(t, duration, stbl, 1);
    lemma_mdia_found(t, duration, stbl, 2);
    lemma_mdia_found(t, duration, stbl, 3);
}

/// What a reader finds in the boxes of each track.
#[verifier::rlimit(40)]
pub proof fn lemma_track_boxes(m: Movie, i: int)
    requires
        addressable(m),
        0 <= i < m.tracks.len(),
    ensures
        trak_in(file_of(m), i) == trak_of(m, i),
        mdia_in(file_of(m), i) == mdia_of(m, i),
        inside(mdia_of(m, i), MINF) == minf_of(m, i),
        stbl_in(file_of(m), i) == stbl_of(m, i),
        trak_holds(
            trak_of(m, i),
            m.tracks[i],
            low32(i + 1),
            m.time_scale,
            track_places(m.tracks)[i],
            needs_wide(m.tracks),
        ),
        mdia_holds(
            mdia_of(m, i),
            m.tracks[i],
            short_duration(media_duration(m.tracks[i])),
            minf_of(m, i),
        ),
        stbl_holds(
            stbl_of(m, i),
            m.tracks[i],
            track_places(m.tracks)[i],
            needs_wide(m.tracks),
        ),
        first_box(minf_of(m, i), DINF) == Some(
            dinf_body(reference_models(m.tracks[i].data_references@)),
        ),
        first_box(minf_of(m, i), media_header_code(m.tracks[i].kind)) is Some,
        media_header_atom(m.tracks[i]) == atom(
            media_header_code(m.tracks[i].kind),
            inside(minf_of(m, i), media_header_code(m.tracks[i].kind)),
        ),
{
    lemma_track_found(m, i);
    lemma_trak_boxes(m, i);
    lemma_mdia_boxes(m, i);
    lemma_minf_boxes(m, i);
    lemma_stbl_boxes(m, i);
}

pub proof fn lemma_trak_boxes(m: Movie, i: int)
    requires
        trak_of(m, i).len() <= 0xffff_ffff,
    ensures
        trak_holds(
            trak_of(m, i),
            m.tracks[i],
            low32(i + 1),
            m.time_scale,
            track_places(m.tracks)[i],
            needs_wide(m.tracks),
        ),
{
    reveal(trak_of);
    lemma_trak_holds(
        m.tracks[i],
        low32(i + 1),
        m.time_scale,
        track_places(m.tracks)[i],
        needs_wide(m.tracks),
    );
}

pub proof fn lemma_mdia_boxes(m: Movie, i: int)
    requires
        mdia_of(m, i).len() <= 0xffff_ffff,
    ensures
        mdia_holds(
            mdia_of(m, i),
            m.tracks[i],
            short_duration(media_duration(m.tracks[i])),
            minf_of(m, i),
        ),
{
    reveal(mdia_of);
    reveal(minf_of);
    lemma_mdia_holds(
        m.tracks[i],
        short_duration(media_duration(m.tracks[i])),
        stbl_of(m, i),
    );
}

pub proof fn lemma_minf_boxes(m: Movie, i: int)
    requires
        minf_of(m, i).len() <= 0xffff_ffff,
    ensures
        first_box(minf_of(m, i), DINF) == Some(
            dinf_body(reference_models(m.tracks[i].data_references@)),
        ),
        first_box(minf_of(m, i), media_header_code(m.tracks[i].kind)) is Some,
        media_header_atom(m.tracks[i]) == atom(
            media_header_code(m.tracks[i].kind),
            inside(minf_of(m, i), media_header_code(m.tracks[i].kind)),
        ),
{
    reveal(minf_of);
    lemma_minf_found(m.tracks[i], stbl_of(m, i));
}

pub proof fn lemma_stbl_boxes(m: Movie, i: int)
    requires
        stbl_of(m, i).len() <= 0xffff_ffff,
    ensures
        stbl_holds(
            stbl_of(m, i),
            m.tracks[i],
            track_places(m.tracks)[i],
            needs_wide(m.tracks),
        ),
{
    reveal(stbl_of);
    lemma_stbl_holds(m.tracks[i], track_places(m.tracks)[i], needs_wide(m.tracks));
}

/// The header of each track is found.
pub proof fn lemma_tkhd_found(m: Movie, i: int)
    requires
        trak_of(m, i).len() <= 0xffff_ffff,
    ensures
        first_box(trak_of(m, i), TKHD) == Some(
            tkhd_body(
                m.tracks[i].kind,
                low32(i + 1),
                short_duration(movie_duration(m.tracks[i], m.time_scale)),
            ),
        ),
{
    lemma_trak_boxes(m, i);
}

} // verus!
