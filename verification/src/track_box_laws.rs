//! What a reader finds in the boxes that a track may have, in a written file.
use crate::atom::{atom, lemma_atom_len};
use crate::bytes::{
    cat, code_at, group_be_len, lemma_cat_len, lemma_cat_piece, lemma_u32_at, tail, u32_at, u32_be,
};
use crate::entry_layout_laws::{
    entry_of, law_sample_description_is_framed, law_sound_entry_says_the_sound,
    law_visual_entry_says_the_picture, sound_of, visual_of,
};
use crate::fourcc::{
    CLEF, CLIP, DINF, DREF, EDTS, ELST, ENOF, LOAD, MINF, PROF, SAIO, SAIZ, STSD, TAPT, TREF, URL,
    URN,
};
use crate::group_laws::{aux_offset_at, aux_size, law_saio_says_the_offset, law_saiz_says_the_sizes};
use crate::layout_laws::{law_aperture_layout, law_load_layout};
use crate::movie_walk::{
    addressable, file_of, lemma_inside_len, lemma_track_boxes, lemma_track_found, mdia_in, minf_of,
    resource, stbl_in, stbl_of, trak_in, trak_of, Movie,
};
use crate::mux_boxes::{
    aperture_atom, data_reference_atom, data_reference_atoms, dinf_body, edts_body, elst_body,
    entry_body, reference_models, stsd_body, tapt_body, tref_atoms, tref_body, written_references,
};
use crate::mux_layout::{blob_rows, law_aux_stands_where_the_tables_say, track_places};
use crate::mux_tables::number_rows;
use crate::mux_types::{DataReferenceModel, TrackReference};
use crate::sample_entry::ended_text;
use crate::table_laws::{edit_at, law_elst_says_the_edits, lemma_row_at};
use crate::walk::{
    box_len, boxes, first_box, has_box, head_len, inside, lemma_atom_is_one, lemma_boxes_3,
    lemma_boxes_found, lemma_found_alone, lemma_front, lemma_passes_nothing,
};
use vstd::prelude::*;

verus! {

/// The code and the body of box number `k`, counted from 0.
pub open spec fn box_at(s: Seq<u8>, k: nat) -> Option<([u8; 4], Seq<u8>)>
    decreases s.len(),
{
    if !has_box(s) {
        None
    } else if k == 0 {
        Some((code_at(s, 4), s.subrange(head_len(s), box_len(s))))
    } else {
        box_at(s.subrange(box_len(s), s.len() as int), (k - 1) as nat)
    }
}

proof fn lemma_beyond(
    n: nat,
    f: spec_fn(int) -> Seq<u8>,
    c: spec_fn(int) -> [u8; 4],
    b: spec_fn(int) -> Seq<u8>,
    rest: Seq<u8>,
    k: nat,
)
    requires
        forall|i: int| 0 <= i < n ==> #[trigger] f(i) == atom(c(i), b(i)),
        forall|i: int| 0 <= i < n ==> (#[trigger] f(i)).len() <= 0xffff_ffff,
    ensures
        box_at(cat(n, f) + rest, n + k) == box_at(rest, k),
    decreases n,
{
    if n == 0 {
        assert(cat(n, f) + rest =~= rest);
    } else {
        let m = (n - 1) as nat;
        let more = f(n - 1) + rest;
        assert(cat(n, f) + rest =~= cat(m, f) + more);
        lemma_beyond(m, f, c, b, more, k + 1);
        lemma_atom_len(c(n - 1), b(n - 1));
        lemma_front(c(n - 1), b(n - 1), rest);
    }
}

/// Boxes that were written one behind the other are found in that order.
pub proof fn lemma_boxes_in_order(
    n: nat,
    f: spec_fn(int) -> Seq<u8>,
    c: spec_fn(int) -> [u8; 4],
    b: spec_fn(int) -> Seq<u8>,
    rest: Seq<u8>,
    k: int,
)
    requires
        forall|i: int| 0 <= i < n ==> #[trigger] f(i) == atom(c(i), b(i)),
        forall|i: int| 0 <= i < n ==> (#[trigger] f(i)).len() <= 0xffff_ffff,
        0 <= k < n,
    ensures
        box_at(cat(n, f) + rest, k as nat) == Some((c(k), b(k))),
    decreases n,
{
    let m = (n - 1) as nat;
    let more = f(n - 1) + rest;
    assert(cat(n, f) + rest =~= cat(m, f) + more);
    if k == m {
        lemma_beyond(m, f, c, b, more, 0);
        lemma_atom_len(c(k), b(k));
        lemma_front(c(k), b(k), rest);
    } else {
        lemma_boxes_in_order(m, f, c, b, more, k);
    }
}

pub proof fn lemma_pieces_are_short(n: nat, f: spec_fn(int) -> Seq<u8>)
    ensures
        forall|i: int| 0 <= i < n ==> (#[trigger] f(i)).len() <= cat(n, f).len(),
{
    assert forall|i: int| 0 <= i < n implies (#[trigger] f(i)).len() <= cat(n, f).len() by {
        lemma_cat_piece(n, f, i);
    }
}

proof fn lemma_numbers(v: Seq<u32>, j: int)
    requires
        0 <= j < v.len(),
    ensures
        cat(v.len(), number_rows(v)).len() == 4 * v.len(),
        u32_at(cat(v.len(), number_rows(v)), 4 * j) == v[j],
{
    broadcast use group_be_len;

    let f = number_rows(v);
    let s = cat(v.len(), f);
    lemma_cat_len(v.len(), f, 4);
    assert(s.subrange(0, s.len() as int) =~= s);
    lemma_row_at(s, 0, v.len(), f, 4, j);
    lemma_u32_at(s, 4 * j, v[j]);
}

proof fn lemma_tref(v: Seq<TrackReference>, k: int)
    requires
        tref_body(v).len() <= 0xffff_ffff,
        0 <= k < v.len(),
    ensures
        box_at(tref_body(v), k as nat) == Some(
            (v[k].reference_type, cat(v[k].track_ids@.len(), number_rows(v[k].track_ids@))),
        ),
{
    let f = tref_atoms(v);
    let c = |i: int| v[i].reference_type;
    let b = |i: int| cat(v[i].track_ids@.len(), number_rows(v[i].track_ids@));
    lemma_pieces_are_short(v.len(), f);
    lemma_boxes_in_order(v.len(), f, c, b, Seq::empty(), k);
    assert(tref_body(v) + Seq::<u8>::empty() =~= tref_body(v));
}

/// A reader finds every reference of a track to others in a written file, in the order in
/// which they were asked for: the code of a reference, and the numbers of the tracks.
pub proof fn law_track_references_are_found_in_the_file(m: Movie, i: int, k: int, j: int)
    requires
        addressable(m),
        0 <= i < m.tracks.len(),
        0 <= k < m.tracks[i].track_references@.len(),
        0 <= j < m.tracks[i].track_references@[k].track_ids@.len(),
    ensures
        ({
            let r = m.tracks[i].track_references@[k];
            let found = box_at(inside(trak_in(file_of(m), i), TREF), k as nat);
            &&& found is Some
            &&& found->Some_0.0 == r.reference_type
            &&& found->Some_0.1.len() == 4 * r.track_ids@.len()
            &&& u32_at(found->Some_0.1, 4 * j) == r.track_ids@[j]
        }),
{
    let v = m.tracks[i].track_references@;
    lemma_track_found(m, i);
    lemma_track_boxes(m, i);
    lemma_inside_len(trak_of(m, i), TREF, 0);
    lemma_tref(v, k);
    lemma_numbers(v[k].track_ids@, j);
}

proof fn lemma_edit(edts: Seq<u8>, v: Seq<crate::mux_types::MuxEdit>, k: int)
    requires
        edts == edts_body(v),
        edts.len() <= 0xffff_ffff,
        0 <= k < v.len() <= 0xffff_ffff,
    ensures
        u32_at(inside(edts, ELST), 4) == v.len(),
        edit_at(inside(edts, ELST), k) == v[k],
{
    broadcast use group_be_len;

    let b = elst_body(v);
    lemma_atom_len(ELST, b);
    lemma_atom_is_one(ELST, b);
    lemma_found_alone(atom(ELST, b), ELST, b);
    law_elst_says_the_edits(v, k);
    assert(b.subrange(4, 8) =~= u32_be(v.len() as u32));
    lemma_u32_at(b, 4, v.len() as u32);
}

/// A reader finds every edit of a track in a written file, in order, and no edit list
/// where there is none.
pub proof fn law_edits_are_found_in_the_file(m: Movie, i: int, k: int)
    requires
        addressable(m),
        0 <= i < m.tracks.len(),
        m.tracks[i].edits@.len() <= 0xffff_ffff,
    ensures
        ({
            let v = m.tracks[i].edits@;
            let edts = first_box(trak_in(file_of(m), i), EDTS);
            &&& edts is Some <==> v.len() > 0
            &&& 0 <= k < v.len() ==> u32_at(inside(edts->Some_0, ELST), 4) == v.len() && edit_at(
                inside(edts->Some_0, ELST),
                k,
            ) == v[k]
        }),
{
    let v = m.tracks[i].edits@;
    lemma_track_found(m, i);
    lemma_track_boxes(m, i);
    lemma_inside_len(trak_of(m, i), EDTS, 0);
    if 0 <= k < v.len() {
        lemma_edit(edts_body(v), v, k);
    }
}

proof fn lemma_apertures(t: crate::media_meta::Tapt)
    ensures
        ({
            let s = tapt_body(t);
            &&& first_box(s, CLEF) is Some == t.clef is Some
            &&& first_box(s, PROF) is Some == t.prof is Some
            &&& first_box(s, ENOF) is Some == t.enof is Some
            &&& t.clef matches Some(d) ==> inside(s, CLEF) == d.body()
            &&& t.prof matches Some(d) ==> inside(s, PROF) == d.body()
            &&& t.enof matches Some(d) ==> inside(s, ENOF) == d.body()
        }),
{
    broadcast use group_be_len;

    let body = |d: Option<crate::media_meta::TaptDims>|
        match d {
            Some(d) => Some(d.body()),
            None => None::<Seq<u8>>,
        };
    let l = seq![(CLEF, body(t.clef)), (PROF, body(t.prof)), (ENOF, body(t.enof))];
    lemma_boxes_3(l[0], l[1], l[2]);
    assert(crate::walk::box_if(l[0]) == aperture_atom(CLEF, t.clef));
    assert(crate::walk::box_if(l[1]) == aperture_atom(PROF, t.prof));
    assert(crate::walk::box_if(l[2]) == aperture_atom(ENOF, t.enof));
    assert(tapt_body(t) + Seq::<u8>::empty() =~= boxes(l) + Seq::<u8>::empty());
    assert(tapt_body(t) + Seq::<u8>::empty() =~= tapt_body(t));
    assert(CLEF@[0] == 0x63u8 && PROF@[0] == 0x70u8 && ENOF@[0] == 0x65u8);
    lemma_passes_nothing(CLEF);
    lemma_passes_nothing(PROF);
    lemma_passes_nothing(ENOF);
    lemma_boxes_found(l, Seq::empty(), 0);
    lemma_boxes_found(l, Seq::empty(), 1);
    lemma_boxes_found(l, Seq::empty(), 2);
}

/// A reader finds the settings of a track in a written file where they were asked for, and
/// only there: when to load it, the part of the picture to show, and the clean, the
/// production and the encoded aperture, each with its width and its height.
pub proof fn law_settings_are_found_in_the_file(m: Movie, i: int)
    requires
        addressable(m),
        0 <= i < m.tracks.len(),
    ensures
        ({
            let t = m.tracks[i];
            let trak = trak_in(file_of(m), i);
            let tapt = inside(trak, TAPT);
            &&& first_box(trak, LOAD) is Some == t.load is Some
            &&& t.load matches Some(l) ==> u32_at(inside(trak, LOAD), 0) == l.preload_start_time
                && u32_at(inside(trak, LOAD), 4) == l.preload_duration && u32_at(
                inside(trak, LOAD),
                8,
            ) == l.preload_flags && u32_at(inside(trak, LOAD), 12) == l.default_hints
            &&& first_box(trak, CLIP) is Some == t.clipping is Some
            &&& t.clipping matches Some(c) ==> inside(trak, CLIP) == c.body@
            &&& first_box(trak, TAPT) is Some == t.tapt is Some
            &&& t.tapt matches Some(a) ==> {
                &&& first_box(tapt, CLEF) is Some == a.clef is Some
                &&& first_box(tapt, PROF) is Some == a.prof is Some
                &&& first_box(tapt, ENOF) is Some == a.enof is Some
                &&& a.clef matches Some(d) ==> u32_at(inside(tapt, CLEF), 4) == d.width_fp
                    && u32_at(inside(tapt, CLEF), 8) == d.height_fp
                &&& a.prof matches Some(d) ==> u32_at(inside(tapt, PROF), 4) == d.width_fp
                    && u32_at(inside(tapt, PROF), 8) == d.height_fp
                &&& a.enof matches Some(d) ==> u32_at(inside(tapt, ENOF), 4) == d.width_fp
                    && u32_at(inside(tapt, ENOF), 8) == d.height_fp
            }
        }),
{
    let t = m.tracks[i];
    lemma_track_boxes(m, i);
    if let Some(l) = t.load {
        law_load_layout(l);
    }
    if let Some(a) = t.tapt {
        lemma_apertures(a);
        if let Some(d) = a.clef {
            law_aperture_layout(d, Seq::empty());
        }
        if let Some(d) = a.prof {
            law_aperture_layout(d, Seq::empty());
        }
        if let Some(d) = a.enof {
            law_aperture_layout(d, Seq::empty());
        }
    }
}

/// The body of the box of a data reference: flag 1 for this file, or the texts.
pub open spec fn reference_says(b: Seq<u8>, m: DataReferenceModel) -> bool {
    match m {
        DataReferenceModel::SelfRef => b.len() == 4 && u32_at(b, 0) == 1,
        DataReferenceModel::Url(u) => u32_at(b, 0) == 0 && tail(b, 4) == ended_text(u),
        DataReferenceModel::Urn { name, location } => u32_at(b, 0) == 0 && (if location.len()
            == 0 {
            tail(b, 4) == ended_text(name)
        } else {
            tail(b, 4) == ended_text(name) + ended_text(location)
        }),
    }
}

spec fn reference_code(m: DataReferenceModel) -> [u8; 4] {
    if m is Urn {
        URN
    } else {
        URL
    }
}

spec fn reference_body(m: DataReferenceModel) -> Seq<u8> {
    match m {
        DataReferenceModel::SelfRef => u32_be(1),
        DataReferenceModel::Url(u) => u32_be(0) + ended_text(u),
        DataReferenceModel::Urn { name, location } => u32_be(0) + ended_text(name) + (
        if location.len() == 0 {
            Seq::empty()
        } else {
            ended_text(location)
        }),
    }
}

proof fn lemma_reference_body(m: DataReferenceModel)
    ensures
        reference_says(reference_body(m), m),
        data_reference_atom(m) == atom(reference_code(m), reference_body(m)),
{
    broadcast use group_be_len;

    let b = reference_body(m);
    match m {
        DataReferenceModel::SelfRef => {
            assert(b.subrange(0, 4) =~= u32_be(1));
            lemma_u32_at(b, 0, 1);
        },
        DataReferenceModel::Url(u) => {
            assert(b.subrange(0, 4) =~= u32_be(0));
            lemma_u32_at(b, 0, 0);
            assert(tail(b, 4) =~= ended_text(u));
        },
        DataReferenceModel::Urn { name, location } => {
            assert(b.subrange(0, 4) =~= u32_be(0));
            lemma_u32_at(b, 0, 0);
            if location.len() == 0 {
                assert(tail(b, 4) =~= ended_text(name));
            } else {
                assert(tail(b, 4) =~= ended_text(name) + ended_text(location));
            }
        },
    }
}

proof fn lemma_dref_body(n: u32, rest: Seq<u8>)
    requires
        16 + rest.len() <= 0xffff_ffff,
    ensures
        ({
            let dref = inside(atom(DREF, u32_be(0) + u32_be(n) + rest), DREF);
            &&& u32_at(dref, 4) == n
            &&& tail(dref, 8) == rest
        }),
{
    broadcast use group_be_len;

    let b = u32_be(0) + u32_be(n) + rest;
    lemma_atom_is_one(DREF, b);
    lemma_found_alone(atom(DREF, b), DREF, b);
    assert(b.subrange(4, 8) =~= u32_be(n));
    lemma_u32_at(b, 4, n);
    assert(tail(b, 8) =~= rest);
}

proof fn lemma_reference_found(all: Seq<DataReferenceModel>, k: int)
    requires
        cat(all.len(), data_reference_atoms(all)).len() <= 0xffff_ffff,
        0 <= k < all.len(),
    ensures
        box_at(cat(all.len(), data_reference_atoms(all)), k as nat) == Some(
            (reference_code(all[k]), reference_body(all[k])),
        ),
{
    let f = data_reference_atoms(all);
    let c = |i: int| reference_code(all[i]);
    let g = |i: int| reference_body(all[i]);
    lemma_pieces_are_short(all.len(), f);
    assert forall|i: int| 0 <= i < all.len() implies #[trigger] f(i) == atom(c(i), g(i)) by {
        lemma_reference_body(all[i]);
    }
    lemma_boxes_in_order(all.len(), f, c, g, Seq::empty(), k);
    assert(cat(all.len(), f) + Seq::<u8>::empty() =~= cat(all.len(), f));
}

#[verifier::spinoff_prover]
proof fn lemma_dref(m: Seq<DataReferenceModel>, k: int)
    requires
        dinf_body(m).len() <= 0xffff_ffff,
        written_references(m).len() <= 0xffff_ffff,
        0 <= k < written_references(m).len(),
    ensures
        ({
            let all = written_references(m);
            let dref = inside(dinf_body(m), DREF);
            let found = box_at(tail(dref, 8), k as nat);
            &&& u32_at(dref, 4) == all.len()
            &&& found is Some
            &&& found->Some_0.0 == reference_code(all[k])
            &&& reference_says(found->Some_0.1, all[k])
        }),
{
    broadcast use group_be_len;

    let all = written_references(m);
    let rest = cat(all.len(), data_reference_atoms(all));
    lemma_atom_len(DREF, u32_be(0) + u32_be(all.len() as u32) + rest);
    lemma_dref_body(all.len() as u32, rest);
    lemma_reference_found(all, k);
    lemma_reference_body(all[k]);
}

/// A reader finds the data references of a track in a written file: those that were asked
/// for, in that order, or one to the file itself. A name is told from an address by its
/// code.
pub proof fn law_data_references_are_found_in_the_file(m: Movie, i: int, k: int)
    requires
        addressable(m),
        0 <= i < m.tracks.len(),
        m.tracks[i].data_references@.len() <= 0xffff_ffff,
        0 <= k,
        k == 0 || k < m.tracks[i].data_references@.len(),
    ensures
        ({
            let asked = reference_models(m.tracks[i].data_references@);
            let minf = inside(mdia_in(file_of(m), i), MINF);
            let dref = inside(inside(minf, DINF), DREF);
            let found = box_at(tail(dref, 8), k as nat);
            let wanted = if asked.len() == 0 {
                DataReferenceModel::SelfRef
            } else {
                asked[k]
            };
            &&& u32_at(dref, 4) == (if asked.len() == 0 {
                1
            } else {
                asked.len()
            })
            &&& found is Some
            &&& found->Some_0.0 == (if wanted is Urn {
                URN
            } else {
                URL
            })
            &&& reference_says(found->Some_0.1, wanted)
        }),
{
    let asked = reference_models(m.tracks[i].data_references@);
    lemma_track_found(m, i);
    lemma_track_boxes(m, i);
    lemma_inside_len(minf_of(m, i), DINF, 0);
    lemma_dref(asked, k);
}

/// A reader finds the sample description of every track in a written file. That of a
/// picture says its width and its height, that of a sound its channels, its bits and its
/// rate.
pub proof fn law_descriptions_are_found_in_the_file(m: Movie, i: int)
    requires
        addressable(m),
        0 <= i < m.tracks.len(),
    ensures
        ({
            let t = m.tracks[i];
            let stsd = inside(stbl_in(file_of(m), i), STSD);
            let e = entry_of(stsd);
            &&& u32_at(stsd, 4) == 1
            &&& u32_at(e, 0) == e.len()
            &&& t.kind is Video ==> visual_of(e).format == t.kind->Video_format && visual_of(
                e,
            ).width == t.kind->width && visual_of(e).height == t.kind->height
            &&& t.kind is Audio ==> sound_of(e).format == t.kind->Audio_format && sound_of(
                e,
            ).channels == t.kind->channels && sound_of(e).bits == t.kind->bits_per_sample && (
            t.kind->sample_rate <= 0xffff ==> sound_of(e).rate == t.kind->sample_rate * 0x1_0000)
        }),
{
    broadcast use group_be_len;

    let t = m.tracks[i];
    lemma_track_found(m, i);
    lemma_track_boxes(m, i);
    lemma_inside_len(stbl_of(m, i), STSD, 0);
    assert(stsd_body(t).len() == 24 + entry_body(t).len());
    law_sample_description_is_framed(t);
    if t.kind is Video {
        law_visual_entry_says_the_picture(t, 0, 0);
    }
    if t.kind is Audio {
        law_sound_entry_says_the_sound(t);
    }
}

/// How long the auxiliary information of the first `n` samples is.
pub open spec fn aux_sizes(saiz: Seq<u8>, n: nat) -> int
    decreases n,
{
    if n == 0 {
        0
    } else {
        aux_sizes(saiz, (n - 1) as nat) + aux_size(saiz, n - 1)
    }
}

proof fn lemma_aux_sizes(
    c: Option<[u8; 4]>,
    parameter: u32,
    blobs: Seq<Vec<u8>>,
    n: nat,
)
    requires
        n <= blobs.len() <= 0xffff_ffff,
        forall|j: int| 0 <= j < blobs.len() ==> (#[trigger] blobs[j])@.len() <= 255,
    ensures
        aux_sizes(crate::mux_groups::saiz_body(c, parameter, blobs), n) == cat(
            n,
            blob_rows(blobs),
        ).len(),
    decreases n,
{
    if n > 0 {
        lemma_aux_sizes(c, parameter, blobs, (n - 1) as nat);
        law_saiz_says_the_sizes(c, parameter, blobs, n - 1);
    }
}

/// A reader that goes by the offset and the sizes that a written file lists finds the
/// auxiliary information of every sample.
pub proof fn law_auxiliary_information_is_found_in_the_file(m: Movie, i: int, j: int)
    requires
        addressable(m),
        0 <= i < m.tracks.len(),
        m.tracks[i].sample_aux is Some,
        m.tracks[i].sample_aux->Some_0.per_sample@.len() <= 0xffff_ffff,
        0 <= j < m.tracks[i].sample_aux->Some_0.per_sample@.len(),
        forall|k: int|
            0 <= k < m.tracks[i].sample_aux->Some_0.per_sample@.len() ==> (
            #[trigger] m.tracks[i].sample_aux->Some_0.per_sample@[k])@.len() <= 255,
    ensures
        ({
            let file = file_of(m);
            let stbl = stbl_in(file, i);
            let saiz = inside(stbl, SAIZ);
            let at = aux_offset_at(inside(stbl, SAIO)) + aux_sizes(saiz, j as nat);
            let blob = m.tracks[i].sample_aux->Some_0.per_sample@[j]@;
            &&& aux_size(saiz, j) == blob.len()
            &&& 0 <= at && at + blob.len() <= file.len()
            &&& file.subrange(at, at + blob.len()) == blob
        }),
{
    let a = m.tracks[i].sample_aux->Some_0;
    let blobs = a.per_sample@;
    lemma_track_boxes(m, i);
    reveal(file_of);
    reveal(addressable);
    law_aux_stands_where_the_tables_say(m.tracks, resource(m), i, j);
    let place = track_places(m.tracks)[i];
    law_saio_says_the_offset(a.aux_info_type, a.aux_info_type_parameter, place.aux_offset->Some_0);
    law_saiz_says_the_sizes(a.aux_info_type, a.aux_info_type_parameter, blobs, j);
    lemma_aux_sizes(a.aux_info_type, a.aux_info_type_parameter, blobs, j as nat);
}

} // verus!
