//! What a reader finds of the groups, the metadata and the kinds of a track in a written file.
use crate::atom::atom;
use crate::bytes::{code_at, group_be_len};
use crate::code_laws::spells;
use crate::error::Error;
use crate::fourcc::{HDLR, ILST, KEYS, KIND, MDTA, META, TRGR, UDTA};
use crate::key_value::{ilst_error, ilst_items, keys_error, keys_of};
use crate::kind::{kinds_of, KindModel};
use crate::kind_laws::{clean_kind, law_kinds_are_found_in_user_data, read_kinds};
use crate::meta_laws::{fits, law_items_are_read_back, law_keys_are_read_back};
use crate::movie_walk::{
    addressable, file_of, lemma_inside_len, lemma_track_boxes, lemma_track_found, trak_in, trak_of,
    Movie,
};
use crate::mux_meta::{
    ilst_body, keys_body, meta_hdlr_body, meta_item_models, meta_items_body, user_data_models,
};
use crate::mux_trak::membership_atoms;
use crate::mux_types::MetaItemModel;
use crate::parts::TrackGroupTypeEntry;
use crate::track_box_laws::{box_at, lemma_boxes_in_order, lemma_pieces_are_short};
use crate::walk::{first_box, inside, lemma_three_found};
use vstd::prelude::*;

verus! {

proof fn lemma_memberships(v: Seq<TrackGroupTypeEntry>, k: int)
    requires
        crate::bytes::cat(v.len(), membership_atoms(v)).len() <= 0xffff_ffff,
        0 <= k < v.len(),
    ensures
        box_at(crate::bytes::cat(v.len(), membership_atoms(v)), k as nat) == Some(
            (v[k].track_group_type, v[k].body@),
        ),
{
    let f = membership_atoms(v);
    let c = |i: int| v[i].track_group_type;
    let b = |i: int| v[i].body@;
    let s = crate::bytes::cat(v.len(), f);
    lemma_pieces_are_short(v.len(), f);
    assert forall|i: int| 0 <= i < v.len() implies #[trigger] f(i) == atom(c(i), b(i)) by {}
    lemma_boxes_in_order(v.len(), f, c, b, Seq::empty(), k);
    assert(s + Seq::<u8>::empty() =~= s);
}

/// A reader finds every group that a track belongs to in a written file, in order: its type
/// and what is said of it. A track without groups has no such box.
pub proof fn law_track_groups_are_found_in_the_file(m: Movie, i: int, k: int)
    requires
        addressable(m),
        0 <= i < m.tracks.len(),
    ensures
        ({
            let v = m.tracks[i].track_groups@;
            let trak = trak_in(file_of(m), i);
            &&& first_box(trak, TRGR) is Some <==> v.len() > 0
            &&& 0 <= k < v.len() ==> box_at(inside(trak, TRGR), k as nat) == Some(
                (v[k].track_group_type, v[k].body@),
            )
        }),
{
    let v = m.tracks[i].track_groups@;
    lemma_track_found(m, i);
    lemma_track_boxes(m, i);
    lemma_inside_len(trak_of(m, i), TRGR, 0);
    if 0 <= k < v.len() {
        lemma_memberships(v, k);
    }
}

proof fn lemma_meta(m: Seq<MetaItemModel>)
    requires
        meta_items_body(m).len() <= 0xffff_ffff,
    ensures
        inside(meta_items_body(m), HDLR) == meta_hdlr_body(),
        inside(meta_items_body(m), KEYS) == keys_body(m),
        inside(meta_items_body(m), ILST) == ilst_body(m),
{
    assert(HDLR@[0] == 0x68u8 && KEYS@[0] == 0x6bu8 && ILST@[0] == 0x69u8);
    lemma_three_found(HDLR, meta_hdlr_body(), KEYS, keys_body(m), ILST, ilst_body(m));
}

/// The metadata of a track in a written file has the handler `mdta`, and a reader finds
/// every key with its namespace, its type and its value, in order.
pub proof fn law_track_metadata_is_found_in_the_file(m: Movie, i: int, k: int)
    requires
        addressable(m),
        0 <= i < m.tracks.len(),
        fits(meta_item_models(m.tracks[i].apple_metadata@)),
        0 <= k < m.tracks[i].apple_metadata@.len(),
    ensures
        ({
            let item = m.tracks[i].apple_metadata@[k]@;
            let meta = inside(trak_in(file_of(m), i), META);
            let keys = inside(meta, KEYS);
            let values = ilst_items(inside(meta, ILST), 0, keys_of(keys));
            &&& spells(code_at(inside(meta, HDLR), 8), "mdta")
            &&& keys_error(keys) is None
            &&& ilst_error(inside(meta, ILST), 0) is None
            &&& values.len() == m.tracks[i].apple_metadata@.len()
            &&& values[k].namespace == item.namespace
            &&& values[k].key == item.key
            &&& values[k].type_code == item.type_code
            &&& values[k].value == item.value
        }),
{
    broadcast use group_be_len;

    let models = meta_item_models(m.tracks[i].apple_metadata@);
    lemma_track_found(m, i);
    lemma_track_boxes(m, i);
    lemma_inside_len(trak_of(m, i), META, 0);
    lemma_meta(models);
    law_keys_are_read_back(models);
    law_items_are_read_back(models);
    reveal_strlit("mdta");
    assert(code_at(meta_hdlr_body(), 8) =~= MDTA);
    assert(models[k] == m.tracks[i].apple_metadata@[k]@);
}

/// A reader finds the kinds of a track in a written file, in order.
pub proof fn law_kinds_are_found_in_the_file(m: Movie, i: int)
    requires
        addressable(m),
        0 <= i < m.tracks.len(),
        m.tracks[i].track_kinds@.len() > 0,
        forall|k: int|
            0 <= k < m.tracks[i].track_kinds@.len() ==> clean_kind(
                (#[trigger] m.tracks[i].track_kinds@[k])@,
            ),
        forall|k: int|
            0 <= k < m.tracks[i].metadata@.len() ==> (#[trigger] user_data_models(
                m.tracks[i].metadata@,
            )[k]).0 != KIND,
    ensures
        kinds_of(inside(trak_in(file_of(m), i), UDTA), 0) == Ok::<Seq<KindModel>, Error>(
            read_kinds(m.tracks[i].track_kinds@),
        ),
{
    lemma_track_found(m, i);
    lemma_track_boxes(m, i);
    lemma_inside_len(trak_of(m, i), UDTA, 0);
    law_kinds_are_found_in_user_data(m.tracks[i]);
}

} // verus!
