//! What a muxer takes, and what it keeps.
use crate::media_meta::Tapt;
use crate::mux_types::{
    DataReferenceModel, MuxEdit, SampleAuxStream, SampleGroupBoxForm, SampleGroupDescriptionWrite,
    SampleToGroupWrite, TrackWrite,
};
use crate::mux_valid::self_count;
use crate::muxer::{
    aperture_check, aux_check, bad_edit_at, bad_id_at, bad_part_at, bad_row, bad_shadow_at,
    description_check, description_type_at, edit_check, fragments_check, group_check, group_type_at,
    layout_check, no_repeat, no_samples_at, over_seven, pad_check, parts_check, put_description,
    put_group, reference_check, self_check, shadow_check, table_check, too_long, tracks_check,
    FragmentationMode, MuxerModel,
};
use crate::parts::{ChannelLayout, ChannelStructure, StshEntry, SubSample, SubSampleInfo};
use crate::rows::{first_repeat, repeats, row_key};
use crate::search::{first_index, lemma_first_index};
use vstd::prelude::*;

verus! {

/// Auxiliary information is taken if and only if there is a blob for each sample and none is
/// longer than 255 bytes.
pub proof fn law_aux_is_taken(t: TrackWrite, track_id: u32, s: SampleAuxStream)
    ensures
        aux_check(t, track_id, s) is Ok <==> s.per_sample@.len() == t.samples@.len() && forall|i: int|
            0 <= i < s.per_sample@.len() ==> (#[trigger] s.per_sample@[i])@.len() <= 255,
{
    let v = s.per_sample@;
    let f = too_long(v);
    lemma_first_index(v.len(), f);
    let k = first_index(v.len(), f);
    if k == v.len() {
        assert forall|i: int| 0 <= i < v.len() implies (#[trigger] v[i])@.len() <= 255 by {
            assert(!f(i));
        }
    } else {
        assert(v[k]@.len() > 255);
    }
}

/// A list of groups is taken if and only if it has a number for each sample; a list of group
/// descriptions if and only if it has one.
pub proof fn law_groups_are_taken(
    t: TrackWrite,
    track_id: u32,
    g: SampleToGroupWrite,
    d: SampleGroupDescriptionWrite,
)
    ensures
        group_check(t, track_id, g) is Ok <==> g.indices@.len() == t.samples@.len(),
        description_check(track_id, d) is Ok <==> d.entries@.len() > 0,
{
}

/// A table is taken if and only if it has a row for each sample, or none at all.
pub proof fn law_tables_are_taken(t: TrackWrite, track_id: u32, words: &'static str, rows: nat)
    ensures
        table_check(t, track_id, words, rows) is Ok <==> rows == 0 || rows == t.samples@.len(),
{
}

/// Padding is taken if and only if there is a number for each sample, or none at all, and no
/// number needs more than three bits.
pub proof fn law_padding_is_taken(t: TrackWrite, track_id: u32, v: Seq<u8>)
    ensures
        pad_check(t, track_id, v) is Ok <==> (v.len() == 0 || v.len() == t.samples@.len()) && forall|
            i: int,
        |
            0 <= i < v.len() ==> #[trigger] v[i] < 8,
{
    let f = over_seven(v);
    lemma_first_index(v.len(), f);
    let k = first_index(v.len(), f);
    if k == v.len() {
        assert forall|i: int| 0 <= i < v.len() implies #[trigger] v[i] < 8 by {
            assert(!f(i));
        }
    } else {
        assert(v[k] > 7);
    }
}

/// An edit list is taken if and only if no start is negative but -1, the mark of an empty
/// edit.
pub proof fn law_edits_are_taken(v: Seq<MuxEdit>)
    ensures
        edit_check(v) is Ok <==> forall|i: int|
            0 <= i < v.len() ==> (#[trigger] v[i]).media_time >= -1,
{
    let f = bad_edit_at(v);
    lemma_first_index(v.len(), f);
    let k = first_index(v.len(), f);
    if k == v.len() {
        assert forall|i: int| 0 <= i < v.len() implies (#[trigger] v[i]).media_time >= -1 by {
            assert(!f(i));
        }
    } else {
        assert(v[k].media_time < -1);
    }
}

proof fn lemma_none_is_self(m: Seq<DataReferenceModel>, n: nat)
    requires
        n <= m.len(),
    ensures
        self_count(m, n) == 0 <==> forall|i: int| 0 <= i < n ==> !(#[trigger] m[i] is SelfRef),
    decreases n,
{
    if n > 0 {
        lemma_none_is_self(m, (n - 1) as nat);
    }
}

/// One of the first `n` data references, and no other, is to this file.
pub open spec fn one_is_self(m: Seq<DataReferenceModel>, n: nat) -> bool {
    exists|k: int|
        0 <= k < n && #[trigger] m[k] is SelfRef && forall|i: int|
            0 <= i < n && #[trigger] m[i] is SelfRef ==> i == k
}

proof fn lemma_one_is_self(m: Seq<DataReferenceModel>, n: nat)
    requires
        n <= m.len(),
    ensures
        self_count(m, n) == 1 <==> one_is_self(m, n),
    decreases n,
{
    if n > 0 {
        let p = (n - 1) as nat;
        lemma_one_is_self(m, p);
        lemma_none_is_self(m, p);
        if m[n - 1] is SelfRef {
            if self_count(m, p) == 0 {
                assert(forall|i: int| 0 <= i < n && #[trigger] m[i] is SelfRef ==> i == n - 1);
            }
            if one_is_self(m, n) {
                assert forall|i: int| 0 <= i < p implies !(#[trigger] m[i] is SelfRef) by {}
            }
        } else {
            if one_is_self(m, p) {
                let k = choose|k: int|
                    0 <= k < p && #[trigger] m[k] is SelfRef && forall|i: int|
                        0 <= i < p && #[trigger] m[i] is SelfRef ==> i == k;
                assert(forall|i: int| 0 <= i < n && #[trigger] m[i] is SelfRef ==> i == k);
            }
            if one_is_self(m, n) {
                let k = choose|k: int|
                    0 <= k < n && #[trigger] m[k] is SelfRef && forall|i: int|
                        0 <= i < n && #[trigger] m[i] is SelfRef ==> i == k;
                assert(k < p);
            }
        }
    }
}

/// Data references are taken if and only if exactly one of them is to this file.
pub proof fn law_data_references_are_taken(m: Seq<DataReferenceModel>)
    ensures
        self_check(m) is Ok <==> one_is_self(m, m.len()),
{
    lemma_one_is_self(m, m.len());
}

/// References are taken if and only if all of them go to a track that is there.
pub proof fn law_references_are_taken(m: Seq<([u8; 4], Seq<u32>)>, count: u32)
    ensures
        reference_check(m, count) is Ok <==> forall|i: int, k: int|
            0 <= i < m.len() && 0 <= k < m[i].1.len() ==> 1 <= #[trigger] m[i].1[k] <= count,
{
    let g = bad_row(m, count);
    lemma_first_index(m.len(), g);
    let at = first_index(m.len(), g);
    if at == m.len() {
        assert forall|i: int, k: int| 0 <= i < m.len() && 0 <= k < m[i].1.len() implies 1
            <= #[trigger] m[i].1[k] <= count by {
            assert(!g(i));
            let f = bad_id_at(m[i].1, count);
            lemma_first_index(m[i].1.len(), f);
            assert(!f(k));
        }
    } else {
        assert(g(at));
        let f = bad_id_at(m[at].1, count);
        lemma_first_index(m[at].1.len(), f);
        let k = first_index(m[at].1.len(), f);
        assert(f(k));
        assert(!(1 <= m[at].1[k] <= count));
    }
}

proof fn lemma_no_repeat<M>(s: Seq<M>, key: spec_fn(M) -> u32)
    ensures
        no_repeat(s, key) <==> forall|i: int|
            0 <= i < s.len() - 1 ==> key(#[trigger] s[i]) != key(s[i + 1]),
{
    if s.len() > 0 {
        let n = (s.len() - 1) as nat;
        let f = repeats(s, key);
        lemma_first_index(n, f);
        let k = first_repeat(s, key);
        if k == n {
            assert forall|i: int| 0 <= i < s.len() - 1 implies key(#[trigger] s[i]) != key(
                s[i + 1],
            ) by {
                assert(!f(i));
            }
        } else {
            assert(f(k));
            assert(key(s[k]) == key(s[k + 1]));
        }
    }
}

/// Shadow rows in order are taken if and only if no two neighbours shadow the same sample
/// and all samples are there.
pub proof fn law_shadows_are_taken(s: Seq<StshEntry>, want: u32)
    ensures
        shadow_check(s, want) is Ok <==> (forall|i: int|
            0 <= i < s.len() - 1 ==> (#[trigger] s[i]).shadowed_sample_number != s[i
                + 1].shadowed_sample_number) && (forall|i: int|
            0 <= i < s.len() ==> 1 <= (#[trigger] s[i]).shadowed_sample_number <= want && 1
                <= s[i].sync_sample_number <= want),
{
    let f = bad_shadow_at(s, want);
    lemma_first_index(s.len(), f);
    lemma_no_repeat(s, row_key::<StshEntry>());
    let k = first_index(s.len(), f);
    if k == s.len() {
        assert forall|i: int| 0 <= i < s.len() implies 1 <= (
        #[trigger] s[i]).shadowed_sample_number <= want && 1 <= s[i].sync_sample_number <= want by {
            assert(!f(i));
        }
    } else {
        assert(f(k));
    }
    assert forall|i: int| 0 <= i < s.len() - 1 implies row_key::<StshEntry>()(#[trigger] s[i])
        == s[i].shadowed_sample_number && row_key::<StshEntry>()(s[i + 1]) == s[i
        + 1].shadowed_sample_number by {}
}

/// Rows of parts in order are taken if and only if all samples are there and no two
/// neighbours are of the same sample.
pub proof fn law_parts_are_taken(m: Seq<(u32, Seq<SubSample>)>, want: u32)
    ensures
        parts_check(m, want) is Ok <==> (forall|i: int|
            0 <= i < m.len() - 1 ==> (#[trigger] m[i]).0 != m[i + 1].0) && (forall|i: int|
            0 <= i < m.len() ==> 1 <= (#[trigger] m[i]).0 <= want),
{
    let f = bad_part_at(m, want);
    lemma_first_index(m.len(), f);
    lemma_no_repeat(m, row_key::<SubSampleInfo>());
    let k = first_index(m.len(), f);
    if k == m.len() {
        assert forall|i: int| 0 <= i < m.len() implies 1 <= (#[trigger] m[i]).0 <= want by {
            assert(!f(i));
        }
    } else {
        assert(f(k));
    }
    assert forall|i: int| 0 <= i < m.len() - 1 implies row_key::<SubSampleInfo>()(#[trigger] m[i])
        == m[i].0 && row_key::<SubSampleInfo>()(m[i + 1]) == m[i + 1].0 by {}
}

/// Apertures are taken if and only if there is one and the track is a picture. A channel
/// layout is taken if and only if it has a position for each channel, or a number that is
/// not 0, or no channels.
pub proof fn law_apertures_and_layouts_are_taken(
    t: TrackWrite,
    track_id: u32,
    a: Tapt,
    l: ChannelLayout,
    channels: u16,
)
    ensures
        aperture_check(t, track_id, a) is Ok <==> t.kind is Video && (a.clef is Some || a.prof
            is Some || a.enof is Some),
        layout_check(l, channels) is Ok <==> match l.channels {
            Some(ChannelStructure::Explicit(rows)) => rows@.len() == channels,
            Some(ChannelStructure::Defined { defined_layout, .. }) => defined_layout != 0,
            None => true,
        },
{
}

/// Tracks can be written if and only if there is one and each has a sample.
pub proof fn law_tracks_are_taken(tracks: Seq<TrackWrite>)
    ensures
        tracks_check(tracks) is Ok <==> tracks.len() > 0 && forall|i: int|
            0 <= i < tracks.len() ==> (#[trigger] tracks[i]).samples@.len() > 0,
{
    let f = no_samples_at(tracks);
    lemma_first_index(tracks.len(), f);
    let k = first_index(tracks.len(), f);
    if k == tracks.len() {
        assert forall|i: int| 0 <= i < tracks.len() implies (#[trigger] tracks[i]).samples@.len()
            > 0 by {
            assert(!f(i));
        }
    } else {
        assert(tracks[k].samples@.len() == 0);
    }
}

/// A fragmented file can be written if and only if its tracks can, and it was said to cut
/// them by a threshold that is not 0.
pub proof fn law_fragments_are_taken(m: MuxerModel)
    ensures
        fragments_check(m) is Ok <==> tracks_check(m.tracks) is Ok && match m.fragmentation {
            None => false,
            Some(FragmentationMode::ByDuration(n)) => n > 0,
            Some(FragmentationMode::ByFrameCount(n)) => n > 0,
        },
{
}

/// After a list of groups was put to others, one list has its type, and it is that one; all
/// lists of other types are as they were.
pub proof fn law_groups_replace_those_of_their_type(
    v: Seq<(SampleToGroupWrite, SampleGroupBoxForm)>,
    g: SampleToGroupWrite,
    form: SampleGroupBoxForm,
    i: int,
)
    requires
        forall|i: int, j: int|
            0 <= i < j < v.len() ==> (#[trigger] v[i]).0.grouping_type != (
            #[trigger] v[j]).0.grouping_type,
        0 <= i < put_group(v, g, form).len(),
    ensures
        v.len() <= put_group(v, g, form).len() <= v.len() + 1,
        put_group(v, g, form).contains((g, form)),
        put_group(v, g, form)[i].0.grouping_type == g.grouping_type ==> put_group(v, g, form)[i] == (
            g,
            form,
        ),
        put_group(v, g, form)[i].0.grouping_type != g.grouping_type ==> i < v.len() && put_group(
            v,
            g,
            form,
        )[i] == v[i],
{
    let f = group_type_at(v, g.grouping_type);
    lemma_first_index(v.len(), f);
    let k = first_index(v.len(), f);
    let w = put_group(v, g, form);
    if k < v.len() {
        assert(f(k));
        assert(w[k] == (g, form));
        if i != k {
            assert(w[i] == v[i]);
        }
    } else {
        assert(w[k] == (g, form));
        if i < v.len() {
            assert(!f(i));
        }
    }
}

/// After group descriptions were put to others, one list has their type, and it is that one;
/// all lists of other types are as they were.
pub proof fn law_descriptions_replace_those_of_their_type(
    v: Seq<SampleGroupDescriptionWrite>,
    d: SampleGroupDescriptionWrite,
    i: int,
)
    requires
        forall|i: int, j: int|
            0 <= i < j < v.len() ==> (#[trigger] v[i]).grouping_type != (
            #[trigger] v[j]).grouping_type,
        0 <= i < put_description(v, d).len(),
    ensures
        v.len() <= put_description(v, d).len() <= v.len() + 1,
        put_description(v, d).contains(d),
        put_description(v, d)[i].grouping_type == d.grouping_type ==> put_description(v, d)[i] == d,
        put_description(v, d)[i].grouping_type != d.grouping_type ==> i < v.len()
            && put_description(v, d)[i] == v[i],
{
    let f = description_type_at(v, d.grouping_type);
    lemma_first_index(v.len(), f);
    let k = first_index(v.len(), f);
    let w = put_description(v, d);
    if k < v.len() {
        assert(f(k));
        assert(w[k] == d);
        if i != k {
            assert(w[i] == v[i]);
        }
    } else {
        assert(w[k] == d);
        if i < v.len() {
            assert(!f(i));
        }
    }
}

} // verus!
