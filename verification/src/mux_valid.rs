//! What holds of every track of a muxer.
use crate::mux_boxes::reference_models;
use crate::mux_types::{
    no_extensions, AudioDescriptionWrite, DataReferenceModel, MuxEdit, MuxTrackKind, TrackReference,
    TrackWrite,
};
use crate::parts::{ChannelLayout, ChannelStructure, StshEntry, SubSample, SubSampleInfo};
use crate::rows::{rising, row_key, views};
use vstd::prelude::*;

verus! {

/// Auxiliary information is there for each sample, at most 255 bytes of it.
pub open spec fn valid_aux(t: TrackWrite) -> bool {
    t.sample_aux matches Some(a) ==> {
        &&& a.per_sample@.len() == t.samples@.len()
        &&& forall|i: int|
            0 <= i < a.per_sample@.len() ==> (#[trigger] a.per_sample@[i])@.len() <= 255
    }
}

/// Each list of groups has a number for each sample, and no two have the same
/// type.
pub open spec fn valid_groups(t: TrackWrite) -> bool {
    let v = t.sample_to_groups@;
    &&& forall|i: int|
        0 <= i < v.len() ==> (#[trigger] v[i]).0.indices@.len() == t.samples@.len()
    &&& forall|i: int, j: int|
        0 <= i < j < v.len() ==> (#[trigger] v[i]).0.grouping_type != (
        #[trigger] v[j]).0.grouping_type
}

/// Each list of group descriptions has an entry, and no two have the same type.
pub open spec fn valid_descriptions(t: TrackWrite) -> bool {
    let v = t.sample_group_descriptions@;
    &&& forall|i: int| 0 <= i < v.len() ==> (#[trigger] v[i]).entries@.len() > 0
    &&& forall|i: int, j: int|
        0 <= i < j < v.len() ==> (#[trigger] v[i]).grouping_type != (#[trigger] v[j]).grouping_type
}

/// A time of an edit that is refused: negative, but not the mark of an empty edit.
pub open spec fn bad_edit(e: MuxEdit) -> bool {
    e.media_time < -1
}

/// No edit is refused.
pub open spec fn valid_edits(e: Seq<MuxEdit>) -> bool {
    forall|i: int| 0 <= i < e.len() ==> !bad_edit(#[trigger] e[i])
}

/// All references go to one of `n` tracks.
pub open spec fn valid_references(v: Seq<TrackReference>, n: nat) -> bool {
    forall|i: int, k: int|
        0 <= i < v.len() && 0 <= k < v[i].track_ids@.len() ==> 1 <= #[trigger] v[i].track_ids@[k]
            <= n
}

/// How many of the first `n` data references are to this file.
pub open spec fn self_count(m: Seq<DataReferenceModel>, n: nat) -> nat
    decreases n,
{
    if n == 0 {
        0
    } else {
        self_count(m, (n - 1) as nat) + (if m[n - 1] is SelfRef {
            1nat
        } else {
            0nat
        })
    }
}

/// Exactly one data reference is to this file, or there is none at all.
pub open spec fn valid_data_references(m: Seq<DataReferenceModel>) -> bool {
    m.len() == 0 || self_count(m, m.len()) == 1
}

/// A table has a row for each sample, or none.
pub open spec fn full_or_empty(rows: nat, samples: nat) -> bool {
    rows == 0 || rows == samples
}

/// The tables with a row for each sample.
pub open spec fn valid_tables(t: TrackWrite) -> bool {
    let n = t.samples@.len();
    &&& full_or_empty(t.sdtp@.len(), n)
    &&& full_or_empty(t.stdp@.len(), n)
    &&& full_or_empty(t.padb@.len(), n)
    &&& forall|i: int| 0 <= i < t.padb@.len() ==> #[trigger] t.padb@[i] <= 7
}

/// The two numbers of a row are those of samples.
pub open spec fn shadow_within(e: StshEntry, n: nat) -> bool {
    1 <= e.shadowed_sample_number <= n && 1 <= e.sync_sample_number <= n
}

/// Shadowed samples rise, and all samples are there.
pub open spec fn valid_shadows(s: Seq<StshEntry>, n: nat) -> bool {
    &&& rising(views(s), row_key::<StshEntry>())
    &&& forall|i: int| 0 <= i < s.len() ==> shadow_within(#[trigger] s[i], n)
}

/// Samples with parts rise, and all of them are there.
pub open spec fn valid_parts(m: Seq<(u32, Seq<SubSample>)>, n: nat) -> bool {
    &&& rising(m, row_key::<SubSampleInfo>())
    &&& forall|i: int| 0 <= i < m.len() ==> 1 <= (#[trigger] m[i]).0 <= n
}

/// A channel layout that fits a number of channels: a position for each, or a
/// layout that has a number.
pub open spec fn layout_fits(l: ChannelLayout, channels: u16) -> bool {
    match l.channels {
        Some(ChannelStructure::Explicit(rows)) => rows@.len() == channels,
        Some(ChannelStructure::Defined { defined_layout, .. }) => defined_layout != 0,
        None => true,
    }
}

/// What is said of a sound fits an audio track.
pub open spec fn valid_sound(t: TrackWrite) -> bool {
    match t.audio_description {
        AudioDescriptionWrite::V0 => true,
        AudioDescriptionWrite::QtffV1 { .. } => t.kind is Audio,
        AudioDescriptionWrite::IsoV1(e) => match t.kind {
            MuxTrackKind::Audio { channels, .. } => e.channel_layout matches Some(l) ==> layout_fits(
                l,
                channels,
            ),
            _ => false,
        },
    }
}

/// What only some kinds of tracks have stands on tracks of that kind.
pub open spec fn valid_kind(t: TrackWrite) -> bool {
    &&& t.visual_extensions != no_extensions() ==> t.kind is Video
    &&& t.tapt matches Some(x) ==> t.kind is Video && (x.clef is Some || x.prof is Some || x.enof
        is Some)
    &&& t.gmin is Some ==> t.kind is Timecode || t.kind is Text
    &&& t.text_header_matrix is Some ==> t.kind is Text
}

/// A track of a muxer with `n` tracks.
pub open spec fn valid_track(t: TrackWrite, n: nat) -> bool {
    &&& t.media_timescale > 0
    &&& valid_aux(t)
    &&& valid_groups(t)
    &&& valid_descriptions(t)
    &&& valid_edits(t.edits@)
    &&& valid_references(t.track_references@, n)
    &&& valid_data_references(reference_models(t.data_references@))
    &&& valid_tables(t)
    &&& valid_shadows(t.stsh@, t.samples@.len())
    &&& valid_parts(views(t.subs@), t.samples@.len())
    &&& valid_sound(t)
    &&& valid_kind(t)
}

/// The tracks of a muxer.
pub open spec fn valid_tracks(v: Seq<TrackWrite>) -> bool {
    forall|i: int| 0 <= i < v.len() ==> valid_track(#[trigger] v[i], v.len())
}

} // verus!
