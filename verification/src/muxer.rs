//! The muxer: tracks and what is attached to them, written as a file.
use crate::bytes::{low32, low32_of, put_bytes, same_code};
use crate::cmov::{compress, compressed, resource_of};
use crate::error::Error;
use crate::fragments::{encode_fragments, fragmented_file};
use crate::kind::KindEntry;
use crate::matte::Matte;
use crate::media_meta::{Cslg, Tapt};
use crate::mux_boxes::reference_models;
use crate::mux_layout::{compressed_atom, encode_parts, file_head, movie_resource, wrap_compressed};
use crate::mux_types::{AudioDescriptionWrite, DataReferenceModel, TrackWrite};
use crate::mux_valid::{
    bad_edit, full_or_empty, self_count, shadow_within, valid_references, valid_track, valid_tracks,
};
use crate::parts::{
    ChannelLayout, ChannelStructure, Clipping, Gmin, Load, SdtpEntry, SoundV1, StshEntry, SubSample,
    SubSampleInfo, TrackGroupTypeEntry, TrackSelection,
};
use crate::rows::{
    duplicate_all, first_repeat, law_sorting_puts_in_order, lemma_rising, repeats, row_key, sort,
    sort_rows, views, Keyed,
};
use crate::search::{first_index, lemma_first_index, lemma_first_index_is};
use vstd::prelude::*;
use vstd::slice::slice_to_vec;

pub use crate::mux_types::{
    AudioEntryV1, CslgWrite, DataReferenceWrite, FragmentationMode, MetaPayload, MovMetaItem,
    MovMetadata, MuxEdit, MuxSample, MuxTrackKind, SampleAuxStream, SampleGroupBoxForm,
    SampleGroupDescriptionWrite, SampleToGroupWrite, TrackReference, VisualExtensions,
    MDHD_LANGUAGE_UND, META_NAMESPACE_MDTA, META_TYPE_BE_SIGNED_INT, META_TYPE_BE_UNSIGNED_INT,
    META_TYPE_RAW, META_TYPE_UTF8, UTF8_INTL_TEXT_FLAG,
};

verus! {

/// What a muxer holds.
pub struct MuxerModel {
    /// Units per second of the movie.
    pub movie_timescale: u32,
    pub tracks: Seq<TrackWrite>,
    pub fragmentation: Option<FragmentationMode>,
    /// The movie resource is written compressed.
    pub compress: bool,
    pub metadata: Seq<MovMetadata>,
    pub apple_metadata: Seq<MovMetaItem>,
}

impl MuxerModel {
    /// There is a track with this number. Tracks are numbered from 1.
    pub open spec fn has(self, track_id: u32) -> bool {
        1 <= track_id <= self.tracks.len()
    }

    /// The track with a number.
    pub open spec fn track(self, track_id: u32) -> TrackWrite {
        self.tracks[track_id - 1]
    }

    /// The muxer with another track in the place of one.
    pub open spec fn with_track(self, track_id: u32, t: TrackWrite) -> MuxerModel {
        MuxerModel { tracks: self.tracks.update(track_id - 1, t), ..self }
    }

    /// The muxer after a setting: another track in the place of one where the
    /// setting was taken, the same as before where it was refused.
    pub open spec fn after(
        self,
        r: Result<(), Error>,
        track_id: u32,
        t: TrackWrite,
    ) -> MuxerModel {
        if r is Ok {
            self.with_track(track_id, t)
        } else {
            self
        }
    }

    /// The answer to a setting: refused where there is no such track, else as
    /// the check of the setting says.
    pub open spec fn answer(
        self,
        track_id: u32,
        words: &'static str,
        check: Result<(), Error>,
    ) -> Result<(), Error> {
        if self.has(track_id) {
            check
        } else {
            Err(Error::Number(words, track_id as i128, ""))
        }
    }
}

/// A muxer with nothing in it.
pub open spec fn empty_muxer() -> MuxerModel {
    MuxerModel {
        movie_timescale: 600,
        tracks: Seq::empty(),
        fragmentation: None,
        compress: false,
        metadata: Seq::empty(),
        apple_metadata: Seq::empty(),
    }
}

/// Tracks and what is attached to them.
pub struct MovMuxer {
    movie_timescale: u32,
    tracks: Vec<TrackWrite>,
    fragmentation: Option<FragmentationMode>,
    compress_movie_resource: bool,
    metadata: Vec<MovMetadata>,
    apple_metadata: Vec<MovMetaItem>,
}

impl View for MovMuxer {
    type V = MuxerModel;

    closed spec fn view(&self) -> MuxerModel {
        MuxerModel {
            movie_timescale: self.movie_timescale,
            tracks: self.tracks@,
            fragmentation: self.fragmentation,
            compress: self.compress_movie_resource,
            metadata: self.metadata@,
            apple_metadata: self.apple_metadata@,
        }
    }
}

impl Default for MovMuxer {
    fn default() -> (r: Self)
        ensures
            r@ == empty_muxer(),
    {
        MovMuxer::new()
    }
}

/// Where a blob is longer than one byte can say.
pub open spec fn too_long(blobs: Seq<Vec<u8>>) -> spec_fn(int) -> bool {
    |i: int| blobs[i]@.len() > 255
}

/// Whether auxiliary information is taken for a track: a blob for each sample,
/// none of them longer than 255 bytes.
pub open spec fn aux_check(t: TrackWrite, track_id: u32, s: SampleAuxStream) -> Result<(), Error> {
    let n = s.per_sample@.len();
    let want = t.samples@.len();
    let k = first_index(n, too_long(s.per_sample@));
    if n != want {
        Err(
            Error::Triple(
                "MOV muxer: sample-aux stream has ",
                n as i128,
                " blobs but track ",
                track_id as i128,
                " has ",
                want as i128,
                " samples",
            ),
        )
    } else if k < n {
        Err(
            Error::Numbers(
                "MOV muxer: sample-aux blob ",
                k as i128,
                " is ",
                s.per_sample@[k]@.len() as i128,
                " bytes; saiz size table is u8-wide (max 255)",
            ),
        )
    } else {
        Ok(())
    }
}

/// Whether a list of groups is taken for a track: a number for each sample.
pub open spec fn group_check(t: TrackWrite, track_id: u32, g: SampleToGroupWrite) -> Result<
    (),
    Error,
> {
    if g.indices@.len() != t.samples@.len() {
        Err(
            Error::Triple(
                "MOV muxer: sample-to-group has ",
                g.indices@.len() as i128,
                " indices but track ",
                track_id as i128,
                " has ",
                t.samples@.len() as i128,
                " samples",
            ),
        )
    } else {
        Ok(())
    }
}

/// Where a list of groups has a type.
pub open spec fn group_type_at(
    v: Seq<(SampleToGroupWrite, SampleGroupBoxForm)>,
    code: [u8; 4],
) -> spec_fn(int) -> bool {
    |i: int| v[i].0.grouping_type == code
}

/// The lists of groups with one more: in the place of the one with the same type,
/// or behind all.
pub open spec fn put_group(
    v: Seq<(SampleToGroupWrite, SampleGroupBoxForm)>,
    g: SampleToGroupWrite,
    form: SampleGroupBoxForm,
) -> Seq<(SampleToGroupWrite, SampleGroupBoxForm)> {
    let k = first_index(v.len(), group_type_at(v, g.grouping_type));
    if k < v.len() {
        v.update(k, (g, form))
    } else {
        v.push((g, form))
    }
}

/// Whether group descriptions are taken: at least one.
pub open spec fn description_check(track_id: u32, d: SampleGroupDescriptionWrite) -> Result<
    (),
    Error,
> {
    if d.entries@.len() == 0 {
        Err(
            Error::Number(
                "MOV muxer: sgpd for track ",
                track_id as i128,
                " must carry at least one entry",
            ),
        )
    } else {
        Ok(())
    }
}

/// Where a list of group descriptions has a type.
pub open spec fn description_type_at(
    v: Seq<SampleGroupDescriptionWrite>,
    code: [u8; 4],
) -> spec_fn(int) -> bool {
    |i: int| v[i].grouping_type == code
}

/// The lists of group descriptions with one more: in the place of the one with
/// the same type, or behind all.
pub open spec fn put_description(
    v: Seq<SampleGroupDescriptionWrite>,
    d: SampleGroupDescriptionWrite,
) -> Seq<SampleGroupDescriptionWrite> {
    let k = first_index(v.len(), description_type_at(v, d.grouping_type));
    if k < v.len() {
        v.update(k, d)
    } else {
        v.push(d)
    }
}

/// Whether a setting is taken that only some kinds of tracks have.
pub open spec fn kind_check(
    fits: bool,
    before: &'static str,
    track_id: u32,
    behind: &'static str,
) -> Result<(), Error> {
    if fits {
        Ok(())
    } else {
        Err(Error::Number(before, track_id as i128, behind))
    }
}

/// Whether apertures are taken for a track: it is a video track, and there is at
/// least one.
pub open spec fn aperture_check(t: TrackWrite, track_id: u32, tapt: Tapt) -> Result<(), Error> {
    if !(t.kind is Video) {
        Err(
            Error::Number(
                "MOV muxer: set_track_aperture track id ",
                track_id as i128,
                " is not a video track (aperture modes apply only to a visual track)",
            ),
        )
    } else if tapt.clef is None && tapt.prof is None && tapt.enof is None {
        Err(
            Error::Rule(
                "MOV muxer: set_track_aperture given an empty Tapt (no clef/prof/enof rectangle)",
            ),
        )
    } else {
        Ok(())
    }
}

/// Whether a table is taken for a track: it has a row for each sample, or none.
pub open spec fn table_check(
    t: TrackWrite,
    track_id: u32,
    words: &'static str,
    rows: nat,
) -> Result<(), Error> {
    if !full_or_empty(rows, t.samples@.len()) {
        Err(
            Error::Triple(
                words,
                rows as i128,
                " rows but track ",
                track_id as i128,
                " has ",
                t.samples@.len() as i128,
                " samples",
            ),
        )
    } else {
        Ok(())
    }
}

/// Where a number needs more than three bits.
pub open spec fn over_seven(v: Seq<u8>) -> spec_fn(int) -> bool {
    |i: int| v[i] > 7
}

/// Whether padding bits are taken for a track: a row for each sample, or none, and
/// no number over 7.
pub open spec fn pad_check(t: TrackWrite, track_id: u32, v: Seq<u8>) -> Result<(), Error> {
    let k = first_index(v.len(), over_seven(v));
    let rows = table_check(t, track_id, "MOV muxer: padb has ", v.len());
    if rows is Ok && k < v.len() {
        Err(
            Error::Numbers(
                "MOV muxer: padb pad value ",
                v[k] as i128,
                " at sample ",
                k as i128,
                " exceeds the 3-bit field (max 7)",
            ),
        )
    } else {
        rows
    }
}

/// Where an edit is refused.
pub open spec fn bad_edit_at(v: Seq<MuxEdit>) -> spec_fn(int) -> bool {
    |i: int| bad_edit(v[i])
}

/// Whether an edit list is taken: no time is negative but -1.
pub open spec fn edit_check(v: Seq<MuxEdit>) -> Result<(), Error> {
    let k = first_index(v.len(), bad_edit_at(v));
    if k < v.len() {
        Err(
            Error::Numbers(
                "MOV muxer: edit ",
                k as i128,
                " has media_time ",
                v[k].media_time as i128,
                " (only -1 is a legal negative value: the empty-edit sentinel)",
            ),
        )
    } else {
        Ok(())
    }
}

/// Whether data references are taken: exactly one is to this file.
pub open spec fn self_check(m: Seq<DataReferenceModel>) -> Result<(), Error> {
    let n = self_count(m, m.len());
    if n != 1 {
        Err(
            Error::Number(
                "MOV muxer: set_data_references requires exactly one SelfRef entry (the muxer writes samples in-file); got ",
                n as i128,
                "",
            ),
        )
    } else {
        Ok(())
    }
}

/// Where a number is not that of one of `count` tracks.
pub open spec fn bad_id_at(ids: Seq<u32>, count: u32) -> spec_fn(int) -> bool {
    |k: int| ids[k] == 0 || ids[k] > count
}

/// Where references hold a number that is not that of one of `count` tracks.
pub open spec fn bad_row(m: Seq<([u8; 4], Seq<u32>)>, count: u32) -> spec_fn(int) -> bool {
    |i: int| first_index(m[i].1.len(), bad_id_at(m[i].1, count)) < m[i].1.len()
}

/// Whether references are taken: all go to one of `count` tracks.
pub open spec fn reference_check(m: Seq<([u8; 4], Seq<u32>)>, count: u32) -> Result<(), Error> {
    let i = first_index(m.len(), bad_row(m, count));
    if i < m.len() {
        let ids = m[i].1;
        Err(
            Error::CodeNumbers(
                "MOV muxer: set_track_references type ",
                m[i].0,
                "????",
                " references unknown track id ",
                ids[first_index(ids.len(), bad_id_at(ids, count))] as i128,
                " (1..=",
                count as i128,
                " valid)",
            ),
        )
    } else {
        Ok(())
    }
}

proof fn lemma_references_hold(v: Seq<TrackReference>, count: u32, n: nat)
    requires
        reference_check(views(v), count) is Ok,
        count == low32(n as int),
    ensures
        valid_references(v, n),
{
    let m = views(v);
    let g = bad_row(m, count);
    lemma_first_index(m.len(), g);
    assert forall|i: int, k: int| 0 <= i < v.len() && 0 <= k < v[i].track_ids@.len() implies 1
        <= #[trigger] v[i].track_ids@[k] <= n by {
        assert(m[i] == v[i]@);
        assert(!g(i));
        let f = bad_id_at(m[i].1, count);
        lemma_first_index(m[i].1.len(), f);
        assert(!f(k));
    }
}

/// No two rows have the same number.
pub open spec fn no_repeat<M>(s: Seq<M>, key: spec_fn(M) -> u32) -> bool {
    s.len() > 0 ==> first_repeat(s, key) == s.len() - 1
}

fn find_repeat<T: Keyed>(rows: &Vec<T>) -> (r: Option<u32>)
    ensures
        match r {
            Some(n) => !no_repeat(views(rows@), row_key::<T>()) && n == row_key::<T>()(
                views(rows@)[first_repeat(views(rows@), row_key::<T>())],
            ),
            None => no_repeat(views(rows@), row_key::<T>()),
        },
{
    let ghost s = views(rows@);
    let ghost key = row_key::<T>();
    let ghost f = repeats(s, key);
    if rows.len() == 0 {
        return None;
    }
    for i in 0..rows.len() - 1
        invariant
            rows@.len() > 0,
            s == views(rows@),
            key == row_key::<T>(),
            f == repeats(s, key),
            forall|k: int| 0 <= k < i ==> !#[trigger] f(k),
    {
        let n: u32 = rows[i].key();
        if n == rows[i + 1].key() {
            proof {
                lemma_first_index_is((s.len() - 1) as nat, f, i as int);
            }
            return Some(n);
        }
    }
    proof {
        lemma_first_index_is((s.len() - 1) as nat, f, s.len() - 1);
    }
    None
}

/// Where a row names a sample that is not there.
pub open spec fn bad_shadow_at(s: Seq<StshEntry>, want: u32) -> spec_fn(int) -> bool {
    |i: int| !shadow_within(s[i], want as nat)
}

/// Whether shadow rows in order are taken: no sample is shadowed twice, and all
/// samples are there.
pub open spec fn shadow_check(s: Seq<StshEntry>, want: u32) -> Result<(), Error> {
    let k = first_index(s.len(), bad_shadow_at(s, want));
    if !no_repeat(s, row_key::<StshEntry>()) {
        Err(
            Error::Number(
                "MOV muxer: stsh duplicate shadowed_sample_number ",
                s[first_repeat(s, row_key::<StshEntry>())].shadowed_sample_number as i128,
                "",
            ),
        )
    } else if k < s.len() {
        if 1 <= s[k].shadowed_sample_number <= want {
            Err(
                Error::Numbers(
                    "MOV muxer: stsh sync_sample_number ",
                    s[k].sync_sample_number as i128,
                    " out of range 1..=",
                    want as i128,
                    "",
                ),
            )
        } else {
            Err(
                Error::Numbers(
                    "MOV muxer: stsh shadowed_sample_number ",
                    s[k].shadowed_sample_number as i128,
                    " out of range 1..=",
                    want as i128,
                    "",
                ),
            )
        }
    } else {
        Ok(())
    }
}

/// Where a row is of a sample that is not there.
pub open spec fn bad_part_at(m: Seq<(u32, Seq<SubSample>)>, want: u32) -> spec_fn(int) -> bool {
    |i: int| m[i].0 == 0 || m[i].0 > want
}

/// Whether rows of parts in order are taken: all samples are there, and none has
/// two rows.
pub open spec fn parts_check(m: Seq<(u32, Seq<SubSample>)>, want: u32) -> Result<(), Error> {
    let k = first_index(m.len(), bad_part_at(m, want));
    if k < m.len() {
        Err(
            Error::Numbers(
                "MOV muxer: subs sample_number ",
                m[k].0 as i128,
                " out of range 1..=",
                want as i128,
                "",
            ),
        )
    } else if !no_repeat(m, row_key::<SubSampleInfo>()) {
        Err(
            Error::Number(
                "MOV muxer: subs duplicate sample_number ",
                m[first_repeat(m, row_key::<SubSampleInfo>())].0 as i128,
                "",
            ),
        )
    } else {
        Ok(())
    }
}

/// Whether a track is an audio track.
pub open spec fn audio_check(m: MuxerModel, track_id: u32) -> Result<(), Error> {
    m.answer(
        track_id,
        "MOV: unknown track id ",
        kind_check(
            m.track(track_id).kind is Audio,
            "MOV: track ",
            track_id,
            " is not an audio track",
        ),
    )
}

/// Whether a sound description of QuickTime is taken.
pub open spec fn sound_check(m: MuxerModel, track_id: u32) -> Result<(), Error> {
    if audio_check(m, track_id) is Ok && m.track(track_id).audio_description is IsoV1 {
        Err(Error::Rule("MOV: track already uses an ISO AudioSampleEntryV1; QTFF v1 is exclusive"))
    } else {
        audio_check(m, track_id)
    }
}

/// Whether a channel layout is taken for a number of channels.
pub open spec fn layout_check(l: ChannelLayout, channels: u16) -> Result<(), Error> {
    match l.channels {
        Some(ChannelStructure::Explicit(rows)) => if rows@.len() != channels {
            Err(
                Error::Numbers(
                    "MOV: chnl explicit layout has ",
                    rows@.len() as i128,
                    " rows for ",
                    channels as i128,
                    " channels",
                ),
            )
        } else {
            Ok(())
        },
        Some(ChannelStructure::Defined { defined_layout, .. }) => if defined_layout == 0 {
            Err(
                Error::Rule("MOV: chnl definedLayout 0 selects the explicit form; use Explicit"),
            )
        } else {
            Ok(())
        },
        None => Ok(()),
    }
}

/// Whether an audio sample entry of version 1 is taken.
pub open spec fn entry_check(m: MuxerModel, track_id: u32, entry: AudioEntryV1) -> Result<
    (),
    Error,
> {
    let t = m.track(track_id);
    if audio_check(m, track_id) is Err {
        audio_check(m, track_id)
    } else if t.audio_description is QtffV1 {
        Err(Error::Rule("MOV: track already uses a QTFF SoundDescriptionV1; ISO v1 is exclusive"))
    } else {
        match (t.kind, entry.channel_layout) {
            (MuxTrackKind::Audio { channels, .. }, Some(l)) => layout_check(l, channels),
            _ => Ok(()),
        }
    }
}

/// Where a track has no samples.
pub open spec fn no_samples_at(tracks: Seq<TrackWrite>) -> spec_fn(int) -> bool {
    |i: int| tracks[i].samples@.len() == 0
}

/// Whether tracks can be written: there is one, and each has a sample.
pub open spec fn tracks_check(tracks: Seq<TrackWrite>) -> Result<(), Error> {
    let k = first_index(tracks.len(), no_samples_at(tracks));
    if tracks.len() == 0 {
        Err(Error::Rule("MOV muxer: at least one track required"))
    } else if k < tracks.len() {
        Err(Error::Number("MOV muxer: track ", (k + 1) as i128, " has zero samples"))
    } else {
        Ok(())
    }
}

/// The movie resource of a muxer.
pub open spec fn resource_in(m: MuxerModel) -> Seq<u8> {
    movie_resource(m.tracks, m.movie_timescale, m.metadata, m.apple_metadata)
}

/// The file of a muxer: the `ftyp` and `mdat` boxes, and the movie resource behind
/// them, compressed where it is asked for.
pub open spec fn encoded(m: MuxerModel) -> Seq<u8> {
    let resource = resource_in(m);
    file_head(m.tracks) + (if m.compress {
        compressed_atom(compressed(resource))
    } else {
        resource
    })
}

/// Whether a fragmented file can be written: it was said how to cut it, the tracks
/// can be written, and the threshold is not 0.
pub open spec fn fragments_check(m: MuxerModel) -> Result<(), Error> {
    match m.fragmentation {
        None => Err(Error::Rule("MOV muxer: fragmentation policy not set")),
        Some(mode) => if tracks_check(m.tracks) is Err {
            tracks_check(m.tracks)
        } else {
            match mode {
                FragmentationMode::ByDuration(n) => if n == 0 {
                    Err(Error::Rule("MOV muxer: ByDuration threshold must be > 0"))
                } else {
                    Ok(())
                },
                FragmentationMode::ByFrameCount(n) => if n == 0 {
                    Err(Error::Rule("MOV muxer: ByFrameCount threshold must be > 0"))
                } else {
                    Ok(())
                },
            }
        },
    }
}

proof fn lemma_all_have_samples(tracks: Seq<TrackWrite>)
    requires
        tracks_check(tracks) is Ok,
    ensures
        tracks.len() > 0,
        forall|i: int| 0 <= i < tracks.len() ==> (#[trigger] tracks[i]).samples@.len() > 0,
{
    let f = no_samples_at(tracks);
    lemma_first_index(tracks.len(), f);
    assert forall|i: int| 0 <= i < tracks.len() implies (#[trigger] tracks[i]).samples@.len()
        > 0 by {
        assert(!f(i));
    }
}

/// Compression touches neither the `ftyp` box nor the `mdat` box, and what is
/// compressed is the movie resource that is written without compression.
#[verifier::rlimit(40)]
pub proof fn law_compression_keeps_the_file(m: MuxerModel)
    ensures
        ({
            let plain = encoded(MuxerModel { compress: false, ..m });
            let packed = encoded(MuxerModel { compress: true, ..m });
            let head = file_head(m.tracks);
            let resource = plain.subrange(head.len() as int, plain.len() as int);
            &&& head.len() <= plain.len()
            &&& plain.subrange(0, head.len() as int) == head
            &&& packed == head + compressed_atom(compressed(resource))
        }),
{
    let plain = encoded(MuxerModel { compress: false, ..m });
    let head = file_head(m.tracks);
    let resource = resource_in(m);
    assert(plain.subrange(0, head.len() as int) =~= head);
    assert(plain.subrange(head.len() as int, plain.len() as int) =~= resource);
}

impl MovMuxer {
    #[verifier::type_invariant]
    spec fn holds(self) -> bool {
        valid_tracks(self.tracks@)
    }

    /// A muxer with nothing in it, and 600 units per second of the movie.
    pub fn new() -> (r: Self)
        ensures
            r@ == empty_muxer(),
    {
        MovMuxer {
            movie_timescale: 600,
            tracks: Vec::new(),
            fragmentation: None,
            compress_movie_resource: false,
            metadata: Vec::new(),
            apple_metadata: Vec::new(),
        }
    }

    /// Set the units per second of the movie; 0 counts as 1.
    pub fn with_movie_timescale(self, ts: u32) -> (r: Self)
        ensures
            r@ == (MuxerModel {
                movie_timescale: if ts == 0 {
                    1
                } else {
                    ts
                },
                ..self@
            }),
    {
        proof {
            use_type_invariant(&self);
        }
        let movie_timescale: u32 = if ts == 0 {
            1
        } else {
            ts
        };
        MovMuxer { movie_timescale, ..self }
    }

    /// Say how a fragmented file is cut into fragments.
    pub fn with_fragmentation(self, mode: FragmentationMode) -> (r: Self)
        ensures
            r@ == (MuxerModel { fragmentation: Some(mode), ..self@ }),
    {
        proof {
            use_type_invariant(&self);
        }
        MovMuxer { fragmentation: Some(mode), ..self }
    }

    /// How a fragmented file is cut into fragments, if it was said.
    pub fn fragmentation_mode(&self) -> (r: Option<FragmentationMode>)
        ensures
            r == self@.fragmentation,
    {
        self.fragmentation
    }

    /// Say whether the movie resource is written compressed. A fragmented file is
    /// not touched by this.
    pub fn with_compressed_movie_resource(self, compress: bool) -> (r: Self)
        ensures
            r@ == (MuxerModel { compress, ..self@ }),
    {
        proof {
            use_type_invariant(&self);
        }
        MovMuxer { compress_movie_resource: compress, ..self }
    }

    /// Whether the movie resource is written compressed.
    pub fn compresses_movie_resource(&self) -> (r: bool)
        ensures
            r == self@.compress,
    {
        self.compress_movie_resource
    }

    fn take_tracks(&mut self) -> (r: Vec<TrackWrite>)
        ensures
            r@ == old(self)@.tracks,
            final(self)@ == (MuxerModel { tracks: Seq::empty(), ..old(self)@ }),
    {
        let mut tracks: Vec<TrackWrite> = Vec::new();
        std::mem::swap(&mut tracks, &mut self.tracks);
        tracks
    }

    /// Append a track and give its number. A time scale of 0 counts as 1.
    pub fn add_track(
        &mut self,
        kind: MuxTrackKind,
        media_timescale: u32,
        samples: Vec<MuxSample>,
        extra_stsd_atoms: &[u8],
    ) -> (r: u32)
        ensures
            r == low32((old(self)@.tracks.len() + 1) as int),
            final(self)@ == (MuxerModel {
                tracks: old(self)@.tracks.push(final(self)@.tracks.last()),
                ..old(self)@
            }),
            crate::mux_types::is_new_track(
                final(self)@.tracks.last(),
                kind,
                media_timescale,
                samples,
                extra_stsd_atoms@,
            ),
    {
        proof {
            use_type_invariant(&*self);
        }
        let ghost before = self.tracks@;
        let mut tracks = self.take_tracks();
        tracks.push(TrackWrite::new(kind, media_timescale, samples, extra_stsd_atoms));
        let id: u32 = low32_of(tracks.len());
        proof {
            assert forall|i: int| 0 <= i < tracks@.len() implies valid_track(
                #[trigger] tracks@[i],
                tracks@.len(),
            ) by {
                if i < before.len() {
                    assert(valid_track(before[i], before.len()));
                    assert(tracks@[i] == before[i]);
                } else {
                    assert(reference_models(tracks@[i].data_references@).len() == 0);
                    assert(views(tracks@[i].subs@).len() == 0);
                    assert(views(tracks@[i].stsh@).len() == 0);
                }
            }
        }
        self.tracks = tracks;
        id
    }

    fn track_index(&self, track_id: u32, words: &'static str) -> (r: Result<usize, Error>)
        ensures
            match r {
                Ok(i) => self@.has(track_id) && i == track_id - 1,
                Err(e) => !self@.has(track_id) && e == Error::Number(words, track_id as i128, ""),
            },
    {
        if track_id == 0 || (track_id - 1) as usize >= self.tracks.len() {
            return Err(Error::Number(words, track_id as i128, ""));
        }
        Ok((track_id - 1) as usize)
    }

    /// Attach auxiliary information to a track.
    pub fn set_sample_aux(&mut self, track_id: u32, stream: SampleAuxStream) -> (r: Result<
        (),
        Error,
    >)
        ensures
            r == old(self)@.answer(
                track_id,
                "MOV muxer: set_sample_aux unknown track id ",
                aux_check(old(self)@.track(track_id), track_id, stream),
            ),
            final(self)@ == old(self)@.after(
                r,
                track_id,
                TrackWrite { sample_aux: Some(stream), ..old(self)@.track(track_id) },
            ),
    {
        let idx: usize = match self.track_index(
            track_id,
            "MOV muxer: set_sample_aux unknown track id ",
        ) {
            Ok(i) => i,
            Err(e) => {
                return Err(e);
            },
        };
        let want: usize = self.tracks[idx].samples.len();
        if stream.per_sample.len() != want {
            return Err(
                Error::Triple(
                    "MOV muxer: sample-aux stream has ",
                    stream.per_sample.len() as i128,
                    " blobs but track ",
                    track_id as i128,
                    " has ",
                    want as i128,
                    " samples",
                ),
            );
        }
        let ghost f = too_long(stream.per_sample@);
        for i in 0..stream.per_sample.len()
            invariant
                f == too_long(stream.per_sample@),
                *self == *old(self),
                self@.has(track_id),
                idx == track_id - 1,
                want == self@.track(track_id).samples@.len(),
                want == stream.per_sample@.len(),
                forall|k: int| 0 <= k < i ==> !#[trigger] f(k),
        {
            let len: usize = stream.per_sample[i].len();
            if len > 255 {
                proof {
                    lemma_first_index_is(stream.per_sample@.len(), f, i as int);
                }
                return Err(
                    Error::Numbers(
                        "MOV muxer: sample-aux blob ",
                        i as i128,
                        " is ",
                        len as i128,
                        " bytes; saiz size table is u8-wide (max 255)",
                    ),
                );
            }
        }
        proof {
            lemma_first_index_is(stream.per_sample@.len(), f, stream.per_sample@.len() as int);
            use_type_invariant(&*self);
            assert(valid_track(self.tracks@[idx as int], self.tracks@.len()));
            assert forall|i: int| 0 <= i < stream.per_sample@.len() implies (
            #[trigger] stream.per_sample@[i])@.len() <= 255 by {
                assert(!f(i));
            }
        }
        let mut tracks = self.take_tracks();
        tracks[idx].sample_aux = Some(stream);
        self.tracks = tracks;
        Ok(())
    }

    /// Say to which groups the samples of a track belong, in the compact form.
    pub fn add_sample_to_group(
        &mut self,
        track_id: u32,
        assignment: SampleToGroupWrite,
    ) -> (r: Result<(), Error>)
        ensures
            r == old(self)@.answer(
                track_id,
                "MOV muxer: add_sample_to_group unknown track id ",
                group_check(old(self)@.track(track_id), track_id, assignment),
            ),
            r is Ok ==> final(self)@.track(track_id).sample_to_groups@ == put_group(
                old(self)@.track(track_id).sample_to_groups@,
                assignment,
                SampleGroupBoxForm::Compact,
            ),
            final(self)@ == old(self)@.after(
                r,
                track_id,
                TrackWrite {
                    sample_to_groups: final(self)@.track(track_id).sample_to_groups,
                    ..old(self)@.track(track_id)
                },
            ),
    {
        self.add_sample_to_group_with_form(track_id, assignment, SampleGroupBoxForm::Compact)
    }

    /// Say to which groups the samples of a track belong, and in which form it is
    /// written.
    pub fn add_sample_to_group_with_form(
        &mut self,
        track_id: u32,
        assignment: SampleToGroupWrite,
        form: SampleGroupBoxForm,
    ) -> (r: Result<(), Error>)
        ensures
            r == old(self)@.answer(
                track_id,
                "MOV muxer: add_sample_to_group unknown track id ",
                group_check(old(self)@.track(track_id), track_id, assignment),
            ),
            r is Ok ==> final(self)@.track(track_id).sample_to_groups@ == put_group(
                old(self)@.track(track_id).sample_to_groups@,
                assignment,
                form,
            ),
            final(self)@ == old(self)@.after(
                r,
                track_id,
                TrackWrite {
                    sample_to_groups: final(self)@.track(track_id).sample_to_groups,
                    ..old(self)@.track(track_id)
                },
            ),
    {
        let idx: usize = match self.track_index(
            track_id,
            "MOV muxer: add_sample_to_group unknown track id ",
        ) {
            Ok(i) => i,
            Err(e) => {
                return Err(e);
            },
        };
        let want: usize = self.tracks[idx].samples.len();
        if assignment.indices.len() != want {
            return Err(
                Error::Triple(
                    "MOV muxer: sample-to-group has ",
                    assignment.indices.len() as i128,
                    " indices but track ",
                    track_id as i128,
                    " has ",
                    want as i128,
                    " samples",
                ),
            );
        }
        proof {
            use_type_invariant(&*self);
            assert(valid_track(self.tracks@[idx as int], self.tracks@.len()));
        }
        let ghost v = self.tracks@[idx as int].sample_to_groups@;
        let ghost f = group_type_at(v, assignment.grouping_type);
        let mut k: usize = 0;
        while k < self.tracks[idx].sample_to_groups.len() && !same_code(
            &self.tracks[idx].sample_to_groups[k].0.grouping_type,
            &assignment.grouping_type,
        )
            invariant
                idx < self.tracks@.len(),
                v == self.tracks@[idx as int].sample_to_groups@,
                f == group_type_at(v, assignment.grouping_type),
                k <= v.len(),
                forall|j: int| 0 <= j < k ==> !#[trigger] f(j),
            decreases v.len() - k,
        {
            k = k + 1;
        }
        proof {
            lemma_first_index_is(v.len(), f, k as int);
        }
        let ghost before = self.tracks@[idx as int];
        let ghost code = assignment.grouping_type;
        let mut tracks = self.take_tracks();
        if k < tracks[idx].sample_to_groups.len() {
            tracks[idx].sample_to_groups.set(k, (assignment, form));
        } else {
            tracks[idx].sample_to_groups.push((assignment, form));
        }
        proof {
            let w = tracks@[idx as int].sample_to_groups@;
            assert forall|i: int, j: int| 0 <= i < j < w.len() implies (
            #[trigger] w[i]).0.grouping_type != (#[trigger] w[j]).0.grouping_type by {
                if i == k {
                    assert(v[i].0.grouping_type == code);
                } else if j == k {
                    assert(!f(i));
                }
            }
        }
        self.tracks = tracks;
        Ok(())
    }

    /// Describe a kind of sample groups of a track.
    pub fn set_sample_group_description(
        &mut self,
        track_id: u32,
        description: SampleGroupDescriptionWrite,
    ) -> (r: Result<(), Error>)
        ensures
            r == old(self)@.answer(
                track_id,
                "MOV muxer: set_sample_group_description unknown track id ",
                description_check(track_id, description),
            ),
            r is Ok ==> final(self)@.track(track_id).sample_group_descriptions@ == put_description(
                old(self)@.track(track_id).sample_group_descriptions@,
                description,
            ),
            final(self)@ == old(self)@.after(
                r,
                track_id,
                TrackWrite {
                    sample_group_descriptions: final(self)@.track(
                        track_id,
                    ).sample_group_descriptions,
                    ..old(self)@.track(track_id)
                },
            ),
    {
        let idx: usize = match self.track_index(
            track_id,
            "MOV muxer: set_sample_group_description unknown track id ",
        ) {
            Ok(i) => i,
            Err(e) => {
                return Err(e);
            },
        };
        if description.entries.len() == 0 {
            return Err(
                Error::Number(
                    "MOV muxer: sgpd for track ",
                    track_id as i128,
                    " must carry at least one entry",
                ),
            );
        }
        proof {
            use_type_invariant(&*self);
            assert(valid_track(self.tracks@[idx as int], self.tracks@.len()));
        }
        let ghost v = self.tracks@[idx as int].sample_group_descriptions@;
        let ghost f = description_type_at(v, description.grouping_type);
        let mut k: usize = 0;
        while k < self.tracks[idx].sample_group_descriptions.len() && !same_code(
            &self.tracks[idx].sample_group_descriptions[k].grouping_type,
            &description.grouping_type,
        )
            invariant
                idx < self.tracks@.len(),
                v == self.tracks@[idx as int].sample_group_descriptions@,
                f == description_type_at(v, description.grouping_type),
                k <= v.len(),
                forall|j: int| 0 <= j < k ==> !#[trigger] f(j),
            decreases v.len() - k,
        {
            k = k + 1;
        }
        proof {
            lemma_first_index_is(v.len(), f, k as int);
        }
        let ghost code = description.grouping_type;
        let mut tracks = self.take_tracks();
        if k < tracks[idx].sample_group_descriptions.len() {
            tracks[idx].sample_group_descriptions.set(k, description);
        } else {
            tracks[idx].sample_group_descriptions.push(description);
        }
        proof {
            let w = tracks@[idx as int].sample_group_descriptions@;
            assert forall|i: int, j: int| 0 <= i < j < w.len() implies (
            #[trigger] w[i]).grouping_type != (#[trigger] w[j]).grouping_type by {
                if i == k {
                    assert(v[i].grouping_type == code);
                } else if j == k {
                    assert(!f(i));
                }
            }
        }
        self.tracks = tracks;
        Ok(())
    }

    /// Write bounds of composition times that are derived from the samples.
    pub fn auto_cslg(&mut self, track_id: u32) -> (r: Result<(), Error>)
        ensures
            r == old(self)@.answer(
                track_id,
                "MOV muxer: auto_cslg unknown track id ",
                Ok(()),
            ),
            final(self)@ == old(self)@.after(
                r,
                track_id,
                TrackWrite { cslg: Some(CslgWrite::Auto), ..old(self)@.track(track_id) },
            ),
    {
        let idx: usize = match self.track_index(
            track_id,
            "MOV muxer: auto_cslg unknown track id ",
        ) {
            Ok(i) => i,
            Err(e) => {
                return Err(e);
            },
        };
        proof {
            use_type_invariant(&*self);
            assert(valid_track(self.tracks@[idx as int], self.tracks@.len()));
        }
        let mut tracks = self.take_tracks();
        tracks[idx].cslg = Some(CslgWrite::Auto);
        self.tracks = tracks;
        Ok(())
    }

    /// Write these bounds of composition times.
    pub fn set_cslg(&mut self, track_id: u32, cslg: Cslg) -> (r: Result<(), Error>)
        ensures
            r == old(self)@.answer(
                track_id,
                "MOV muxer: set_cslg unknown track id ",
                Ok(()),
            ),
            final(self)@ == old(self)@.after(
                r,
                track_id,
                TrackWrite { cslg: Some(CslgWrite::Explicit(cslg)), ..old(self)@.track(track_id) },
            ),
    {
        let idx: usize = match self.track_index(
            track_id,
            "MOV muxer: set_cslg unknown track id ",
        ) {
            Ok(i) => i,
            Err(e) => {
                return Err(e);
            },
        };
        proof {
            use_type_invariant(&*self);
            assert(valid_track(self.tracks@[idx as int], self.tracks@.len()));
        }
        let mut tracks = self.take_tracks();
        tracks[idx].cslg = Some(CslgWrite::Explicit(cslg));
        self.tracks = tracks;
        Ok(())
    }

    /// Set the packed language of a track.
    pub fn set_track_language(&mut self, track_id: u32, packed_language: u16) -> (r: Result<(), Error>)
        ensures
            r == old(self)@.answer(
                track_id,
                "MOV muxer: set_track_language unknown track id ",
                Ok(()),
            ),
            final(self)@ == old(self)@.after(
                r,
                track_id,
                TrackWrite { media_language: packed_language, ..old(self)@.track(track_id) },
            ),
    {
        let idx: usize = match self.track_index(
            track_id,
            "MOV muxer: set_track_language unknown track id ",
        ) {
            Ok(i) => i,
            Err(e) => {
                return Err(e);
            },
        };
        proof {
            use_type_invariant(&*self);
            assert(valid_track(self.tracks@[idx as int], self.tracks@.len()));
        }
        let mut tracks = self.take_tracks();
        tracks[idx].media_language = packed_language;
        self.tracks = tracks;
        Ok(())
    }

    /// Ask for the compact box of sample sizes.
    pub fn set_compact_sample_size(&mut self, track_id: u32, enable: bool) -> (r: Result<(), Error>)
        ensures
            r == old(self)@.answer(
                track_id,
                "MOV muxer: set_compact_sample_size unknown track id ",
                Ok(()),
            ),
            final(self)@ == old(self)@.after(
                r,
                track_id,
                TrackWrite { compact_sample_size: enable, ..old(self)@.track(track_id) },
            ),
    {
        let idx: usize = match self.track_index(
            track_id,
            "MOV muxer: set_compact_sample_size unknown track id ",
        ) {
            Ok(i) => i,
            Err(e) => {
                return Err(e);
            },
        };
        proof {
            use_type_invariant(&*self);
            assert(valid_track(self.tracks@[idx as int], self.tracks@.len()));
        }
        let mut tracks = self.take_tracks();
        tracks[idx].compact_sample_size = enable;
        self.tracks = tracks;
        Ok(())
    }

    /// Attach load settings to a track, or take them away.
    pub fn set_track_load_settings(&mut self, track_id: u32, load: Option<Load>) -> (r: Result<(), Error>)
        ensures
            r == old(self)@.answer(
                track_id,
                "MOV muxer: set_track_load_settings unknown track id ",
                Ok(()),
            ),
            final(self)@ == old(self)@.after(
                r,
                track_id,
                TrackWrite { load: load, ..old(self)@.track(track_id) },
            ),
    {
        let idx: usize = match self.track_index(
            track_id,
            "MOV muxer: set_track_load_settings unknown track id ",
        ) {
            Ok(i) => i,
            Err(e) => {
                return Err(e);
            },
        };
        proof {
            use_type_invariant(&*self);
            assert(valid_track(self.tracks@[idx as int], self.tracks@.len()));
        }
        let mut tracks = self.take_tracks();
        tracks[idx].load = load;
        self.tracks = tracks;
        Ok(())
    }

    /// Attach a clipping region to a track, or take it away.
    pub fn set_track_clipping(&mut self, track_id: u32, clipping: Option<Clipping>) -> (r: Result<(), Error>)
        ensures
            r == old(self)@.answer(
                track_id,
                "MOV muxer: set_track_clipping unknown track id ",
                Ok(()),
            ),
            final(self)@ == old(self)@.after(
                r,
                track_id,
                TrackWrite { clipping: clipping, ..old(self)@.track(track_id) },
            ),
    {
        let idx: usize = match self.track_index(
            track_id,
            "MOV muxer: set_track_clipping unknown track id ",
        ) {
            Ok(i) => i,
            Err(e) => {
                return Err(e);
            },
        };
        proof {
            use_type_invariant(&*self);
            assert(valid_track(self.tracks@[idx as int], self.tracks@.len()));
        }
        let mut tracks = self.take_tracks();
        tracks[idx].clipping = clipping;
        self.tracks = tracks;
        Ok(())
    }

    /// Attach a matte to a track, or take it away.
    pub fn set_track_matte(&mut self, track_id: u32, matte: Option<Matte>) -> (r: Result<(), Error>)
        ensures
            r == old(self)@.answer(
                track_id,
                "MOV muxer: set_track_matte unknown track id ",
                Ok(()),
            ),
            final(self)@ == old(self)@.after(
                r,
                track_id,
                TrackWrite { matte: matte, ..old(self)@.track(track_id) },
            ),
    {
        let idx: usize = match self.track_index(
            track_id,
            "MOV muxer: set_track_matte unknown track id ",
        ) {
            Ok(i) => i,
            Err(e) => {
                return Err(e);
            },
        };
        proof {
            use_type_invariant(&*self);
            assert(valid_track(self.tracks@[idx as int], self.tracks@.len()));
        }
        let mut tracks = self.take_tracks();
        tracks[idx].matte = matte;
        self.tracks = tracks;
        Ok(())
    }

    /// Attach a track selection to a track, or take it away.
    pub fn set_track_selection(&mut self, track_id: u32, selection: Option<TrackSelection>) -> (r: Result<(), Error>)
        ensures
            r == old(self)@.answer(
                track_id,
                "MOV muxer: set_track_selection unknown track id ",
                Ok(()),
            ),
            final(self)@ == old(self)@.after(
                r,
                track_id,
                TrackWrite { track_selection: selection, ..old(self)@.track(track_id) },
            ),
    {
        let idx: usize = match self.track_index(
            track_id,
            "MOV muxer: set_track_selection unknown track id ",
        ) {
            Ok(i) => i,
            Err(e) => {
                return Err(e);
            },
        };
        proof {
            use_type_invariant(&*self);
            assert(valid_track(self.tracks@[idx as int], self.tracks@.len()));
        }
        let mut tracks = self.take_tracks();
        tracks[idx].track_selection = selection;
        self.tracks = tracks;
        Ok(())
    }

    /// Say of what kinds a track is.
    pub fn set_track_kinds(&mut self, track_id: u32, kinds: &[KindEntry]) -> (r: Result<(), Error>)
        ensures
            r == old(self)@.answer(
                track_id,
                "MOV muxer: set_track_kinds unknown track id ",
                Ok(()),
            ),
            r is Ok ==> views(final(self)@.track(track_id).track_kinds@) == views(kinds@),
            final(self)@ == old(self)@.after(
                r,
                track_id,
                TrackWrite { track_kinds: final(self)@.track(track_id).track_kinds, ..old(self)@.track(track_id) },
            ),
    {
        let idx: usize = match self.track_index(
            track_id,
            "MOV muxer: set_track_kinds unknown track id ",
        ) {
            Ok(i) => i,
            Err(e) => {
                return Err(e);
            },
        };
        proof {
            use_type_invariant(&*self);
            assert(valid_track(self.tracks@[idx as int], self.tracks@.len()));
        }
        let mut tracks = self.take_tracks();
        tracks[idx].track_kinds = duplicate_all(kinds);
        self.tracks = tracks;
        Ok(())
    }

    /// Say to which track groups a track belongs.
    pub fn set_track_groups(&mut self, track_id: u32, groups: &[TrackGroupTypeEntry]) -> (r: Result<(), Error>)
        ensures
            r == old(self)@.answer(
                track_id,
                "MOV muxer: set_track_groups unknown track id ",
                Ok(()),
            ),
            r is Ok ==> views(final(self)@.track(track_id).track_groups@) == views(groups@),
            final(self)@ == old(self)@.after(
                r,
                track_id,
                TrackWrite { track_groups: final(self)@.track(track_id).track_groups, ..old(self)@.track(track_id) },
            ),
    {
        let idx: usize = match self.track_index(
            track_id,
            "MOV muxer: set_track_groups unknown track id ",
        ) {
            Ok(i) => i,
            Err(e) => {
                return Err(e);
            },
        };
        proof {
            use_type_invariant(&*self);
            assert(valid_track(self.tracks@[idx as int], self.tracks@.len()));
        }
        let mut tracks = self.take_tracks();
        tracks[idx].track_groups = duplicate_all(groups);
        self.tracks = tracks;
        Ok(())
    }

    /// Attach user data to a track.
    pub fn set_track_metadata(&mut self, track_id: u32, items: &[MovMetadata]) -> (r: Result<(), Error>)
        ensures
            r == old(self)@.answer(
                track_id,
                "MOV muxer: set_track_metadata unknown track id ",
                Ok(()),
            ),
            r is Ok ==> views(final(self)@.track(track_id).metadata@) == views(items@),
            final(self)@ == old(self)@.after(
                r,
                track_id,
                TrackWrite { metadata: final(self)@.track(track_id).metadata, ..old(self)@.track(track_id) },
            ),
    {
        let idx: usize = match self.track_index(
            track_id,
            "MOV muxer: set_track_metadata unknown track id ",
        ) {
            Ok(i) => i,
            Err(e) => {
                return Err(e);
            },
        };
        proof {
            use_type_invariant(&*self);
            assert(valid_track(self.tracks@[idx as int], self.tracks@.len()));
        }
        let mut tracks = self.take_tracks();
        tracks[idx].metadata = duplicate_all(items);
        self.tracks = tracks;
        Ok(())
    }

    /// Attach keyed metadata to a track.
    pub fn set_track_apple_metadata(&mut self, track_id: u32, items: &[MovMetaItem]) -> (r: Result<(), Error>)
        ensures
            r == old(self)@.answer(
                track_id,
                "MOV muxer: set_track_apple_metadata unknown track id ",
                Ok(()),
            ),
            r is Ok ==> views(final(self)@.track(track_id).apple_metadata@) == views(items@),
            final(self)@ == old(self)@.after(
                r,
                track_id,
                TrackWrite { apple_metadata: final(self)@.track(track_id).apple_metadata, ..old(self)@.track(track_id) },
            ),
    {
        let idx: usize = match self.track_index(
            track_id,
            "MOV muxer: set_track_apple_metadata unknown track id ",
        ) {
            Ok(i) => i,
            Err(e) => {
                return Err(e);
            },
        };
        proof {
            use_type_invariant(&*self);
            assert(valid_track(self.tracks@[idx as int], self.tracks@.len()));
        }
        let mut tracks = self.take_tracks();
        tracks[idx].apple_metadata = duplicate_all(items);
        self.tracks = tracks;
        Ok(())
    }

    /// Attach user data to the movie.
    pub fn set_metadata(&mut self, items: &[MovMetadata])
        ensures
            views(final(self)@.metadata) == views(items@),
            final(self)@ == (MuxerModel { metadata: final(self)@.metadata, ..old(self)@ }),
    {
        proof {
            use_type_invariant(&*self);
        }
        self.metadata = duplicate_all(items);
    }

    /// Attach keyed metadata to the movie.
    pub fn set_apple_metadata(&mut self, items: &[MovMetaItem])
        ensures
            views(final(self)@.apple_metadata) == views(items@),
            final(self)@ == (MuxerModel { apple_metadata: final(self)@.apple_metadata, ..old(self)@ }),
    {
        proof {
            use_type_invariant(&*self);
        }
        self.apple_metadata = duplicate_all(items);
    }

    /// Set the extended language tag of a track; an empty tag takes it away.
    pub fn set_track_extended_language(&mut self, track_id: u32, tag: &str) -> (r: Result<(), Error>)
        ensures
            r == old(self)@.answer(
                track_id,
                "MOV muxer: set_track_extended_language unknown track id ",
                Ok(()),
            ),
            r is Ok ==> (match final(self)@.track(track_id).extended_language {
                Some(t) => tag@.len() > 0 && t@ == tag@,
                None => tag@.len() == 0,
            }),
            final(self)@ == old(self)@.after(
                r,
                track_id,
                TrackWrite { extended_language: final(self)@.track(track_id).extended_language, ..old(self)@.track(track_id) },
            ),
    {
        let idx: usize = match self.track_index(
            track_id,
            "MOV muxer: set_track_extended_language unknown track id ",
        ) {
            Ok(i) => i,
            Err(e) => {
                return Err(e);
            },
        };
        proof {
            use_type_invariant(&*self);
            assert(valid_track(self.tracks@[idx as int], self.tracks@.len()));
        }
        let value = if tag.is_empty() {
            None
        } else {
            Some(tag.to_owned())
        };
        let mut tracks = self.take_tracks();
        tracks[idx].extended_language = value;
        self.tracks = tracks;
        Ok(())
    }

    /// Attach apertures to a video track.
    pub fn set_track_aperture(&mut self, track_id: u32, tapt: Tapt) -> (r: Result<(), Error>)
        ensures
            r == old(self)@.answer(
                track_id,
                "MOV muxer: set_track_aperture unknown track id ",
                aperture_check(old(self)@.track(track_id), track_id, tapt),
            ),
            final(self)@ == old(self)@.after(
                r,
                track_id,
                TrackWrite { tapt: Some(tapt), ..old(self)@.track(track_id) },
            ),
    {
        let idx: usize = match self.track_index(
            track_id,
            "MOV muxer: set_track_aperture unknown track id ",
        ) {
            Ok(i) => i,
            Err(e) => {
                return Err(e);
            },
        };
        match &self.tracks[idx].kind {
            MuxTrackKind::Video { .. } => {},
            _ => {
                return Err(
                    Error::Number(
                        "MOV muxer: set_track_aperture track id ",
                        track_id as i128,
                        " is not a video track (aperture modes apply only to a visual track)",
                    ),
                );
            },
        }
        if tapt.clef.is_none() && tapt.prof.is_none() && tapt.enof.is_none() {
            return Err(
                Error::Rule(
                    "MOV muxer: set_track_aperture given an empty Tapt (no clef/prof/enof rectangle)",
                ),
            );
        }
        proof {
            use_type_invariant(&*self);
            assert(valid_track(self.tracks@[idx as int], self.tracks@.len()));
        }
        let mut tracks = self.take_tracks();
        tracks[idx].tapt = Some(tapt);
        self.tracks = tracks;
        Ok(())
    }

    /// Attach the boxes that decorate a picture to a video track.
    pub fn set_visual_extensions(&mut self, track_id: u32, ext: VisualExtensions) -> (r: Result<(), Error>)
        ensures
            r == old(self)@.answer(
                track_id,
                "MOV muxer: set_visual_extensions unknown track id ",
                kind_check(
                    old(self)@.track(track_id).kind is Video,
                    "MOV muxer: set_visual_extensions on non-video track ",
                    track_id,
                    " (visual extensions are only defined for a visual sample entry)",
                ),
            ),
            final(self)@ == old(self)@.after(
                r,
                track_id,
                TrackWrite { visual_extensions: ext, ..old(self)@.track(track_id) },
            ),
    {
        let idx: usize = match self.track_index(
            track_id,
            "MOV muxer: set_visual_extensions unknown track id ",
        ) {
            Ok(i) => i,
            Err(e) => {
                return Err(e);
            },
        };
        match &self.tracks[idx].kind {
            MuxTrackKind::Video { .. } => {},
            _ => {
                return Err(
                    Error::Number(
                        "MOV muxer: set_visual_extensions on non-video track ",
                        track_id as i128,
                        " (visual extensions are only defined for a visual sample entry)",
                    ),
                );
            },
        }
        proof {
            use_type_invariant(&*self);
            assert(valid_track(self.tracks@[idx as int], self.tracks@.len()));
        }
        let mut tracks = self.take_tracks();
        tracks[idx].visual_extensions = ext;
        self.tracks = tracks;
        Ok(())
    }

    /// Set the generic media information of a time-code or text track.
    pub fn set_track_gmin(&mut self, track_id: u32, gmin: Gmin) -> (r: Result<(), Error>)
        ensures
            r == old(self)@.answer(
                track_id,
                "MOV muxer: set_track_gmin unknown track id ",
                kind_check(
                    old(self)@.track(track_id).kind is Timecode || old(self)@.track(track_id).kind
                        is Text,
                    "MOV muxer: set_track_gmin on track ",
                    track_id,
                    " which carries no gmhd (only a time-code or text track has a Generic Media Information header)",
                ),
            ),
            final(self)@ == old(self)@.after(
                r,
                track_id,
                TrackWrite { gmin: Some(gmin), ..old(self)@.track(track_id) },
            ),
    {
        let idx: usize = match self.track_index(
            track_id,
            "MOV muxer: set_track_gmin unknown track id ",
        ) {
            Ok(i) => i,
            Err(e) => {
                return Err(e);
            },
        };
        match &self.tracks[idx].kind {
            MuxTrackKind::Timecode { .. } => {},
            MuxTrackKind::Text { .. } => {},
            _ => {
                return Err(
                    Error::Number(
                        "MOV muxer: set_track_gmin on track ",
                        track_id as i128,
                        " which carries no gmhd (only a time-code or text track has a Generic Media Information header)",
                    ),
                );
            },
        }
        proof {
            use_type_invariant(&*self);
            assert(valid_track(self.tracks@[idx as int], self.tracks@.len()));
        }
        let mut tracks = self.take_tracks();
        tracks[idx].gmin = Some(gmin);
        self.tracks = tracks;
        Ok(())
    }

    /// Set the matrix of a text track.
    pub fn set_text_header_matrix(&mut self, track_id: u32, matrix: [i32; 9]) -> (r: Result<(), Error>)
        ensures
            r == old(self)@.answer(
                track_id,
                "MOV muxer: set_text_header_matrix unknown track id ",
                kind_check(
                    old(self)@.track(track_id).kind is Text,
                    "MOV muxer: set_text_header_matrix on track ",
                    track_id,
                    " which is not a text track (the gmhd/text header is defined only for a QuickTime text track)",
                ),
            ),
            final(self)@ == old(self)@.after(
                r,
                track_id,
                TrackWrite { text_header_matrix: Some(matrix), ..old(self)@.track(track_id) },
            ),
    {
        let idx: usize = match self.track_index(
            track_id,
            "MOV muxer: set_text_header_matrix unknown track id ",
        ) {
            Ok(i) => i,
            Err(e) => {
                return Err(e);
            },
        };
        match &self.tracks[idx].kind {
            MuxTrackKind::Text { .. } => {},
            _ => {
                return Err(
                    Error::Number(
                        "MOV muxer: set_text_header_matrix on track ",
                        track_id as i128,
                        " which is not a text track (the gmhd/text header is defined only for a QuickTime text track)",
                    ),
                );
            },
        }
        proof {
            use_type_invariant(&*self);
            assert(valid_track(self.tracks@[idx as int], self.tracks@.len()));
        }
        let mut tracks = self.take_tracks();
        tracks[idx].text_header_matrix = Some(matrix);
        self.tracks = tracks;
        Ok(())
    }

    /// Say of each sample of a track what depends on what; an empty list takes it away.
    pub fn set_sample_dependencies(&mut self, track_id: u32, entries: &[SdtpEntry]) -> (r: Result<(), Error>)
        ensures
            r == old(self)@.answer(
                track_id,
                "MOV muxer: set_sample_dependencies unknown track id ",
                table_check(
                    old(self)@.track(track_id),
                    track_id,
                    "MOV muxer: sdtp has ",
                    entries@.len(),
                ),
            ),
            r is Ok ==> final(self)@.track(track_id).sdtp@ == entries@,
            final(self)@ == old(self)@.after(
                r,
                track_id,
                TrackWrite { sdtp: final(self)@.track(track_id).sdtp, ..old(self)@.track(track_id) },
            ),
    {
        let idx: usize = match self.track_index(
            track_id,
            "MOV muxer: set_sample_dependencies unknown track id ",
        ) {
            Ok(i) => i,
            Err(e) => {
                return Err(e);
            },
        };
        let want: usize = self.tracks[idx].samples.len();
        if entries.len() != 0 && entries.len() != want {
            return Err(
                Error::Triple(
                    "MOV muxer: sdtp has ",
                    entries.len() as i128,
                    " rows but track ",
                    track_id as i128,
                    " has ",
                    want as i128,
                    " samples",
                ),
            );
        }
        proof {
            use_type_invariant(&*self);
            assert(valid_track(self.tracks@[idx as int], self.tracks@.len()));
        }
        let mut tracks = self.take_tracks();
        tracks[idx].sdtp = slice_to_vec(entries);
        self.tracks = tracks;
        Ok(())
    }

    /// Give each sample of a track a priority; an empty list takes them away.
    pub fn set_degradation_priorities(&mut self, track_id: u32, priorities: &[u16]) -> (r: Result<(), Error>)
        ensures
            r == old(self)@.answer(
                track_id,
                "MOV muxer: set_degradation_priorities unknown track id ",
                table_check(
                    old(self)@.track(track_id),
                    track_id,
                    "MOV muxer: stdp has ",
                    priorities@.len(),
                ),
            ),
            r is Ok ==> final(self)@.track(track_id).stdp@ == priorities@,
            final(self)@ == old(self)@.after(
                r,
                track_id,
                TrackWrite { stdp: final(self)@.track(track_id).stdp, ..old(self)@.track(track_id) },
            ),
    {
        let idx: usize = match self.track_index(
            track_id,
            "MOV muxer: set_degradation_priorities unknown track id ",
        ) {
            Ok(i) => i,
            Err(e) => {
                return Err(e);
            },
        };
        let want: usize = self.tracks[idx].samples.len();
        if priorities.len() != 0 && priorities.len() != want {
            return Err(
                Error::Triple(
                    "MOV muxer: stdp has ",
                    priorities.len() as i128,
                    " rows but track ",
                    track_id as i128,
                    " has ",
                    want as i128,
                    " samples",
                ),
            );
        }
        proof {
            use_type_invariant(&*self);
            assert(valid_track(self.tracks@[idx as int], self.tracks@.len()));
        }
        let mut tracks = self.take_tracks();
        tracks[idx].stdp = slice_to_vec(priorities);
        self.tracks = tracks;
        Ok(())
    }

    /// Say how many bits at the end of each sample of a track are padding; an empty list
    /// takes it away.
    pub fn set_padding_bits(&mut self, track_id: u32, pads: &[u8]) -> (r: Result<(), Error>)
        ensures
            r == old(self)@.answer(
                track_id,
                "MOV muxer: set_padding_bits unknown track id ",
                pad_check(old(self)@.track(track_id), track_id, pads@),
            ),
            r is Ok ==> final(self)@.track(track_id).padb@ == pads@,
            final(self)@ == old(self)@.after(
                r,
                track_id,
                TrackWrite { padb: final(self)@.track(track_id).padb, ..old(self)@.track(track_id) },
            ),
    {
        let idx: usize = match self.track_index(
            track_id,
            "MOV muxer: set_padding_bits unknown track id ",
        ) {
            Ok(i) => i,
            Err(e) => {
                return Err(e);
            },
        };
        let want: usize = self.tracks[idx].samples.len();
        if pads.len() != 0 && pads.len() != want {
            return Err(
                Error::Triple(
                    "MOV muxer: padb has ",
                    pads.len() as i128,
                    " rows but track ",
                    track_id as i128,
                    " has ",
                    want as i128,
                    " samples",
                ),
            );
        }
        let ghost f = over_seven(pads@);
        for i in 0..pads.len()
            invariant
                f == over_seven(pads@),
                *self == *old(self),
                self@.has(track_id),
                idx == track_id - 1,
                full_or_empty(pads@.len(), self@.track(track_id).samples@.len()),
                forall|k: int| 0 <= k < i ==> !#[trigger] f(k),
        {
            if pads[i] > 7 {
                proof {
                    lemma_first_index_is(pads@.len(), f, i as int);
                }
                return Err(
                    Error::Numbers(
                        "MOV muxer: padb pad value ",
                        pads[i] as i128,
                        " at sample ",
                        i as i128,
                        " exceeds the 3-bit field (max 7)",
                    ),
                );
            }
        }
        proof {
            lemma_first_index_is(pads@.len(), f, pads@.len() as int);
            assert forall|i: int| 0 <= i < pads@.len() implies #[trigger] pads@[i] <= 7 by {
                assert(!f(i));
            }
        }
        proof {
            use_type_invariant(&*self);
            assert(valid_track(self.tracks@[idx as int], self.tracks@.len()));
        }
        let mut tracks = self.take_tracks();
        tracks[idx].padb = slice_to_vec(pads);
        self.tracks = tracks;
        Ok(())
    }

    /// Attach an edit list to a track; an empty list takes it away.
    pub fn set_edit_list(&mut self, track_id: u32, edits: &[MuxEdit]) -> (r: Result<(), Error>)
        ensures
            r == old(self)@.answer(
                track_id,
                "MOV muxer: set_edit_list unknown track id ",
                edit_check(edits@),
            ),
            r is Ok ==> final(self)@.track(track_id).edits@ == edits@,
            final(self)@ == old(self)@.after(
                r,
                track_id,
                TrackWrite { edits: final(self)@.track(track_id).edits, ..old(self)@.track(track_id) },
            ),
    {
        let idx: usize = match self.track_index(
            track_id,
            "MOV muxer: set_edit_list unknown track id ",
        ) {
            Ok(i) => i,
            Err(e) => {
                return Err(e);
            },
        };
        let ghost f = bad_edit_at(edits@);
        for i in 0..edits.len()
            invariant
                f == bad_edit_at(edits@),
                *self == *old(self),
                self@.has(track_id),
                idx == track_id - 1,
                forall|k: int| 0 <= k < i ==> !#[trigger] f(k),
        {
            let time: i64 = edits[i].media_time;
            if time < -1 {
                proof {
                    lemma_first_index_is(edits@.len(), f, i as int);
                }
                return Err(
                    Error::Numbers(
                        "MOV muxer: edit ",
                        i as i128,
                        " has media_time ",
                        time as i128,
                        " (only -1 is a legal negative value: the empty-edit sentinel)",
                    ),
                );
            }
        }
        proof {
            lemma_first_index_is(edits@.len(), f, edits@.len() as int);
            assert forall|i: int| 0 <= i < edits@.len() implies !bad_edit(#[trigger] edits@[i]) by {
                assert(!f(i));
            }
        }
        proof {
            use_type_invariant(&*self);
            assert(valid_track(self.tracks@[idx as int], self.tracks@.len()));
        }
        let mut tracks = self.take_tracks();
        tracks[idx].edits = slice_to_vec(edits);
        self.tracks = tracks;
        Ok(())
    }

    /// Set the data references of a track. Exactly one has to be to this file.
    pub fn set_data_references(&mut self, track_id: u32, references: &[DataReferenceWrite]) -> (r: Result<
        (),
        Error,
    >)
        ensures
            r == old(self)@.answer(
                track_id,
                "MOV muxer: set_data_references unknown track id ",
                self_check(views(references@)),
            ),
            r is Ok ==> views(final(self)@.track(track_id).data_references@) == views(references@),
            final(self)@ == old(self)@.after(
                r,
                track_id,
                TrackWrite { data_references: final(self)@.track(track_id).data_references, ..old(self)@.track(track_id) },
            ),
    {
        let idx: usize = match self.track_index(
            track_id,
            "MOV muxer: set_data_references unknown track id ",
        ) {
            Ok(i) => i,
            Err(e) => {
                return Err(e);
            },
        };
        let ghost m = views(references@);
        let mut count: usize = 0;
        for i in 0..references.len()
            invariant
                m == views(references@),
                count == self_count(m, i as nat),
                count <= i,
        {
            if let DataReferenceWrite::SelfRef = &references[i] {
                count = count + 1;
            }
        }
        if count != 1 {
            return Err(
                Error::Number(
                    "MOV muxer: set_data_references requires exactly one SelfRef entry (the muxer writes samples in-file); got ",
                    count as i128,
                    "",
                ),
            );
        }
        proof {
            use_type_invariant(&*self);
            assert(valid_track(self.tracks@[idx as int], self.tracks@.len()));
        }
        let mut tracks = self.take_tracks();
        tracks[idx].data_references = duplicate_all(references);
        self.tracks = tracks;
        Ok(())
    }

    /// Attach references to other tracks.
    pub fn set_track_references(&mut self, track_id: u32, references: &[TrackReference]) -> (r: Result<
        (),
        Error,
    >)
        ensures
            r == old(self)@.answer(
                track_id,
                "MOV muxer: set_track_references unknown track id ",
                reference_check(views(references@), low32(old(self)@.tracks.len() as int)),
            ),
            r is Ok ==> views(final(self)@.track(track_id).track_references@) == views(references@),
            final(self)@ == old(self)@.after(
                r,
                track_id,
                TrackWrite { track_references: final(self)@.track(track_id).track_references, ..old(self)@.track(track_id) },
            ),
    {
        let idx: usize = match self.track_index(
            track_id,
            "MOV muxer: set_track_references unknown track id ",
        ) {
            Ok(i) => i,
            Err(e) => {
                return Err(e);
            },
        };
        let count: u32 = low32_of(self.tracks.len());
        let ghost m = views(references@);
        let ghost g = bad_row(m, count);
        for i in 0..references.len()
            invariant
                m == views(references@),
                g == bad_row(m, count),
                *self == *old(self),
                self@.has(track_id),
                idx == track_id - 1,
                count == low32(self@.tracks.len() as int),
                forall|k: int| 0 <= k < i ==> !#[trigger] g(k),
        {
            let row = &references[i];
            let ghost f = bad_id_at(row.track_ids@, count);
            assert(m[i as int] == row@);
            for k in 0..row.track_ids.len()
                invariant
                    m == views(references@),
                    g == bad_row(m, count),
                    *self == *old(self),
                    self@.has(track_id),
                    count == low32(self@.tracks.len() as int),
                    i < m.len(),
                    m[i as int] == row@,
                    f == bad_id_at(row.track_ids@, count),
                    forall|j: int| 0 <= j < i ==> !#[trigger] g(j),
                    forall|j: int| 0 <= j < k ==> !#[trigger] f(j),
            {
                let id: u32 = row.track_ids[k];
                if id == 0 || id > count {
                    proof {
                        lemma_first_index_is(row.track_ids@.len(), f, k as int);
                        lemma_first_index_is(m.len(), g, i as int);
                    }
                    return Err(
                        Error::CodeNumbers(
                            "MOV muxer: set_track_references type ",
                            row.reference_type,
                            "????",
                            " references unknown track id ",
                            id as i128,
                            " (1..=",
                            count as i128,
                            " valid)",
                        ),
                    );
                }
            }
            proof {
                lemma_first_index_is(row.track_ids@.len(), f, row.track_ids@.len() as int);
            }
        }
        proof {
            lemma_first_index_is(m.len(), g, m.len() as int);
        }
        let copies = duplicate_all(references);
        proof {
            lemma_references_hold(copies@, count, self.tracks@.len());
        }
        proof {
            use_type_invariant(&*self);
            assert(valid_track(self.tracks@[idx as int], self.tracks@.len()));
        }
        let mut tracks = self.take_tracks();
        tracks[idx].track_references = copies;
        self.tracks = tracks;
        Ok(())
    }

    /// Say which sync samples may stand in for which samples of a track; an empty
    /// list takes it away. The rows are put in order.
    pub fn set_shadow_sync_samples(&mut self, track_id: u32, entries: &[StshEntry]) -> (r: Result<(), Error>)
        ensures
            r == old(self)@.answer(
                track_id,
                "MOV muxer: set_shadow_sync_samples unknown track id ",
                shadow_check(
                    sort_rows(entries@, row_key::<StshEntry>()),
                    low32(old(self)@.track(track_id).samples@.len() as int),
                ),
            ),
            r is Ok ==> final(self)@.track(track_id).stsh@ == sort_rows(
                entries@,
                row_key::<StshEntry>(),
            ),
            final(self)@ == old(self)@.after(
                r,
                track_id,
                TrackWrite { stsh: final(self)@.track(track_id).stsh, ..old(self)@.track(track_id) },
            ),
    {
        let idx: usize = match self.track_index(
            track_id,
            "MOV muxer: set_shadow_sync_samples unknown track id ",
        ) {
            Ok(i) => i,
            Err(e) => {
                return Err(e);
            },
        };
        let want: u32 = low32_of(self.tracks[idx].samples.len());
        let sorted = sort(slice_to_vec(entries));
        let ghost key = row_key::<StshEntry>();
        proof {
            assert(views(entries@) =~= entries@);
            assert(views(sorted@) =~= sorted@);
            law_sorting_puts_in_order(entries@, key);
        }
        if let Some(e) = find_repeat(&sorted) {
            return Err(
                Error::Number(
                    "MOV muxer: stsh duplicate shadowed_sample_number ",
                    e as i128,
                    "",
                ),
            );
        }
        let ghost f = bad_shadow_at(sorted@, want);
        for i in 0..sorted.len()
            invariant
                f == bad_shadow_at(sorted@, want),
                key == row_key::<StshEntry>(),
                views(sorted@) == sorted@,
                no_repeat(sorted@, key),
                sorted@ == sort_rows(entries@, key),
                *self == *old(self),
                self@.has(track_id),
                idx == track_id - 1,
                want == low32(self@.track(track_id).samples@.len() as int),
                forall|k: int| 0 <= k < i ==> !#[trigger] f(k),
        {
            let e = sorted[i];
            if e.shadowed_sample_number == 0 || e.shadowed_sample_number > want {
                proof {
                    lemma_first_index_is(sorted@.len(), f, i as int);
                }
                return Err(
                    Error::Numbers(
                        "MOV muxer: stsh shadowed_sample_number ",
                        e.shadowed_sample_number as i128,
                        " out of range 1..=",
                        want as i128,
                        "",
                    ),
                );
            }
            if e.sync_sample_number == 0 || e.sync_sample_number > want {
                proof {
                    lemma_first_index_is(sorted@.len(), f, i as int);
                }
                return Err(
                    Error::Numbers(
                        "MOV muxer: stsh sync_sample_number ",
                        e.sync_sample_number as i128,
                        " out of range 1..=",
                        want as i128,
                        "",
                    ),
                );
            }
        }
        proof {
            lemma_first_index_is(sorted@.len(), f, sorted@.len() as int);
            lemma_rising(sorted@, key);
            assert forall|i: int| 0 <= i < sorted@.len() implies shadow_within(
                #[trigger] sorted@[i],
                self@.track(track_id).samples@.len(),
            ) by {
                assert(!f(i));
            }
        }
        proof {
            use_type_invariant(&*self);
            assert(valid_track(self.tracks@[idx as int], self.tracks@.len()));
        }
        let mut tracks = self.take_tracks();
        tracks[idx].stsh = sorted;
        self.tracks = tracks;
        Ok(())
    }

    /// Say of which parts samples of a track are made; an empty list takes it away.
    /// The rows are put in order.
    pub fn set_sub_samples(&mut self, track_id: u32, rows: &[SubSampleInfo]) -> (r: Result<(), Error>)
        ensures
            r == old(self)@.answer(
                track_id,
                "MOV muxer: set_sub_samples unknown track id ",
                parts_check(
                    sort_rows(views(rows@), row_key::<SubSampleInfo>()),
                    low32(old(self)@.track(track_id).samples@.len() as int),
                ),
            ),
            r is Ok ==> views(final(self)@.track(track_id).subs@) == sort_rows(
                views(rows@),
                row_key::<SubSampleInfo>(),
            ),
            final(self)@ == old(self)@.after(
                r,
                track_id,
                TrackWrite { subs: final(self)@.track(track_id).subs, ..old(self)@.track(track_id) },
            ),
    {
        let idx: usize = match self.track_index(
            track_id,
            "MOV muxer: set_sub_samples unknown track id ",
        ) {
            Ok(i) => i,
            Err(e) => {
                return Err(e);
            },
        };
        let want: u32 = low32_of(self.tracks[idx].samples.len());
        let sorted = sort(duplicate_all(rows));
        let ghost key = row_key::<SubSampleInfo>();
        let ghost m = sort_rows(views(rows@), key);
        let ghost f = bad_part_at(m, want);
        proof {
            law_sorting_puts_in_order(views(rows@), key);
        }
        for i in 0..sorted.len()
            invariant
                views(sorted@) == m,
                m == sort_rows(views(rows@), key),
                key == row_key::<SubSampleInfo>(),
                f == bad_part_at(m, want),
                *self == *old(self),
                self@.has(track_id),
                idx == track_id - 1,
                want == low32(self@.track(track_id).samples@.len() as int),
                forall|k: int| 0 <= k < i ==> !#[trigger] f(k),
        {
            let n: u32 = sorted[i].sample_number;
            assert(m[i as int] == sorted@[i as int]@);
            if n == 0 || n > want {
                proof {
                    lemma_first_index_is(m.len(), f, i as int);
                }
                return Err(
                    Error::Numbers(
                        "MOV muxer: subs sample_number ",
                        n as i128,
                        " out of range 1..=",
                        want as i128,
                        "",
                    ),
                );
            }
        }
        proof {
            lemma_first_index_is(m.len(), f, m.len() as int);
        }
        if let Some(n) = find_repeat(&sorted) {
            return Err(
                Error::Number("MOV muxer: subs duplicate sample_number ", n as i128, ""),
            );
        }
        proof {
            lemma_rising(m, key);
            assert forall|i: int| 0 <= i < m.len() implies 1 <= (#[trigger] m[i]).0
                <= self@.track(track_id).samples@.len() by {
                assert(!f(i));
            }
        }
        proof {
            use_type_invariant(&*self);
            assert(valid_track(self.tracks@[idx as int], self.tracks@.len()));
        }
        let mut tracks = self.take_tracks();
        tracks[idx].subs = sorted;
        self.tracks = tracks;
        Ok(())
    }

    fn audio_index(&self, track_id: u32) -> (r: Result<usize, Error>)
        ensures
            match r {
                Ok(i) => audio_check(self@, track_id) is Ok && i == track_id - 1 && self@.has(track_id),
                Err(e) => audio_check(self@, track_id) == Err::<(), Error>(e),
            },
    {
        let idx: usize = match self.track_index(track_id, "MOV: unknown track id ") {
            Ok(i) => i,
            Err(e) => {
                return Err(e);
            },
        };
        match &self.tracks[idx].kind {
            MuxTrackKind::Audio { .. } => Ok(idx),
            _ => Err(Error::Number("MOV: track ", track_id as i128, " is not an audio track")),
        }
    }

    /// Describe the sound of an audio track in version 1 of QuickTime.
    pub fn set_sound_description_v1(&mut self, track_id: u32, fields: SoundV1, vbr: bool) -> (r:
        Result<(), Error>)
        ensures
            r == sound_check(old(self)@, track_id),
            final(self)@ == old(self)@.after(
                r,
                track_id,
                TrackWrite {
                    audio_description: AudioDescriptionWrite::QtffV1 { fields, vbr },
                    ..old(self)@.track(track_id)
                },
            ),
    {
        let idx: usize = match self.audio_index(track_id) {
            Ok(i) => i,
            Err(e) => {
                return Err(e);
            },
        };
        if let AudioDescriptionWrite::IsoV1(_) = &self.tracks[idx].audio_description {
            return Err(
                Error::Rule(
                    "MOV: track already uses an ISO AudioSampleEntryV1; QTFF v1 is exclusive",
                ),
            );
        }
        proof {
            use_type_invariant(&*self);
            assert(valid_track(self.tracks@[idx as int], self.tracks@.len()));
        }
        let mut tracks = self.take_tracks();
        tracks[idx].audio_description = AudioDescriptionWrite::QtffV1 { fields, vbr };
        self.tracks = tracks;
        Ok(())
    }

    /// Describe the sound of an audio track in version 1 of the ISO base media file
    /// format.
    pub fn set_audio_entry_v1(&mut self, track_id: u32, entry: AudioEntryV1) -> (r: Result<
        (),
        Error,
    >)
        ensures
            r == entry_check(old(self)@, track_id, entry),
            final(self)@ == old(self)@.after(
                r,
                track_id,
                TrackWrite {
                    audio_description: AudioDescriptionWrite::IsoV1(entry),
                    ..old(self)@.track(track_id)
                },
            ),
    {
        let idx: usize = match self.audio_index(track_id) {
            Ok(i) => i,
            Err(e) => {
                return Err(e);
            },
        };
        if let AudioDescriptionWrite::QtffV1 { .. } = &self.tracks[idx].audio_description {
            return Err(
                Error::Rule(
                    "MOV: track already uses a QTFF SoundDescriptionV1; ISO v1 is exclusive",
                ),
            );
        }
        let channels: u16 = match &self.tracks[idx].kind {
            MuxTrackKind::Audio { channels, .. } => *channels,
            _ => 0,
        };
        if let Some(layout) = &entry.channel_layout {
            match &layout.channels {
                Some(ChannelStructure::Explicit(rows)) => {
                    if rows.len() != channels as usize {
                        return Err(
                            Error::Numbers(
                                "MOV: chnl explicit layout has ",
                                rows.len() as i128,
                                " rows for ",
                                channels as i128,
                                " channels",
                            ),
                        );
                    }
                },
                Some(ChannelStructure::Defined { defined_layout, .. }) => {
                    if *defined_layout == 0 {
                        return Err(
                            Error::Rule(
                                "MOV: chnl definedLayout 0 selects the explicit form; use Explicit",
                            ),
                        );
                    }
                },
                None => {},
            }
        }
        proof {
            use_type_invariant(&*self);
            assert(valid_track(self.tracks@[idx as int], self.tracks@.len()));
        }
        let mut tracks = self.take_tracks();
        tracks[idx].audio_description = AudioDescriptionWrite::IsoV1(entry);
        self.tracks = tracks;
        Ok(())
    }

    fn check_tracks(&self) -> (r: Result<(), Error>)
        ensures
            r == tracks_check(self@.tracks),
    {
        if self.tracks.len() == 0 {
            return Err(Error::Rule("MOV muxer: at least one track required"));
        }
        let ghost f = no_samples_at(self.tracks@);
        for i in 0..self.tracks.len()
            invariant
                f == no_samples_at(self.tracks@),
                forall|k: int| 0 <= k < i ==> !#[trigger] f(k),
        {
            if self.tracks[i].samples.len() == 0 {
                proof {
                    lemma_first_index_is(self.tracks@.len(), f, i as int);
                }
                return Err(
                    Error::Number("MOV muxer: track ", i as i128 + 1, " has zero samples"),
                );
            }
        }
        proof {
            lemma_first_index_is(self.tracks@.len(), f, self.tracks@.len() as int);
        }
        Ok(())
    }

    /// Write the file. The tracks that are written are valid, and a movie resource that is
    /// written compressed expands to the one that is written plain.
    pub fn encode_to_vec(&self) -> (r: Result<Vec<u8>, Error>)
        ensures
            valid_tracks(self@.tracks),
            match r {
                Ok(b) => tracks_check(self@.tracks) is Ok && b@ == encoded(self@),
                Err(e) => tracks_check(self@.tracks) == Err::<(), Error>(e),
            },
            r is Ok && self@.compress && resource_in(self@).len() <= 0xffff_ffff ==> resource_of(
                compressed(resource_in(self@)),
            ) == Ok::<Seq<u8>, Error>(resource_in(self@)),
    {
        proof {
            use_type_invariant(self);
        }
        if let Err(e) = self.check_tracks() {
            return Err(e);
        }
        proof {
            lemma_all_have_samples(self@.tracks);
        }
        let (mut out, resource) = encode_parts(
            &self.tracks,
            self.movie_timescale,
            &self.metadata,
            &self.apple_metadata,
        );
        if self.compress_movie_resource {
            let cmov = compress(resource.as_slice());
            let packed = wrap_compressed(&cmov);
            put_bytes(&mut out, packed.as_slice());
        } else {
            put_bytes(&mut out, resource.as_slice());
        }
        Ok(out)
    }

    /// Write the fragmented file. The tracks that are written are valid.
    pub fn encode_fragmented_to_vec(&self) -> (r: Result<Vec<u8>, Error>)
        ensures
            valid_tracks(self@.tracks),
            match r {
                Ok(b) => fragments_check(self@) is Ok && b@ == fragmented_file(
                    self@.tracks,
                    self@.movie_timescale,
                    self@.fragmentation->Some_0,
                ),
                Err(e) => fragments_check(self@) == Err::<(), Error>(e),
            },
    {
        proof {
            use_type_invariant(self);
        }
        let mode = match self.fragmentation {
            Some(mode) => mode,
            None => {
                return Err(Error::Rule("MOV muxer: fragmentation policy not set"));
            },
        };
        if let Err(e) = self.check_tracks() {
            return Err(e);
        }
        match mode {
            FragmentationMode::ByDuration(n) => {
                if n == 0 {
                    return Err(Error::Rule("MOV muxer: ByDuration threshold must be > 0"));
                }
            },
            FragmentationMode::ByFrameCount(n) => {
                if n == 0 {
                    return Err(Error::Rule("MOV muxer: ByFrameCount threshold must be > 0"));
                }
            },
        }
        proof {
            lemma_all_have_samples(self@.tracks);
            assert forall|i: int| 0 <= i < self@.tracks.len() implies ((
            #[trigger] self@.tracks[i]).sample_aux matches Some(a) ==> a.per_sample@.len()
                == self@.tracks[i].samples@.len()) by {
                assert(valid_track(self@.tracks[i], self@.tracks.len()));
            }
        }
        Ok(encode_fragments(&self.tracks, self.movie_timescale, mode))
    }
}

} // verus!
