//! What a movie is written from: samples, tracks and everything that can be
//! attached to them.
use crate::bytes::{empty_left, i16_be, i32_be, put_i16, put_i32, put_u8};
use crate::header::Hmhd;
use crate::kind::KindEntry;
use crate::matte::Matte;
use crate::media_meta::{Clap, ColorParameters, Cslg, Fiel, Pasp, Tapt};
use crate::metadata_sample::{MetadataSampleEntry, SimpleTextSampleEntry, SubtitleSampleEntry};
use crate::parts::{
    ChannelLayout, Clipping, Gmin, Load, SdtpEntry, SoundV1, StshEntry, SubSampleInfo, Tcmi,
    TextSampleDescription, Tmcd, TrackGroupTypeEntry, TrackSelection,
};
use crate::rows::Duplicate;
use crate::text::utf8;
use vstd::prelude::*;
use vstd::slice::slice_to_vec;

verus! {

/// One sample of a track.
#[derive(Clone, Debug, Default)]
pub struct MuxSample {
    pub data: Vec<u8>,
    /// Duration in units of the time scale of the media.
    pub duration: u32,
    /// Whether decoding can start here.
    pub keyframe: bool,
    /// Presentation time less decode time.
    pub composition_offset: i32,
}

/// Auxiliary information: a few bytes for each sample, stored outside it.
#[derive(Clone, Debug)]
pub struct SampleAuxStream {
    /// What the information is, if it is said.
    pub aux_info_type: Option<[u8; 4]>,
    /// Written only where the type is said.
    pub aux_info_type_parameter: u32,
    /// The bytes for each sample.
    pub per_sample: Vec<Vec<u8>>,
}

/// To which group description each sample belongs.
#[derive(Clone, Debug)]
pub struct SampleToGroupWrite {
    pub grouping_type: [u8; 4],
    pub grouping_type_parameter: Option<u32>,
    /// The number of the description for each sample, counted from 1; 0 is none.
    pub indices: Vec<u32>,
}

/// Which box says to which group samples belong.
#[derive(Clone, Copy, Debug, PartialEq, Eq)]
pub enum SampleGroupBoxForm {
    /// `csgp`, in as few bits as the numbers need.
    Compact,
    /// `sbgp`, in 32 bits per number.
    Classic,
}

impl Default for SampleGroupBoxForm {
    fn default() -> (r: Self)
        ensures
            r is Compact,
    {
        SampleGroupBoxForm::Compact
    }
}

/// Descriptions of groups of samples.
#[derive(Clone, Debug)]
pub struct SampleGroupDescriptionWrite {
    pub grouping_type: [u8; 4],
    /// The descriptions; the first has the number 1.
    pub entries: Vec<Vec<u8>>,
}

/// Whether the number of leading samples is known in the top bit, and the number in the
/// seven bits below.
pub open spec fn rap_byte(num_leading_samples_known: bool, num_leading_samples: u8) -> u8 {
    ((if num_leading_samples_known {
        0x80int
    } else {
        0
    }) + num_leading_samples % 0x80) as u8
}

/// Whether samples depend on others in the top bit, and the type of access point in the low
/// four bits.
pub open spec fn sap_byte(dependent_flag: bool, sap_type: u8) -> u8 {
    ((if dependent_flag {
        0x80int
    } else {
        0
    }) + sap_type % 0x10) as u8
}

impl SampleGroupDescriptionWrite {
    /// Descriptions of a grouping.
    pub fn new(grouping_type: [u8; 4], entries: Vec<Vec<u8>>) -> (r: Self)
        ensures
            r == (SampleGroupDescriptionWrite { grouping_type, entries }),
    {
        SampleGroupDescriptionWrite { grouping_type, entries }
    }

    /// A description for `roll`: how many samples to recover.
    pub fn roll_entry(roll_distance: i16) -> (r: Vec<u8>)
        ensures
            r@ == i16_be(roll_distance),
    {
        broadcast use empty_left;

        let mut out: Vec<u8> = Vec::new();
        put_i16(&mut out, roll_distance);
        out
    }

    /// A description for `prol`: how many samples to preroll.
    pub fn prol_entry(roll_distance: i16) -> (r: Vec<u8>)
        ensures
            r@ == i16_be(roll_distance),
    {
        broadcast use empty_left;

        let mut out: Vec<u8> = Vec::new();
        put_i16(&mut out, roll_distance);
        out
    }

    /// A description for `rap `: whether the number of leading samples is known,
    /// and the number in seven bits.
    pub fn rap_entry(num_leading_samples_known: bool, num_leading_samples: u8) -> (r: Vec<u8>)
        ensures
            r@ == seq![rap_byte(num_leading_samples_known, num_leading_samples)],
    {
        broadcast use empty_left;

        let mut out: Vec<u8> = Vec::new();
        let low: u8 = num_leading_samples % 0x80;
        put_u8(&mut out, if num_leading_samples_known {
            0x80 + low
        } else {
            low
        });
        out
    }

    /// A description for `tele`: whether the level can be decoded on its own.
    pub fn tele_entry(level_independently_decodable: bool) -> (r: Vec<u8>)
        ensures
            r@ == seq![
                if level_independently_decodable {
                    0x80u8
                } else {
                    0u8
                },
            ],
    {
        broadcast use empty_left;

        let mut out: Vec<u8> = Vec::new();
        put_u8(&mut out, if level_independently_decodable {
            0x80
        } else {
            0
        });
        out
    }

    /// A description for `sap `: whether samples depend on others, and the type of
    /// access point in four bits.
    pub fn sap_entry(dependent_flag: bool, sap_type: u8) -> (r: Vec<u8>)
        ensures
            r@ == seq![sap_byte(dependent_flag, sap_type)],
    {
        broadcast use empty_left;

        let mut out: Vec<u8> = Vec::new();
        let low: u8 = sap_type % 0x10;
        put_u8(&mut out, if dependent_flag {
            0x80 + low
        } else {
            low
        });
        out
    }
}

/// Where the bounds in a `cslg` box come from.
#[derive(Clone, Copy, Debug)]
pub enum CslgWrite {
    /// From the samples.
    Auto,
    /// From the caller.
    Explicit(Cslg),
}

/// One segment of an edit list.
#[derive(Clone, Copy, Debug)]
pub struct MuxEdit {
    /// Duration in units of the time scale of the movie.
    pub track_duration: u64,
    /// Start in the media, in units of its time scale; -1 presents nothing.
    pub media_time: i64,
    /// Rate, 16.16 fixed point.
    pub media_rate: i32,
}

impl MuxEdit {
    /// A segment at normal rate.
    pub fn segment(track_duration: u64, media_time: i64) -> (r: Self)
        ensures
            r == (MuxEdit { track_duration, media_time, media_rate: 0x1_0000 }),
    {
        MuxEdit { track_duration, media_time, media_rate: 0x1_0000 }
    }

    /// A segment that presents nothing.
    pub fn empty(track_duration: u64) -> (r: Self)
        ensures
            r == (MuxEdit { track_duration, media_time: (-1) as i64, media_rate: 0x1_0000 }),
    {
        MuxEdit { track_duration, media_time: -1, media_rate: 0x1_0000 }
    }
}

/// What a version 1 audio sample entry adds.
#[derive(Clone, Debug, Default)]
pub struct AudioEntryV1 {
    /// The sampling rate, if a `srat` box is to say it.
    pub sampling_rate: Option<u32>,
    /// The channel layout, if a `chnl` box is to say it.
    pub channel_layout: Option<ChannelLayout>,
}

/// The form of an audio sample description.
#[derive(Clone, Debug)]
pub enum AudioDescriptionWrite {
    /// Version 0.
    V0,
    /// Version 1 of QuickTime; `vbr` says that samples are frames of variable
    /// length.
    QtffV1 { fields: SoundV1, vbr: bool },
    /// Version 1 of the ISO base media file format.
    IsoV1(AudioEntryV1),
}

/// What an item of user data holds.
#[derive(Debug, PartialEq, Eq)]
pub enum MetaPayload {
    /// Text in one language, in an atom with the texts of other languages.
    IntlText { language: u16, text: String },
    /// UTF-8 text in an atom of its own.
    PlainUtf8 { language: u16, text: String },
    /// Bytes.
    Raw(Vec<u8>),
}

/// An item of user data.
#[derive(Debug, PartialEq, Eq)]
pub struct MovMetadata {
    pub fourcc: [u8; 4],
    pub payload: MetaPayload,
}

/// What an item of user data holds.
pub enum UserDataModel {
    IntlText { language: u16, text: Seq<u8> },
    PlainUtf8 { language: u16, text: Seq<u8> },
    Raw(Seq<u8>),
}

/// The payload with its text as UTF-8 bytes.
pub open spec fn payload_model(p: MetaPayload) -> UserDataModel {
    match p {
        MetaPayload::IntlText { language, text } => UserDataModel::IntlText {
            language,
            text: utf8(text@),
        },
        MetaPayload::PlainUtf8 { language, text } => UserDataModel::PlainUtf8 {
            language,
            text: utf8(text@),
        },
        MetaPayload::Raw(b) => UserDataModel::Raw(b@),
    }
}

impl View for MovMetadata {
    type V = ([u8; 4], UserDataModel);

    open spec fn view(&self) -> ([u8; 4], UserDataModel) {
        (self.fourcc, payload_model(self.payload))
    }
}

impl Duplicate for MovMetadata {
    fn duplicate(&self) -> (r: Self) {
        self.clone()
    }
}

impl Clone for MovMetadata {
    fn clone(&self) -> (r: Self)
        ensures
            r@ == self@,
    {
        MovMetadata {
            fourcc: self.fourcc,
            payload: match &self.payload {
                MetaPayload::IntlText { language, text } => MetaPayload::IntlText {
                    language: *language,
                    text: text.clone(),
                },
                MetaPayload::PlainUtf8 { language, text } => MetaPayload::PlainUtf8 {
                    language: *language,
                    text: text.clone(),
                },
                MetaPayload::Raw(b) => MetaPayload::Raw(slice_to_vec(b.as_slice())),
            },
        }
    }
}

/// Three letters packed in five bits each. Letters `a` to `z` become 1 to 26.
pub open spec fn packed_language(tag: Seq<u8>) -> u16 {
    ((tag[0] % 32) * 1024 + (tag[1] % 32) * 32 + tag[2] % 32) as u16
}

impl MovMetadata {
    /// Text in a language, in an atom that may hold texts in several.
    pub fn intl_text(fourcc: [u8; 4], language: u16, text: &str) -> (r: Self)
        ensures
            r@ == (fourcc, UserDataModel::IntlText { language, text: utf8(text@) }),
    {
        MovMetadata {
            fourcc,
            payload: MetaPayload::IntlText { language, text: text.to_owned() },
        }
    }

    /// UTF-8 text in a language, in an atom of its own.
    pub fn plain_utf8(fourcc: [u8; 4], language: u16, text: &str) -> (r: Self)
        ensures
            r@ == (fourcc, UserDataModel::PlainUtf8 { language, text: utf8(text@) }),
    {
        MovMetadata {
            fourcc,
            payload: MetaPayload::PlainUtf8 { language, text: text.to_owned() },
        }
    }

    /// Bytes under a code.
    pub fn raw(fourcc: [u8; 4], bytes: Vec<u8>) -> (r: Self)
        ensures
            r@ == (fourcc, UserDataModel::Raw(bytes@)),
    {
        MovMetadata { fourcc, payload: MetaPayload::Raw(bytes) }
    }

    /// A three-letter language tag in five bits per letter.
    pub fn iso_language(tag: [u8; 3]) -> (r: u16)
        ensures
            r == packed_language(tag@),
    {
        (tag[0] % 32) as u16 * 1024 + (tag[1] % 32) as u16 * 32 + (tag[2] % 32) as u16
    }
}

/// Marks the text of an item as UTF-8.
pub const UTF8_INTL_TEXT_FLAG: u16 = 0x8000;

/// The value is UTF-8 text.
pub const META_TYPE_UTF8: u32 = 1;

/// The value is a big-endian signed integer.
pub const META_TYPE_BE_SIGNED_INT: u32 = 21;

/// The value is a big-endian unsigned integer.
pub const META_TYPE_BE_UNSIGNED_INT: u32 = 22;

/// The value is bytes.
pub const META_TYPE_RAW: u32 = 0;

/// The namespace of keys (`mdta`).
pub const META_NAMESPACE_MDTA: [u8; 4] = [0x6d, 0x64, 0x74, 0x61];

/// A key with its value.
#[derive(Debug, PartialEq, Eq)]
pub struct MovMetaItem {
    pub namespace: [u8; 4],
    pub key: String,
    pub type_code: u32,
    pub value: Vec<u8>,
}

/// What a key with its value holds.
pub struct MetaItemModel {
    pub namespace: [u8; 4],
    pub key: Seq<char>,
    pub type_code: u32,
    pub value: Seq<u8>,
}

impl View for MovMetaItem {
    type V = MetaItemModel;

    open spec fn view(&self) -> MetaItemModel {
        MetaItemModel {
            namespace: self.namespace,
            key: self.key@,
            type_code: self.type_code,
            value: self.value@,
        }
    }
}

impl Duplicate for MovMetaItem {
    fn duplicate(&self) -> (r: Self) {
        self.clone()
    }
}

impl Clone for MovMetaItem {
    fn clone(&self) -> (r: Self)
        ensures
            r@ == self@,
    {
        MovMetaItem {
            namespace: self.namespace,
            key: self.key.clone(),
            type_code: self.type_code,
            value: slice_to_vec(self.value.as_slice()),
        }
    }
}

impl MovMetaItem {
    /// A text.
    pub fn utf8(key: &str, text: &str) -> (r: Self)
        ensures
            r@ == (MetaItemModel {
                namespace: META_NAMESPACE_MDTA,
                key: key@,
                type_code: META_TYPE_UTF8,
                value: crate::text::utf8(text@),
            }),
    {
        MovMetaItem {
            namespace: META_NAMESPACE_MDTA,
            key: key.to_owned(),
            type_code: META_TYPE_UTF8,
            value: slice_to_vec(text.as_bytes()),
        }
    }

    /// A signed integer, in four bytes.
    pub fn signed_int(key: &str, value: i32) -> (r: Self)
        ensures
            r@ == (MetaItemModel {
                namespace: META_NAMESPACE_MDTA,
                key: key@,
                type_code: META_TYPE_BE_SIGNED_INT,
                value: i32_be(value),
            }),
    {
        broadcast use empty_left;

        let mut bytes: Vec<u8> = Vec::new();
        put_i32(&mut bytes, value);
        MovMetaItem {
            namespace: META_NAMESPACE_MDTA,
            key: key.to_owned(),
            type_code: META_TYPE_BE_SIGNED_INT,
            value: bytes,
        }
    }

    /// Any value.
    pub fn typed(namespace: [u8; 4], key: &str, type_code: u32, bytes: Vec<u8>) -> (r: Self)
        ensures
            r@ == (MetaItemModel { namespace, key: key@, type_code, value: bytes@ }),
    {
        MovMetaItem { namespace, key: key.to_owned(), type_code, value: bytes }
    }

    /// The namespace of the key.
    pub fn namespace(&self) -> (r: [u8; 4])
        ensures
            r == self@.namespace,
    {
        self.namespace
    }

    /// The name of the key.
    pub fn key(&self) -> (r: &str)
        ensures
            r@ == self@.key,
    {
        self.key.as_str()
    }

    /// The type of the value.
    pub fn type_code(&self) -> (r: u32)
        ensures
            r == self@.type_code,
    {
        self.type_code
    }

    /// The value.
    pub fn value(&self) -> (r: &[u8])
        ensures
            r@ == self@.value,
    {
        self.value.as_slice()
    }
}

/// What kind of track it is, with what its sample description needs.
#[derive(Clone, Debug)]
#[allow(inconsistent_fields)]
pub enum MuxTrackKind {
    Video { format: [u8; 4], width: u16, height: u16 },
    Audio { format: [u8; 4], channels: u16, bits_per_sample: u16, sample_rate: u32 },
    /// Time codes.
    Timecode { description: Tmcd, tcmi: Tcmi },
    /// QuickTime text, such as chapter titles.
    Text { description: TextSampleDescription },
    /// Timed metadata.
    Metadata { description: MetadataSampleEntry },
    Subtitle { description: SubtitleSampleEntry },
    /// Timed text.
    SimpleText { description: SimpleTextSampleEntry },
    /// Packets of a streaming protocol.
    Hint { protocol: [u8; 4], description: Vec<u8>, hmhd: Hmhd },
}

/// Boxes that decorate a visual sample description.
#[derive(Clone, Debug, PartialEq, Eq)]
pub struct VisualExtensions {
    pub pasp: Option<Pasp>,
    pub colr: Option<ColorParameters>,
    pub clap: Option<Clap>,
    pub fiel: Option<Fiel>,
    /// Gamma, 16.16 fixed point.
    pub gamma: Option<u32>,
}

/// No box at all.
pub open spec fn no_extensions() -> VisualExtensions {
    VisualExtensions { pasp: None, colr: None, clap: None, fiel: None, gamma: None }
}

impl Default for VisualExtensions {
    fn default() -> (r: Self)
        ensures
            r == no_extensions(),
    {
        VisualExtensions { pasp: None, colr: None, clap: None, fiel: None, gamma: None }
    }
}

impl VisualExtensions {
    /// Whether there is no box at all.
    pub fn is_empty(&self) -> (r: bool)
        ensures
            r == (*self == no_extensions()),
    {
        self.pasp.is_none() && self.colr.is_none() && self.clap.is_none() && self.fiel.is_none()
            && self.gamma.is_none()
    }
}

/// The language "undetermined", packed.
pub const MDHD_LANGUAGE_UND: u16 = 0x55C4;

/// References from a track to others.
#[derive(Debug, PartialEq, Eq)]
pub struct TrackReference {
    /// What the references are for.
    pub reference_type: [u8; 4],
    /// The tracks, by number.
    pub track_ids: Vec<u32>,
}

impl View for TrackReference {
    type V = ([u8; 4], Seq<u32>);

    open spec fn view(&self) -> ([u8; 4], Seq<u32>) {
        (self.reference_type, self.track_ids@)
    }
}

impl Duplicate for TrackReference {
    fn duplicate(&self) -> (r: Self) {
        self.clone()
    }
}

impl Clone for TrackReference {
    fn clone(&self) -> (r: Self)
        ensures
            r@ == self@,
    {
        TrackReference {
            reference_type: self.reference_type,
            track_ids: slice_to_vec(self.track_ids.as_slice()),
        }
    }
}

impl TrackReference {
    /// A reference to one track.
    pub fn to(reference_type: [u8; 4], track_id: u32) -> (r: Self)
        ensures
            r.reference_type == reference_type,
            r.track_ids@ == seq![track_id],
    {
        let mut track_ids: Vec<u32> = Vec::new();
        track_ids.push(track_id);
        assert(track_ids@ =~= seq![track_id]);
        TrackReference { reference_type, track_ids }
    }

    /// A reference to a track of chapter titles.
    pub fn chapter(text_track_id: u32) -> (r: Self)
        ensures
            r.reference_type == crate::fourcc::CHAP,
            r.track_ids@ == seq![text_track_id],
    {
        TrackReference::to(crate::fourcc::CHAP, text_track_id)
    }

    /// A reference to a track of time codes.
    pub fn timecode(timecode_track_id: u32) -> (r: Self)
        ensures
            r.reference_type == crate::fourcc::TMCD,
            r.track_ids@ == seq![timecode_track_id],
    {
        TrackReference::to(crate::fourcc::TMCD, timecode_track_id)
    }
}

/// Where media may lie.
#[derive(Debug, PartialEq, Eq)]
pub enum DataReferenceWrite {
    /// In this file.
    SelfRef,
    /// At a URL.
    Url(String),
    /// At a URN, with a location that may be empty.
    Urn { name: String, location: String },
}

/// What a data reference holds.
pub enum DataReferenceModel {
    SelfRef,
    Url(Seq<char>),
    Urn { name: Seq<char>, location: Seq<char> },
}

impl View for DataReferenceWrite {
    type V = DataReferenceModel;

    open spec fn view(&self) -> DataReferenceModel {
        match *self {
            DataReferenceWrite::SelfRef => DataReferenceModel::SelfRef,
            DataReferenceWrite::Url(u) => DataReferenceModel::Url(u@),
            DataReferenceWrite::Urn { name, location } => DataReferenceModel::Urn {
                name: name@,
                location: location@,
            },
        }
    }
}

impl Duplicate for DataReferenceWrite {
    fn duplicate(&self) -> (r: Self) {
        self.clone()
    }
}

impl Clone for DataReferenceWrite {
    fn clone(&self) -> (r: Self)
        ensures
            r@ == self@,
    {
        match self {
            DataReferenceWrite::SelfRef => DataReferenceWrite::SelfRef,
            DataReferenceWrite::Url(u) => DataReferenceWrite::Url(u.clone()),
            DataReferenceWrite::Urn { name, location } => DataReferenceWrite::Urn {
                name: name.clone(),
                location: location.clone(),
            },
        }
    }
}

/// When a fragment is closed.
#[derive(Clone, Copy, Debug)]
pub enum FragmentationMode {
    /// Once the first track has so many units of its time scale in it.
    ByDuration(u64),
    /// Once the first track has so many samples in it.
    ByFrameCount(u32),
}

/// A track and everything that is attached to it.
pub struct TrackWrite {
    pub kind: MuxTrackKind,
    /// Units per second of the media.
    pub media_timescale: u32,
    pub samples: Vec<MuxSample>,
    /// Atoms behind the fixed fields of the sample description.
    pub extra_stsd_atoms: Vec<u8>,
    pub sample_aux: Option<SampleAuxStream>,
    pub sample_to_groups: Vec<(SampleToGroupWrite, SampleGroupBoxForm)>,
    pub sample_group_descriptions: Vec<SampleGroupDescriptionWrite>,
    pub cslg: Option<CslgWrite>,
    pub edits: Vec<MuxEdit>,
    pub metadata: Vec<MovMetadata>,
    pub apple_metadata: Vec<MovMetaItem>,
    pub visual_extensions: VisualExtensions,
    pub track_references: Vec<TrackReference>,
    pub tapt: Option<Tapt>,
    pub data_references: Vec<DataReferenceWrite>,
    pub media_language: u16,
    pub extended_language: Option<String>,
    pub gmin: Option<Gmin>,
    pub text_header_matrix: Option<[i32; 9]>,
    pub compact_sample_size: bool,
    pub sdtp: Vec<SdtpEntry>,
    pub stdp: Vec<u16>,
    pub padb: Vec<u8>,
    pub stsh: Vec<StshEntry>,
    pub subs: Vec<SubSampleInfo>,
    pub load: Option<Load>,
    pub clipping: Option<Clipping>,
    pub matte: Option<Matte>,
    pub track_kinds: Vec<KindEntry>,
    pub track_selection: Option<TrackSelection>,
    pub track_groups: Vec<TrackGroupTypeEntry>,
    pub audio_description: AudioDescriptionWrite,
}

/// A track with nothing attached to it.
pub open spec fn bare_track(t: TrackWrite) -> bool {
    &&& t.sample_aux is None
    &&& t.sample_to_groups@.len() == 0
    &&& t.sample_group_descriptions@.len() == 0
    &&& t.cslg is None
    &&& t.edits@.len() == 0
    &&& t.metadata@.len() == 0
    &&& t.apple_metadata@.len() == 0
    &&& t.visual_extensions == no_extensions()
    &&& t.track_references@.len() == 0
    &&& t.tapt is None
    &&& t.data_references@.len() == 0
    &&& t.media_language == MDHD_LANGUAGE_UND
    &&& t.extended_language is None
    &&& t.gmin is None
    &&& t.text_header_matrix is None
    &&& !t.compact_sample_size
    &&& t.sdtp@.len() == 0
    &&& t.stdp@.len() == 0
    &&& t.padb@.len() == 0
    &&& t.stsh@.len() == 0
    &&& t.subs@.len() == 0
    &&& t.load is None
    &&& t.clipping is None
    &&& t.matte is None
    &&& t.track_kinds@.len() == 0
    &&& t.track_selection is None
    &&& t.track_groups@.len() == 0
    &&& t.audio_description is V0
}

/// A track of a kind with its samples and nothing attached to it. A time scale of 0
/// counts as 1.
pub open spec fn is_new_track(
    t: TrackWrite,
    kind: MuxTrackKind,
    media_timescale: u32,
    samples: Vec<MuxSample>,
    extra_stsd_atoms: Seq<u8>,
) -> bool {
    &&& bare_track(t)
    &&& t.kind == kind
    &&& t.media_timescale == (if media_timescale == 0 {
        1
    } else {
        media_timescale
    })
    &&& t.samples == samples
    &&& t.extra_stsd_atoms@ == extra_stsd_atoms
}

impl TrackWrite {
    /// A track with nothing attached to it. A time scale of 0 counts as 1.
    pub fn new(
        kind: MuxTrackKind,
        media_timescale: u32,
        samples: Vec<MuxSample>,
        extra_stsd_atoms: &[u8],
    ) -> (r: Self)
        ensures
            is_new_track(r, kind, media_timescale, samples, extra_stsd_atoms@),
    {
        TrackWrite {
            kind,
            media_timescale: if media_timescale == 0 {
                1
            } else {
                media_timescale
            },
            samples,
            extra_stsd_atoms: slice_to_vec(extra_stsd_atoms),
            sample_aux: None,
            sample_to_groups: Vec::new(),
            sample_group_descriptions: Vec::new(),
            cslg: None,
            edits: Vec::new(),
            metadata: Vec::new(),
            apple_metadata: Vec::new(),
            visual_extensions: VisualExtensions::default(),
            track_references: Vec::new(),
            tapt: None,
            data_references: Vec::new(),
            media_language: MDHD_LANGUAGE_UND,
            extended_language: None,
            gmin: None,
            text_header_matrix: None,
            compact_sample_size: false,
            sdtp: Vec::new(),
            stdp: Vec::new(),
            padb: Vec::new(),
            stsh: Vec::new(),
            subs: Vec::new(),
            load: None,
            clipping: None,
            matte: None,
            track_kinds: Vec::new(),
            track_selection: None,
            track_groups: Vec::new(),
            audio_description: AudioDescriptionWrite::V0,
        }
    }
}

} // verus!
