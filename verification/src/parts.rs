//! Small parts that a track is written with.
//!
//! Of some atoms only the finished body is carried here: [`Tmcd`], [`Tcmi`],
//! [`TextSampleDescription`], [`Clipping`], [`TrackSelection`] and
//! [`TrackGroupTypeEntry`] hold the bytes that go on disk.
use crate::atom::{atom, push_atom};
use crate::bytes::{
    cat, empty_left, i16_be, put_i16, put_u16, put_u32, put_u64, put_u8, u16_be, u32_be, u64_be,
};
use crate::rows::{Duplicate, Keyed};
use vstd::prelude::*;
use vstd::slice::slice_to_vec;

verus! {

/// A time-code sample description, as the body behind the header that all
/// sample descriptions share.
#[derive(Clone, Debug, Default, PartialEq, Eq)]
pub struct Tmcd {
    pub body: Vec<u8>,
}

/// The body of a time-code media information atom (`tcmi`).
#[derive(Clone, Debug, Default, PartialEq, Eq)]
pub struct Tcmi {
    pub body: Vec<u8>,
}

/// A text sample description, as the body behind the header that all sample
/// descriptions share.
#[derive(Clone, Debug, Default, PartialEq, Eq)]
pub struct TextSampleDescription {
    pub body: Vec<u8>,
}

/// The body of a clipping atom (`clip`): its `crgn` child.
#[derive(Clone, Debug, Default, PartialEq, Eq)]
pub struct Clipping {
    pub body: Vec<u8>,
}

/// The body of a track selection box (`tsel`).
#[derive(Clone, Debug, Default, PartialEq, Eq)]
pub struct TrackSelection {
    pub body: Vec<u8>,
}

/// Membership in a track group: the type of the group and the body of its box.
#[derive(Debug, Default, PartialEq, Eq)]
pub struct TrackGroupTypeEntry {
    pub track_group_type: [u8; 4],
    pub body: Vec<u8>,
}

impl View for TrackGroupTypeEntry {
    type V = ([u8; 4], Seq<u8>);

    open spec fn view(&self) -> ([u8; 4], Seq<u8>) {
        (self.track_group_type, self.body@)
    }
}

impl Duplicate for TrackGroupTypeEntry {
    fn duplicate(&self) -> (r: Self) {
        self.clone()
    }
}

impl Clone for TrackGroupTypeEntry {
    fn clone(&self) -> (r: Self)
        ensures
            r@ == self@,
    {
        TrackGroupTypeEntry {
            track_group_type: self.track_group_type,
            body: slice_to_vec(self.body.as_slice()),
        }
    }
}

/// Track load settings (`load`).
#[derive(Clone, Copy, Debug, Default, PartialEq, Eq)]
pub struct Load {
    /// Where preloading starts, in units of the time scale of the movie.
    pub preload_start_time: u32,
    /// How much is preloaded; all bits set means to the end.
    pub preload_duration: u32,
    /// When to preload.
    pub preload_flags: u32,
    /// Hints for playback.
    pub default_hints: u32,
}

impl Load {
    /// The body on disk.
    pub open spec fn body(&self) -> Seq<u8> {
        u32_be(self.preload_start_time) + u32_be(self.preload_duration) + u32_be(self.preload_flags)
            + u32_be(self.default_hints)
    }

    /// Serialise the body.
    pub fn to_body_bytes(&self) -> (r: Vec<u8>)
        ensures
            r@ == self.body(),
    {
        broadcast use empty_left;

        let mut out: Vec<u8> = Vec::new();
        put_u32(&mut out, self.preload_start_time);
        put_u32(&mut out, self.preload_duration);
        put_u32(&mut out, self.preload_flags);
        put_u32(&mut out, self.default_hints);
        out
    }
}

/// Generic media information (`gmin`).
#[derive(Clone, Copy, Debug, PartialEq, Eq)]
pub struct Gmin {
    /// How the picture is composited; 0 is copy.
    pub graphics_mode: u16,
    /// Red, green and blue.
    pub opcolor: [u16; 3],
    /// Stereo balance; 0 is the centre.
    pub balance: i16,
}

/// Copy mode, no colour, centred.
pub open spec fn default_gmin() -> Gmin {
    Gmin { graphics_mode: 0, opcolor: [0, 0, 0], balance: 0 }
}

impl Default for Gmin {
    fn default() -> (r: Self)
        ensures
            r == default_gmin(),
    {
        let r = Gmin { graphics_mode: 0, opcolor: [0, 0, 0], balance: 0 };
        assert(r.opcolor =~= default_gmin().opcolor);
        r
    }
}

impl Gmin {
    /// The body on disk: version and flags, the fields, two reserved bytes.
    pub open spec fn body(&self) -> Seq<u8> {
        u32_be(0) + u16_be(self.graphics_mode) + u16_be(self.opcolor@[0]) + u16_be(self.opcolor@[1])
            + u16_be(self.opcolor@[2]) + i16_be(self.balance) + u16_be(0)
    }

    /// Serialise the body.
    pub fn to_body_bytes(&self) -> (r: Vec<u8>)
        ensures
            r@ == self.body(),
    {
        broadcast use empty_left;

        let mut out: Vec<u8> = Vec::new();
        put_u32(&mut out, 0);
        put_u16(&mut out, self.graphics_mode);
        put_u16(&mut out, self.opcolor[0]);
        put_u16(&mut out, self.opcolor[1]);
        put_u16(&mut out, self.opcolor[2]);
        put_i16(&mut out, self.balance);
        put_u16(&mut out, 0);
        out
    }
}

/// How a sample depends on others, in two bits each.
#[derive(Clone, Copy, Debug, Default, PartialEq, Eq)]
pub struct SdtpEntry {
    pub is_leading: u8,
    pub sample_depends_on: u8,
    pub sample_is_depended_on: u8,
    pub sample_has_redundancy: u8,
}

/// The four fields in one byte, the first in the top bits.
pub open spec fn dependency_byte(e: SdtpEntry) -> u8 {
    ((e.is_leading % 4) * 64 + (e.sample_depends_on % 4) * 16 + (e.sample_is_depended_on % 4) * 4
        + e.sample_has_redundancy % 4) as u8
}

impl SdtpEntry {
    /// The four fields in one byte, the first in the top bits.
    pub fn to_byte(&self) -> (r: u8)
        ensures
            r == dependency_byte(*self),
    {
        (self.is_leading % 4) * 64 + (self.sample_depends_on % 4) * 16 + (self.sample_is_depended_on
            % 4) * 4 + self.sample_has_redundancy % 4
    }
}

/// A sync sample that may stand in for another sample.
#[derive(Clone, Copy, Debug, Default, PartialEq, Eq)]
pub struct StshEntry {
    pub shadowed_sample_number: u32,
    pub sync_sample_number: u32,
}

impl View for StshEntry {
    type V = StshEntry;

    open spec fn view(&self) -> StshEntry {
        *self
    }
}

impl Keyed for StshEntry {
    open spec fn key_of(m: StshEntry) -> u32 {
        m.shadowed_sample_number
    }

    fn key(&self) -> (r: u32) {
        self.shadowed_sample_number
    }
}

/// A part of a sample.
#[derive(Clone, Copy, Debug, Default, PartialEq, Eq)]
pub struct SubSample {
    pub subsample_size: u32,
    pub subsample_priority: u8,
    pub discardable: u8,
    pub codec_specific_parameters: u32,
}

/// The parts of a sample.
#[derive(Debug, Default, PartialEq, Eq)]
pub struct SubSampleInfo {
    /// The sample, counted from 1.
    pub sample_number: u32,
    pub subsamples: Vec<SubSample>,
}

impl View for SubSampleInfo {
    type V = (u32, Seq<SubSample>);

    open spec fn view(&self) -> (u32, Seq<SubSample>) {
        (self.sample_number, self.subsamples@)
    }
}

impl Duplicate for SubSampleInfo {
    fn duplicate(&self) -> (r: Self) {
        self.clone()
    }
}

impl Keyed for SubSampleInfo {
    open spec fn key_of(m: (u32, Seq<SubSample>)) -> u32 {
        m.0
    }

    fn key(&self) -> (r: u32) {
        self.sample_number
    }
}

impl Clone for SubSampleInfo {
    fn clone(&self) -> (r: Self)
        ensures
            r@ == self@,
    {
        SubSampleInfo {
            sample_number: self.sample_number,
            subsamples: slice_to_vec(self.subsamples.as_slice()),
        }
    }
}

/// The four fields that a version 1 sound description adds.
#[derive(Clone, Copy, Debug, Default, PartialEq, Eq)]
pub struct SoundV1 {
    pub samples_per_packet: u32,
    pub bytes_per_packet: u32,
    pub bytes_per_frame: u32,
    pub bytes_per_sample: u32,
}

/// Where a loudspeaker stands. The angles count only at position 126.
#[derive(Clone, Copy, Debug, Default, PartialEq, Eq)]
pub struct SpeakerPosition {
    pub position: u8,
    pub azimuth: i16,
    pub elevation: i8,
}

/// How channels are assigned to loudspeakers.
#[derive(Clone, Debug, PartialEq, Eq)]
pub enum ChannelStructure {
    /// A predefined layout, with channels that are left out.
    Defined { defined_layout: u8, omitted_channels_map: u64 },
    /// One position per channel.
    Explicit(Vec<SpeakerPosition>),
}

/// A channel layout (`chnl`): channels, objects, or both.
#[derive(Clone, Debug, Default, PartialEq, Eq)]
pub struct ChannelLayout {
    pub channels: Option<ChannelStructure>,
    pub object_count: Option<u8>,
}

/// The two's complement byte of an elevation.
pub open spec fn elevation_byte(e: i8) -> u8 {
    if e < 0 {
        (e + 0x100) as u8
    } else {
        e as u8
    }
}

/// The bytes of a position: the angles follow position 126.
pub open spec fn position_bytes(p: SpeakerPosition) -> Seq<u8> {
    if p.position == 126 {
        seq![p.position] + i16_be(p.azimuth) + seq![elevation_byte(p.elevation)]
    } else {
        seq![p.position]
    }
}

/// The positions of a list.
pub open spec fn positions_bytes(rows: Seq<SpeakerPosition>) -> spec_fn(int) -> Seq<u8> {
    |i: int| position_bytes(rows[i])
}

/// The bytes of a channel structure. Layout 0 says that positions follow.
pub open spec fn structure_bytes(c: ChannelStructure) -> Seq<u8> {
    match c {
        ChannelStructure::Defined { defined_layout, omitted_channels_map } => seq![defined_layout]
            + u64_be(omitted_channels_map),
        ChannelStructure::Explicit(rows) => seq![0u8] + cat(rows@.len(), positions_bytes(rows@)),
    }
}

/// The byte that says what a layout holds.
pub open spec fn stream_structure(l: ChannelLayout) -> u8 {
    ((if l.channels is Some {
        1int
    } else {
        0
    }) + (if l.object_count is Some {
        2int
    } else {
        0
    })) as u8
}

/// The body of a `chnl` box.
pub open spec fn chnl_body(l: ChannelLayout) -> Seq<u8> {
    u32_be(0) + seq![stream_structure(l)] + (match l.channels {
        Some(c) => structure_bytes(c),
        None => Seq::empty(),
    }) + (match l.object_count {
        Some(n) => seq![n],
        None => Seq::empty(),
    })
}

fn put_position(out: &mut Vec<u8>, p: SpeakerPosition)
    ensures
        final(out)@ == old(out)@ + position_bytes(p),
{
    put_u8(out, p.position);
    if p.position == 126 {
        put_i16(out, p.azimuth);
        put_u8(out, if p.elevation < 0 {
            (p.elevation as i16 + 0x100) as u8
        } else {
            p.elevation as u8
        });
    }
    assert(out@ =~= old(out)@ + position_bytes(p));
}

fn put_structure(out: &mut Vec<u8>, c: &ChannelStructure)
    ensures
        final(out)@ == old(out)@ + structure_bytes(*c),
{
    match c {
        ChannelStructure::Defined { defined_layout, omitted_channels_map } => {
            put_u8(out, *defined_layout);
            put_u64(out, *omitted_channels_map);
        },
        ChannelStructure::Explicit(rows) => {
            put_u8(out, 0);
            let ghost before = out@;
            assert(out@ =~= before + cat(0, positions_bytes(rows@)));
            for i in 0..rows.len()
                invariant
                    out@ == before + cat(i as nat, positions_bytes(rows@)),
            {
                put_position(out, rows[i]);
                assert(out@ =~= before + cat((i + 1) as nat, positions_bytes(rows@)));
            }
        },
    }
    assert(out@ =~= old(out)@ + structure_bytes(*c));
}

impl ChannelLayout {
    /// Serialise the body.
    pub fn to_body_bytes(&self) -> (r: Vec<u8>)
        ensures
            r@ == chnl_body(*self),
    {
        broadcast use empty_left;
        broadcast use crate::bytes::empty_right;

        let mut out: Vec<u8> = Vec::new();
        put_u32(&mut out, 0);
        let mut structure: u8 = 0;
        if self.channels.is_some() {
            structure = structure + 1;
        }
        if self.object_count.is_some() {
            structure = structure + 2;
        }
        put_u8(&mut out, structure);
        if let Some(c) = &self.channels {
            put_structure(&mut out, c);
        }
        if let Some(n) = self.object_count {
            put_u8(&mut out, n);
        }
        out
    }
}

impl TrackGroupTypeEntry {
    /// The box of the membership.
    pub open spec fn framed(&self) -> Seq<u8> {
        atom(self.track_group_type, self.body@)
    }

    /// Serialise the box of the membership.
    pub fn to_framed_atom(&self) -> (r: Vec<u8>)
        ensures
            r@ == self.framed(),
    {
        broadcast use empty_left;

        let mut out: Vec<u8> = Vec::new();
        push_atom(&mut out, self.track_group_type, self.body.as_slice());
        out
    }
}

} // verus!
