//! Audio channel layout (`chan`).
//!
//! After four bytes of version and flags come the layout tag, a channel bitmap
//! and the number of channel descriptions, and then the descriptions, 20 bytes
//! each: label, flags and three coordinates.
use crate::bytes::{read_u32, tail, u32_at};
use crate::error::Error;
use vstd::prelude::*;
use vstd::slice::slice_to_vec;

verus! {

/// One channel description.
#[derive(Clone, Copy, Debug, Default, PartialEq, Eq)]
pub struct ChanDescription {
    /// Which channel this is (1 is left, 2 is right, and so on).
    pub label: u32,
    /// How the coordinates are meant.
    pub flags: u32,
    /// The bits of the three single-precision coordinates.
    pub coordinates: [u32; 3],
}

/// An audio channel layout.
#[derive(Clone, Debug, Default, PartialEq, Eq)]
pub struct Chan {
    pub layout_tag: u32,
    pub bitmap: u32,
    /// The number of descriptions that the atom declares.
    pub num_descriptions: u32,
    /// The descriptions that the atom holds in full.
    pub channel_descriptions: Vec<ChanDescription>,
    /// All bytes behind the fixed fields.
    pub descriptions: Vec<u8>,
}

/// The layout tag that says: the descriptions count.
pub const TAG_USE_CHANNEL_DESCRIPTIONS: u32 = 0;

/// The layout tag that says: the bitmap counts.
pub const TAG_USE_CHANNEL_BITMAP: u32 = 0x0001_0000;

pub const TAG_MONO: u32 = 0x0064_0001;

pub const TAG_STEREO: u32 = 0x0065_0002;

pub const TAG_STEREO_HEADPHONES: u32 = 0x0066_0002;

pub const TAG_MATRIX_STEREO: u32 = 0x0067_0002;

pub const TAG_MID_SIDE: u32 = 0x0068_0002;

pub const TAG_XY: u32 = 0x0069_0002;

pub const TAG_BINAURAL: u32 = 0x006a_0002;

pub const TAG_AMBISONIC_B_FORMAT: u32 = 0x006b_0004;

pub const TAG_QUADRAPHONIC: u32 = 0x006c_0004;

pub const TAG_PENTAGONAL: u32 = 0x006d_0005;

pub const TAG_HEXAGONAL: u32 = 0x006e_0006;

pub const TAG_OCTAGONAL: u32 = 0x006f_0008;

pub const TAG_CUBE: u32 = 0x0070_0008;

pub const TAG_MPEG_3_0_A: u32 = 0x0071_0003;

pub const TAG_MPEG_3_0_B: u32 = 0x0072_0003;

pub const TAG_MPEG_4_0_A: u32 = 0x0073_0004;

pub const TAG_MPEG_4_0_B: u32 = 0x0074_0004;

pub const TAG_MPEG_5_0_A: u32 = 0x0075_0005;

pub const TAG_MPEG_5_0_B: u32 = 0x0076_0005;

pub const TAG_MPEG_5_0_C: u32 = 0x0077_0005;

pub const TAG_MPEG_5_0_D: u32 = 0x0078_0005;

pub const TAG_MPEG_5_1_A: u32 = 0x0079_0006;

pub const TAG_MPEG_5_1_B: u32 = 0x007a_0006;

pub const TAG_MPEG_5_1_C: u32 = 0x007b_0006;

pub const TAG_MPEG_5_1_D: u32 = 0x007c_0006;

pub const TAG_MPEG_6_1_A: u32 = 0x007d_0007;

pub const TAG_MPEG_7_1_A: u32 = 0x007e_0008;

pub const TAG_MPEG_7_1_B: u32 = 0x007f_0008;

pub const TAG_MPEG_7_1_C: u32 = 0x0080_0008;

/// The bit of the front left channel.
pub const FL: u32 = 0x1;

/// The bit of the front right channel.
pub const FR: u32 = 0x2;

/// The bit of the front centre channel.
pub const FC: u32 = 0x4;

/// The bit of the low frequency channel.
pub const LFE: u32 = 0x8;

/// The bit of the back left channel.
pub const BL: u32 = 0x10;

/// The bit of the back right channel.
pub const BR: u32 = 0x20;

/// The bit of the front left of centre channel.
pub const FLC: u32 = 0x40;

/// The bit of the front right of centre channel.
pub const FRC: u32 = 0x80;

/// The bit of the back centre channel.
pub const BC: u32 = 0x100;

/// The bit of the side left channel.
pub const SL: u32 = 0x200;

/// The bit of the side right channel.
pub const SR: u32 = 0x400;

/// The channels of a predefined layout, one bit each; `None` for a layout that
/// cannot be said in such bits.
pub open spec fn layout_mask(tag: u32) -> Option<u32> {
    if tag == TAG_MONO {
        Some((FC) as u32)
    } else if tag == TAG_STEREO || tag == TAG_STEREO_HEADPHONES || tag == TAG_MATRIX_STEREO || tag == TAG_MID_SIDE || tag == TAG_XY || tag == TAG_BINAURAL {
        Some((FL + FR) as u32)
    } else if tag == TAG_QUADRAPHONIC {
        Some((FL + FR + BL + BR) as u32)
    } else if tag == TAG_PENTAGONAL {
        Some((FL + FR + FC + BL + BR) as u32)
    } else if tag == TAG_HEXAGONAL {
        Some((FL + FR + FC + BL + BR + BC) as u32)
    } else if tag == TAG_OCTAGONAL {
        Some((FL + FR + FC + BL + BR + BC + SL + SR) as u32)
    } else if tag == TAG_MPEG_3_0_A || tag == TAG_MPEG_3_0_B {
        Some((FL + FR + FC) as u32)
    } else if tag == TAG_MPEG_4_0_A || tag == TAG_MPEG_4_0_B {
        Some((FL + FR + FC + BC) as u32)
    } else if tag == TAG_MPEG_5_0_A || tag == TAG_MPEG_5_0_B || tag == TAG_MPEG_5_0_C || tag == TAG_MPEG_5_0_D {
        Some((FL + FR + FC + SL + SR) as u32)
    } else if tag == TAG_MPEG_5_1_A || tag == TAG_MPEG_5_1_B || tag == TAG_MPEG_5_1_C || tag == TAG_MPEG_5_1_D {
        Some((FL + FR + FC + LFE + SL + SR) as u32)
    } else if tag == TAG_MPEG_6_1_A {
        Some((FL + FR + FC + LFE + SL + SR + BC) as u32)
    } else if tag == TAG_MPEG_7_1_A || tag == TAG_MPEG_7_1_B {
        Some((FL + FR + FC + LFE + SL + SR + FLC + FRC) as u32)
    } else if tag == TAG_MPEG_7_1_C {
        Some((FL + FR + FC + LFE + SL + SR + BL + BR) as u32)
    } else {
        None
    }
}

/// The channels of a predefined layout, one bit each; `None` for a layout that
/// cannot be said in such bits.
pub fn channel_mask_for_layout_tag(tag: u32) -> (r: Option<u32>)
    ensures
        r == layout_mask(tag),
{
    if tag == TAG_MONO {
        Some(FC)
    } else if tag == TAG_STEREO || tag == TAG_STEREO_HEADPHONES || tag == TAG_MATRIX_STEREO || tag == TAG_MID_SIDE || tag == TAG_XY || tag == TAG_BINAURAL {
        Some(FL + FR)
    } else if tag == TAG_QUADRAPHONIC {
        Some(FL + FR + BL + BR)
    } else if tag == TAG_PENTAGONAL {
        Some(FL + FR + FC + BL + BR)
    } else if tag == TAG_HEXAGONAL {
        Some(FL + FR + FC + BL + BR + BC)
    } else if tag == TAG_OCTAGONAL {
        Some(FL + FR + FC + BL + BR + BC + SL + SR)
    } else if tag == TAG_MPEG_3_0_A || tag == TAG_MPEG_3_0_B {
        Some(FL + FR + FC)
    } else if tag == TAG_MPEG_4_0_A || tag == TAG_MPEG_4_0_B {
        Some(FL + FR + FC + BC)
    } else if tag == TAG_MPEG_5_0_A || tag == TAG_MPEG_5_0_B || tag == TAG_MPEG_5_0_C || tag == TAG_MPEG_5_0_D {
        Some(FL + FR + FC + SL + SR)
    } else if tag == TAG_MPEG_5_1_A || tag == TAG_MPEG_5_1_B || tag == TAG_MPEG_5_1_C || tag == TAG_MPEG_5_1_D {
        Some(FL + FR + FC + LFE + SL + SR)
    } else if tag == TAG_MPEG_6_1_A {
        Some(FL + FR + FC + LFE + SL + SR + BC)
    } else if tag == TAG_MPEG_7_1_A || tag == TAG_MPEG_7_1_B {
        Some(FL + FR + FC + LFE + SL + SR + FLC + FRC)
    } else if tag == TAG_MPEG_7_1_C {
        Some(FL + FR + FC + LFE + SL + SR + BL + BR)
    } else {
        None
    }
}

/// The bit of the channel with a label.
pub open spec fn label_bit(label: u32) -> u32 {
    if 1 <= label <= 32 {
        1u32 << ((label - 1) as u32)
    } else {
        0
    }
}

/// The bits of all labels.
pub open spec fn labels_mask(d: Seq<ChanDescription>) -> u32
    decreases d.len(),
{
    if d.len() == 0 {
        0
    } else {
        labels_mask(d.drop_last()) | label_bit(d.last().label)
    }
}

/// How many bits of `x` are set.
pub open spec fn ones(x: nat) -> nat
    decreases x,
{
    if x == 0 {
        0
    } else {
        x % 2 + ones(x / 2)
    }
}

proof fn lemma_ones_bound(x: nat, bits: nat)
    requires
        x < vstd::arithmetic::power2::pow2(bits),
    ensures
        ones(x) <= bits,
    decreases bits,
{
    if x > 0 {
        if bits == 0 {
            vstd::arithmetic::power2::lemma2_to64();
        } else {
            vstd::arithmetic::power2::lemma_pow2_unfold(bits);
            lemma_ones_bound(x / 2, (bits - 1) as nat);
        }
    }
}

fn count_ones(x: u32) -> (r: u32)
    ensures
        r == ones(x as nat),
{
    let mut rest: u32 = x;
    let mut n: u32 = 0;
    proof {
        vstd::arithmetic::power2::lemma2_to64();
        lemma_ones_bound(x as nat, 32);
    }
    while rest != 0
        invariant
            n + ones(rest as nat) == ones(x as nat),
            ones(x as nat) <= 32,
        decreases rest,
    {
        n = n + rest % 2;
        rest = rest / 2;
    }
    n
}

impl Chan {
    /// The channels, one bit each: by the bitmap, by the labels of the
    /// descriptions, or by the predefined layout, as the tag says.
    pub fn channel_mask(&self) -> (r: Option<u32>)
        ensures
            r == (if self.layout_tag == TAG_USE_CHANNEL_BITMAP {
                Some(self.bitmap)
            } else if self.layout_tag == TAG_USE_CHANNEL_DESCRIPTIONS {
                Some(labels_mask(self.channel_descriptions@))
            } else {
                layout_mask(self.layout_tag)
            }),
    {
        if self.layout_tag == TAG_USE_CHANNEL_BITMAP {
            return Some(self.bitmap);
        }
        if self.layout_tag == TAG_USE_CHANNEL_DESCRIPTIONS {
            let mut m: u32 = 0;
            for i in 0..self.channel_descriptions.len()
                invariant
                    m == labels_mask(self.channel_descriptions@.take(i as int)),
            {
                let label: u32 = self.channel_descriptions[i].label;
                assert(self.channel_descriptions@.take(i + 1).drop_last()
                    =~= self.channel_descriptions@.take(i as int));
                let bit: u32 = if label >= 1 && label <= 32 {
                    1u32 << (label - 1)
                } else {
                    0
                };
                m = m | bit;
            }
            assert(self.channel_descriptions@.take(self.channel_descriptions@.len() as int)
                =~= self.channel_descriptions@);
            return Some(m);
        }
        channel_mask_for_layout_tag(self.layout_tag)
    }

    /// The number of channels: the declared number of descriptions, the number
    /// of bits in the bitmap, or the low sixteen bits of a predefined tag.
    pub fn channel_count(&self) -> (r: u32)
        ensures
            r == (if self.layout_tag == TAG_USE_CHANNEL_DESCRIPTIONS {
                self.num_descriptions as int
            } else if self.layout_tag == TAG_USE_CHANNEL_BITMAP {
                ones(self.bitmap as nat) as int
            } else {
                self.layout_tag as int % 0x1_0000
            }),
    {
        if self.layout_tag == TAG_USE_CHANNEL_DESCRIPTIONS {
            self.num_descriptions
        } else if self.layout_tag == TAG_USE_CHANNEL_BITMAP {
            count_ones(self.bitmap)
        } else {
            self.layout_tag % 0x1_0000
        }
    }
}

/// The description that starts at `i`.
pub open spec fn description_at(s: Seq<u8>, i: int) -> ChanDescription {
    ChanDescription {
        label: u32_at(s, i),
        flags: u32_at(s, i + 4),
        coordinates: [u32_at(s, i + 8), u32_at(s, i + 12), u32_at(s, i + 16)],
    }
}

/// How many descriptions a `chan` body holds in full: as many as it declares,
/// or as many as there are bytes for.
pub open spec fn held_descriptions(s: Seq<u8>) -> int {
    let room = (s.len() - 16) / 20;
    if room < u32_at(s, 12) {
        room
    } else {
        u32_at(s, 12) as int
    }
}

/// The layout tag, the bitmap and the declared number of descriptions of a `chan` body.
pub open spec fn chan_head(s: Seq<u8>) -> (u32, u32, u32) {
    (u32_at(s, 4), u32_at(s, 8), u32_at(s, 12))
}

/// The descriptions that a `chan` body holds in full.
pub open spec fn chan_descriptions(s: Seq<u8>) -> Seq<ChanDescription> {
    Seq::new(held_descriptions(s) as nat, |i: int| description_at(s, 16 + 20 * i))
}

/// Parse the body of a `chan` atom. A list of descriptions that is shorter than
/// declared is no error.
pub fn parse_chan(payload: &[u8]) -> (r: Result<Chan, Error>)
    ensures
        payload@.len() < 16 ==> r == Err::<Chan, Error>(
            Error::Rule("MOV: chan payload < 16 bytes"),
        ),
        payload@.len() >= 16 ==> {
            &&& r is Ok
            &&& r->Ok_0.layout_tag == chan_head(payload@).0
            &&& r->Ok_0.bitmap == chan_head(payload@).1
            &&& r->Ok_0.num_descriptions == chan_head(payload@).2
            &&& r->Ok_0.descriptions@ == tail(payload@, 16)
            &&& r->Ok_0.channel_descriptions@ == chan_descriptions(payload@)
        },
{
    if payload.len() < 16 {
        return Err(Error::Rule("MOV: chan payload < 16 bytes"));
    }
    let layout_tag: u32 = read_u32(payload, 4);
    let bitmap: u32 = read_u32(payload, 8);
    let num: u32 = read_u32(payload, 12);
    let room: usize = (payload.len() - 16) / 20;
    let cap: usize = if (room as u64) < num as u64 {
        room
    } else {
        num as usize
    };
    let mut parsed: Vec<ChanDescription> = Vec::new();
    for i in 0..cap
        invariant
            cap * 20 + 16 <= payload@.len(),
            parsed@ == Seq::new(i as nat, |k: int| description_at(payload@, 16 + 20 * k)),
    {
        assert(payload.len() == payload@.len());
        let off: usize = 16 + 20 * i;
        let d = ChanDescription {
            label: read_u32(payload, off),
            flags: read_u32(payload, off + 4),
            coordinates: [
                read_u32(payload, off + 8),
                read_u32(payload, off + 12),
                read_u32(payload, off + 16),
            ],
        };
        assert(d.coordinates =~= description_at(payload@, off as int).coordinates);
        parsed.push(d);
        assert(parsed@ =~= Seq::new(
            (i + 1) as nat,
            |k: int| description_at(payload@, 16 + 20 * k),
        ));
    }
    Ok(
        Chan {
            layout_tag,
            bitmap,
            num_descriptions: num,
            channel_descriptions: parsed,
            descriptions: slice_to_vec(&payload[16..payload.len()]),
        },
    )
}

/// Bit `k` of the mask of a list of descriptions is set if and only if one of
/// them has the label `k + 1`.
pub proof fn law_mask_bits_are_labels(d: Seq<ChanDescription>, k: u32)
    requires
        k < 32,
    ensures
        (labels_mask(d) >> k) & 1 == 1 <==> exists|i: int|
            0 <= i < d.len() && (#[trigger] d[i]).label == k + 1,
    decreases d.len(),
{
    if d.len() == 0 {
        assert((0u32 >> k) & 1 == 0) by (bit_vector)
            requires
                k < 32,
        ;
    } else {
        let before = d.drop_last();
        law_mask_bits_are_labels(before, k);
        let a = labels_mask(before);
        let last = d.last().label;
        let b = label_bit(last);
        assert(((a | b) >> k) & 1 == 1 <==> ((a >> k) & 1 == 1 || (b >> k) & 1 == 1)) by (bit_vector)
            requires
                k < 32,
        ;
        if 1 <= last <= 32 {
            let j = (last - 1) as u32;
            assert(((1u32 << j) >> k) & 1 == 1 <==> j == k) by (bit_vector)
                requires
                    k < 32,
                    j < 32,
            ;
        } else {
            assert((0u32 >> k) & 1 == 0) by (bit_vector)
                requires
                    k < 32,
            ;
        }
        if exists|i: int| 0 <= i < before.len() && (#[trigger] before[i]).label == k + 1 {
            let i = choose|i: int| 0 <= i < before.len() && (#[trigger] before[i]).label == k + 1;
            assert(d[i].label == k + 1);
        }
        if exists|i: int| 0 <= i < d.len() && (#[trigger] d[i]).label == k + 1 {
            let i = choose|i: int| 0 <= i < d.len() && (#[trigger] d[i]).label == k + 1;
            if i < before.len() {
                assert(before[i].label == k + 1);
            }
        }
        if last == k + 1 {
            assert(d[d.len() - 1].label == k + 1);
        }
    }
}

} // verus!
