//! Media metadata atoms: what decorates visual and audio sample descriptions
//! (`pasp`, `clap`, `colr`, `fiel`) and tracks (`tapt`, `cslg`).
use crate::bytes::{
    code_at, empty_left, i32_at, i32_be, i64_at, put_bytes, put_code, put_i32, put_u16, put_u32,
    put_u8, read_code, read_i32, read_i64, read_u16, read_u32, same_code, tail, u16_at, u16_be,
    u32_at, u32_be,
};
use crate::error::Error;
use crate::fourcc::{NCLC, NCLX, PROF, RICC};
use vstd::prelude::*;
use vstd::slice::slice_to_vec;

pub use crate::chan::{
    channel_mask_for_layout_tag, parse_chan, Chan, ChanDescription, TAG_AMBISONIC_B_FORMAT,
    TAG_BINAURAL, TAG_CUBE, TAG_HEXAGONAL, TAG_MATRIX_STEREO, TAG_MID_SIDE, TAG_MONO,
    TAG_MPEG_3_0_A, TAG_MPEG_3_0_B, TAG_MPEG_4_0_A, TAG_MPEG_4_0_B, TAG_MPEG_5_0_A, TAG_MPEG_5_0_B,
    TAG_MPEG_5_0_C, TAG_MPEG_5_0_D, TAG_MPEG_5_1_A, TAG_MPEG_5_1_B, TAG_MPEG_5_1_C, TAG_MPEG_5_1_D,
    TAG_MPEG_6_1_A, TAG_MPEG_7_1_A, TAG_MPEG_7_1_B, TAG_MPEG_7_1_C, TAG_OCTAGONAL, TAG_PENTAGONAL,
    TAG_QUADRAPHONIC, TAG_STEREO, TAG_STEREO_HEADPHONES, TAG_USE_CHANNEL_BITMAP,
    TAG_USE_CHANNEL_DESCRIPTIONS, TAG_XY,
};
pub use crate::key_value::{parse_ilst, parse_keys, MetaKeyValue};

verus! {

/// Pixel aspect ratio (`pasp`): the ratio of pixel width to pixel height.
#[derive(Clone, Copy, Debug, Default, PartialEq, Eq)]
pub struct Pasp {
    pub h_spacing: u32,
    pub v_spacing: u32,
}

/// What a `pasp` body holds.
pub open spec fn pasp_of(s: Seq<u8>) -> Result<Pasp, Error> {
    if s.len() < 8 {
        Err(Error::Rule("MOV: pasp payload < 8 bytes"))
    } else {
        Ok(Pasp { h_spacing: u32_at(s, 0), v_spacing: u32_at(s, 4) })
    }
}

/// Parse the body of a `pasp` atom (8 bytes; more are ignored).
pub fn parse_pasp(payload: &[u8]) -> (r: Result<Pasp, Error>)
    ensures
        r == pasp_of(payload@),
{
    if payload.len() < 8 {
        return Err(Error::Rule("MOV: pasp payload < 8 bytes"));
    }
    Ok(Pasp { h_spacing: read_u32(payload, 0), v_spacing: read_u32(payload, 4) })
}

impl Pasp {
    /// The body on disk.
    pub open spec fn body(&self) -> Seq<u8> {
        u32_be(self.h_spacing) + u32_be(self.v_spacing)
    }

    /// Serialise the body.
    pub fn to_body_bytes(&self) -> (r: Vec<u8>)
        ensures
            r@ == self.body(),
    {
        broadcast use empty_left;

        let mut out: Vec<u8> = Vec::new();
        put_u32(&mut out, self.h_spacing);
        put_u32(&mut out, self.v_spacing);
        out
    }
}

/// Clean aperture (`clap`): four fractions. The numerators of the offsets are
/// signed.
#[derive(Clone, Copy, Debug, Default, PartialEq, Eq)]
pub struct Clap {
    pub clean_aperture_width_n: u32,
    pub clean_aperture_width_d: u32,
    pub clean_aperture_height_n: u32,
    pub clean_aperture_height_d: u32,
    pub horiz_off_n: i32,
    pub horiz_off_d: u32,
    pub vert_off_n: i32,
    pub vert_off_d: u32,
}

/// What a `clap` body holds.
pub open spec fn clap_of(s: Seq<u8>) -> Result<Clap, Error> {
    if s.len() < 32 {
        Err(Error::Rule("MOV: clap payload < 32 bytes"))
    } else {
        Ok(
            Clap {
                clean_aperture_width_n: u32_at(s, 0),
                clean_aperture_width_d: u32_at(s, 4),
                clean_aperture_height_n: u32_at(s, 8),
                clean_aperture_height_d: u32_at(s, 12),
                horiz_off_n: i32_at(s, 16),
                horiz_off_d: u32_at(s, 20),
                vert_off_n: i32_at(s, 24),
                vert_off_d: u32_at(s, 28),
            },
        )
    }
}

/// Parse the body of a `clap` atom (32 bytes; more are ignored).
pub fn parse_clap(payload: &[u8]) -> (r: Result<Clap, Error>)
    ensures
        r == clap_of(payload@),
{
    if payload.len() < 32 {
        return Err(Error::Rule("MOV: clap payload < 32 bytes"));
    }
    Ok(
        Clap {
            clean_aperture_width_n: read_u32(payload, 0),
            clean_aperture_width_d: read_u32(payload, 4),
            clean_aperture_height_n: read_u32(payload, 8),
            clean_aperture_height_d: read_u32(payload, 12),
            horiz_off_n: read_i32(payload, 16),
            horiz_off_d: read_u32(payload, 20),
            vert_off_n: read_i32(payload, 24),
            vert_off_d: read_u32(payload, 28),
        },
    )
}

impl Clap {
    /// The body on disk.
    pub open spec fn body(&self) -> Seq<u8> {
        u32_be(self.clean_aperture_width_n) + u32_be(self.clean_aperture_width_d) + u32_be(
            self.clean_aperture_height_n,
        ) + u32_be(self.clean_aperture_height_d) + i32_be(self.horiz_off_n) + u32_be(
            self.horiz_off_d,
        ) + i32_be(self.vert_off_n) + u32_be(self.vert_off_d)
    }

    /// Serialise the body.
    pub fn to_body_bytes(&self) -> (r: Vec<u8>)
        ensures
            r@ == self.body(),
    {
        broadcast use empty_left;

        let mut out: Vec<u8> = Vec::new();
        put_u32(&mut out, self.clean_aperture_width_n);
        put_u32(&mut out, self.clean_aperture_width_d);
        put_u32(&mut out, self.clean_aperture_height_n);
        put_u32(&mut out, self.clean_aperture_height_d);
        put_i32(&mut out, self.horiz_off_n);
        put_u32(&mut out, self.horiz_off_d);
        put_i32(&mut out, self.vert_off_n);
        put_u32(&mut out, self.vert_off_d);
        out
    }
}

/// The variants of a `colr` atom. The first four bytes of the body are a code
/// that selects one.
#[derive(Clone, Debug, PartialEq, Eq)]
pub enum ColorParametersKind {
    /// `nclc`: three indices.
    Nclc { primaries: u16, transfer: u16, matrix: u16 },
    /// `nclx`: three indices and a flag in the top bit of one more byte.
    Nclx { primaries: u16, transfer: u16, matrix: u16, full_range: bool },
    /// `rICC` or `prof`: an embedded ICC profile.
    Icc { kind: [u8; 4], profile: Vec<u8> },
    /// Any other code, with what follows it.
    Other { kind: [u8; 4], body: Vec<u8> },
}

/// A `colr` atom.
#[derive(Debug, PartialEq, Eq)]
pub struct ColorParameters {
    pub kind: ColorParametersKind,
}

/// What the variants of a `colr` atom hold.
pub enum ColorModel {
    Nclc { primaries: u16, transfer: u16, matrix: u16 },
    Nclx { primaries: u16, transfer: u16, matrix: u16, full_range: bool },
    Icc { kind: [u8; 4], profile: Seq<u8> },
    Other { kind: [u8; 4], body: Seq<u8> },
}

impl View for ColorParameters {
    type V = ColorModel;

    open spec fn view(&self) -> ColorModel {
        match self.kind {
            ColorParametersKind::Nclc { primaries, transfer, matrix } => ColorModel::Nclc {
                primaries,
                transfer,
                matrix,
            },
            ColorParametersKind::Nclx { primaries, transfer, matrix, full_range } =>
                ColorModel::Nclx { primaries, transfer, matrix, full_range },
            ColorParametersKind::Icc { kind, profile } => ColorModel::Icc {
                kind,
                profile: profile@,
            },
            ColorParametersKind::Other { kind, body } => ColorModel::Other { kind, body: body@ },
        }
    }
}

/// What a `colr` body holds.
pub open spec fn colr_of(s: Seq<u8>) -> Result<ColorModel, Error> {
    let kind = code_at(s, 0);
    if s.len() < 4 {
        Err(Error::Rule("MOV: colr payload < 4 bytes (no type)"))
    } else if kind == NCLC {
        if s.len() < 10 {
            Err(Error::Rule("MOV: colr nclc < 6 bytes"))
        } else {
            Ok(
                ColorModel::Nclc {
                    primaries: u16_at(s, 4),
                    transfer: u16_at(s, 6),
                    matrix: u16_at(s, 8),
                },
            )
        }
    } else if kind == NCLX {
        if s.len() < 11 {
            Err(Error::Rule("MOV: colr nclx < 7 bytes"))
        } else {
            Ok(
                ColorModel::Nclx {
                    primaries: u16_at(s, 4),
                    transfer: u16_at(s, 6),
                    matrix: u16_at(s, 8),
                    full_range: s[10] >= 0x80,
                },
            )
        }
    } else if kind == RICC || kind == PROF {
        Ok(ColorModel::Icc { kind, profile: tail(s, 4) })
    } else {
        Ok(ColorModel::Other { kind, body: tail(s, 4) })
    }
}

/// Parse the body of a `colr` atom.
pub fn parse_colr(payload: &[u8]) -> (r: Result<ColorParameters, Error>)
    ensures
        match colr_of(payload@) {
            Ok(m) => r is Ok && r->Ok_0@ == m,
            Err(e) => r == Err::<ColorParameters, Error>(e),
        },
{
    if payload.len() < 4 {
        return Err(Error::Rule("MOV: colr payload < 4 bytes (no type)"));
    }
    let kind = read_code(payload, 0);
    let rest: &[u8] = &payload[4..payload.len()];
    if same_code(&kind, &NCLC) {
        if payload.len() < 10 {
            return Err(Error::Rule("MOV: colr nclc < 6 bytes"));
        }
        return Ok(
            ColorParameters {
                kind: ColorParametersKind::Nclc {
                    primaries: read_u16(payload, 4),
                    transfer: read_u16(payload, 6),
                    matrix: read_u16(payload, 8),
                },
            },
        );
    }
    if same_code(&kind, &NCLX) {
        if payload.len() < 11 {
            return Err(Error::Rule("MOV: colr nclx < 7 bytes"));
        }
        return Ok(
            ColorParameters {
                kind: ColorParametersKind::Nclx {
                    primaries: read_u16(payload, 4),
                    transfer: read_u16(payload, 6),
                    matrix: read_u16(payload, 8),
                    full_range: payload[10] >= 0x80,
                },
            },
        );
    }
    if same_code(&kind, &RICC) || same_code(&kind, &PROF) {
        return Ok(
            ColorParameters {
                kind: ColorParametersKind::Icc { kind, profile: slice_to_vec(rest) },
            },
        );
    }
    Ok(ColorParameters { kind: ColorParametersKind::Other { kind, body: slice_to_vec(rest) } })
}

/// The body of a `colr` atom on disk.
pub open spec fn colr_body(m: ColorModel) -> Seq<u8> {
    match m {
        ColorModel::Nclc { primaries, transfer, matrix } => NCLC@ + u16_be(primaries) + u16_be(
            transfer,
        ) + u16_be(matrix),
        ColorModel::Nclx { primaries, transfer, matrix, full_range } => NCLX@ + u16_be(primaries)
            + u16_be(transfer) + u16_be(matrix) + seq![
            if full_range {
                0x80u8
            } else {
                0u8
            },
        ],
        ColorModel::Icc { kind, profile } => kind@ + profile,
        ColorModel::Other { kind, body } => kind@ + body,
    }
}

impl ColorParameters {
    /// Serialise the body.
    pub fn to_body_bytes(&self) -> (r: Vec<u8>)
        ensures
            r@ == colr_body(self@),
    {
        broadcast use empty_left;

        let mut out: Vec<u8> = Vec::new();
        match &self.kind {
            ColorParametersKind::Nclc { primaries, transfer, matrix } => {
                put_code(&mut out, NCLC);
                put_u16(&mut out, *primaries);
                put_u16(&mut out, *transfer);
                put_u16(&mut out, *matrix);
            },
            ColorParametersKind::Nclx { primaries, transfer, matrix, full_range } => {
                put_code(&mut out, NCLX);
                put_u16(&mut out, *primaries);
                put_u16(&mut out, *transfer);
                put_u16(&mut out, *matrix);
                put_u8(&mut out, if *full_range {
                    0x80
                } else {
                    0
                });
            },
            ColorParametersKind::Icc { kind, profile } => {
                put_code(&mut out, *kind);
                put_bytes(&mut out, profile.as_slice());
            },
            ColorParametersKind::Other { kind, body } => {
                put_code(&mut out, *kind);
                put_bytes(&mut out, body.as_slice());
            },
        }
        out
    }
}

impl Clone for ColorParameters {
    fn clone(&self) -> (r: Self)
        ensures
            r@ == self@,
    {
        ColorParameters {
            kind: match &self.kind {
                ColorParametersKind::Nclc { primaries, transfer, matrix } => {
                    ColorParametersKind::Nclc {
                        primaries: *primaries,
                        transfer: *transfer,
                        matrix: *matrix,
                    }
                },
                ColorParametersKind::Nclx { primaries, transfer, matrix, full_range } => {
                    ColorParametersKind::Nclx {
                        primaries: *primaries,
                        transfer: *transfer,
                        matrix: *matrix,
                        full_range: *full_range,
                    }
                },
                ColorParametersKind::Icc { kind, profile } => ColorParametersKind::Icc {
                    kind: *kind,
                    profile: slice_to_vec(profile.as_slice()),
                },
                ColorParametersKind::Other { kind, body } => ColorParametersKind::Other {
                    kind: *kind,
                    body: slice_to_vec(body.as_slice()),
                },
            },
        }
    }
}

/// Field handling (`fiel`): how a sample is broken into fields.
#[derive(Clone, Copy, Debug, PartialEq, Eq)]
pub struct Fiel {
    /// Fields per sample: 1 is progressive, 2 is interlaced. Any other byte is
    /// kept as it stands.
    pub field_count: u8,
    /// The ordering byte as it stands.
    pub field_ordering: u8,
}

impl Default for Fiel {
    fn default() -> (r: Self)
        ensures
            r == (Fiel { field_count: 0, field_ordering: 0 }),
    {
        Fiel { field_count: 0, field_ordering: 0 }
    }
}

/// The ordering bytes that have a meaning.
#[derive(Clone, Copy, Debug, PartialEq, Eq)]
pub enum FieldOrdering {
    /// 0: the order is not known.
    Unknown,
    /// 1: the top field is displayed and stored first.
    TopFieldFirst,
    /// 6: the bottom field is displayed and stored first.
    BottomFieldFirst,
}

impl Fiel {
    /// Whether a sample is two fields.
    pub fn is_interlaced(&self) -> (r: bool)
        ensures
            r == (self.field_count == 2),
    {
        self.field_count == 2
    }

    /// Whether the field count is one of the two that have a meaning.
    pub fn is_spec_field_count(&self) -> (r: bool)
        ensures
            r == (self.field_count == 1 || self.field_count == 2),
    {
        self.field_count == 1 || self.field_count == 2
    }

    /// The meaning of the ordering byte, if it has one.
    pub fn ordering(&self) -> (r: Option<FieldOrdering>)
        ensures
            r == (if self.field_ordering == 0 {
                Some(FieldOrdering::Unknown)
            } else if self.field_ordering == 1 {
                Some(FieldOrdering::TopFieldFirst)
            } else if self.field_ordering == 6 {
                Some(FieldOrdering::BottomFieldFirst)
            } else {
                None
            }),
    {
        match self.field_ordering {
            0 => Some(FieldOrdering::Unknown),
            1 => Some(FieldOrdering::TopFieldFirst),
            6 => Some(FieldOrdering::BottomFieldFirst),
            _ => None,
        }
    }

    /// The body on disk.
    pub open spec fn body(&self) -> Seq<u8> {
        seq![self.field_count, self.field_ordering]
    }

    /// Serialise the body.
    pub fn to_body_bytes(&self) -> (r: Vec<u8>)
        ensures
            r@ == self.body(),
    {
        let mut out: Vec<u8> = Vec::new();
        out.push(self.field_count);
        out.push(self.field_ordering);
        assert(out@ =~= self.body());
        out
    }
}

/// Length of a `fiel` body.
pub const FIEL_BODY_LEN: usize = 2;

/// What a `fiel` body holds.
pub open spec fn fiel_of(s: Seq<u8>) -> Result<Fiel, Error> {
    if s.len() != 2 {
        Err(
            Error::Number(
                "MOV: fiel payload length ",
                s.len() as i128,
                " != 2 bytes (QTFF p. 94: field_count + field_ordering)",
            ),
        )
    } else {
        Ok(Fiel { field_count: s[0], field_ordering: s[1] })
    }
}

/// Parse the body of a `fiel` atom: exactly two bytes.
pub fn parse_fiel(payload: &[u8]) -> (r: Result<Fiel, Error>)
    ensures
        r == fiel_of(payload@),
{
    if payload.len() != FIEL_BODY_LEN {
        return Err(
            Error::Number(
                "MOV: fiel payload length ",
                payload.len() as i128,
                " != 2 bytes (QTFF p. 94: field_count + field_ordering)",
            ),
        );
    }
    Ok(Fiel { field_count: payload[0], field_ordering: payload[1] })
}

/// Track aperture modes (`tapt`): up to three rectangles.
#[derive(Clone, Copy, Debug, Default, PartialEq, Eq)]
pub struct Tapt {
    /// Clean aperture.
    pub clef: Option<TaptDims>,
    /// Production aperture.
    pub prof: Option<TaptDims>,
    /// Encoded pixels.
    pub enof: Option<TaptDims>,
}

/// Width and height in pixels, as 16.16 fixed-point numbers.
#[derive(Clone, Copy, Debug, Default, PartialEq, Eq)]
pub struct TaptDims {
    pub width_fp: u32,
    pub height_fp: u32,
}

impl TaptDims {
    /// Whole pixels of the width.
    pub fn width(&self) -> (r: u32)
        ensures
            r == self.width_fp / 0x1_0000,
    {
        self.width_fp / 0x1_0000
    }

    /// Whole pixels of the height.
    pub fn height(&self) -> (r: u32)
        ensures
            r == self.height_fp / 0x1_0000,
    {
        self.height_fp / 0x1_0000
    }

    /// The body on disk: version and flags, width, height.
    pub open spec fn body(&self) -> Seq<u8> {
        u32_be(0) + u32_be(self.width_fp) + u32_be(self.height_fp)
    }

    /// Serialise the body.
    pub fn to_body_bytes(&self) -> (r: Vec<u8>)
        ensures
            r@ == self.body(),
    {
        broadcast use empty_left;

        let mut out: Vec<u8> = Vec::new();
        put_u32(&mut out, 0);
        put_u32(&mut out, self.width_fp);
        put_u32(&mut out, self.height_fp);
        out
    }
}

/// What the body of a `clef`, `prof` or `enof` atom holds.
pub open spec fn tapt_dims_of(s: Seq<u8>) -> Result<TaptDims, Error> {
    if s.len() < 12 {
        Err(Error::Rule("MOV: tapt sub-atom payload < 12 bytes"))
    } else {
        Ok(TaptDims { width_fp: u32_at(s, 4), height_fp: u32_at(s, 8) })
    }
}

/// Parse the body of a `clef`, `prof` or `enof` atom (12 bytes; more are
/// ignored).
pub fn parse_tapt_dims(payload: &[u8]) -> (r: Result<TaptDims, Error>)
    ensures
        r == tapt_dims_of(payload@),
{
    if payload.len() < 12 {
        return Err(Error::Rule("MOV: tapt sub-atom payload < 12 bytes"));
    }
    Ok(TaptDims { width_fp: read_u32(payload, 4), height_fp: read_u32(payload, 8) })
}

/// Composition to decode (`cslg`): the bounds of the composition time line.
#[derive(Clone, Copy, Debug, PartialEq, Eq)]
pub struct Cslg {
    /// What is added to a composition time so that none lies before its decode
    /// time.
    pub composition_to_dts_shift: i64,
    /// The least composition offset.
    pub least_decode_to_display_delta: i64,
    /// The greatest composition offset.
    pub greatest_decode_to_display_delta: i64,
    /// The earliest composition time.
    pub composition_start_time: i64,
    /// The latest end of a sample in composition time.
    pub composition_end_time: i64,
}

impl Default for Cslg {
    fn default() -> (r: Self)
        ensures
            r == (Cslg {
                composition_to_dts_shift: 0,
                least_decode_to_display_delta: 0,
                greatest_decode_to_display_delta: 0,
                composition_start_time: 0,
                composition_end_time: 0,
            }),
    {
        Cslg {
            composition_to_dts_shift: 0,
            least_decode_to_display_delta: 0,
            greatest_decode_to_display_delta: 0,
            composition_start_time: 0,
            composition_end_time: 0,
        }
    }
}

/// What a `cslg` body holds: five `i32` in version 0, five `i64` in version 1.
pub open spec fn cslg_of(s: Seq<u8>) -> Result<Cslg, Error> {
    if s.len() < 4 {
        Err(Error::Rule("MOV: cslg payload < 4 bytes"))
    } else if s[0] == 0 {
        if s.len() < 24 {
            Err(Error::Rule("MOV: cslg truncated table"))
        } else {
            Ok(
                Cslg {
                    composition_to_dts_shift: i32_at(s, 4) as i64,
                    least_decode_to_display_delta: i32_at(s, 8) as i64,
                    greatest_decode_to_display_delta: i32_at(s, 12) as i64,
                    composition_start_time: i32_at(s, 16) as i64,
                    composition_end_time: i32_at(s, 20) as i64,
                },
            )
        }
    } else if s[0] == 1 {
        if s.len() < 44 {
            Err(Error::Rule("MOV: cslg truncated table"))
        } else {
            Ok(
                Cslg {
                    composition_to_dts_shift: i64_at(s, 4),
                    least_decode_to_display_delta: i64_at(s, 12),
                    greatest_decode_to_display_delta: i64_at(s, 20),
                    composition_start_time: i64_at(s, 28),
                    composition_end_time: i64_at(s, 36),
                },
            )
        }
    } else {
        Err(Error::Number("MOV: cslg unknown version ", s[0] as i128, ""))
    }
}

/// Parse the body of a `cslg` atom.
pub fn parse_cslg(payload: &[u8]) -> (r: Result<Cslg, Error>)
    ensures
        r == cslg_of(payload@),
{
    if payload.len() < 4 {
        return Err(Error::Rule("MOV: cslg payload < 4 bytes"));
    }
    let version: u8 = payload[0];
    if version == 0 {
        if payload.len() < 24 {
            return Err(Error::Rule("MOV: cslg truncated table"));
        }
        Ok(
            Cslg {
                composition_to_dts_shift: read_i32(payload, 4) as i64,
                least_decode_to_display_delta: read_i32(payload, 8) as i64,
                greatest_decode_to_display_delta: read_i32(payload, 12) as i64,
                composition_start_time: read_i32(payload, 16) as i64,
                composition_end_time: read_i32(payload, 20) as i64,
            },
        )
    } else if version == 1 {
        if payload.len() < 44 {
            return Err(Error::Rule("MOV: cslg truncated table"));
        }
        Ok(
            Cslg {
                composition_to_dts_shift: read_i64(payload, 4),
                least_decode_to_display_delta: read_i64(payload, 12),
                greatest_decode_to_display_delta: read_i64(payload, 20),
                composition_start_time: read_i64(payload, 28),
                composition_end_time: read_i64(payload, 36),
            },
        )
    } else {
        Err(Error::Number("MOV: cslg unknown version ", version as i128, ""))
    }
}

} // verus!
