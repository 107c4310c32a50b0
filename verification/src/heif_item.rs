//! Image items: their properties, how derived items are made, and the bytes of
//! both.
use crate::bytes::{
    cat, empty_left, empty_right, i16_be, i32_be, low8, low8_of, put_bytes, put_code, put_i16,
    put_i32, put_u16, put_u32, put_u8, same_bytes, same_code, u16_be, u32_be,
};
use crate::fourcc::{
    AMVE, AUXC, AV1C, AVCC, CCLV, CLAP, CLLI, COLR, GRID, HVCC, IDEN, IMIR, IOVL, IROT, ISPE, LSEL,
    MDCV, MSKC, NCLX, PIXI, PROF, RICC, TMAP,
};
use crate::iprp::{AuxC, Cclv, Clli, ColrInfo, ColrInfoModel, Imir, Irot, Ispe, Mdcv, Pixi};
use crate::media_meta::Clap;
use crate::text::utf8;
use vstd::prelude::*;
use vstd::slice::slice_to_vec;

verus! {

/// Layer selector (`lsel`).
#[derive(Clone, Copy, Debug, Default, PartialEq, Eq)]
pub struct LayerSelector {
    pub layer_id: u16,
}

/// Ambient viewing environment (`amve`).
#[derive(Clone, Copy, Debug, Default, PartialEq, Eq)]
pub struct Amve {
    pub ambient_illuminance: u32,
    pub ambient_light_x: u16,
    pub ambient_light_y: u16,
}

/// A property of an image item.
#[derive(Debug, PartialEq, Eq)]
pub enum HeifProperty {
    Ispe(Ispe),
    Pixi(Pixi),
    Colr(ColrInfo),
    AuxC(AuxC),
    Lsel(LayerSelector),
    Irot(Irot),
    Imir(Imir),
    Clli(Clli),
    Mdcv(Mdcv),
    Cclv(Cclv),
    Amve(Amve),
    /// Any other box, with its body.
    Other { fourcc: [u8; 4], payload: Vec<u8> },
}

/// What a [`HeifProperty`] holds.
pub enum HeifPropertyModel {
    Ispe(Ispe),
    Pixi(Seq<u8>),
    Colr(ColrInfoModel),
    AuxC(Seq<char>, Seq<u8>),
    Lsel(LayerSelector),
    Irot(Irot),
    Imir(Imir),
    Clli(Clli),
    Mdcv(Mdcv),
    Cclv(Cclv),
    Amve(Amve),
    Other([u8; 4], Seq<u8>),
}

impl View for HeifProperty {
    type V = HeifPropertyModel;

    open spec fn view(&self) -> HeifPropertyModel {
        match *self {
            HeifProperty::Ispe(i) => HeifPropertyModel::Ispe(i),
            HeifProperty::Pixi(p) => HeifPropertyModel::Pixi(p.bits_per_channel@),
            HeifProperty::Colr(c) => HeifPropertyModel::Colr(c@),
            HeifProperty::AuxC(a) => HeifPropertyModel::AuxC(a.aux_type@, a.aux_subtype@),
            HeifProperty::Lsel(l) => HeifPropertyModel::Lsel(l),
            HeifProperty::Irot(i) => HeifPropertyModel::Irot(i),
            HeifProperty::Imir(i) => HeifPropertyModel::Imir(i),
            HeifProperty::Clli(c) => HeifPropertyModel::Clli(c),
            HeifProperty::Mdcv(m) => HeifPropertyModel::Mdcv(m),
            HeifProperty::Cclv(c) => HeifPropertyModel::Cclv(c),
            HeifProperty::Amve(a) => HeifPropertyModel::Amve(a),
            HeifProperty::Other { fourcc, payload } => HeifPropertyModel::Other(fourcc, payload@),
        }
    }
}

/// The code of the box of a property.
pub open spec fn property_code(m: HeifPropertyModel) -> [u8; 4] {
    match m {
        HeifPropertyModel::Ispe(_) => ISPE,
        HeifPropertyModel::Pixi(_) => PIXI,
        HeifPropertyModel::Colr(_) => COLR,
        HeifPropertyModel::AuxC(_, _) => AUXC,
        HeifPropertyModel::Lsel(_) => LSEL,
        HeifPropertyModel::Irot(_) => IROT,
        HeifPropertyModel::Imir(_) => IMIR,
        HeifPropertyModel::Clli(_) => CLLI,
        HeifPropertyModel::Mdcv(_) => MDCV,
        HeifPropertyModel::Cclv(_) => CCLV,
        HeifPropertyModel::Amve(_) => AMVE,
        HeifPropertyModel::Other(fourcc, _) => fourcc,
    }
}

/// The byte that says what a `cclv` box holds.
pub open spec fn cclv_flags(c: Cclv) -> u8 {
    ((if c.cancel_flag {
        0x80int
    } else {
        0
    }) + (if c.persistence_flag {
        0x40int
    } else {
        0
    }) + (if c.primaries is Some {
        0x20int
    } else {
        0
    }) + (if c.min_luminance is Some {
        0x10int
    } else {
        0
    }) + (if c.max_luminance is Some {
        0x08int
    } else {
        0
    }) + (if c.avg_luminance is Some {
        0x04int
    } else {
        0
    })) as u8
}

/// The bytes of a number that may be there.
pub open spec fn optional_u32(v: Option<u32>) -> Seq<u8> {
    match v {
        Some(x) => u32_be(x),
        None => Seq::empty(),
    }
}

/// The bytes of primaries that may be there: three x, then three y.
pub open spec fn optional_primaries(v: Option<[(i32, i32); 3]>) -> Seq<u8> {
    match v {
        Some(p) => i32_be(p@[0].0) + i32_be(p@[1].0) + i32_be(p@[2].0) + i32_be(p@[0].1) + i32_be(
            p@[1].1,
        ) + i32_be(p@[2].1),
        None => Seq::empty(),
    }
}

/// The body of the box of colour information.
pub open spec fn colr_info_body(m: ColrInfoModel) -> Seq<u8> {
    match m {
        ColrInfoModel::Nclx { primaries, transfer, matrix, full_range } => NCLX@ + u16_be(primaries)
            + u16_be(transfer) + u16_be(matrix) + seq![
            if full_range {
                0x80u8
            } else {
                0u8
            },
        ],
        ColrInfoModel::RestrictedIcc(b) => RICC@ + b,
        ColrInfoModel::UnrestrictedIcc(b) => PROF@ + b,
    }
}

/// The body of the box of a property.
pub open spec fn property_body(m: HeifPropertyModel) -> Seq<u8> {
    match m {
        HeifPropertyModel::Ispe(i) => u32_be(0) + u32_be(i.width) + u32_be(i.height),
        HeifPropertyModel::Pixi(bits) => u32_be(0) + seq![low8(bits.len() as int)] + bits,
        HeifPropertyModel::Colr(c) => colr_info_body(c),
        HeifPropertyModel::AuxC(urn, subtype) => u32_be(0) + utf8(urn) + seq![0u8] + subtype,
        HeifPropertyModel::Lsel(l) => u16_be(l.layer_id),
        HeifPropertyModel::Irot(i) => seq![(i.steps % 4) as u8],
        HeifPropertyModel::Imir(i) => seq![(i.axis % 2) as u8],
        HeifPropertyModel::Clli(c) => u16_be(c.max_content_light_level) + u16_be(
            c.max_pic_average_light_level,
        ),
        HeifPropertyModel::Mdcv(m) => u16_be(m.display_primaries@[0].0) + u16_be(
            m.display_primaries@[1].0,
        ) + u16_be(m.display_primaries@[2].0) + u16_be(m.display_primaries@[0].1) + u16_be(
            m.display_primaries@[1].1,
        ) + u16_be(m.display_primaries@[2].1) + u16_be(m.white_point.0) + u16_be(m.white_point.1)
            + u32_be(m.max_display_luminance) + u32_be(m.min_display_luminance),
        HeifPropertyModel::Cclv(c) => u32_be(0) + seq![cclv_flags(c)] + optional_primaries(
            c.primaries,
        ) + optional_u32(c.min_luminance) + optional_u32(c.max_luminance) + optional_u32(
            c.avg_luminance,
        ),
        HeifPropertyModel::Amve(a) => u32_be(0) + u32_be(a.ambient_illuminance) + u16_be(
            a.ambient_light_x,
        ) + u16_be(a.ambient_light_y),
        HeifPropertyModel::Other(_, payload) => payload,
    }
}

/// Whether a reader must understand a property: the extents, pixel information,
/// auxiliary types, transforms and codec configurations.
pub open spec fn property_essential(m: HeifPropertyModel) -> bool {
    match m {
        HeifPropertyModel::Ispe(_) => true,
        HeifPropertyModel::Pixi(_) => true,
        HeifPropertyModel::AuxC(_, _) => true,
        HeifPropertyModel::Irot(_) => true,
        HeifPropertyModel::Imir(_) => true,
        HeifPropertyModel::Other(fourcc, _) => fourcc == HVCC || fourcc == AV1C || fourcc == AVCC
            || fourcc == MSKC || fourcc == CLAP,
        _ => false,
    }
}

fn put_optional_u32(out: &mut Vec<u8>, v: Option<u32>)
    ensures
        final(out)@ == old(out)@ + optional_u32(v),
{
    broadcast use empty_right;

    match v {
        Some(x) => put_u32(out, x),
        None => {},
    }
}

fn put_optional_primaries(out: &mut Vec<u8>, v: Option<[(i32, i32); 3]>)
    ensures
        final(out)@ == old(out)@ + optional_primaries(v),
{
    match v {
        Some(p) => {
            put_i32(out, p[0].0);
            put_i32(out, p[1].0);
            put_i32(out, p[2].0);
            put_i32(out, p[0].1);
            put_i32(out, p[1].1);
            put_i32(out, p[2].1);
        },
        None => {},
    }
    assert(out@ =~= old(out)@ + optional_primaries(v));
}

fn same_primaries(a: &[(i32, i32); 3], b: &[(i32, i32); 3]) -> (r: bool)
    ensures
        r == (a == b),
{
    let r = a[0].0 == b[0].0 && a[0].1 == b[0].1 && a[1].0 == b[1].0 && a[1].1 == b[1].1 && a[2].0
        == b[2].0 && a[2].1 == b[2].1;
    assert(r ==> a =~= b);
    r
}

fn same_optional(a: Option<u32>, b: Option<u32>) -> (r: bool)
    ensures
        r == (a == b),
{
    match (a, b) {
        (Some(x), Some(y)) => x == y,
        (None, None) => true,
        _ => false,
    }
}

fn same_mdcv(a: &Mdcv, b: &Mdcv) -> (r: bool)
    ensures
        r == (a == b),
{
    let (p, q) = (a.display_primaries, b.display_primaries);
    let same = p[0].0 == q[0].0 && p[0].1 == q[0].1 && p[1].0 == q[1].0 && p[1].1 == q[1].1
        && p[2].0 == q[2].0 && p[2].1 == q[2].1;
    assert(same ==> p =~= q);
    same && a.white_point.0 == b.white_point.0 && a.white_point.1 == b.white_point.1
        && a.max_display_luminance == b.max_display_luminance && a.min_display_luminance
        == b.min_display_luminance
}

fn same_cclv(a: &Cclv, b: &Cclv) -> (r: bool)
    ensures
        r == (a == b),
{
    let primaries = match (&a.primaries, &b.primaries) {
        (Some(x), Some(y)) => same_primaries(x, y),
        (None, None) => true,
        _ => false,
    };
    a.cancel_flag == b.cancel_flag && a.persistence_flag == b.persistence_flag && primaries
        && same_optional(a.min_luminance, b.min_luminance) && same_optional(
        a.max_luminance,
        b.max_luminance,
    ) && same_optional(a.avg_luminance, b.avg_luminance)
}

fn same_colr(a: &ColrInfo, b: &ColrInfo) -> (r: bool)
    ensures
        r == (a@ == b@),
{
    match (a, b) {
        (
            ColrInfo::Nclx { primaries: p, transfer: t, matrix: m, full_range: f },
            ColrInfo::Nclx { primaries: p2, transfer: t2, matrix: m2, full_range: f2 },
        ) => *p == *p2 && *t == *t2 && *m == *m2 && *f == *f2,
        (ColrInfo::RestrictedIcc(x), ColrInfo::RestrictedIcc(y)) => same_bytes(
            x.as_slice(),
            y.as_slice(),
        ),
        (ColrInfo::UnrestrictedIcc(x), ColrInfo::UnrestrictedIcc(y)) => same_bytes(
            x.as_slice(),
            y.as_slice(),
        ),
        _ => false,
    }
}

impl HeifProperty {
    /// The code of the box.
    pub fn fourcc(&self) -> (r: [u8; 4])
        ensures
            r == property_code(self@),
    {
        match self {
            HeifProperty::Ispe(_) => ISPE,
            HeifProperty::Pixi(_) => PIXI,
            HeifProperty::Colr(_) => COLR,
            HeifProperty::AuxC(_) => AUXC,
            HeifProperty::Lsel(_) => LSEL,
            HeifProperty::Irot(_) => IROT,
            HeifProperty::Imir(_) => IMIR,
            HeifProperty::Clli(_) => CLLI,
            HeifProperty::Mdcv(_) => MDCV,
            HeifProperty::Cclv(_) => CCLV,
            HeifProperty::Amve(_) => AMVE,
            HeifProperty::Other { fourcc, .. } => *fourcc,
        }
    }

    /// Serialise the body of the box.
    pub fn emit_body(&self) -> (r: Vec<u8>)
        ensures
            r@ == property_body(self@),
    {
        broadcast use empty_left;

        let mut p: Vec<u8> = Vec::new();
        match self {
            HeifProperty::Ispe(i) => {
                put_u32(&mut p, 0);
                put_u32(&mut p, i.width);
                put_u32(&mut p, i.height);
            },
            HeifProperty::Pixi(x) => {
                put_u32(&mut p, 0);
                put_u8(&mut p, low8_of(x.bits_per_channel.len()));
                put_bytes(&mut p, x.bits_per_channel.as_slice());
            },
            HeifProperty::Colr(c) => match c {
                ColrInfo::Nclx { primaries, transfer, matrix, full_range } => {
                    put_code(&mut p, NCLX);
                    put_u16(&mut p, *primaries);
                    put_u16(&mut p, *transfer);
                    put_u16(&mut p, *matrix);
                    put_u8(&mut p, if *full_range {
                        0x80
                    } else {
                        0
                    });
                },
                ColrInfo::RestrictedIcc(bytes) => {
                    put_code(&mut p, RICC);
                    put_bytes(&mut p, bytes.as_slice());
                },
                ColrInfo::UnrestrictedIcc(bytes) => {
                    put_code(&mut p, PROF);
                    put_bytes(&mut p, bytes.as_slice());
                },
            },
            HeifProperty::AuxC(a) => {
                put_u32(&mut p, 0);
                put_bytes(&mut p, a.aux_type.as_str().as_bytes());
                put_u8(&mut p, 0);
                put_bytes(&mut p, a.aux_subtype.as_slice());
            },
            HeifProperty::Lsel(l) => {
                put_u16(&mut p, l.layer_id);
            },
            HeifProperty::Irot(i) => {
                put_u8(&mut p, i.steps % 4);
            },
            HeifProperty::Imir(i) => {
                put_u8(&mut p, i.axis % 2);
            },
            HeifProperty::Clli(c) => {
                put_u16(&mut p, c.max_content_light_level);
                put_u16(&mut p, c.max_pic_average_light_level);
            },
            HeifProperty::Mdcv(m) => {
                put_u16(&mut p, m.display_primaries[0].0);
                put_u16(&mut p, m.display_primaries[1].0);
                put_u16(&mut p, m.display_primaries[2].0);
                put_u16(&mut p, m.display_primaries[0].1);
                put_u16(&mut p, m.display_primaries[1].1);
                put_u16(&mut p, m.display_primaries[2].1);
                put_u16(&mut p, m.white_point.0);
                put_u16(&mut p, m.white_point.1);
                put_u32(&mut p, m.max_display_luminance);
                put_u32(&mut p, m.min_display_luminance);
            },
            HeifProperty::Cclv(c) => {
                let mut flags: u8 = 0;
                if c.cancel_flag {
                    flags = flags + 0x80;
                }
                if c.persistence_flag {
                    flags = flags + 0x40;
                }
                if c.primaries.is_some() {
                    flags = flags + 0x20;
                }
                if c.min_luminance.is_some() {
                    flags = flags + 0x10;
                }
                if c.max_luminance.is_some() {
                    flags = flags + 0x08;
                }
                if c.avg_luminance.is_some() {
                    flags = flags + 0x04;
                }
                put_u32(&mut p, 0);
                put_u8(&mut p, flags);
                put_optional_primaries(&mut p, c.primaries);
                put_optional_u32(&mut p, c.min_luminance);
                put_optional_u32(&mut p, c.max_luminance);
                put_optional_u32(&mut p, c.avg_luminance);
            },
            HeifProperty::Amve(a) => {
                put_u32(&mut p, 0);
                put_u32(&mut p, a.ambient_illuminance);
                put_u16(&mut p, a.ambient_light_x);
                put_u16(&mut p, a.ambient_light_y);
            },
            HeifProperty::Other { payload, .. } => {
                put_bytes(&mut p, payload.as_slice());
            },
        }
        p
    }

    /// Whether a reader must understand the property.
    pub fn default_essential(&self) -> (r: bool)
        ensures
            r == property_essential(self@),
    {
        match self {
            HeifProperty::Ispe(_) => true,
            HeifProperty::Pixi(_) => true,
            HeifProperty::AuxC(_) => true,
            HeifProperty::Irot(_) => true,
            HeifProperty::Imir(_) => true,
            HeifProperty::Other { fourcc, .. } => same_code(fourcc, &HVCC) || same_code(
                fourcc,
                &AV1C,
            ) || same_code(fourcc, &AVCC) || same_code(fourcc, &MSKC) || same_code(fourcc, &CLAP),
            _ => false,
        }
    }

    /// Whether two properties hold the same.
    pub fn same(&self, other: &HeifProperty) -> (r: bool)
        ensures
            r == (self@ == other@),
    {
        match (self, other) {
            (HeifProperty::Ispe(a), HeifProperty::Ispe(b)) => a.width == b.width && a.height
                == b.height,
            (HeifProperty::Pixi(a), HeifProperty::Pixi(b)) => same_bytes(
                a.bits_per_channel.as_slice(),
                b.bits_per_channel.as_slice(),
            ),
            (HeifProperty::Colr(a), HeifProperty::Colr(b)) => same_colr(a, b),
            (HeifProperty::AuxC(a), HeifProperty::AuxC(b)) => a.aux_type == b.aux_type
                && same_bytes(a.aux_subtype.as_slice(), b.aux_subtype.as_slice()),
            (HeifProperty::Lsel(a), HeifProperty::Lsel(b)) => a.layer_id == b.layer_id,
            (HeifProperty::Irot(a), HeifProperty::Irot(b)) => a.steps == b.steps,
            (HeifProperty::Imir(a), HeifProperty::Imir(b)) => a.axis == b.axis,
            (HeifProperty::Clli(a), HeifProperty::Clli(b)) => a.max_content_light_level
                == b.max_content_light_level && a.max_pic_average_light_level
                == b.max_pic_average_light_level,
            (HeifProperty::Mdcv(a), HeifProperty::Mdcv(b)) => same_mdcv(a, b),
            (HeifProperty::Cclv(a), HeifProperty::Cclv(b)) => same_cclv(a, b),
            (HeifProperty::Amve(a), HeifProperty::Amve(b)) => a.ambient_illuminance
                == b.ambient_illuminance && a.ambient_light_x == b.ambient_light_x
                && a.ambient_light_y == b.ambient_light_y,
            (
                HeifProperty::Other { fourcc: a, payload: x },
                HeifProperty::Other { fourcc: b, payload: y },
            ) => same_code(a, b) && same_bytes(x.as_slice(), y.as_slice()),
            _ => false,
        }
    }
}

impl Clone for HeifProperty {
    fn clone(&self) -> (r: Self)
        ensures
            r@ == self@,
    {
        match self {
            HeifProperty::Ispe(i) => HeifProperty::Ispe(*i),
            HeifProperty::Pixi(p) => HeifProperty::Pixi(
                Pixi { bits_per_channel: slice_to_vec(p.bits_per_channel.as_slice()) },
            ),
            HeifProperty::Colr(c) => HeifProperty::Colr(
                match c {
                    ColrInfo::Nclx { primaries, transfer, matrix, full_range } => ColrInfo::Nclx {
                        primaries: *primaries,
                        transfer: *transfer,
                        matrix: *matrix,
                        full_range: *full_range,
                    },
                    ColrInfo::RestrictedIcc(b) => ColrInfo::RestrictedIcc(
                        slice_to_vec(b.as_slice()),
                    ),
                    ColrInfo::UnrestrictedIcc(b) => ColrInfo::UnrestrictedIcc(
                        slice_to_vec(b.as_slice()),
                    ),
                },
            ),
            HeifProperty::AuxC(a) => HeifProperty::AuxC(
                AuxC {
                    aux_type: a.aux_type.clone(),
                    aux_subtype: slice_to_vec(a.aux_subtype.as_slice()),
                },
            ),
            HeifProperty::Lsel(l) => HeifProperty::Lsel(*l),
            HeifProperty::Irot(i) => HeifProperty::Irot(*i),
            HeifProperty::Imir(i) => HeifProperty::Imir(*i),
            HeifProperty::Clli(c) => HeifProperty::Clli(*c),
            HeifProperty::Mdcv(m) => HeifProperty::Mdcv(*m),
            HeifProperty::Cclv(c) => HeifProperty::Cclv(*c),
            HeifProperty::Amve(a) => HeifProperty::Amve(*a),
            HeifProperty::Other { fourcc, payload } => HeifProperty::Other {
                fourcc: *fourcc,
                payload: slice_to_vec(payload.as_slice()),
            },
        }
    }
}

/// How a derived image item is made from its components.
#[derive(Clone, Debug, PartialEq, Eq)]
pub enum HeifDerivation {
    /// `grid`: tiles in row-major order.
    Grid {
        /// Rows, in `1..=256`.
        rows: u16,
        /// Columns, in `1..=256`.
        cols: u16,
        output_width: u32,
        output_height: u32,
    },
    /// `iovl`: layers on a canvas, in stacking order.
    Overlay {
        /// The canvas background, as RGBA.
        canvas_fill_color: [u16; 4],
        output_width: u32,
        output_height: u32,
        /// Horizontal and vertical offset of each layer.
        offsets: Vec<(i32, i32)>,
    },
    /// `iden`: the component with other properties.
    Identity,
    /// `tmap`: tone mapping, with the bytes of the algorithm.
    ToneMap { payload: Vec<u8> },
}

/// A count of `1..=256` in one byte, as one less than the count. Of a count
/// outside that range the low byte counts.
pub open spec fn count_byte(n: u16) -> u8 {
    if n == 256 {
        255
    } else if n % 0x100 == 0 {
        0
    } else {
        (n % 0x100 - 1) as u8
    }
}

/// The offset fits in sixteen bits.
pub open spec fn narrow(x: i32) -> bool {
    -0x8000 <= x <= 0x7fff
}

/// All offsets of an overlay fit in sixteen bits.
pub open spec fn all_narrow(offsets: Seq<(i32, i32)>) -> bool {
    forall|i: int|
        0 <= i < offsets.len() ==> narrow((#[trigger] offsets[i]).0) && narrow(offsets[i].1)
}

/// The offsets of an overlay in 32 bits each.
pub open spec fn wide_offsets(offsets: Seq<(i32, i32)>) -> spec_fn(int) -> Seq<u8> {
    |i: int| i32_be(offsets[i].0) + i32_be(offsets[i].1)
}

/// The offsets of an overlay in sixteen bits each.
pub open spec fn narrow_offsets(offsets: Seq<(i32, i32)>) -> spec_fn(int) -> Seq<u8> {
    |i: int| i16_be(offsets[i].0 as i16) + i16_be(offsets[i].1 as i16)
}

/// The data of a derived item: a version, a byte that says whether numbers are
/// wide, and the numbers.
pub open spec fn derivation_body(d: HeifDerivation) -> Seq<u8> {
    match d {
        HeifDerivation::Grid { rows, cols, output_width, output_height } => if output_width > 0xffff
            || output_height > 0xffff {
            seq![0u8, 1u8, count_byte(rows), count_byte(cols)] + u32_be(output_width) + u32_be(
                output_height,
            )
        } else {
            seq![0u8, 0u8, count_byte(rows), count_byte(cols)] + u16_be(output_width as u16)
                + u16_be(output_height as u16)
        },
        HeifDerivation::Overlay { canvas_fill_color, output_width, output_height, offsets } => {
            let fill = u16_be(canvas_fill_color@[0]) + u16_be(canvas_fill_color@[1]) + u16_be(
                canvas_fill_color@[2],
            ) + u16_be(canvas_fill_color@[3]);
            if output_width > 0xffff || output_height > 0xffff || !all_narrow(offsets@) {
                seq![0u8, 1u8] + fill + u32_be(output_width) + u32_be(output_height) + cat(
                    offsets@.len(),
                    wide_offsets(offsets@),
                )
            } else {
                seq![0u8, 0u8] + fill + u16_be(output_width as u16) + u16_be(output_height as u16)
                    + cat(offsets@.len(), narrow_offsets(offsets@))
            }
        },
        HeifDerivation::Identity => Seq::empty(),
        HeifDerivation::ToneMap { payload } => payload@,
    }
}

/// The item type of a derivation.
pub open spec fn derivation_type(d: HeifDerivation) -> [u8; 4] {
    match d {
        HeifDerivation::Grid { .. } => GRID,
        HeifDerivation::Overlay { .. } => IOVL,
        HeifDerivation::Identity => IDEN,
        HeifDerivation::ToneMap { .. } => TMAP,
    }
}

fn to_count_byte(n: u16) -> (r: u8)
    ensures
        r == count_byte(n),
{
    if n == 256 {
        255
    } else if n % 0x100 == 0 {
        0
    } else {
        (n % 0x100 - 1) as u8
    }
}

fn offsets_are_narrow(offsets: &Vec<(i32, i32)>) -> (r: bool)
    ensures
        r == all_narrow(offsets@),
{
    for i in 0..offsets.len()
        invariant
            forall|j: int|
                0 <= j < i ==> narrow((#[trigger] offsets@[j]).0) && narrow(offsets@[j].1),
    {
        let (h, v) = offsets[i];
        if h < -0x8000 || h > 0x7fff || v < -0x8000 || v > 0x7fff {
            assert(!(narrow(offsets@[i as int].0) && narrow(offsets@[i as int].1)));
            return false;
        }
    }
    true
}

impl HeifDerivation {
    /// The item type of the derivation.
    pub fn item_type(&self) -> (r: [u8; 4])
        ensures
            r == derivation_type(*self),
    {
        match self {
            HeifDerivation::Grid { .. } => GRID,
            HeifDerivation::Overlay { .. } => IOVL,
            HeifDerivation::Identity => IDEN,
            HeifDerivation::ToneMap { .. } => TMAP,
        }
    }

    /// Serialise the data of the derived item.
    pub fn emit_body(&self) -> (r: Vec<u8>)
        ensures
            r@ == derivation_body(*self),
    {
        broadcast use empty_left;

        let mut p: Vec<u8> = Vec::new();
        match self {
            HeifDerivation::Grid { rows, cols, output_width, output_height } => {
                let large = *output_width > 0xffff || *output_height > 0xffff;
                p.push(0);
                p.push(if large {
                    1
                } else {
                    0
                });
                p.push(to_count_byte(*rows));
                p.push(to_count_byte(*cols));
                assert(p@ =~= seq![
                    0u8,
                    if large {
                        1u8
                    } else {
                        0u8
                    },
                    count_byte(*rows),
                    count_byte(*cols),
                ]);
                if large {
                    put_u32(&mut p, *output_width);
                    put_u32(&mut p, *output_height);
                } else {
                    put_u16(&mut p, *output_width as u16);
                    put_u16(&mut p, *output_height as u16);
                }
            },
            HeifDerivation::Overlay { canvas_fill_color, output_width, output_height, offsets } => {
                let large = *output_width > 0xffff || *output_height > 0xffff
                    || !offsets_are_narrow(offsets);
                p.push(0);
                p.push(if large {
                    1
                } else {
                    0
                });
                let ghost head = p@;
                assert(head =~= seq![
                    0u8,
                    if large {
                        1u8
                    } else {
                        0u8
                    },
                ]);
                put_u16(&mut p, canvas_fill_color[0]);
                put_u16(&mut p, canvas_fill_color[1]);
                put_u16(&mut p, canvas_fill_color[2]);
                put_u16(&mut p, canvas_fill_color[3]);
                assert(p@ =~= head + (u16_be(canvas_fill_color@[0]) + u16_be(canvas_fill_color@[1])
                    + u16_be(canvas_fill_color@[2]) + u16_be(canvas_fill_color@[3])));
                if large {
                    put_u32(&mut p, *output_width);
                    put_u32(&mut p, *output_height);
                    let ghost before = p@;
                    assert(p@ =~= before + cat(0, wide_offsets(offsets@)));
                    for i in 0..offsets.len()
                        invariant
                            p@ == before + cat(i as nat, wide_offsets(offsets@)),
                    {
                        put_i32(&mut p, offsets[i].0);
                        put_i32(&mut p, offsets[i].1);
                        assert(p@ =~= before + cat((i + 1) as nat, wide_offsets(offsets@)));
                    }
                } else {
                    put_u16(&mut p, *output_width as u16);
                    put_u16(&mut p, *output_height as u16);
                    let ghost before = p@;
                    assert(p@ =~= before + cat(0, narrow_offsets(offsets@)));
                    for i in 0..offsets.len()
                        invariant
                            all_narrow(offsets@),
                            p@ == before + cat(i as nat, narrow_offsets(offsets@)),
                    {
                        assert(narrow(offsets@[i as int].0) && narrow(offsets@[i as int].1));
                        put_i16(&mut p, offsets[i].0 as i16);
                        put_i16(&mut p, offsets[i].1 as i16);
                        assert(p@ =~= before + cat((i + 1) as nat, narrow_offsets(offsets@)));
                    }
                }
            },
            HeifDerivation::Identity => {},
            HeifDerivation::ToneMap { payload } => {
                put_bytes(&mut p, payload.as_slice());
            },
        }
        p
    }
}

/// A transform that is applied to an image for display.
#[derive(Clone, Copy, Debug, PartialEq, Eq)]
pub enum TransformOp {
    Irot { steps: u8 },
    Imir { axis: u8 },
    Clap(Clap),
}

/// Transforms in the order in which they are applied.
pub type TransformChain = Vec<TransformOp>;

/// The property that stands for a transform.
pub open spec fn transform_property(op: TransformOp) -> HeifPropertyModel {
    match op {
        TransformOp::Irot { steps } => HeifPropertyModel::Irot(Irot { steps }),
        TransformOp::Imir { axis } => HeifPropertyModel::Imir(Imir { axis }),
        TransformOp::Clap(c) => HeifPropertyModel::Other(CLAP, c.body()),
    }
}

fn to_property(op: &TransformOp) -> (r: HeifProperty)
    ensures
        r@ == transform_property(*op),
{
    match op {
        TransformOp::Irot { steps } => HeifProperty::Irot(Irot { steps: *steps }),
        TransformOp::Imir { axis } => HeifProperty::Imir(Imir { axis: *axis }),
        TransformOp::Clap(c) => HeifProperty::Other { fourcc: CLAP, payload: c.to_body_bytes() },
    }
}

/// An image item that is to be written.
#[derive(Clone, Debug)]
pub struct HeifItem {
    /// The number of the item. No two items share one.
    pub item_id: u32,
    pub item_type: [u8; 4],
    pub item_name: String,
    /// The coded image. Absent where the item is derived.
    pub data: Option<Vec<u8>>,
    pub properties: Vec<HeifProperty>,
    /// How the item is derived, if it is.
    pub derivation: Option<HeifDerivation>,
    /// What a derived item is made from.
    pub component_ids: Vec<u32>,
}

/// What a list of properties holds.
pub open spec fn heif_property_models(v: Seq<HeifProperty>) -> Seq<HeifPropertyModel> {
    Seq::new(v.len(), |i: int| v[i]@)
}

impl HeifItem {
    /// A coded item without properties. The writer gives a coded item that has
    /// no `ispe` property an empty one.
    pub fn coded(item_id: u32, item_type: [u8; 4], data: Vec<u8>) -> (r: Self)
        ensures
            r.item_id == item_id,
            r.item_type == item_type,
            r.item_name@ == Seq::<char>::empty(),
            r.data == Some(data),
            r.properties@ == Seq::<HeifProperty>::empty(),
            r.derivation is None,
            r.component_ids@ == Seq::<u32>::empty(),
    {
        HeifItem {
            item_id,
            item_type,
            item_name: String::new(),
            data: Some(data),
            properties: Vec::new(),
            derivation: None,
            component_ids: Vec::new(),
        }
    }

    /// A derived item without properties. Its type is that of the derivation.
    pub fn derived(item_id: u32, derivation: HeifDerivation, component_ids: Vec<u32>) -> (r: Self)
        ensures
            r.item_id == item_id,
            r.item_type == derivation_type(derivation),
            r.item_name@ == Seq::<char>::empty(),
            r.data is None,
            r.properties@ == Seq::<HeifProperty>::empty(),
            r.derivation == Some(derivation),
            r.component_ids == component_ids,
    {
        let item_type = derivation.item_type();
        HeifItem {
            item_id,
            item_type,
            item_name: String::new(),
            data: None,
            properties: Vec::new(),
            derivation: Some(derivation),
            component_ids,
        }
    }

    /// The item with another name.
    pub fn with_name(self, name: &str) -> (r: Self)
        ensures
            r.item_name@ == name@,
            r == (HeifItem { item_name: r.item_name, ..self }),
    {
        let mut item = self;
        item.item_name = name.to_owned();
        item
    }

    /// The item with one more property.
    pub fn with_property(self, prop: HeifProperty) -> (r: Self)
        ensures
            r.properties@ == self.properties@.push(prop),
            r == (HeifItem { properties: r.properties, ..self }),
    {
        let mut item = self;
        item.properties.push(prop);
        item
    }

    /// The item with the properties of a chain of transforms.
    pub fn with_transform_chain(self, chain: &TransformChain) -> (r: Self)
        ensures
            heif_property_models(r.properties@) == heif_property_models(self.properties@)
                + Seq::new(chain@.len(), |i: int| transform_property(chain@[i])),
            r == (HeifItem { properties: r.properties, ..self }),
    {
        let mut item = self;
        let mut all: Vec<HeifProperty> = Vec::new();
        all.append(&mut item.properties);
        let ghost before = heif_property_models(self.properties@);
        assert(all@ =~= self.properties@);
        for i in 0..chain.len()
            invariant
                heif_property_models(all@) =~= before + Seq::new(
                    i as nat,
                    |k: int| transform_property(chain@[k]),
                ),
        {
            let ghost had = all@;
            let prop = to_property(&chain[i]);
            all.push(prop);
            assert(heif_property_models(all@) =~= heif_property_models(had).push(prop@));
        }
        item.properties = all;
        item
    }
}

} // verus!
