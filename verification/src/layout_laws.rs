//! Where the fields of the small boxes stand, for reading and for writing.
use crate::brand::{ftyp_brands, ftyp_head};
use crate::bytes::{
    code_at, group_be_len, i16_at, i16_be, i32_at, i32_be, i64_at, i64_be, lemma_be_bytes,
    lemma_i16_at, lemma_i32_at, lemma_u16_at, lemma_u32_at, lemma_u64_at, tail, u16_at, u16_be,
    u32_at, u32_be, u64_at, u64_be,
};
use crate::chan::{chan_descriptions, chan_head, ChanDescription};
use crate::error::Error;
use crate::header::{hmhd_of, Hmhd};
use crate::iprp::{Cclv, Clli, Mdcv};
use crate::iprp_read::{cclv_of, clli_of, mdcv_of};
use crate::matte::{kmat_body, kmat_of, MatteModel};
use crate::media_meta::{
    clap_of, colr_body, colr_of, cslg_of, fiel_of, pasp_of, tapt_dims_of, Clap, ColorModel, Cslg,
    Fiel, Pasp, TaptDims,
};
use crate::metadata_sample::{btrt_of, BitRate};
use crate::parts::{
    chnl_body, position_bytes, ChannelLayout, ChannelStructure, Gmin, Load, SpeakerPosition,
};
use crate::pdin::{pdin_rows, PdinEntry};
use crate::pnot::{pnot_of, Pnot};
use vstd::prelude::*;

verus! {

/// A number of two bytes stands with its most significant byte first.
pub proof fn law_two_bytes_are_big_endian(x: u16)
    ensures
        u16_be(x).len() == 2,
        u16_be(x)[0] * 0x100 + u16_be(x)[1] == x,
{
    lemma_be_bytes(x, 0, 0);
}

/// A number of four bytes stands with its most significant byte first.
#[verifier::rlimit(40)]
pub proof fn law_four_bytes_are_big_endian(x: u32)
    ensures
        u32_be(x).len() == 4,
        u32_be(x)[0] * 0x100_0000 + u32_be(x)[1] * 0x1_0000 + u32_be(x)[2] * 0x100 + u32_be(x)[3]
            == x,
{
    lemma_be_bytes(0, x, 0);
    let a = x / 0x100;
    let b = x / 0x1_0000;
    assert(x == a * 0x100 + x % 0x100);
    assert(a == b * 0x100 + a % 0x100);
    assert(b == (x / 0x100_0000) * 0x100 + b % 0x100);
}

/// A number of eight bytes stands as its upper half and its lower half.
pub proof fn law_eight_bytes_are_big_endian(x: u64)
    ensures
        exists|hi: u32, lo: u32|
            #![trigger u32_be(hi), u32_be(lo)]
            x == hi * 0x1_0000_0000 + lo && u64_be(x) == u32_be(hi) + u32_be(lo),
{
    lemma_be_bytes(0, 0, x);
    let hi = (x / 0x1_0000_0000) as u32;
    let lo = (x % 0x1_0000_0000) as u32;
    assert(u64_be(x) == u32_be(hi) + u32_be(lo));
    assert(x == hi * 0x1_0000_0000 + lo);
}

/// A negative number stands as the number that is greater by a power of two.
pub proof fn law_negative_numbers_are_complements(a: i16, b: i32, c: i64)
    ensures
        a < 0 ==> i16_be(a) == u16_be((a + 0x1_0000) as u16),
        a >= 0 ==> i16_be(a) == u16_be(a as u16),
        b < 0 ==> i32_be(b) == u32_be((b + 0x1_0000_0000) as u32),
        b >= 0 ==> i32_be(b) == u32_be(b as u32),
        c < 0 ==> i64_be(c) == u64_be((c + 0x1_0000_0000_0000_0000) as u64),
        c >= 0 ==> i64_be(c) == u64_be(c as u64),
{
}

/// A `pasp` body says the horizontal spacing, then the vertical one.
pub proof fn law_pasp_layout(p: Pasp, s: Seq<u8>)
    ensures
        p.body().len() == 8,
        u32_at(p.body(), 0) == p.h_spacing,
        u32_at(p.body(), 4) == p.v_spacing,
        s.len() >= 8 && u32_at(s, 0) == p.h_spacing && u32_at(s, 4) == p.v_spacing ==> pasp_of(s)
            == Ok::<Pasp, Error>(p),
        s.len() < 8 ==> pasp_of(s) is Err,
{
    broadcast use group_be_len;

    let b = p.body();
    assert(b.subrange(0, 4) =~= u32_be(p.h_spacing));
    assert(b.subrange(4, 8) =~= u32_be(p.v_spacing));
    lemma_u32_at(b, 0, p.h_spacing);
    lemma_u32_at(b, 4, p.v_spacing);
}

/// The eight numbers of a clean aperture in bytes.
pub open spec fn says_clap(s: Seq<u8>, c: Clap) -> bool {
    &&& u32_at(s, 0) == c.clean_aperture_width_n
    &&& u32_at(s, 4) == c.clean_aperture_width_d
    &&& u32_at(s, 8) == c.clean_aperture_height_n
    &&& u32_at(s, 12) == c.clean_aperture_height_d
    &&& i32_at(s, 16) == c.horiz_off_n
    &&& u32_at(s, 20) == c.horiz_off_d
    &&& i32_at(s, 24) == c.vert_off_n
    &&& u32_at(s, 28) == c.vert_off_d
}

/// A `clap` body says the width, the height, the horizontal and the vertical offset, each
/// as a numerator and a denominator.
pub proof fn law_clap_layout(c: Clap, s: Seq<u8>)
    ensures
        c.body().len() == 32,
        says_clap(c.body(), c),
        s.len() >= 32 && says_clap(s, c) ==> clap_of(s) == Ok::<Clap, Error>(c),
        s.len() < 32 ==> clap_of(s) is Err,
{
    broadcast use group_be_len;

    let b = c.body();
    assert(b.subrange(0, 4) =~= u32_be(c.clean_aperture_width_n));
    assert(b.subrange(4, 8) =~= u32_be(c.clean_aperture_width_d));
    assert(b.subrange(8, 12) =~= u32_be(c.clean_aperture_height_n));
    assert(b.subrange(12, 16) =~= u32_be(c.clean_aperture_height_d));
    assert(b.subrange(16, 20) =~= i32_be(c.horiz_off_n));
    assert(b.subrange(20, 24) =~= u32_be(c.horiz_off_d));
    assert(b.subrange(24, 28) =~= i32_be(c.vert_off_n));
    assert(b.subrange(28, 32) =~= u32_be(c.vert_off_d));
    lemma_u32_at(b, 0, c.clean_aperture_width_n);
    lemma_u32_at(b, 4, c.clean_aperture_width_d);
    lemma_u32_at(b, 8, c.clean_aperture_height_n);
    lemma_u32_at(b, 12, c.clean_aperture_height_d);
    lemma_i32_at(b, 16, c.horiz_off_n);
    lemma_u32_at(b, 20, c.horiz_off_d);
    lemma_i32_at(b, 24, c.vert_off_n);
    lemma_u32_at(b, 28, c.vert_off_d);
}

/// The letters that start a `colr` body.
pub open spec fn starts_with(s: Seq<u8>, a: u8, b: u8, c: u8, d: u8) -> bool {
    s.len() >= 4 && s[0] == a && s[1] == b && s[2] == c && s[3] == d
}

/// A `colr` body that starts with `nclc` says primaries, transfer and matrix, in that
/// order.
pub proof fn law_nclc_layout(primaries: u16, transfer: u16, matrix: u16, s: Seq<u8>)
    ensures
        ({
            let m = ColorModel::Nclc { primaries, transfer, matrix };
            let b = colr_body(m);
            &&& b.len() == 10
            &&& starts_with(b, 0x6e, 0x63, 0x6c, 0x63)
            &&& u16_at(b, 4) == primaries
            &&& u16_at(b, 6) == transfer
            &&& u16_at(b, 8) == matrix
            &&& s.len() >= 10 && starts_with(s, 0x6e, 0x63, 0x6c, 0x63) && u16_at(s, 4) == primaries
                && u16_at(s, 6) == transfer && u16_at(s, 8) == matrix ==> colr_of(s) == Ok::<
                ColorModel,
                Error,
            >(m)
        }),
{
    broadcast use group_be_len;

    let b = colr_body(ColorModel::Nclc { primaries, transfer, matrix });
    assert(b.subrange(4, 6) =~= u16_be(primaries));
    assert(b.subrange(6, 8) =~= u16_be(transfer));
    assert(b.subrange(8, 10) =~= u16_be(matrix));
    lemma_u16_at(b, 4, primaries);
    lemma_u16_at(b, 6, transfer);
    lemma_u16_at(b, 8, matrix);
    if starts_with(s, 0x6e, 0x63, 0x6c, 0x63) {
        assert(code_at(s, 0) =~= crate::fourcc::NCLC);
    }
}

/// A `colr` body that starts with `nclx` says primaries, transfer and matrix, in that
/// order, and the range in the top bit of the byte behind them.
pub proof fn law_nclx_layout(primaries: u16, transfer: u16, matrix: u16, full_range: bool, s: Seq<u8>)
    ensures
        ({
            let m = ColorModel::Nclx { primaries, transfer, matrix, full_range };
            let b = colr_body(m);
            &&& b.len() == 11
            &&& starts_with(b, 0x6e, 0x63, 0x6c, 0x78)
            &&& u16_at(b, 4) == primaries
            &&& u16_at(b, 6) == transfer
            &&& u16_at(b, 8) == matrix
            &&& full_range == (b[10] / 128 == 1)
            &&& b[10] % 128 == 0
            &&& s.len() >= 11 && starts_with(s, 0x6e, 0x63, 0x6c, 0x78) && u16_at(s, 4) == primaries
                && u16_at(s, 6) == transfer && u16_at(s, 8) == matrix && full_range == (s[10] / 128
                == 1) ==> colr_of(s) == Ok::<ColorModel, Error>(m)
        }),
{
    broadcast use group_be_len;

    let b = colr_body(ColorModel::Nclx { primaries, transfer, matrix, full_range });
    assert(b.subrange(4, 6) =~= u16_be(primaries));
    assert(b.subrange(6, 8) =~= u16_be(transfer));
    assert(b.subrange(8, 10) =~= u16_be(matrix));
    lemma_u16_at(b, 4, primaries);
    lemma_u16_at(b, 6, transfer);
    lemma_u16_at(b, 8, matrix);
    assert(crate::fourcc::NCLC@[3] == 0x63u8);
    if starts_with(s, 0x6e, 0x63, 0x6c, 0x78) {
        assert(code_at(s, 0) =~= crate::fourcc::NCLX);
        assert(code_at(s, 0)@[3] == 0x78u8);
    }
}

/// A `colr` body that starts with `rICC` or `prof` holds a profile behind the code.
pub proof fn law_profile_layout(s: Seq<u8>)
    requires
        starts_with(s, 0x72, 0x49, 0x43, 0x43) || starts_with(s, 0x70, 0x72, 0x6f, 0x66),
    ensures
        colr_of(s) == Ok::<ColorModel, Error>(
            ColorModel::Icc { kind: [s[0], s[1], s[2], s[3]], profile: tail(s, 4) },
        ),
        colr_body(ColorModel::Icc { kind: [s[0], s[1], s[2], s[3]], profile: tail(s, 4) }) == s,
{
    let k = code_at(s, 0);
    assert(crate::fourcc::NCLC@[0] == 0x6eu8);
    assert(crate::fourcc::NCLX@[0] == 0x6eu8);
    assert(k@[0] == s[0]);
    if s[0] == 0x72u8 {
        assert(k =~= crate::fourcc::RICC);
    } else {
        assert(k =~= crate::fourcc::PROF);
    }
    assert(k@ + tail(s, 4) =~= s);
}

/// A `fiel` body is the number of fields and the ordering byte.
pub proof fn law_fiel_layout(f: Fiel, s: Seq<u8>)
    ensures
        f.body().len() == 2,
        f.body()[0] == f.field_count,
        f.body()[1] == f.field_ordering,
        s.len() == 2 && s[0] == f.field_count && s[1] == f.field_ordering ==> fiel_of(s) == Ok::<
            Fiel,
            Error,
        >(f),
        s.len() != 2 ==> fiel_of(s) is Err,
{
}

/// An aperture says the width and the height behind version and flags.
pub proof fn law_aperture_layout(d: TaptDims, s: Seq<u8>)
    ensures
        d.body().len() == 12,
        u32_at(d.body(), 0) == 0,
        u32_at(d.body(), 4) == d.width_fp,
        u32_at(d.body(), 8) == d.height_fp,
        s.len() >= 12 && u32_at(s, 4) == d.width_fp && u32_at(s, 8) == d.height_fp
            ==> tapt_dims_of(s) == Ok::<TaptDims, Error>(d),
        s.len() < 12 ==> tapt_dims_of(s) is Err,
{
    broadcast use group_be_len;

    let b = d.body();
    assert(b.subrange(0, 4) =~= u32_be(0));
    assert(b.subrange(4, 8) =~= u32_be(d.width_fp));
    assert(b.subrange(8, 12) =~= u32_be(d.height_fp));
    lemma_u32_at(b, 0, 0);
    lemma_u32_at(b, 4, d.width_fp);
    lemma_u32_at(b, 8, d.height_fp);
}

/// A hint media header says the greatest and the average packet size, then the greatest
/// and the average rate.
pub proof fn law_hint_header_is_written(h: Hmhd, s: Seq<u8>)
    ensures
        h.body().len() == 20,
        u32_at(h.body(), 0) == 0,
        u16_at(h.body(), 4) == h.max_pdu_size,
        u16_at(h.body(), 6) == h.avg_pdu_size,
        u32_at(h.body(), 8) == h.max_bitrate,
        u32_at(h.body(), 12) == h.avg_bitrate,
        u32_at(h.body(), 16) == 0,
        s.len() >= 20 && u16_at(s, 4) == h.max_pdu_size && u16_at(s, 6) == h.avg_pdu_size && u32_at(
            s,
            8,
        ) == h.max_bitrate && u32_at(s, 12) == h.avg_bitrate ==> hmhd_of(s) == Ok::<Hmhd, Error>(h),
{
    broadcast use group_be_len;

    let b = h.body();
    assert(b.subrange(0, 4) =~= u32_be(0));
    assert(b.subrange(4, 6) =~= u16_be(h.max_pdu_size));
    assert(b.subrange(6, 8) =~= u16_be(h.avg_pdu_size));
    assert(b.subrange(8, 12) =~= u32_be(h.max_bitrate));
    assert(b.subrange(12, 16) =~= u32_be(h.avg_bitrate));
    assert(b.subrange(16, 20) =~= u32_be(0));
    lemma_u32_at(b, 0, 0);
    lemma_u16_at(b, 4, h.max_pdu_size);
    lemma_u16_at(b, 6, h.avg_pdu_size);
    lemma_u32_at(b, 8, h.max_bitrate);
    lemma_u32_at(b, 12, h.avg_bitrate);
    lemma_u32_at(b, 16, 0);
}

/// A `load` body says the start, the duration, the flags and the hints.
pub proof fn law_load_layout(l: Load)
    ensures
        l.body().len() == 16,
        u32_at(l.body(), 0) == l.preload_start_time,
        u32_at(l.body(), 4) == l.preload_duration,
        u32_at(l.body(), 8) == l.preload_flags,
        u32_at(l.body(), 12) == l.default_hints,
{
    broadcast use group_be_len;

    let b = l.body();
    assert(b.subrange(0, 4) =~= u32_be(l.preload_start_time));
    assert(b.subrange(4, 8) =~= u32_be(l.preload_duration));
    assert(b.subrange(8, 12) =~= u32_be(l.preload_flags));
    assert(b.subrange(12, 16) =~= u32_be(l.default_hints));
    lemma_u32_at(b, 0, l.preload_start_time);
    lemma_u32_at(b, 4, l.preload_duration);
    lemma_u32_at(b, 8, l.preload_flags);
    lemma_u32_at(b, 12, l.default_hints);
}

/// A `gmin` body says the mode, the colour as red, green and blue, and the balance.
pub proof fn law_gmin_layout(g: Gmin)
    ensures
        g.body().len() == 16,
        u32_at(g.body(), 0) == 0,
        u16_at(g.body(), 4) == g.graphics_mode,
        u16_at(g.body(), 6) == g.opcolor@[0],
        u16_at(g.body(), 8) == g.opcolor@[1],
        u16_at(g.body(), 10) == g.opcolor@[2],
        i16_at(g.body(), 12) == g.balance,
        u16_at(g.body(), 14) == 0,
{
    broadcast use group_be_len;

    let b = g.body();
    assert(b.subrange(0, 4) =~= u32_be(0));
    assert(b.subrange(4, 6) =~= u16_be(g.graphics_mode));
    assert(b.subrange(6, 8) =~= u16_be(g.opcolor@[0]));
    assert(b.subrange(8, 10) =~= u16_be(g.opcolor@[1]));
    assert(b.subrange(10, 12) =~= u16_be(g.opcolor@[2]));
    assert(b.subrange(12, 14) =~= i16_be(g.balance));
    assert(b.subrange(14, 16) =~= u16_be(0));
    lemma_u32_at(b, 0, 0);
    lemma_u16_at(b, 4, g.graphics_mode);
    lemma_u16_at(b, 6, g.opcolor@[0]);
    lemma_u16_at(b, 8, g.opcolor@[1]);
    lemma_u16_at(b, 10, g.opcolor@[2]);
    lemma_i16_at(b, 12, g.balance);
    lemma_u16_at(b, 14, 0);
}

/// A `cslg` body says the shift, the least and the greatest offset, the start and the end,
/// in 32 bits in version 0 and in 64 bits in version 1. There is no other version.
pub proof fn law_cslg_layout(c: Cslg, s: Seq<u8>)
    ensures
        s.len() >= 24 && s[0] == 0 && i32_at(s, 4) == c.composition_to_dts_shift && i32_at(s, 8)
            == c.least_decode_to_display_delta && i32_at(s, 12)
            == c.greatest_decode_to_display_delta && i32_at(s, 16) == c.composition_start_time
            && i32_at(s, 20) == c.composition_end_time ==> cslg_of(s) == Ok::<Cslg, Error>(c),
        s.len() >= 44 && s[0] == 1 && i64_at(s, 4) == c.composition_to_dts_shift && i64_at(s, 12)
            == c.least_decode_to_display_delta && i64_at(s, 20)
            == c.greatest_decode_to_display_delta && i64_at(s, 28) == c.composition_start_time
            && i64_at(s, 36) == c.composition_end_time ==> cslg_of(s) == Ok::<Cslg, Error>(c),
        s.len() < 24 || s[0] > 1 || (s[0] == 1 && s.len() < 44) ==> cslg_of(s) is Err,
{
}

/// A `btrt` body says the buffer size, the greatest and the average rate.
pub proof fn law_btrt_layout(b: BitRate, s: Seq<u8>)
    ensures
        s.len() >= 12 && u32_at(s, 0) == b.buffer_size_db && u32_at(s, 4) == b.max_bitrate
            && u32_at(s, 8) == b.avg_bitrate ==> btrt_of(s) == b,
{
}

/// A `pnot` body says the date, the version, the code of the atom and its index.
pub proof fn law_pnot_layout(p: Pnot, s: Seq<u8>)
    ensures
        s.len() == 12 && u32_at(s, 0) == p.modification_date && u16_at(s, 4) == p.version_number
            && code_at(s, 6) == p.atom_type && u16_at(s, 10) == p.atom_index ==> pnot_of(s) == Ok::<
            Pnot,
            Error,
        >(p),
        s.len() != 12 ==> pnot_of(s) is Err,
{
}

/// Row `i` of a `pdin` body says a rate and its delay.
pub proof fn law_pdin_layout(s: Seq<u8>, i: int)
    requires
        s.len() >= 4,
        0 <= i,
        4 + 8 * i + 8 <= s.len(),
    ensures
        i < pdin_rows(s).len(),
        8 * pdin_rows(s).len() <= s.len() - 4 < 8 * pdin_rows(s).len() + 8,
        pdin_rows(s)[i] == (PdinEntry {
            rate: u32_at(s, 4 + 8 * i),
            initial_delay: u32_at(s, 8 + 8 * i),
        }),
{
}

/// An `ftyp` body says the major brand, the minor version and the other brands.
pub proof fn law_ftyp_layout(s: Seq<u8>, i: int)
    requires
        s.len() >= 8,
        s.len() % 4 == 0,
        0 <= i,
        8 + 4 * i + 4 <= s.len(),
    ensures
        ftyp_head(s).0 == code_at(s, 0),
        ftyp_head(s).1 == u32_at(s, 4),
        8 + 4 * ftyp_brands(s).len() == s.len(),
        ftyp_brands(s)[i] == code_at(s, 8 + 4 * i),
{
}

/// A `chan` body says the layout tag, the bitmap and the number of descriptions, behind
/// version and flags. A description is a label, flags and three coordinates.
pub proof fn law_chan_layout(s: Seq<u8>, i: int)
    requires
        s.len() >= 16,
        0 <= i < u32_at(s, 12),
        16 + 20 * i + 20 <= s.len(),
    ensures
        chan_head(s).0 == u32_at(s, 4),
        chan_head(s).1 == u32_at(s, 8),
        chan_head(s).2 == u32_at(s, 12),
        i < chan_descriptions(s).len() <= u32_at(s, 12),
        16 + 20 * chan_descriptions(s).len() <= s.len(),
        chan_descriptions(s)[i] == (ChanDescription {
            label: u32_at(s, 16 + 20 * i),
            flags: u32_at(s, 20 + 20 * i),
            coordinates: [
                u32_at(s, 24 + 20 * i),
                u32_at(s, 28 + 20 * i),
                u32_at(s, 32 + 20 * i),
            ],
        }),
{
}

/// A `kmat` body is version, flags, the image description, which says its own length, and
/// the matte.
pub proof fn law_kmat_layout(m: MatteModel, s: Seq<u8>)
    requires
        m.version == 0,
        m.flags == 0,
        16 <= m.image_description.len() <= 0xffff_ffff,
        u32_at(m.image_description, 0) == m.image_description.len(),
        s.len() == 4 + m.image_description.len() + m.matte_data.len(),
        s[0] == 0 && s[1] == 0 && s[2] == 0 && s[3] == 0,
        s.subrange(4, 4 + m.image_description.len() as int) == m.image_description,
        s.subrange(4 + m.image_description.len() as int, s.len() as int) == m.matte_data,
    ensures
        kmat_body(m) == s,
        kmat_of(s) == Ok::<MatteModel, Error>(m),
{
    let d = m.image_description;
    let part = s.subrange(4, 4 + d.len() as int);
    assert(part[0] == s[4] && part[1] == s[5] && part[2] == s[6] && part[3] == s[7]);
    assert(s[4] == d[0] && s[5] == d[1] && s[6] == d[2] && s[7] == d[3]);
    assert(u32_at(s, 4) == u32_at(d, 0));
    let b = kmat_body(m);
    assert(b.len() == s.len());
    assert forall|i: int| 0 <= i < s.len() implies b[i] == s[i] by {
        if i >= 4 + d.len() {
            assert(s[i] == s.subrange(4 + d.len() as int, s.len() as int)[i - 4 - d.len()]);
        } else if i >= 4 {
            assert(s[i] == s.subrange(4, 4 + d.len() as int)[i - 4]);
        }
    }
    assert(b =~= s);
}

/// The last four bytes of a `clli` body say the greatest and the average light level. The
/// body has four bytes, or eight.
pub proof fn law_clli_layout(c: Clli, s: Seq<u8>)
    ensures
        s.len() == 4 && u16_at(s, 0) == c.max_content_light_level && u16_at(s, 2)
            == c.max_pic_average_light_level ==> clli_of(s) == Ok::<Clli, Error>(c),
        s.len() == 8 && u16_at(s, 4) == c.max_content_light_level && u16_at(s, 6)
            == c.max_pic_average_light_level ==> clli_of(s) == Ok::<Clli, Error>(c),
        s.len() != 4 && s.len() != 8 ==> clli_of(s) is Err,
{
}

/// A mastering display in the bytes from `p` on: the x of the three primaries, their y, the
/// white point, the greatest and the least luminance.
pub open spec fn says_mdcv(s: Seq<u8>, p: int, m: Mdcv) -> bool {
    &&& forall|k: int|
        0 <= k < 3 ==> (#[trigger] m.display_primaries@[k]).0 == u16_at(s, p + 2 * k)
    &&& forall|k: int|
        0 <= k < 3 ==> (#[trigger] m.display_primaries@[k]).1 == u16_at(s, p + 6 + 2 * k)
    &&& m.white_point == (u16_at(s, p + 12), u16_at(s, p + 14))
    &&& m.max_display_luminance == u32_at(s, p + 16)
    &&& m.min_display_luminance == u32_at(s, p + 20)
}

/// An `mdcv` body of twenty-four bytes, or of twenty-eight, says the mastering display in
/// its last twenty-four bytes.
pub proof fn law_mdcv_layout(m: Mdcv, s: Seq<u8>)
    ensures
        (s.len() == 24 || s.len() == 28) && says_mdcv(s, s.len() - 24, m) ==> mdcv_of(s) == Ok::<
            Mdcv,
            Error,
        >(m),
        s.len() != 24 && s.len() != 28 ==> mdcv_of(s) is Err,
{
    if (s.len() == 24 || s.len() == 28) && says_mdcv(s, s.len() - 24, m) {
        let r = mdcv_of(s)->Ok_0;
        assert(m.display_primaries@[0] == r.display_primaries@[0]);
        assert(m.display_primaries@[1] == r.display_primaries@[1]);
        assert(m.display_primaries@[2] == r.display_primaries@[2]);
        assert(m.display_primaries =~= r.display_primaries);
    }
}

/// Where the luminances of a `cclv` body stand, behind the byte of flags and the primaries.
pub open spec fn luminance_at(s: Seq<u8>, k: int) -> int {
    5 + (if (s[4] / 32) % 2 == 1 {
        24int
    } else {
        0
    }) + (if k > 0 && (s[4] / 16) % 2 == 1 {
        4int
    } else {
        0
    }) + (if k > 1 && (s[4] / 8) % 2 == 1 {
        4int
    } else {
        0
    })
}

/// A `cclv` body says in the bits of a byte, the highest first: whether it cancels,
/// whether it persists, and which fields follow: primaries, the least, the greatest and
/// the average luminance.
#[verifier::rlimit(40)]
pub proof fn law_cclv_layout(s: Seq<u8>, c: Cclv)
    requires
        cclv_of(s) == Ok::<Cclv, Error>(c),
    ensures
        s.len() >= 5,
        c.cancel_flag == (s[4] / 128 == 1),
        c.persistence_flag == ((s[4] / 64) % 2 == 1),
        c.primaries is Some == ((s[4] / 32) % 2 == 1),
        c.min_luminance == (if (s[4] / 16) % 2 == 1 {
            Some(u32_at(s, luminance_at(s, 0)))
        } else {
            None
        }),
        c.max_luminance == (if (s[4] / 8) % 2 == 1 {
            Some(u32_at(s, luminance_at(s, 1)))
        } else {
            None
        }),
        c.avg_luminance == (if (s[4] / 4) % 2 == 1 {
            Some(u32_at(s, luminance_at(s, 2)))
        } else {
            None
        }),
        c.primaries matches Some(p) ==> forall|k: int|
            0 <= k < 3 ==> #[trigger] p@[k] == (i32_at(s, 5 + 4 * k), i32_at(s, 17 + 4 * k)),
{
}

/// A loudspeaker stands as its position, with the angles behind it at position 126.
pub proof fn law_speaker_layout(p: SpeakerPosition)
    ensures
        ({
            let s = position_bytes(p);
            &&& s[0] == p.position
            &&& p.position != 126 ==> s.len() == 1
            &&& p.position == 126 ==> s.len() == 4 && i16_at(s, 1) == p.azimuth && (if s[3] < 128 {
                s[3] as int
            } else {
                s[3] - 256
            }) == p.elevation
        }),
{
    broadcast use group_be_len;

    let s = position_bytes(p);
    if p.position == 126 {
        assert(s.subrange(1, 3) =~= i16_be(p.azimuth));
        lemma_i16_at(s, 1, p.azimuth);
    }
}

/// A `chnl` body says in one byte whether channels and objects follow. A predefined layout
/// is its number and the map of the channels that are left out; the number of objects is
/// the last byte.
#[verifier::rlimit(40)]
pub proof fn law_channel_layout_layout(l: ChannelLayout)
    ensures
        ({
            let s = chnl_body(l);
            &&& u32_at(s, 0) == 0
            &&& s[4] % 2 == 1 <==> l.channels is Some
            &&& s[4] / 2 == 1 <==> l.object_count is Some
            &&& s[4] < 4
            &&& l.object_count matches Some(n) ==> s[s.len() - 1] == n
            &&& l.channels matches Some(ChannelStructure::Defined {
                defined_layout,
                omitted_channels_map,
            }) ==> s[5] == defined_layout && u64_at(s, 6) == omitted_channels_map
            &&& l.channels matches Some(ChannelStructure::Explicit(_)) ==> s[5] == 0
        }),
{
    broadcast use group_be_len;

    let s = chnl_body(l);
    assert(s.subrange(0, 4) =~= u32_be(0));
    lemma_u32_at(s, 0, 0);
    if let Some(ChannelStructure::Defined { defined_layout, omitted_channels_map }) = l.channels {
        assert(s.subrange(6, 14) =~= u64_be(omitted_channels_map));
        lemma_u64_at(s, 6, omitted_channels_map);
    }
}

} // verus!
