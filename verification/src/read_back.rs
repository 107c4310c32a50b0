//! What is written is read back: the fixed-size boxes of a track.
use crate::bytes::{
    code_at, group_be_len, i32_at, i32_be, lemma_be_bytes, lemma_i32_at, lemma_u16_at, lemma_u32_at,
    tail, u16_at, u16_be, u32_be,
};
use crate::error::Error;
use crate::fourcc::{MHLR, NCLC, NCLX, PROF, RICC};
use crate::header::{
    elng_of, hdlr_of, hmhd_of, mdhd_of, mvhd_of, tkhd_of, Hdlr, Hmhd, Mdhd, Mvhd, Tkhd,
};
use crate::media_meta::{
    clap_of, colr_body, colr_of, fiel_of, pasp_of, tapt_dims_of, Clap, ColorModel, Fiel, Pasp,
    TaptDims,
};
use crate::mux_boxes::{
    dimensions, elng_body, handler, identity_matrix, mdhd_body, mvhd_body, tkhd_body,
    track_hdlr_body, volume,
};
use crate::mux_types::MuxTrackKind;
use crate::text::{lemma_text_end_is, lemma_text_of_utf8, utf8};
use vstd::prelude::*;

verus! {

/// A pixel aspect ratio is read back.
pub proof fn law_pasp_is_read_back(p: Pasp)
    ensures
        pasp_of(p.body()) == Ok::<Pasp, Error>(p),
{
    broadcast use group_be_len;

    let s = p.body();
    assert(s.subrange(0, 4) =~= u32_be(p.h_spacing));
    assert(s.subrange(4, 8) =~= u32_be(p.v_spacing));
    lemma_u32_at(s, 0, p.h_spacing);
    lemma_u32_at(s, 4, p.v_spacing);
}

/// A clean aperture is read back.
pub proof fn law_clap_is_read_back(c: Clap)
    ensures
        clap_of(c.body()) == Ok::<Clap, Error>(c),
{
    broadcast use group_be_len;

    let s = c.body();
    assert(s.subrange(0, 4) =~= u32_be(c.clean_aperture_width_n));
    assert(s.subrange(4, 8) =~= u32_be(c.clean_aperture_width_d));
    assert(s.subrange(8, 12) =~= u32_be(c.clean_aperture_height_n));
    assert(s.subrange(12, 16) =~= u32_be(c.clean_aperture_height_d));
    assert(s.subrange(16, 20) =~= i32_be(c.horiz_off_n));
    assert(s.subrange(20, 24) =~= u32_be(c.horiz_off_d));
    assert(s.subrange(24, 28) =~= i32_be(c.vert_off_n));
    assert(s.subrange(28, 32) =~= u32_be(c.vert_off_d));
    lemma_u32_at(s, 0, c.clean_aperture_width_n);
    lemma_u32_at(s, 4, c.clean_aperture_width_d);
    lemma_u32_at(s, 8, c.clean_aperture_height_n);
    lemma_u32_at(s, 12, c.clean_aperture_height_d);
    lemma_i32_at(s, 16, c.horiz_off_n);
    lemma_u32_at(s, 20, c.horiz_off_d);
    lemma_i32_at(s, 24, c.vert_off_n);
    lemma_u32_at(s, 28, c.vert_off_d);
}

/// The code of a profile or of another variant is none that means something else.
pub open spec fn proper_colors(m: ColorModel) -> bool {
    match m {
        ColorModel::Icc { kind, .. } => kind == RICC || kind == PROF,
        ColorModel::Other { kind, .. } => kind != NCLC && kind != NCLX && kind != RICC && kind
            != PROF,
        _ => true,
    }
}

proof fn lemma_lead(kind: [u8; 4], rest: Seq<u8>)
    ensures
        code_at(kind@ + rest, 0) == kind,
        tail(kind@ + rest, 4) == rest,
{
    assert(code_at(kind@ + rest, 0) =~= kind);
    assert(tail(kind@ + rest, 4) =~= rest);
}

proof fn lemma_indices(kind: [u8; 4], a: u16, b: u16, c: u16, rest: Seq<u8>)
    ensures
        ({
            let s = kind@ + u16_be(a) + u16_be(b) + u16_be(c) + rest;
            &&& code_at(s, 0) == kind
            &&& u16_at(s, 4) == a
            &&& u16_at(s, 6) == b
            &&& u16_at(s, 8) == c
            &&& s.len() == 10 + rest.len()
            &&& rest.len() > 0 ==> s[10] == rest[0]
        }),
{
    broadcast use group_be_len;

    let s = kind@ + u16_be(a) + u16_be(b) + u16_be(c) + rest;
    assert(code_at(s, 0) =~= kind);
    assert(s.subrange(4, 6) =~= u16_be(a));
    assert(s.subrange(6, 8) =~= u16_be(b));
    assert(s.subrange(8, 10) =~= u16_be(c));
    lemma_u16_at(s, 4, a);
    lemma_u16_at(s, 6, b);
    lemma_u16_at(s, 8, c);
}

/// Colour parameters are read back.
pub proof fn law_colr_is_read_back(m: ColorModel)
    requires
        proper_colors(m),
    ensures
        colr_of(colr_body(m)) == Ok::<ColorModel, Error>(m),
{
    assert(NCLC@[3] == 0x63u8);
    assert(NCLX@[3] == 0x78u8);
    assert(RICC@[0] == 0x72u8);
    assert(PROF@[0] == 0x70u8);
    assert(NCLC@[0] == 0x6eu8);
    assert(NCLX@[0] == 0x6eu8);
    match m {
        ColorModel::Nclc { primaries, transfer, matrix } => {
            lemma_indices(NCLC, primaries, transfer, matrix, Seq::empty());
            assert(colr_body(m) + Seq::<u8>::empty() =~= colr_body(m));
        },
        ColorModel::Nclx { primaries, transfer, matrix, full_range } => {
            let flag = seq![
                if full_range {
                    0x80u8
                } else {
                    0u8
                },
            ];
            lemma_indices(NCLX, primaries, transfer, matrix, flag);
        },
        ColorModel::Icc { kind, profile } => {
            lemma_lead(kind, profile);
        },
        ColorModel::Other { kind, body } => {
            lemma_lead(kind, body);
        },
    }
}

/// Field handling is read back.
pub proof fn law_fiel_is_read_back(f: Fiel)
    ensures
        fiel_of(f.body()) == Ok::<Fiel, Error>(f),
{
}

/// An aperture is read back.
pub proof fn law_aperture_is_read_back(d: TaptDims)
    ensures
        tapt_dims_of(d.body()) == Ok::<TaptDims, Error>(d),
{
    broadcast use group_be_len;

    let s = d.body();
    assert(s.subrange(4, 8) =~= u32_be(d.width_fp));
    assert(s.subrange(8, 12) =~= u32_be(d.height_fp));
    lemma_u32_at(s, 4, d.width_fp);
    lemma_u32_at(s, 8, d.height_fp);
}

/// A hint media header is read back.
pub proof fn law_hmhd_is_read_back(h: Hmhd)
    ensures
        hmhd_of(h.body()) == Ok::<Hmhd, Error>(h),
{
    broadcast use group_be_len;

    let s = h.body();
    assert(s.subrange(4, 6) =~= u16_be(h.max_pdu_size));
    assert(s.subrange(6, 8) =~= u16_be(h.avg_pdu_size));
    assert(s.subrange(8, 12) =~= u32_be(h.max_bitrate));
    assert(s.subrange(12, 16) =~= u32_be(h.avg_bitrate));
    lemma_u16_at(s, 4, h.max_pdu_size);
    lemma_u16_at(s, 6, h.avg_pdu_size);
    lemma_u32_at(s, 8, h.max_bitrate);
    lemma_u32_at(s, 12, h.avg_bitrate);
}

/// The handler of a track is read back.
pub proof fn law_handler_is_read_back(kind: MuxTrackKind)
    ensures
        hdlr_of(track_hdlr_body(kind)) == Ok::<Hdlr, Error>(
            Hdlr {
                component_type: MHLR,
                component_subtype: handler(kind),
                component_manufacturer: [0, 0, 0, 0],
            },
        ),
{
    broadcast use group_be_len;

    let s = track_hdlr_body(kind);
    assert(code_at(s, 4) =~= MHLR);
    assert(code_at(s, 8) =~= handler(kind));
    assert(code_at(s, 12) =~= [0, 0, 0, 0]);
}

/// A language tag without a zero byte is read back.
pub proof fn law_language_tag_is_read_back(tag: Seq<char>)
    requires
        !utf8(tag).contains(0u8),
    ensures
        elng_of(elng_body(tag)) == Ok::<Seq<char>, Error>(tag),
{
    broadcast use group_be_len;

    let s = elng_body(tag);
    let text = utf8(tag);
    let end = 4 + text.len();
    assert forall|i: int| 4 <= i < end implies s[i] != 0 by {
        assert(text[i - 4] == s[i]);
    }
    lemma_text_end_is(s, 4, end as int);
    assert(s.subrange(4, end as int) =~= text);
    lemma_text_of_utf8(tag);
}

/// A movie header is read back: rate and volume 1, no times.
pub proof fn law_movie_header_is_read_back(time_scale: u32, duration: u32, next_track_id: u32)
    ensures
        mvhd_of(mvhd_body(time_scale, duration, next_track_id)) == Ok::<Mvhd, Error>(
            Mvhd {
                version: 0,
                creation_time: 0,
                modification_time: 0,
                time_scale,
                duration: duration as u64,
                rate: 0x1_0000,
                volume: 0x100,
                next_track_id,
            },
        ),
{
    broadcast use group_be_len;

    let s = mvhd_body(time_scale, duration, next_track_id);
    assert(s.subrange(12, 16) =~= u32_be(time_scale));
    assert(s.subrange(16, 20) =~= u32_be(duration));
    assert(s.subrange(20, 24) =~= u32_be(0x1_0000));
    assert(s.subrange(24, 26) =~= u16_be(0x100));
    assert(s.subrange(96, 100) =~= u32_be(next_track_id));
    lemma_u32_at(s, 12, time_scale);
    lemma_u32_at(s, 16, duration);
    lemma_u32_at(s, 20, 0x1_0000);
    lemma_u16_at(s, 24, 0x100);
    lemma_u32_at(s, 96, next_track_id);
}

/// A media header is read back: no times, no quality.
pub proof fn law_media_header_is_read_back(time_scale: u32, duration: u32, language: u16)
    ensures
        mdhd_of(mdhd_body(time_scale, duration, language)) == Ok::<Mdhd, Error>(
            Mdhd {
                version: 0,
                creation_time: 0,
                modification_time: 0,
                time_scale,
                duration: duration as u64,
                language,
                quality: 0,
            },
        ),
{
    broadcast use group_be_len;

    let s = mdhd_body(time_scale, duration, language);
    assert(s.subrange(12, 16) =~= u32_be(time_scale));
    assert(s.subrange(16, 20) =~= u32_be(duration));
    assert(s.subrange(20, 22) =~= u16_be(language));
    lemma_u32_at(s, 12, time_scale);
    lemma_u32_at(s, 16, duration);
    lemma_u16_at(s, 20, language);
}

proof fn lemma_identity(s: Seq<u8>, p: int)
    requires
        0 <= p,
        p + 36 <= s.len(),
        s.subrange(p, p + 36) == identity_matrix(),
    ensures
        i32_at(s, p) == 0x1_0000,
        i32_at(s, p + 4) == 0,
        i32_at(s, p + 8) == 0,
        i32_at(s, p + 12) == 0,
        i32_at(s, p + 16) == 0x1_0000,
        i32_at(s, p + 20) == 0,
        i32_at(s, p + 24) == 0,
        i32_at(s, p + 28) == 0,
        i32_at(s, p + 32) == 0x4000_0000,
{
    broadcast use group_be_len;

    let m = identity_matrix();
    assert(forall|k: int| 0 <= k < 36 ==> s[p + k] == #[trigger] m[k]) by {
        assert forall|k: int| 0 <= k < 36 implies s[p + k] == #[trigger] m[k] by {
            assert(s.subrange(p, p + 36)[k] == s[p + k]);
        }
    }
    assert(s.subrange(p, p + 4) =~= m.subrange(0, 4));
    assert(m.subrange(0, 4) =~= u32_be(0x1_0000));
    assert(s.subrange(p + 16, p + 20) =~= m.subrange(16, 20));
    assert(m.subrange(16, 20) =~= u32_be(0x1_0000));
    assert(s.subrange(p + 32, p + 36) =~= m.subrange(32, 36));
    assert(m.subrange(32, 36) =~= u32_be(0x4000_0000));
    lemma_u32_at(s, p, 0x1_0000);
    lemma_u32_at(s, p + 16, 0x1_0000);
    lemma_u32_at(s, p + 32, 0x4000_0000);
    assert(m[4] == 0 && m[5] == 0 && m[6] == 0 && m[7] == 0);
    assert(m[8] == 0 && m[9] == 0 && m[10] == 0 && m[11] == 0);
    assert(m[12] == 0 && m[13] == 0 && m[14] == 0 && m[15] == 0);
    assert(m[20] == 0 && m[21] == 0 && m[22] == 0 && m[23] == 0);
    assert(m[24] == 0 && m[25] == 0 && m[26] == 0 && m[27] == 0);
    assert(m[28] == 0 && m[29] == 0 && m[30] == 0 && m[31] == 0);
}

/// A track header is read back: the track is enabled, in the movie and in the
/// preview, and is shown as it is.
pub proof fn law_track_header_is_read_back(kind: MuxTrackKind, track_id: u32, duration: u32)
    ensures
        tkhd_of(tkhd_body(kind, track_id, duration)) == Ok::<Tkhd, Error>(
            Tkhd {
                version: 0,
                flags: 7,
                creation_time: 0,
                modification_time: 0,
                track_id,
                duration: duration as u64,
                layer: 0,
                alternate_group: 0,
                volume: volume(kind) as i16,
                width_fp: (dimensions(kind).0 * 0x1_0000) as u32,
                height_fp: (dimensions(kind).1 * 0x1_0000) as u32,
                matrix: [0x1_0000, 0, 0, 0, 0x1_0000, 0, 0, 0, 0x4000_0000],
            },
        ),
{
    broadcast use group_be_len;

    let s = tkhd_body(kind, track_id, duration);
    let w = (dimensions(kind).0 * 0x1_0000) as u32;
    let h = (dimensions(kind).1 * 0x1_0000) as u32;
    lemma_be_bytes(0, 7, 0);
    assert(s[0] == u32_be(7)[0] && s[1] == u32_be(7)[1] && s[2] == u32_be(7)[2] && s[3] == u32_be(
        7,
    )[3]);
    assert(s.subrange(12, 16) =~= u32_be(track_id));
    assert(s.subrange(20, 24) =~= u32_be(duration));
    assert(s.subrange(36, 38) =~= u16_be(volume(kind)));
    assert(s.subrange(40, 76) =~= identity_matrix());
    assert(s.subrange(76, 80) =~= u32_be(w));
    assert(s.subrange(80, 84) =~= u32_be(h));
    lemma_u32_at(s, 12, track_id);
    lemma_u32_at(s, 20, duration);
    lemma_u16_at(s, 36, volume(kind));
    lemma_identity(s, 40);
    lemma_u32_at(s, 76, w);
    lemma_u32_at(s, 80, h);
    assert(crate::header::matrix_at(s, 40) =~= [
        0x1_0000,
        0,
        0,
        0,
        0x1_0000,
        0,
        0,
        0,
        0x4000_0000,
    ]);
}

} // verus!
