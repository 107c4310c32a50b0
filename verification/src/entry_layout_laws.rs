//! Where the fields of a sample description stand.
use crate::atom::{atom, lemma_atom_len};
use crate::bytes::{
    code_at, group_be_len, i16_at, i16_be, lemma_i16_at, lemma_u16_at, lemma_u32_at, tail, u16_at,
    u16_be, u32_at, u32_be,
};
use crate::error::Error;
use crate::fourcc::{CLAP, COLR, FIEL, GAMA, PASP};
use crate::media_meta::{
    clap_of, colr_body, colr_of, fiel_of, pasp_of, Clap, ColorModel, Fiel, Pasp,
};
use crate::mux_boxes::{
    audio_fields, compression_id, entry_body, entry_format, extension_atoms, fixed_rate,
    ratio_fields, reference_models, self_number, stsd_body, stsd_entry, tkhd_body, video_fields,
};
use crate::mux_types::{AudioDescriptionWrite, TrackWrite, VisualExtensions};
use crate::read_back::{
    law_clap_is_read_back, law_colr_is_read_back, law_fiel_is_read_back, law_pasp_is_read_back,
    law_track_header_is_read_back, proper_colors,
};
use crate::walk::{
    first_box, holds_one, inside, lemma_found_alone, lemma_join, lemma_not_found, lemma_optional,
    lemma_passes_nothing, passes,
};
use vstd::prelude::*;

verus! {

/// The first sample description in the body of an `stsd` box.
pub open spec fn entry_of(stsd: Seq<u8>) -> Seq<u8> {
    tail(stsd, 8)
}

/// What a visual sample description says.
pub struct VisualEntry {
    pub format: [u8; 4],
    pub reference: u16,
    pub width: u16,
    pub height: u16,
    /// Dots per inch, 16.16 fixed point.
    pub horizontal_resolution: u32,
    pub vertical_resolution: u32,
    pub frames_per_sample: u16,
    pub depth: u16,
    /// The colour table; -1 is none.
    pub color_table: i16,
}

/// The fields of a visual sample description.
pub open spec fn visual_of(e: Seq<u8>) -> VisualEntry {
    VisualEntry {
        format: code_at(e, 4),
        reference: u16_at(e, 14),
        width: u16_at(e, 32),
        height: u16_at(e, 34),
        horizontal_resolution: u32_at(e, 36),
        vertical_resolution: u32_at(e, 40),
        frames_per_sample: u16_at(e, 48),
        depth: u16_at(e, 82),
        color_table: i16_at(e, 84),
    }
}

/// What a sound description says.
pub struct SoundEntry {
    pub format: [u8; 4],
    pub reference: u16,
    pub version: u16,
    pub channels: u16,
    pub bits: u16,
    pub compression: i16,
    /// Samples per second, 16.16 fixed point.
    pub rate: u32,
}

/// The fields of a sound description.
pub open spec fn sound_of(e: Seq<u8>) -> SoundEntry {
    SoundEntry {
        format: code_at(e, 4),
        reference: u16_at(e, 14),
        version: u16_at(e, 16),
        channels: u16_at(e, 24),
        bits: u16_at(e, 26),
        compression: i16_at(e, 28),
        rate: u32_at(e, 32),
    }
}

/// There is one sample description. It says its length, its format and which data
/// reference leads to the samples, and the rest is what its kind asks for. The box has
/// version 1 for a version 1 audio entry.
pub proof fn law_sample_description_is_framed(t: TrackWrite)
    requires
        16 + entry_body(t).len() <= 0xffff_ffff,
    ensures
        ({
            let s = stsd_body(t);
            let e = entry_of(s);
            &&& s[0] == (if t.audio_description is IsoV1 {
                1u8
            } else {
                0u8
            })
            &&& u32_at(s, 4) == 1
            &&& u32_at(e, 0) == e.len()
            &&& code_at(e, 4) == entry_format(t.kind)
            &&& u16_at(e, 14) == self_number(reference_models(t.data_references@))
            &&& tail(e, 16) == entry_body(t)
        }),
{
    broadcast use group_be_len;

    let s = stsd_body(t);
    let b = entry_body(t);
    let format = entry_format(t.kind);
    let reference = self_number(reference_models(t.data_references@));
    let e = stsd_entry(format, b, reference);
    let version = if t.audio_description is IsoV1 {
        0x0100_0000u32
    } else {
        0u32
    };
    crate::bytes::lemma_be_bytes(0, version, 0);
    assert(s[0] == u32_be(version)[0]);
    assert(s.subrange(4, 8) =~= u32_be(1));
    lemma_u32_at(s, 4, 1);
    assert(entry_of(s) =~= e);
    assert(e.subrange(0, 4) =~= u32_be((16 + b.len()) as u32));
    lemma_u32_at(e, 0, (16 + b.len()) as u32);
    assert(code_at(e, 4) =~= format);
    assert(e.subrange(14, 16) =~= u16_be(reference));
    lemma_u16_at(e, 14, reference);
    assert(tail(e, 16) =~= b);
}

proof fn lemma_video_fields(width: u16, height: u16)
    ensures
        ({
            let f = video_fields(width, height);
            &&& f.len() == 70
            &&& f.subrange(16, 18) == u16_be(width)
            &&& f.subrange(18, 20) == u16_be(height)
            &&& f.subrange(20, 24) == u32_be(0x0048_0000)
            &&& f.subrange(24, 28) == u32_be(0x0048_0000)
            &&& f.subrange(32, 34) == u16_be(1)
            &&& f.subrange(66, 68) == u16_be(24)
            &&& f.subrange(68, 70) == i16_be((-1) as i16)
        }),
{
    broadcast use group_be_len;

    let f = video_fields(width, height);
    assert(f.subrange(16, 18) =~= u16_be(width));
    assert(f.subrange(18, 20) =~= u16_be(height));
    assert(f.subrange(20, 24) =~= u32_be(0x0048_0000));
    assert(f.subrange(24, 28) =~= u32_be(0x0048_0000));
    assert(f.subrange(32, 34) =~= u16_be(1));
    assert(f.subrange(66, 68) =~= u16_be(24));
    assert(f.subrange(68, 70) =~= i16_be((-1) as i16));
}

proof fn lemma_sub(e: Seq<u8>, at: int, f: Seq<u8>, lo: int, hi: int)
    requires
        0 <= at,
        at + f.len() <= e.len(),
        e.subrange(at, at + f.len()) == f,
        0 <= lo <= hi <= f.len(),
    ensures
        e.subrange(at + lo, at + hi) == f.subrange(lo, hi),
{
    crate::bytes::lemma_part(e, at, at + f.len(), lo, hi);
}

/// The sample description of a picture says the width and the height of its track, as
/// the header of the track does, 72 dots per inch, one frame per sample, 24 bits and no
/// colour table.
pub proof fn law_visual_entry_says_the_picture(t: TrackWrite, track_id: u32, duration: u32)
    requires
        t.kind is Video,
        16 + entry_body(t).len() <= 0xffff_ffff,
    ensures
        visual_of(entry_of(stsd_body(t))) == (VisualEntry {
            format: t.kind->Video_format,
            reference: self_number(reference_models(t.data_references@)),
            width: t.kind->width,
            height: t.kind->height,
            horizontal_resolution: (72 * 0x1_0000) as u32,
            vertical_resolution: (72 * 0x1_0000) as u32,
            frames_per_sample: 1,
            depth: 24,
            color_table: (-1) as i16,
        }),
        ({
            let e = visual_of(entry_of(stsd_body(t)));
            let h = crate::header::tkhd_of(tkhd_body(t.kind, track_id, duration));
            &&& h is Ok
            &&& h->Ok_0.width_fp == e.width * 0x1_0000
            &&& h->Ok_0.height_fp == e.height * 0x1_0000
        }),
{
    broadcast use group_be_len;

    law_sample_description_is_framed(t);
    law_track_header_is_read_back(t.kind, track_id, duration);
    let e = entry_of(stsd_body(t));
    let (w, h) = (t.kind->width, t.kind->height);
    let f = video_fields(w, h);
    lemma_video_fields(w, h);
    assert(e.subrange(16, 86) =~= tail(e, 16).subrange(0, 70));
    assert(entry_body(t).subrange(0, 70) =~= f);
    lemma_sub(e, 16, f, 16, 18);
    lemma_sub(e, 16, f, 18, 20);
    lemma_sub(e, 16, f, 20, 24);
    lemma_sub(e, 16, f, 24, 28);
    lemma_sub(e, 16, f, 32, 34);
    lemma_sub(e, 16, f, 66, 68);
    lemma_sub(e, 16, f, 68, 70);
    lemma_u16_at(e, 32, w);
    lemma_u16_at(e, 34, h);
    lemma_u32_at(e, 36, 0x0048_0000);
    lemma_u32_at(e, 40, 0x0048_0000);
    lemma_u16_at(e, 48, 1);
    lemma_u16_at(e, 82, 24);
    lemma_i16_at(e, 84, (-1) as i16);
}

proof fn lemma_audio_fields(d: AudioDescriptionWrite, channels: u16, bits: u16, rate: u32)
    ensures
        ({
            let f = audio_fields(d, channels, bits, rate);
            &&& f.len() == 20 + ratio_fields(d).len()
            &&& f.subrange(0, 2) == u16_be(
                if d is V0 {
                    0u16
                } else {
                    1u16
                },
            )
            &&& f.subrange(8, 10) == u16_be(channels)
            &&& f.subrange(10, 12) == u16_be(bits)
            &&& f.subrange(12, 14) == i16_be(compression_id(d))
            &&& f.subrange(16, 20) == u32_be(fixed_rate(rate))
            &&& f.subrange(20, f.len() as int) == ratio_fields(d)
        }),
{
    broadcast use group_be_len;

    let f = audio_fields(d, channels, bits, rate);
    assert(f.subrange(0, 2) =~= u16_be(
        if d is V0 {
            0u16
        } else {
            1u16
        },
    ));
    assert(f.subrange(8, 10) =~= u16_be(channels));
    assert(f.subrange(10, 12) =~= u16_be(bits));
    assert(f.subrange(12, 14) =~= i16_be(compression_id(d)));
    assert(f.subrange(16, 20) =~= u32_be(fixed_rate(rate)));
    assert(f.subrange(20, f.len() as int) =~= ratio_fields(d));
}

/// The sound description says channels, bits and rate of its track; a rate that sixteen
/// bits do not hold counts as the highest. It has version 0 unless a version 1 was asked
/// for, and the compression -2 for frames of variable length.
#[verifier::rlimit(40)]
pub proof fn law_sound_entry_says_the_sound(t: TrackWrite)
    requires
        t.kind is Audio,
        16 + entry_body(t).len() <= 0xffff_ffff,
    ensures
        ({
            let e = sound_of(entry_of(stsd_body(t)));
            &&& e.format == t.kind->Audio_format
            &&& e.reference == self_number(reference_models(t.data_references@))
            &&& e.version == (if t.audio_description is V0 {
                0u16
            } else {
                1u16
            })
            &&& e.channels == t.kind->channels
            &&& e.bits == t.kind->bits_per_sample
            &&& e.compression == (if t.audio_description is QtffV1 && t.audio_description->vbr {
                -2int
            } else {
                0
            })
            &&& e.rate % 0x1_0000 == 0
            &&& t.kind->sample_rate <= 0xffff ==> e.rate / 0x1_0000 == t.kind->sample_rate
            &&& t.kind->sample_rate > 0xffff ==> e.rate / 0x1_0000 == 0xffff
        }),
        t.audio_description is QtffV1 ==> {
            let e = entry_of(stsd_body(t));
            let v = t.audio_description->fields;
            &&& u32_at(e, 36) == v.samples_per_packet
            &&& u32_at(e, 40) == v.bytes_per_packet
            &&& u32_at(e, 44) == v.bytes_per_frame
            &&& u32_at(e, 48) == v.bytes_per_sample
        },
{
    broadcast use group_be_len;

    law_sample_description_is_framed(t);
    let e = entry_of(stsd_body(t));
    let d = t.audio_description;
    let (c, b, r) = (t.kind->channels, t.kind->bits_per_sample, t.kind->sample_rate);
    let f = audio_fields(d, c, b, r);
    lemma_audio_fields(d, c, b, r);
    let n = f.len() as int;
    assert(e.subrange(16, 16 + n) =~= tail(e, 16).subrange(0, n));
    assert(entry_body(t).subrange(0, n) =~= f);
    lemma_sub(e, 16, f, 0, 2);
    lemma_sub(e, 16, f, 8, 10);
    lemma_sub(e, 16, f, 10, 12);
    lemma_sub(e, 16, f, 12, 14);
    lemma_sub(e, 16, f, 16, 20);
    lemma_u16_at(
        e,
        16,
        if d is V0 {
            0u16
        } else {
            1u16
        },
    );
    lemma_u16_at(e, 24, c);
    lemma_u16_at(e, 26, b);
    lemma_i16_at(e, 28, compression_id(d));
    lemma_u32_at(e, 32, fixed_rate(r));
    if d is QtffV1 {
        let v = d->fields;
        let q = ratio_fields(d);
        lemma_sub(e, 16, f, 20, n);
        assert(q.subrange(0, 4) =~= u32_be(v.samples_per_packet));
        assert(q.subrange(4, 8) =~= u32_be(v.bytes_per_packet));
        assert(q.subrange(8, 12) =~= u32_be(v.bytes_per_frame));
        assert(q.subrange(12, 16) =~= u32_be(v.bytes_per_sample));
        lemma_sub(e, 36, q, 0, 4);
        lemma_sub(e, 36, q, 4, 8);
        lemma_sub(e, 36, q, 8, 12);
        lemma_sub(e, 36, q, 12, 16);
        lemma_u32_at(e, 36, v.samples_per_packet);
        lemma_u32_at(e, 40, v.bytes_per_packet);
        lemma_u32_at(e, 44, v.bytes_per_frame);
        lemma_u32_at(e, 48, v.bytes_per_sample);
    }
}

/// The body of the box of an extension.
spec fn extension_body(v: VisualExtensions, code: [u8; 4]) -> Option<Seq<u8>> {
    if code == COLR {
        match v.colr {
            Some(c) => Some(colr_body(c@)),
            None => None,
        }
    } else if code == PASP {
        match v.pasp {
            Some(p) => Some(p.body()),
            None => None,
        }
    } else if code == CLAP {
        match v.clap {
            Some(c) => Some(c.body()),
            None => None,
        }
    } else if code == FIEL {
        match v.fiel {
            Some(f) => Some(f.body()),
            None => None,
        }
    } else if code == GAMA {
        match v.gamma {
            Some(g) => Some(u32_be(g)),
            None => None,
        }
    } else {
        None
    }
}

spec fn piece(v: VisualExtensions, code: [u8; 4]) -> Seq<u8> {
    match extension_body(v, code) {
        Some(b) => atom(code, b),
        None => Seq::empty(),
    }
}

proof fn lemma_piece(v: VisualExtensions, c: [u8; 4], code: [u8; 4])
    requires
        piece(v, c).len() <= 0xffff_ffff,
    ensures
        c != code || extension_body(v, c) is None ==> passes(piece(v, c), code),
        c == code && extension_body(v, c) is Some ==> holds_one(
            piece(v, c),
            code,
            extension_body(v, c)->Some_0,
        ),
{
    match extension_body(v, c) {
        Some(b) => {
            lemma_atom_len(c, b);
            lemma_optional(true, c, b, code);
        },
        None => {
            lemma_passes_nothing(code);
        },
    }
}

#[verifier::rlimit(40)]
proof fn lemma_extension_found(v: VisualExtensions, code: [u8; 4])
    requires
        extension_atoms(v).len() <= 0xffff_ffff,
        code == COLR || code == PASP || code == CLAP || code == FIEL || code == GAMA,
    ensures
        first_box(extension_atoms(v), code) == extension_body(v, code),
{
    assert(COLR@[0] == 0x63 && COLR@[1] == 0x6f && PASP@[0] == 0x70 && CLAP@[0] == 0x63 && CLAP@[1]
        == 0x6c && FIEL@[0] == 0x66 && GAMA@[0] == 0x67);
    let a = piece(v, COLR);
    let b = piece(v, PASP);
    let c = piece(v, CLAP);
    let d = piece(v, FIEL);
    let e = piece(v, GAMA);
    assert(extension_atoms(v) =~= a + b + c + d + e);
    lemma_piece(v, COLR, code);
    lemma_piece(v, PASP, code);
    lemma_piece(v, CLAP, code);
    lemma_piece(v, FIEL, code);
    lemma_piece(v, GAMA, code);
    let x = match extension_body(v, code) {
        Some(x) => x,
        None => Seq::empty(),
    };
    lemma_join(a, b, code, x);
    lemma_join(a + b, c, code, x);
    lemma_join(a + b + c, d, code, x);
    lemma_join(a + b + c + d, e, code, x);
    if extension_body(v, code) is Some {
        lemma_found_alone(a + b + c + d + e, code, x);
    } else {
        lemma_not_found(a + b + c + d + e, code);
    }
}

/// Each box that decorates a picture is found among boxes and read back if and only if
/// it was asked for.
pub open spec fn extensions_are_in(boxes: Seq<u8>, v: VisualExtensions) -> bool {
    &&& match v.colr {
        Some(c) => first_box(boxes, COLR) is Some && colr_of(inside(boxes, COLR)) == Ok::<
            ColorModel,
            Error,
        >(c@),
        None => first_box(boxes, COLR) is None,
    }
    &&& match v.pasp {
        Some(p) => first_box(boxes, PASP) is Some && pasp_of(inside(boxes, PASP)) == Ok::<
            Pasp,
            Error,
        >(p),
        None => first_box(boxes, PASP) is None,
    }
    &&& match v.clap {
        Some(c) => first_box(boxes, CLAP) is Some && clap_of(inside(boxes, CLAP)) == Ok::<
            Clap,
            Error,
        >(c),
        None => first_box(boxes, CLAP) is None,
    }
    &&& match v.fiel {
        Some(f) => first_box(boxes, FIEL) is Some && fiel_of(inside(boxes, FIEL)) == Ok::<
            Fiel,
            Error,
        >(f),
        None => first_box(boxes, FIEL) is None,
    }
    &&& match v.gamma {
        Some(g) => first_box(boxes, GAMA) is Some && u32_at(inside(boxes, GAMA), 0) == g,
        None => first_box(boxes, GAMA) is None,
    }
}

#[verifier::rlimit(40)]
proof fn lemma_extensions(v: VisualExtensions)
    requires
        extension_atoms(v).len() <= 0xffff_ffff,
        v.colr matches Some(c) ==> proper_colors(c@),
    ensures
        extensions_are_in(extension_atoms(v), v),
{
    lemma_extension_found(v, COLR);
    lemma_extension_found(v, PASP);
    lemma_extension_found(v, CLAP);
    lemma_extension_found(v, FIEL);
    lemma_extension_found(v, GAMA);
    lemma_extensions_read(v);
    assert(COLR@[0] == 0x63 && COLR@[1] == 0x6f && PASP@[0] == 0x70 && CLAP@[0] == 0x63 && CLAP@[1]
        == 0x6c && FIEL@[0] == 0x66 && GAMA@[0] == 0x67);
}

proof fn lemma_behind_fields(f: Seq<u8>, extra: Seq<u8>, boxes: Seq<u8>)
    ensures
        ({
            let behind = tail(f + extra + boxes, f.len() as int);
            let n = extra.len() as int;
            &&& behind == extra + boxes
            &&& behind.subrange(0, n) == extra
            &&& tail(behind, n) == boxes
        }),
{
    let behind = tail(f + extra + boxes, f.len() as int);
    let n = extra.len() as int;
    assert(behind =~= extra + boxes);
    assert(behind.subrange(0, n) =~= extra);
    assert(tail(behind, n) =~= boxes);
}

/// Behind the fields of a visual sample description stand the extra atoms as they were
/// given, then the boxes that decorate the picture.
pub proof fn law_visual_extensions_are_read_back(t: TrackWrite)
    requires
        t.kind is Video,
        16 + entry_body(t).len() <= 0xffff_ffff,
        t.visual_extensions.colr matches Some(c) ==> proper_colors(c@),
    ensures
        ({
            let behind = tail(entry_of(stsd_body(t)), 86);
            let n = t.extra_stsd_atoms@.len() as int;
            &&& n <= behind.len()
            &&& behind.subrange(0, n) == t.extra_stsd_atoms@
            &&& extensions_are_in(tail(behind, n), t.visual_extensions)
        }),
{
    law_sample_description_is_framed(t);
    let e = entry_of(stsd_body(t));
    let f = video_fields(t.kind->width, t.kind->height);
    lemma_video_fields(t.kind->width, t.kind->height);
    let boxes = extension_atoms(t.visual_extensions);
    lemma_behind_fields(f, t.extra_stsd_atoms@, boxes);
    assert(tail(e, 86) =~= tail(tail(e, 16), 70));
    lemma_extensions(t.visual_extensions);
}

proof fn lemma_extensions_read(v: VisualExtensions)
    requires
        v.colr matches Some(c) ==> proper_colors(c@),
    ensures
        v.colr matches Some(c) ==> colr_of(colr_body(c@)) == Ok::<ColorModel, Error>(c@),
        v.pasp matches Some(p) ==> pasp_of(p.body()) == Ok::<Pasp, Error>(p),
        v.clap matches Some(c) ==> clap_of(c.body()) == Ok::<Clap, Error>(c),
        v.fiel matches Some(f) ==> fiel_of(f.body()) == Ok::<Fiel, Error>(f),
        v.gamma matches Some(g) ==> u32_at(u32_be(g), 0) == g,
{
    broadcast use group_be_len;

    if let Some(c) = v.colr {
        law_colr_is_read_back(c@);
    }
    if let Some(p) = v.pasp {
        law_pasp_is_read_back(p);
    }
    if let Some(c) = v.clap {
        law_clap_is_read_back(c);
    }
    if let Some(f) = v.fiel {
        law_fiel_is_read_back(f);
    }
    if let Some(g) = v.gamma {
        assert(u32_be(g).subrange(0, 4) =~= u32_be(g));
        lemma_u32_at(u32_be(g), 0, g);
    }
}

} // verus!
