//! What a reader finds in media headers, sound entries, user data and compressed movies.
use crate::atom::{atom, lemma_atom_len};
use crate::bytes::{
    cat, group_be_len, i16_at, i32_at, lemma_cat_len, lemma_i32_at, lemma_u16_at, lemma_u32_at,
    u16_at, u16_be, u32_at, u32_be,
};
use crate::cmov::{cmov_body, CmovModel};
use crate::code_laws::spells;
use crate::fourcc::{CHNL, CMOV, GMIN, MOOV, SRAT, TCMI, TEXT, TMCD};
use crate::heif_item::{
    derivation_type, property_code, property_essential, HeifDerivation, HeifPropertyModel,
};
use crate::layout_laws::law_gmin_layout;
use crate::mux_boxes::{
    audio_atoms, gmhd_text_body, gmhd_tmcd_body, gmin_body, matrix_rows, text_matrix,
};
use crate::mux_layout::compressed_atom;
use crate::mux_meta::{short_text, text_record, text_records};
use crate::mux_types::{rap_byte, sap_byte, AudioDescriptionWrite, AudioEntryV1, UserDataModel};
use crate::parts::{chnl_body, Gmin, Tcmi};
use crate::table_laws::lemma_row_at;
use crate::walk::{
    box_if, boxes, first_box, inside, lemma_atom_is_one, lemma_boxes_2, lemma_boxes_found,
    lemma_found_alone, lemma_passes_nothing,
};
use vstd::prelude::*;

verus! {

proof fn lemma_two_found(c: [u8; 4], x: Option<Seq<u8>>, d: [u8; 4], y: Option<Seq<u8>>)
    requires
        c != d,
        (box_if((c, x)) + box_if((d, y))).len() <= 0xffff_ffff,
    ensures
        first_box(box_if((c, x)) + box_if((d, y)), c) == x,
        first_box(box_if((c, x)) + box_if((d, y)), d) == y,
{
    let l = seq![(c, x), (d, y)];
    lemma_boxes_2(l[0], l[1]);
    let s = box_if((c, x)) + box_if((d, y));
    assert(boxes(l) =~= s);
    assert(s + Seq::<u8>::empty() =~= s);
    lemma_passes_nothing(c);
    lemma_passes_nothing(d);
    lemma_boxes_found(l, Seq::empty(), 0);
    lemma_boxes_found(l, Seq::empty(), 1);
}

proof fn lemma_one_found(c: [u8; 4], x: Seq<u8>)
    requires
        8 + x.len() <= 0xffff_ffff,
    ensures
        first_box(atom(c, x), c) == Some(x),
{
    lemma_atom_is_one(c, x);
    lemma_found_alone(atom(c, x), c, x);
}

proof fn lemma_gmin(g: Option<Gmin>)
    ensures
        gmin_body(g).len() == 16,
        g matches Some(x) ==> gmin_body(g) == x.body(),
        g is None ==> u16_at(gmin_body(g), 4) == 0 && u16_at(gmin_body(g), 6) == 0 && u16_at(
            gmin_body(g),
            8,
        ) == 0 && u16_at(gmin_body(g), 10) == 0 && i16_at(gmin_body(g), 12) == 0,
{
    match g {
        Some(x) => law_gmin_layout(x),
        None => law_gmin_layout(crate::parts::default_gmin()),
    }
}

/// The media header of time codes holds the graphics information that was asked for, or
/// plain copying, and the description of the time code.
pub proof fn law_timecode_header_is_found(tcmi: Tcmi, g: Option<Gmin>)
    requires
        tcmi.body@.len() <= 0xffff_0000,
    ensures
        ({
            let s = gmhd_tmcd_body(tcmi, g);
            let b = inside(s, GMIN);
            &&& first_box(inside(s, TMCD), TCMI) == Some(tcmi.body@)
            &&& b.len() == 16
            &&& g matches Some(x) ==> u16_at(b, 4) == x.graphics_mode && i16_at(b, 12) == x.balance
            &&& g is None ==> u16_at(b, 4) == 0 && i16_at(b, 12) == 0
        }),
{
    let inner = atom(TCMI, tcmi.body@);
    lemma_gmin(g);
    lemma_atom_len(TCMI, tcmi.body@);
    lemma_atom_len(TMCD, inner);
    lemma_atom_len(GMIN, gmin_body(g));
    assert(GMIN@[0] == 0x67u8 && TMCD@[0] == 0x74u8);
    lemma_two_found(GMIN, Some(gmin_body(g)), TMCD, Some(inner));
    lemma_one_found(TCMI, tcmi.body@);
    if let Some(x) = g {
        law_gmin_layout(x);
    }
}

/// The matrix that is asked for, or the one that changes nothing.
pub open spec fn wanted_matrix(m: Option<[i32; 9]>, k: int) -> int {
    match m {
        Some(m) => m@[k] as int,
        None => if k == 0 || k == 4 {
            0x1_0000
        } else if k == 8 {
            0x4000_0000
        } else {
            0
        },
    }
}

/// The media header of text holds the graphics information and the nine numbers of the
/// matrix, in order.
pub proof fn law_text_header_is_found(g: Option<Gmin>, m: Option<[i32; 9]>, k: int)
    requires
        0 <= k < 9,
    ensures
        ({
            let s = gmhd_text_body(g, m);
            let b = inside(s, GMIN);
            &&& inside(s, TEXT).len() == 36
            &&& i32_at(inside(s, TEXT), 4 * k) == wanted_matrix(m, k)
            &&& g matches Some(x) ==> u16_at(b, 4) == x.graphics_mode && i16_at(b, 12) == x.balance
            &&& g is None ==> u16_at(b, 4) == 0 && i16_at(b, 12) == 0
        }),
{
    broadcast use group_be_len;

    let v = text_matrix(m);
    let f = matrix_rows(v);
    let t = cat(9, f);
    lemma_cat_len(9, f, 4);
    assert(t.subrange(0, t.len() as int) =~= t);
    lemma_row_at(t, 0, 9, f, 4, k);
    lemma_i32_at(t, 4 * k, v[k]);
    lemma_gmin(g);
    lemma_atom_len(TEXT, t);
    lemma_atom_len(GMIN, gmin_body(g));
    assert(GMIN@[0] == 0x67u8 && TEXT@[0] == 0x74u8);
    lemma_two_found(GMIN, Some(gmin_body(g)), TEXT, Some(t));
    if let Some(x) = g {
        law_gmin_layout(x);
    }
}

/// A version 1 audio entry says the sampling rate and the channel layout where they were
/// asked for, and only there.
pub proof fn law_audio_boxes_are_found(e: AudioEntryV1)
    requires
        e.channel_layout matches Some(l) ==> chnl_body(l).len() <= 0xffff_0000,
    ensures
        ({
            let s = audio_atoms(AudioDescriptionWrite::IsoV1(e));
            &&& first_box(s, SRAT) is Some == e.sampling_rate is Some
            &&& e.sampling_rate matches Some(r) ==> u32_at(inside(s, SRAT), 4) == r
            &&& first_box(s, CHNL) is Some == e.channel_layout is Some
            &&& e.channel_layout matches Some(l) ==> inside(s, CHNL) == chnl_body(l)
        }),
{
    broadcast use group_be_len;

    let x = match e.sampling_rate {
        Some(r) => Some(u32_be(0) + u32_be(r)),
        None => None,
    };
    let y = match e.channel_layout {
        Some(l) => Some(chnl_body(l)),
        None => None,
    };
    assert(SRAT@[0] == 0x73u8 && CHNL@[0] == 0x63u8);
    if let Some(b) = x {
        lemma_atom_len(SRAT, b);
    }
    if let Some(b) = y {
        lemma_atom_len(CHNL, b);
    }
    lemma_two_found(SRAT, x, CHNL, y);
    if let Some(r) = e.sampling_rate {
        let b = u32_be(0) + u32_be(r);
        assert(b.subrange(4, 8) =~= u32_be(r));
        lemma_u32_at(b, 4, r);
    }
    assert(audio_atoms(AudioDescriptionWrite::IsoV1(e)) =~= box_if((SRAT, x)) + box_if((CHNL, y)));
}

/// A compressed movie is a `moov` box with nothing but a `cmov` box.
pub proof fn law_compressed_movie_is_found(m: CmovModel)
    requires
        cmov_body(m).len() <= 0xffff_0000,
    ensures
        first_box(compressed_atom(m), MOOV) is Some,
        inside(compressed_atom(m), MOOV).len() == 8 + cmov_body(m).len(),
        first_box(inside(compressed_atom(m), MOOV), CMOV) == Some(cmov_body(m)),
{
    lemma_atom_len(CMOV, cmov_body(m));
    lemma_one_found(CMOV, cmov_body(m));
    lemma_one_found(MOOV, atom(CMOV, cmov_body(m)));
}

/// The texts of a box of user data, each with its language, read from the front.
pub open spec fn texts_in(b: Seq<u8>) -> Seq<(u16, Seq<u8>)>
    decreases b.len(),
{
    if b.len() < 4 || 4 + u16_at(b, 0) > b.len() {
        Seq::empty()
    } else {
        let end = 4 + u16_at(b, 0);
        seq![(u16_at(b, 2), b.subrange(4, end))] + texts_in(b.subrange(end, b.len() as int))
    }
}

/// The texts under a code among the first `n` items, in order, each with its language; of a
/// text that is longer than a record can say, the front.
pub open spec fn texts_under(m: Seq<([u8; 4], UserDataModel)>, code: [u8; 4], n: nat) -> Seq<
    (u16, Seq<u8>),
>
    decreases n,
{
    if n == 0 {
        Seq::empty()
    } else {
        let before = texts_under(m, code, (n - 1) as nat);
        match m[n - 1].1 {
            UserDataModel::IntlText { language, text } => if m[n - 1].0 == code {
                before.push((language, if text.len() > 0xffff {
                    text.subrange(0, 0xffff)
                } else {
                    text
                }))
            } else {
                before
            },
            _ => before,
        }
    }
}

proof fn lemma_record_in_front(language: u16, text: Seq<u8>, rest: Seq<u8>)
    ensures
        texts_in(text_record(language, text) + rest) == seq![
            (language, short_text(text)),
        ] + texts_in(rest),
{
    broadcast use group_be_len;

    let t = short_text(text);
    let s = text_record(language, text) + rest;
    assert(s.subrange(0, 2) =~= u16_be(t.len() as u16));
    assert(s.subrange(2, 4) =~= u16_be(language));
    lemma_u16_at(s, 0, t.len() as u16);
    lemma_u16_at(s, 2, language);
    let end = 4 + t.len() as int;
    assert(s.subrange(4, end) =~= t);
    assert(s.subrange(end, s.len() as int) =~= rest);
}

proof fn lemma_records(
    m: Seq<([u8; 4], UserDataModel)>,
    code: [u8; 4],
    n: nat,
    rest: Seq<u8>,
)
    requires
        n <= m.len(),
    ensures
        texts_in(cat(n, text_records(m, code)) + rest) == texts_under(m, code, n) + texts_in(rest),
    decreases n,
{
    let f = text_records(m, code);
    if n == 0 {
        assert(cat(n, f) + rest =~= rest);
        assert(texts_under(m, code, n) + texts_in(rest) =~= texts_in(rest));
    } else {
        let p = (n - 1) as nat;
        let more = f(n - 1) + rest;
        assert(cat(n, f) + rest =~= cat(p, f) + more);
        lemma_records(m, code, p, more);
        match m[n - 1].1 {
            UserDataModel::IntlText { language, text } => if m[n - 1].0 == code {
                lemma_record_in_front(language, text, rest);
                assert(short_text(text) =~= (if text.len() > 0xffff {
                    text.subrange(0, 0xffff)
                } else {
                    text
                }));
                assert(texts_under(m, code, p) + (seq![(language, short_text(text))] + texts_in(
                    rest,
                )) =~= texts_under(m, code, n) + texts_in(rest));
            } else {
                assert(more =~= rest);
            },
            _ => {
                assert(more =~= rest);
            },
        }
    }
}

/// A reader of a box of texts finds all texts that were asked for under its code, in order,
/// each with its language.
pub proof fn law_texts_are_found(m: Seq<([u8; 4], UserDataModel)>, code: [u8; 4])
    ensures
        texts_in(cat(m.len(), text_records(m, code))) == texts_under(m, code, m.len()),
{
    let b = cat(m.len(), text_records(m, code));
    lemma_records(m, code, m.len(), Seq::empty());
    assert(b + Seq::<u8>::empty() =~= b);
    assert(texts_in(Seq::<u8>::empty()) =~= Seq::empty());
    assert(texts_under(m, code, m.len()) + Seq::<(u16, Seq<u8>)>::empty() =~= texts_under(
        m,
        code,
        m.len(),
    ));
}

/// A description of an access point says in the top bit whether the number of leading
/// samples is known, or whether samples depend on others, and the number or the type in the
/// bits below.
#[verifier::rlimit(40)]
pub proof fn law_access_point_layout(flag: bool, n: u8)
    ensures
        flag == (rap_byte(flag, n) / 128 == 1),
        rap_byte(flag, n) % 128 == n % 128,
        flag == (sap_byte(flag, n) / 128 == 1),
        (sap_byte(flag, n) / 16) % 8 == 0,
        sap_byte(flag, n) % 16 == n % 16,
{
}

/// Each property is a box with the code that names it.
pub proof fn law_properties_are_named(m: HeifPropertyModel)
    ensures
        m is Ispe ==> spells(property_code(m), "ispe"),
        m is Pixi ==> spells(property_code(m), "pixi"),
        m is Colr ==> spells(property_code(m), "colr"),
        m is AuxC ==> spells(property_code(m), "auxC"),
        m is Lsel ==> spells(property_code(m), "lsel"),
        m is Irot ==> spells(property_code(m), "irot"),
        m is Imir ==> spells(property_code(m), "imir"),
        m is Clli ==> spells(property_code(m), "clli"),
        m is Mdcv ==> spells(property_code(m), "mdcv"),
        m is Cclv ==> spells(property_code(m), "cclv"),
        m is Amve ==> spells(property_code(m), "amve"),
{
    reveal_strlit("ispe");
    reveal_strlit("pixi");
    reveal_strlit("colr");
    reveal_strlit("auxC");
    reveal_strlit("lsel");
    reveal_strlit("irot");
    reveal_strlit("imir");
    reveal_strlit("clli");
    reveal_strlit("mdcv");
    reveal_strlit("cclv");
    reveal_strlit("amve");
}

/// A reader must understand the size, the depth, what an image is for, how it is turned,
/// mirrored and cut, and how it is coded; it need not understand colour, light and layers.
pub proof fn law_essential_properties(m: HeifPropertyModel)
    ensures
        m is Ispe || m is Pixi || m is AuxC || m is Irot || m is Imir ==> property_essential(m),
        m is Colr || m is Lsel || m is Clli || m is Mdcv || m is Cclv || m is Amve
            ==> !property_essential(m),
        m matches HeifPropertyModel::Other(c, _) ==> (property_essential(m) <==> spells(c, "hvcC")
            || spells(c, "av1C") || spells(c, "avcC") || spells(c, "mskC") || spells(c, "clap")),
{
    reveal_strlit("hvcC");
    reveal_strlit("av1C");
    reveal_strlit("avcC");
    reveal_strlit("mskC");
    reveal_strlit("clap");
    if let HeifPropertyModel::Other(c, _) = m {
        if spells(c, "hvcC") {
            assert(c =~= crate::fourcc::HVCC);
        }
        if spells(c, "av1C") {
            assert(c =~= crate::fourcc::AV1C);
        }
        if spells(c, "avcC") {
            assert(c =~= crate::fourcc::AVCC);
        }
        if spells(c, "mskC") {
            assert(c =~= crate::fourcc::MSKC);
        }
        if spells(c, "clap") {
            assert(c =~= crate::fourcc::CLAP);
        }
    }
}

/// Each derivation has the item type that names it.
pub proof fn law_derivations_are_named(d: HeifDerivation)
    ensures
        d is Grid ==> spells(derivation_type(d), "grid"),
        d is Overlay ==> spells(derivation_type(d), "iovl"),
        d is Identity ==> spells(derivation_type(d), "iden"),
        d is ToneMap ==> spells(derivation_type(d), "tmap"),
{
    reveal_strlit("grid");
    reveal_strlit("iovl");
    reveal_strlit("iden");
    reveal_strlit("tmap");
}

} // verus!
