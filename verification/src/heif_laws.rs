//! What the writer of image items writes of properties is read back.
use crate::atom::{atom, child_at, lemma_atom_at, lemma_atom_len, ChildModel};
use crate::bytes::{
    cat, group_be_len, i32_be, lemma_cat_len, lemma_cat_piece, lemma_i32_at, lemma_part,
    lemma_u16_at, lemma_u32_at, low8, tail, u16_be, u32_at, u32_be,
};
use crate::error::Error;
use crate::fourcc::{AMVE, LSEL, PROF, RICC};
use crate::heif_item::{
    cclv_flags, colr_info_body, optional_primaries, optional_u32, property_body, property_code,
    HeifPropertyModel,
};
use crate::heif_properties::{
    association_bytes, associations_bytes, has_wide_id, has_wide_index, ipma_body, iprp_body,
    property_boxes, row_bytes, rows_bytes,
};
use crate::iprp::{
    AssociationModel, Cclv, ColrInfoModel, Imir, Irot, Mdcv, PropertyAssociation, PropertyModel,
    AUXC, CCLV, CLAP, CLLI, COLR, IMIR, IPCO, IPMA, IROT, ISPE, MDCV, PASP, PIXI,
};
use crate::iprp_read::{
    assoc_at, assoc_len, associations_at, auxc_of, bit, cclv_of, id_len, ipco_of, ipma_of, ipma_row,
    ipma_row_error, ipma_rows_error, ipma_start, iprp_of, mdcv_of, primaries_at, property_of, taken,
};
use crate::media_meta::{colr_body, ColorModel};
use crate::read_back::law_colr_is_read_back;
use crate::text::{lemma_text_end_is, lemma_text_of_utf8, utf8};
use vstd::prelude::*;

verus! {

/// Colour information as a reader sees it.
pub open spec fn read_colors(m: ColrInfoModel) -> ColorModel {
    match m {
        ColrInfoModel::Nclx { primaries, transfer, matrix, full_range } => ColorModel::Nclx {
            primaries,
            transfer,
            matrix,
            full_range,
        },
        ColrInfoModel::RestrictedIcc(b) => ColorModel::Icc { kind: RICC, profile: b },
        ColrInfoModel::UnrestrictedIcc(b) => ColorModel::Icc { kind: PROF, profile: b },
    }
}

/// A property as a reader sees it. A layer selector and an ambient viewing
/// environment are boxes that it does not know.
pub open spec fn read_property(m: HeifPropertyModel) -> PropertyModel {
    match m {
        HeifPropertyModel::Ispe(i) => PropertyModel::Ispe(i),
        HeifPropertyModel::Pixi(bits) => PropertyModel::Pixi(bits),
        HeifPropertyModel::Colr(c) => PropertyModel::Colr(read_colors(c)),
        HeifPropertyModel::AuxC(urn, subtype) => PropertyModel::AuxC(urn, subtype),
        HeifPropertyModel::Irot(i) => PropertyModel::Irot(Irot { steps: (i.steps % 4) as u8 }),
        HeifPropertyModel::Imir(i) => PropertyModel::Imir(Imir { axis: (i.axis % 2) as u8 }),
        HeifPropertyModel::Clli(c) => PropertyModel::Clli(c),
        HeifPropertyModel::Mdcv(m) => PropertyModel::Mdcv(m),
        HeifPropertyModel::Cclv(c) => PropertyModel::Cclv(c),
        HeifPropertyModel::Other(code, payload) => property_of(code, payload)->Ok_0,
        HeifPropertyModel::Lsel(_) => PropertyModel::Other(LSEL, property_body(m)),
        HeifPropertyModel::Amve(_) => PropertyModel::Other(AMVE, property_body(m)),
    }
}

/// A property that its box can hold: at most 255 channels, a name without a zero
/// byte, and a body that is in order where a known box is written as such.
pub open spec fn proper_property(m: HeifPropertyModel) -> bool {
    match m {
        HeifPropertyModel::Pixi(bits) => bits.len() <= 255,
        HeifPropertyModel::AuxC(urn, _) => !utf8(urn).contains(0u8),
        HeifPropertyModel::Other(code, payload) => property_of(code, payload) is Ok,
        _ => true,
    }
}

proof fn lemma_codes_differ()
    ensures
        LSEL != COLR && LSEL != PASP && LSEL != CLAP && LSEL != ISPE && LSEL != PIXI,
        LSEL != IROT && LSEL != IMIR && LSEL != AUXC && LSEL != CLLI && LSEL != MDCV && LSEL
            != CCLV,
        AMVE != COLR && AMVE != PASP && AMVE != CLAP && AMVE != ISPE && AMVE != PIXI,
        AMVE != IROT && AMVE != IMIR && AMVE != AUXC && AMVE != CLLI && AMVE != MDCV && AMVE
            != CCLV,
        ISPE != COLR && ISPE != PASP && ISPE != CLAP,
        PIXI != COLR && PIXI != PASP && PIXI != CLAP && PIXI != ISPE,
        IROT != COLR && IROT != PASP && IROT != CLAP && IROT != ISPE && IROT != PIXI,
        IMIR != COLR && IMIR != PASP && IMIR != CLAP && IMIR != ISPE && IMIR != PIXI && IMIR
            != IROT,
        AUXC != COLR && AUXC != PASP && AUXC != CLAP && AUXC != ISPE && AUXC != PIXI && AUXC
            != IROT && AUXC != IMIR,
        CLLI != COLR && CLLI != PASP && CLLI != CLAP && CLLI != ISPE && CLLI != PIXI && CLLI
            != IROT && CLLI != IMIR && CLLI != AUXC,
        MDCV != COLR && MDCV != PASP && MDCV != CLAP && MDCV != ISPE && MDCV != PIXI && MDCV
            != IROT && MDCV != IMIR && MDCV != AUXC && MDCV != CLLI,
        CCLV != COLR && CCLV != PASP && CCLV != CLAP && CCLV != ISPE && CCLV != PIXI && CCLV
            != IROT && CCLV != IMIR && CCLV != AUXC && CCLV != CLLI && CCLV != MDCV,
{
    assert(COLR@[0] == 0x63 && COLR@[1] == 0x6f);
    assert(PASP@[0] == 0x70 && PASP@[1] == 0x61);
    assert(CLAP@[0] == 0x63 && CLAP@[1] == 0x6c && CLAP@[2] == 0x61);
    assert(ISPE@[0] == 0x69 && ISPE@[1] == 0x73);
    assert(PIXI@[0] == 0x70 && PIXI@[1] == 0x69);
    assert(IROT@[0] == 0x69 && IROT@[1] == 0x72);
    assert(IMIR@[0] == 0x69 && IMIR@[1] == 0x6d);
    assert(AUXC@[0] == 0x61 && AUXC@[1] == 0x75);
    assert(CLLI@[0] == 0x63 && CLLI@[1] == 0x6c && CLLI@[2] == 0x6c);
    assert(MDCV@[0] == 0x6d);
    assert(CCLV@[0] == 0x63 && CCLV@[1] == 0x63);
    assert(LSEL@[0] == 0x6c);
    assert(AMVE@[0] == 0x61 && AMVE@[1] == 0x6d);
}

proof fn lemma_mdcv(m: Mdcv)
    ensures
        mdcv_of(property_body(HeifPropertyModel::Mdcv(m))) == Ok::<Mdcv, Error>(m),
{
    broadcast use group_be_len;

    let s = property_body(HeifPropertyModel::Mdcv(m));
    let p = m.display_primaries@;
    assert(s.subrange(0, 2) =~= u16_be(p[0].0));
    assert(s.subrange(2, 4) =~= u16_be(p[1].0));
    assert(s.subrange(4, 6) =~= u16_be(p[2].0));
    assert(s.subrange(6, 8) =~= u16_be(p[0].1));
    assert(s.subrange(8, 10) =~= u16_be(p[1].1));
    assert(s.subrange(10, 12) =~= u16_be(p[2].1));
    assert(s.subrange(12, 14) =~= u16_be(m.white_point.0));
    assert(s.subrange(14, 16) =~= u16_be(m.white_point.1));
    assert(s.subrange(16, 20) =~= u32_be(m.max_display_luminance));
    assert(s.subrange(20, 24) =~= u32_be(m.min_display_luminance));
    lemma_u16_at(s, 0, p[0].0);
    lemma_u16_at(s, 2, p[1].0);
    lemma_u16_at(s, 4, p[2].0);
    lemma_u16_at(s, 6, p[0].1);
    lemma_u16_at(s, 8, p[1].1);
    lemma_u16_at(s, 10, p[2].1);
    lemma_u16_at(s, 12, m.white_point.0);
    lemma_u16_at(s, 14, m.white_point.1);
    lemma_u32_at(s, 16, m.max_display_luminance);
    lemma_u32_at(s, 20, m.min_display_luminance);
    assert(mdcv_of(s)->Ok_0.display_primaries =~= m.display_primaries);
}

proof fn lemma_cclv_flags(c: Cclv)
    ensures
        bit(cclv_flags(c), 0x80) == c.cancel_flag,
        bit(cclv_flags(c), 0x40) == c.persistence_flag,
        bit(cclv_flags(c), 0x20) == (c.primaries is Some),
        bit(cclv_flags(c), 0x10) == (c.min_luminance is Some),
        bit(cclv_flags(c), 0x08) == (c.max_luminance is Some),
        bit(cclv_flags(c), 0x04) == (c.avg_luminance is Some),
{
}

proof fn lemma_number_at(lead: Seq<u8>, v: Option<u32>, rest: Seq<u8>)
    ensures
        v matches Some(x) ==> u32_at(lead + optional_u32(v) + rest, lead.len() as int) == x,
        optional_u32(v).len() == taken(v is Some, 4),
{
    broadcast use group_be_len;

    if let Some(x) = v {
        let s = lead + optional_u32(v) + rest;
        assert(s.subrange(lead.len() as int, (lead.len() + 4) as int) =~= u32_be(x));
        lemma_u32_at(s, lead.len() as int, x);
    }
}

proof fn lemma_primaries_at(lead: Seq<u8>, v: Option<[(i32, i32); 3]>, rest: Seq<u8>)
    ensures
        v matches Some(p) ==> primaries_at(
            lead + optional_primaries(v) + rest,
            lead.len() as int,
        ) == p,
        optional_primaries(v).len() == taken(v is Some, 24),
{
    broadcast use group_be_len;

    if let Some(q) = v {
        let p = q@;
        let n = lead.len() as int;
        let s = lead + optional_primaries(v) + rest;
        assert(s.subrange(n, n + 4) =~= i32_be(p[0].0));
        assert(s.subrange(n + 4, n + 8) =~= i32_be(p[1].0));
        assert(s.subrange(n + 8, n + 12) =~= i32_be(p[2].0));
        assert(s.subrange(n + 12, n + 16) =~= i32_be(p[0].1));
        assert(s.subrange(n + 16, n + 20) =~= i32_be(p[1].1));
        assert(s.subrange(n + 20, n + 24) =~= i32_be(p[2].1));
        lemma_i32_at(s, n, p[0].0);
        lemma_i32_at(s, n + 4, p[1].0);
        lemma_i32_at(s, n + 8, p[2].0);
        lemma_i32_at(s, n + 12, p[0].1);
        lemma_i32_at(s, n + 16, p[1].1);
        lemma_i32_at(s, n + 20, p[2].1);
        assert(primaries_at(s, n) =~= q);
    }
}

proof fn lemma_cclv(c: Cclv)
    ensures
        cclv_of(property_body(HeifPropertyModel::Cclv(c))) == Ok::<Cclv, Error>(c),
{
    broadcast use group_be_len;

    let s = property_body(HeifPropertyModel::Cclv(c));
    let lead = u32_be(0) + seq![cclv_flags(c)];
    let a = optional_primaries(c.primaries);
    let b = optional_u32(c.min_luminance);
    let d = optional_u32(c.max_luminance);
    let e = optional_u32(c.avg_luminance);
    lemma_cclv_flags(c);
    assert(s[4] == cclv_flags(c));
    lemma_primaries_at(lead, c.primaries, b + d + e);
    assert(lead + a + (b + d + e) =~= s);
    lemma_number_at(lead + a, c.min_luminance, d + e);
    assert((lead + a) + b + (d + e) =~= s);
    lemma_number_at(lead + a + b, c.max_luminance, e);
    assert((lead + a + b) + d + e =~= s);
    lemma_number_at(lead + a + b + d, c.avg_luminance, Seq::empty());
    assert((lead + a + b + d) + e + Seq::<u8>::empty() =~= s);
    assert(cclv_of(s)->Ok_0 == c);
}

proof fn lemma_auxc(urn: Seq<char>, subtype: Seq<u8>)
    requires
        !utf8(urn).contains(0u8),
    ensures
        ({
            let s = property_body(HeifPropertyModel::AuxC(urn, subtype));
            s.len() >= 4 && auxc_of(s) == (urn, subtype)
        }),
{
    broadcast use group_be_len;

    let s = property_body(HeifPropertyModel::AuxC(urn, subtype));
    let text = utf8(urn);
    let end = 4 + text.len();
    assert forall|i: int| 4 <= i < end implies s[i] != 0 by {
        assert(text[i - 4] == s[i]);
    }
    lemma_text_end_is(s, 4, end as int);
    assert(s.subrange(4, end as int) =~= text);
    lemma_text_of_utf8(urn);
    vstd::utf8::encode_utf8_decode_utf8(urn);
    assert(tail(s, (end + 1) as int) =~= subtype);
}

/// A property is read back from the box that is written for it.
#[verifier::rlimit(40)]
pub proof fn law_property_is_read_back(m: HeifPropertyModel)
    requires
        proper_property(m),
    ensures
        property_of(property_code(m), property_body(m)) == Ok::<PropertyModel, Error>(
            read_property(m),
        ),
{
    broadcast use group_be_len;

    lemma_codes_differ();
    let s = property_body(m);
    match m {
        HeifPropertyModel::Ispe(i) => {
            assert(s.subrange(4, 8) =~= u32_be(i.width));
            assert(s.subrange(8, 12) =~= u32_be(i.height));
            lemma_u32_at(s, 4, i.width);
            lemma_u32_at(s, 8, i.height);
        },
        HeifPropertyModel::Pixi(bits) => {
            assert(s[4] == low8(bits.len() as int));
            assert(s.subrange(5, 5 + s[4]) =~= bits);
        },
        HeifPropertyModel::Colr(c) => {
            assert(colr_info_body(c) == colr_body(read_colors(c)));
            law_colr_is_read_back(read_colors(c));
        },
        HeifPropertyModel::AuxC(urn, subtype) => {
            lemma_auxc(urn, subtype);
        },
        HeifPropertyModel::Clli(c) => {
            assert(s.subrange(0, 2) =~= u16_be(c.max_content_light_level));
            assert(s.subrange(2, 4) =~= u16_be(c.max_pic_average_light_level));
            lemma_u16_at(s, 0, c.max_content_light_level);
            lemma_u16_at(s, 2, c.max_pic_average_light_level);
        },
        HeifPropertyModel::Mdcv(d) => {
            lemma_mdcv(d);
        },
        HeifPropertyModel::Cclv(c) => {
            lemma_cclv(c);
        },
        _ => {},
    }
}

/// The length of the number of an item in a row.
pub open spec fn written_id_len(wide_id: bool) -> int {
    if wide_id {
        4
    } else {
        2
    }
}

/// The length of an association in a row.
pub open spec fn written_assoc_len(wide: bool) -> int {
    if wide {
        2
    } else {
        1
    }
}

/// A row that an `ipma` box can hold: at most 255 associations, with indices of
/// fifteen bits that are not 0.
pub open spec fn proper_row(row: AssociationModel) -> bool {
    &&& row.associations.len() <= 255
    &&& forall|k: int|
        0 <= k < row.associations.len() ==> 1 <= (#[trigger] row.associations[k]).index <= 0x7fff
}

/// A row fits the widths that it is written in.
pub open spec fn row_fits(row: AssociationModel, wide_id: bool, wide: bool) -> bool {
    &&& proper_row(row)
    &&& !wide_id ==> row.item_id <= 0xffff
    &&& !wide ==> forall|k: int|
        0 <= k < row.associations.len() ==> (#[trigger] row.associations[k]).index <= 0x7f
}

proof fn lemma_row_shape(row: AssociationModel, wide_id: bool, wide: bool)
    requires
        row_fits(row, wide_id, wide),
    ensures
        ({
            let b = row_bytes(row, wide_id, wide);
            let n = row.associations.len();
            let id = written_id_len(wide_id);
            &&& b.len() == id + 1 + n * written_assoc_len(wide)
            &&& b[id] == n
            &&& b.subrange(0, id) == (if wide_id {
                u32_be(row.item_id)
            } else {
                u16_be(row.item_id as u16)
            })
        }),
{
    broadcast use group_be_len;

    let n = row.associations.len();
    let f = associations_bytes(row.associations, wide);
    lemma_cat_len(n, f, written_assoc_len(wide) as nat);
    let b = row_bytes(row, wide_id, wide);
    let id = written_id_len(wide_id);
    assert(b.subrange(0, id) =~= (if wide_id {
        u32_be(row.item_id)
    } else {
        u16_be(row.item_id as u16)
    }));
}

proof fn lemma_row_association(row: AssociationModel, wide_id: bool, wide: bool, k: int)
    requires
        row_fits(row, wide_id, wide),
        0 <= k < row.associations.len(),
    ensures
        ({
            let b = row_bytes(row, wide_id, wide);
            let al = written_assoc_len(wide);
            let at = written_id_len(wide_id) + 1 + k * al;
            &&& 0 <= at
            &&& at + al <= b.len()
            &&& b.subrange(at, at + al) == association_bytes(row.associations[k], wide)
        }),
{
    broadcast use group_be_len;

    let n = row.associations.len();
    let f = associations_bytes(row.associations, wide);
    let al = written_assoc_len(wide);
    lemma_cat_len(n, f, al as nat);
    lemma_cat_len(k as nat, f, al as nat);
    lemma_cat_piece(n, f, k);
    let b = row_bytes(row, wide_id, wide);
    let d = written_id_len(wide_id) + 1;
    let all = cat(n, f);
    assert(b.subrange(d, b.len() as int) =~= all);
    lemma_part(b, d, b.len() as int, k * al, k * al + al);
}

proof fn lemma_association(s: Seq<u8>, q: int, a: PropertyAssociation, wide: bool)
    requires
        assoc_len(s) == written_assoc_len(wide),
        0 <= q,
        q + written_assoc_len(wide) <= s.len(),
        s.subrange(q, q + written_assoc_len(wide)) == association_bytes(a, wide),
        a.index <= 0x7fff,
        !wide ==> a.index <= 0x7f,
    ensures
        assoc_at(s, q) == a,
{
    if wide {
        let x = (a.index % 0x8000 + (if a.essential {
            0x8000int
        } else {
            0
        })) as u16;
        lemma_u16_at(s, q, x);
    } else {
        assert(s.subrange(q, q + 1)[0] == s[q]);
    }
}

proof fn lemma_all_kept(s: Seq<u8>, q: int, a: Seq<PropertyAssociation>, n: nat)
    requires
        n <= a.len(),
        forall|k: int| 0 <= k < a.len() ==> (#[trigger] a[k]).index != 0,
        forall|k: int| 0 <= k < a.len() ==> assoc_at(s, q + k * assoc_len(s)) == #[trigger] a[k],
    ensures
        associations_at(s, q, n) == a.take(n as int),
    decreases n,
{
    if n > 0 {
        lemma_all_kept(s, q, a, (n - 1) as nat);
        assert(a[n - 1].index != 0);
        assert(a.take(n as int) =~= a.take(n - 1).push(a[n - 1]));
    } else {
        assert(a.take(0) =~= Seq::empty());
    }
}

proof fn lemma_row_at(s: Seq<u8>, row: AssociationModel, wide_id: bool, wide: bool, j: nat, p: int)
    requires
        row_fits(row, wide_id, wide),
        s.len() >= 4,
        id_len(s) == written_id_len(wide_id),
        wide_id == (s[0] != 0),
        assoc_len(s) == written_assoc_len(wide),
        p == ipma_start(s, j),
        0 <= p,
        p + row_bytes(row, wide_id, wide).len() <= s.len(),
        s.subrange(p, p + row_bytes(row, wide_id, wide).len()) == row_bytes(row, wide_id, wide),
    ensures
        ipma_row_error(s, j) is None,
        ipma_row(s, j) == row,
        ipma_start(s, j + 1) == p + row_bytes(row, wide_id, wide).len(),
{
    let b = row_bytes(row, wide_id, wide);
    let id = written_id_len(wide_id);
    let al = written_assoc_len(wide);
    let n = row.associations.len();
    lemma_row_shape(row, wide_id, wide);
    assert(n * al >= 0) by (nonlinear_arith)
        requires
            n >= 0,
            al >= 0,
    ;
    assert(s[p + id] == b[id]) by {
        assert(s.subrange(p, p + b.len())[id] == s[p + id]);
    }
    lemma_part(s, p, p + b.len(), 0, id);
    if wide_id {
        lemma_u32_at(s, p, row.item_id);
    } else {
        lemma_u16_at(s, p, row.item_id as u16);
    }
    let q = p + id;
    assert forall|k: int| 0 <= k < n implies assoc_at(s, q + 1 + k * al)
        == #[trigger] row.associations[k] by {
        lemma_row_association(row, wide_id, wide, k);
        let at = id + 1 + k * al;
        lemma_part(s, p, p + b.len(), at, at + al);
        lemma_association(s, p + at, row.associations[k], wide);
    }
    lemma_all_kept(s, q + 1, row.associations, n);
    assert(row.associations.take(n as int) =~= row.associations);
}

proof fn lemma_rows(s: Seq<u8>, rows: Seq<AssociationModel>, wide_id: bool, wide: bool, n: nat)
    requires
        n <= rows.len(),
        forall|j: int| 0 <= j < rows.len() ==> row_fits(#[trigger] rows[j], wide_id, wide),
        s.len() == 8 + cat(rows.len(), rows_bytes(rows, wide_id, wide)).len(),
        s.subrange(8, s.len() as int) == cat(rows.len(), rows_bytes(rows, wide_id, wide)),
        id_len(s) == written_id_len(wide_id),
        wide_id == (s[0] != 0),
        assoc_len(s) == written_assoc_len(wide),
    ensures
        ipma_rows_error(s, n) is None,
        ipma_start(s, n) == 8 + cat(n, rows_bytes(rows, wide_id, wide)).len(),
        forall|j: int| 0 <= j < n ==> ipma_row(s, j as nat) == #[trigger] rows[j],
    decreases n,
{
    if n > 0 {
        let m = (n - 1) as nat;
        let f = rows_bytes(rows, wide_id, wide);
        lemma_rows(s, rows, wide_id, wide, m);
        lemma_cat_piece(rows.len(), f, m as int);
        let p = cat(m, f).len() as int;
        assert(row_fits(rows[m as int], wide_id, wide));
        lemma_part(s, 8, s.len() as int, p, p + f(m as int).len());
        lemma_row_at(s, rows[m as int], wide_id, wide, m, 8 + p);
        assert(cat(n, f) == cat(m, f) + f(m as int));
    }
}

/// Associations are read back from the box that is written for them.
pub proof fn law_associations_are_read_back(rows: Seq<AssociationModel>)
    requires
        rows.len() <= 0xffff_ffff,
        forall|j: int| 0 <= j < rows.len() ==> proper_row(#[trigger] rows[j]),
    ensures
        ipma_of(ipma_body(rows)) == Ok::<Seq<AssociationModel>, Error>(rows),
{
    broadcast use group_be_len;

    let s = ipma_body(rows);
    let wide_id = has_wide_id(rows);
    let wide = has_wide_index(rows);
    assert forall|j: int| 0 <= j < rows.len() implies row_fits(
        #[trigger] rows[j],
        wide_id,
        wide,
    ) by {
        assert(proper_row(rows[j]));
        if !wide {
            assert forall|k: int| 0 <= k < rows[j].associations.len() implies (
            #[trigger] rows[j].associations[k]).index <= 0x7f by {}
        }
    }
    let all = cat(rows.len(), rows_bytes(rows, wide_id, wide));
    assert(s.subrange(8, s.len() as int) =~= all);
    assert(s.subrange(4, 8) =~= u32_be(rows.len() as u32));
    lemma_u32_at(s, 4, rows.len() as u32);
    lemma_rows(s, rows, wide_id, wide, rows.len());
    assert(Seq::new(rows.len(), |j: int| ipma_row(s, j as nat)) =~= rows);
}

proof fn lemma_child(s: Seq<u8>, p: int, code: [u8; 4], body: Seq<u8>)
    requires
        0 <= p,
        p + 8 + body.len() <= s.len(),
        s.subrange(p, p + 8 + body.len()) == atom(code, body),
        8 + body.len() <= 0xffff_ffff,
    ensures
        child_at(s, p) == Ok::<ChildModel, Error>(
            ChildModel { code, start: p + 8, end: p + 8 + body.len(), open: false },
        ),
        s.subrange(p + 8, p + 8 + body.len()) == body,
{
    lemma_atom_at(s, p, code, body);
}

/// Properties as a reader sees them.
pub open spec fn read_properties(list: Seq<HeifPropertyModel>) -> Seq<PropertyModel> {
    Seq::new(list.len(), |i: int| read_property(list[i]))
}

proof fn lemma_boxes(s: Seq<u8>, list: Seq<HeifPropertyModel>, i: int)
    requires
        0 <= i <= list.len(),
        s == cat(list.len(), property_boxes(list)),
        s.len() <= 0xffff_ffff,
        forall|k: int| 0 <= k < list.len() ==> proper_property(#[trigger] list[k]),
    ensures
        ipco_of(s, cat(i as nat, property_boxes(list)).len() as int) == Ok::<
            Seq<PropertyModel>,
            Error,
        >(read_properties(list).subrange(i, list.len() as int)),
    decreases list.len() - i,
{
    let f = property_boxes(list);
    let p = cat(i as nat, f).len() as int;
    let all = read_properties(list);
    if i == list.len() {
        assert(all.subrange(i, i) =~= Seq::empty());
    } else {
        let code = property_code(list[i]);
        let body = property_body(list[i]);
        lemma_cat_piece(list.len(), f, i);
        lemma_atom_len(code, body);
        assert(f(i) == atom(code, body));
        lemma_child(s, p, code, body);
        assert(proper_property(list[i]));
        law_property_is_read_back(list[i]);
        lemma_boxes(s, list, i + 1);
        assert(cat((i + 1) as nat, f) == cat(i as nat, f) + f(i));
        assert(seq![read_property(list[i])] + all.subrange(i + 1, list.len() as int)
            =~= all.subrange(i, list.len() as int));
    }
}

/// Properties and associations are read back from the `iprp` box that is written
/// for them.
#[verifier::rlimit(60)]
#[verifier::spinoff_prover]
pub proof fn law_item_properties_are_read_back(
    list: Seq<HeifPropertyModel>,
    rows: Seq<AssociationModel>,
)
    requires
        forall|k: int| 0 <= k < list.len() ==> proper_property(#[trigger] list[k]),
        forall|j: int| 0 <= j < rows.len() ==> proper_row(#[trigger] rows[j]),
        rows.len() <= 0xffff_ffff,
        iprp_body(list, rows).len() <= 0xffff_ffff,
    ensures
        iprp_of(iprp_body(list, rows), 0) == Ok::<
            (Seq<PropertyModel>, Seq<AssociationModel>),
            Error,
        >((read_properties(list), rows)),
{
    let s = iprp_body(list, rows);
    let a = cat(list.len(), property_boxes(list));
    let b = ipma_body(rows);
    lemma_atom_len(IPCO, a);
    lemma_atom_len(IPMA, b);
    let end = 8 + a.len();
    assert(s.subrange(0, 8 + a.len() as int) =~= atom(IPCO, a));
    assert(s.subrange(end as int, s.len() as int) =~= atom(IPMA, b));
    lemma_child(s, 0, IPCO, a);
    lemma_child(s, end as int, IPMA, b);
    lemma_boxes(a, list, 0);
    assert(read_properties(list).subrange(0, list.len() as int) =~= read_properties(list));
    law_associations_are_read_back(rows);
    assert(IPCO@[2] == 0x63u8);
    assert(IPMA@[2] == 0x6du8);
    let none = Seq::<PropertyModel>::empty();
    let no_rows = Seq::<AssociationModel>::empty();
    assert(iprp_of(s, s.len() as int) == Ok::<(Seq<PropertyModel>, Seq<AssociationModel>), Error>(
        (none, no_rows),
    ));
    assert(none + none =~= none);
    assert(rows + no_rows =~= rows);
    assert(iprp_of(s, end as int) == Ok::<(Seq<PropertyModel>, Seq<AssociationModel>), Error>(
        (none, rows),
    ));
    assert(read_properties(list) + none =~= read_properties(list));
    assert(no_rows + rows =~= rows);
}

} // verus!
