//! What a reader finds in a file of image items: its brands, which item is the primary
//! one, of every item its type and its name, and its data.
use crate::atom::{atom, lemma_atom_len, mdat_header};
use crate::bytes::{
    cat, code_at, empty_right, group_be_len, lemma_cat_len, lemma_cat_piece, lemma_part,
    lemma_u16_at, lemma_u32_at, lemma_u64_at, low16, low64, tail, u16_at, u16_be, u32_at, u32_be,
    u64_at, u64_be,
};
use crate::error::Error;
use crate::fourcc::{FTYP, HDLR, IDAT, IINF, ILOC, INFE, IPRP, IREF, META, PICT, PITM};
use crate::header::{hdlr_of, Hdlr};
use crate::heif_item::{derivation_body, HeifItem};
use crate::heif_layout::{
    atom_unless_empty, brand_bytes, data_len, data_offset, ftyp_atom, has_wide_data, hdlr_body,
    heif_file, id_bytes, idat_body, iinf_body, iloc_body, iloc_row, iloc_row_bytes, iloc_rows,
    infe_atoms, infe_body, iref_body, law_coded_data_stands_where_iloc_says,
    law_derived_data_stands_where_iloc_says, mdat_body, mdat_piece, mdat_start, meta_body,
    pitm_body, reference_atom,
};
use crate::heif_properties::{iprp_body, item_rows, property_list};
use crate::heif_write::HeifItemReference;
use crate::table_laws::lemma_row_at;
use crate::text::utf8;
use crate::walk::{
    boxes, first_box, holds_one, inside, inside_nth, lemma_atom_is_one, lemma_boxes_7,
    lemma_boxes_found, lemma_found, lemma_nth_of_cat, lemma_passes_atom, lemma_passes_nothing,
    lemma_passes_then_one, nth_box,
};
use vstd::prelude::*;

verus! {

/// The boxes inside the `meta` box of a file.
pub open spec fn meta_in(file: Seq<u8>) -> Seq<u8> {
    tail(inside(file, META), 4)
}

/// The number of the primary item that a `pitm` body says.
pub open spec fn primary_of(s: Seq<u8>) -> u32 {
    if s[0] == 0 {
        u16_at(s, 4) as u32
    } else {
        u32_at(s, 4)
    }
}

/// The body of entry `i` of an `iinf` body.
pub open spec fn entry_in(iinf: Seq<u8>, i: int) -> Seq<u8> {
    inside_nth(tail(iinf, 6), INFE, i)
}

/// A number of four or eight bytes; without bytes it is 0.
pub open spec fn number_at(s: Seq<u8>, p: int, bytes: int) -> int {
    if bytes == 8 {
        u64_at(s, p) as int
    } else if bytes == 4 {
        u32_at(s, p) as int
    } else {
        0
    }
}

/// How many bytes an offset, a length and a base offset have in an `iloc` body.
pub open spec fn offset_bytes(s: Seq<u8>) -> int {
    s[4] as int / 16
}

pub open spec fn length_bytes(s: Seq<u8>) -> int {
    s[4] as int % 16
}

pub open spec fn base_bytes(s: Seq<u8>) -> int {
    s[5] as int / 16
}

/// Where row `i` of an `iloc` body starts. A row has the number of the item, how the
/// offsets count, a data reference, a base offset, and extents of offset and length.
pub open spec fn location_at(s: Seq<u8>, i: nat) -> int
    decreases i,
{
    if i == 0 {
        8
    } else {
        let p = location_at(s, (i - 1) as nat);
        p + 8 + base_bytes(s) + u16_at(s, p + 6 + base_bytes(s)) * (offset_bytes(s) + length_bytes(
            s,
        ))
    }
}

/// Whether the data of row `i` stand in the `idat` box: offsets count from it.
pub open spec fn is_in_idat(s: Seq<u8>, i: nat) -> bool {
    u16_at(s, location_at(s, i) + 2) % 16 == 1
}

/// The offset of the first extent of row `i`.
pub open spec fn extent_offset(s: Seq<u8>, i: nat) -> int {
    let p = location_at(s, i);
    number_at(s, p + 6, base_bytes(s)) + number_at(s, p + 8 + base_bytes(s), offset_bytes(s))
}

/// The length of the first extent of row `i`.
pub open spec fn extent_length(s: Seq<u8>, i: nat) -> int {
    number_at(s, location_at(s, i) + 8 + base_bytes(s) + offset_bytes(s), length_bytes(s))
}

/// The data of row `i`, from the file or from its `idat` box.
pub open spec fn item_data(file: Seq<u8>, i: nat) -> Seq<u8> {
    let s = inside(meta_in(file), ILOC);
    let from = if is_in_idat(s, i) {
        inside(meta_in(file), IDAT)
    } else {
        file
    };
    from.subrange(extent_offset(s, i), extent_offset(s, i) + extent_length(s, i))
}

spec fn code_number(c: [u8; 4]) -> int {
    c@[0] * 0x100_0000 + c@[1] * 0x1_0000 + c@[2] * 0x100 + c@[3]
}

proof fn lemma_outer(fb: Seq<u8>, meta: Seq<u8>, rest: Seq<u8>)
    requires
        8 + fb.len() <= 0xffff_ffff,
        8 + meta.len() <= 0xffff_ffff,
    ensures
        first_box(atom(FTYP, fb) + atom(META, meta) + rest, FTYP) == Some(fb),
        first_box(atom(FTYP, fb) + atom(META, meta) + rest, META) == Some(meta),
{
    let a = atom(FTYP, fb);
    let b = atom(META, meta);
    assert(code_number(FTYP) != code_number(META));
    lemma_atom_is_one(FTYP, fb);
    assert(a + b + rest =~= a + (b + rest));
    lemma_found(a, b + rest, FTYP, fb);
    lemma_passes_atom(FTYP, fb, META);
    lemma_atom_is_one(META, meta);
    lemma_passes_then_one(a, b, META, meta);
    lemma_found(a + b, rest, META, meta);
}

spec fn unless_empty(b: Seq<u8>) -> Option<Seq<u8>> {
    if b.len() == 0 {
        None
    } else {
        Some(b)
    }
}

proof fn lemma_inner(
    zero: Seq<u8>,
    hdlr: Seq<u8>,
    pitm: Seq<u8>,
    iinf: Seq<u8>,
    iref: Seq<u8>,
    iprp: Seq<u8>,
    iloc: Seq<u8>,
    idat: Seq<u8>,
)
    requires
        zero.len() == 4,
        (zero + atom(HDLR, hdlr) + atom(PITM, pitm) + atom(IINF, iinf) + atom_unless_empty(
            IREF,
            iref,
        ) + atom(IPRP, iprp) + atom(ILOC, iloc) + atom_unless_empty(IDAT, idat)).len()
            <= 0xffff_ffff,
    ensures
        ({
            let s = tail(
                zero + atom(HDLR, hdlr) + atom(PITM, pitm) + atom(IINF, iinf) + atom_unless_empty(
                    IREF,
                    iref,
                ) + atom(IPRP, iprp) + atom(ILOC, iloc) + atom_unless_empty(IDAT, idat),
                4,
            );
            &&& first_box(s, HDLR) == Some(hdlr)
            &&& first_box(s, PITM) == Some(pitm)
            &&& first_box(s, IINF) == Some(iinf)
            &&& first_box(s, IREF) == unless_empty(iref)
            &&& first_box(s, IPRP) == Some(iprp)
            &&& first_box(s, ILOC) == Some(iloc)
            &&& first_box(s, IDAT) == unless_empty(idat)
        }),
{
    broadcast use empty_right;

    let all = zero + atom(HDLR, hdlr) + atom(PITM, pitm) + atom(IINF, iinf) + atom_unless_empty(
        IREF,
        iref,
    ) + atom(IPRP, iprp) + atom(ILOC, iloc) + atom_unless_empty(IDAT, idat);
    let a = (HDLR, Some(hdlr));
    let b = (PITM, Some(pitm));
    let c = (IINF, Some(iinf));
    let d = (IREF, unless_empty(iref));
    let e = (IPRP, Some(iprp));
    let f = (ILOC, Some(iloc));
    let g = (IDAT, unless_empty(idat));
    let l = seq![a, b, c, d, e, f, g];
    lemma_boxes_7(a, b, c, d, e, f, g);
    assert(tail(all, 4) =~= boxes(l));
    assert forall|i: int, j: int| 0 <= i < 7 && 0 <= j < 7 && i != j implies (#[trigger] l[j]).0 != (
    #[trigger] l[i]).0 by {
        if l[j].0 == l[i].0 {
            assert(code_number(l[j].0) == code_number(l[i].0));
        }
    }
    lemma_each(l, 0);
    lemma_each(l, 1);
    lemma_each(l, 2);
    lemma_each(l, 3);
    lemma_each(l, 4);
    lemma_each(l, 5);
    lemma_each(l, 6);
}

proof fn lemma_each(l: Seq<([u8; 4], Option<Seq<u8>>)>, i: int)
    requires
        boxes(l).len() <= 0xffff_ffff,
        0 <= i < l.len(),
        forall|j: int| 0 <= j < l.len() && j != i ==> (#[trigger] l[j]).0 != l[i].0,
    ensures
        first_box(boxes(l), l[i].0) == l[i].1,
{
    broadcast use empty_right;

    lemma_passes_nothing(l[i].0);
    lemma_boxes_found(l, Seq::empty(), i);
}

/// A file of image items that is to be written.
pub struct Items {
    pub brand: [u8; 4],
    pub brands: Seq<[u8; 4]>,
    pub items: Seq<HeifItem>,
    pub refs: Seq<HeifItemReference>,
    pub primary: u32,
}

/// The file of image items.
#[verifier::opaque]
pub open spec fn items_file(w: Items) -> Seq<u8> {
    heif_file(w.brand, w.brands, w.items, w.refs, w.primary)
}

/// Where the body of the `mdat` box starts, in 64 bits.
#[verifier::opaque]
pub open spec fn media_at(w: Items) -> int {
    low64(mdat_start(w.brand, w.brands, w.items, w.refs, w.primary)) as int
}

/// 64 bits can address the file, 32 bits say the lengths of its first two boxes, and
/// sixteen bits the numbers of items.
#[verifier::opaque]
pub open spec fn fits(w: Items) -> bool {
    &&& items_file(w).len() <= 0xffff_ffff_ffff_ffff
    &&& ftyp_atom(w.brand, w.brands).len() <= 0xffff_ffff
    &&& 8 + meta_body(w.items, w.refs, w.primary, media_at(w)).len() <= 0xffff_ffff
    &&& w.items.len() <= 0xffff
    &&& forall|i: int| 0 <= i < w.items.len() ==> (#[trigger] w.items[i]).item_id <= 0xffff
}

proof fn lemma_boxes_in_file(w: Items)
    requires
        fits(w),
    ensures
        ({
            let s = meta_in(items_file(w));
            &&& first_box(items_file(w), FTYP) == Some(
                w.brand@ + u32_be(0) + cat(w.brands.len(), brand_bytes(w.brands)),
            )
            &&& first_box(s, HDLR) == Some(hdlr_body())
            &&& first_box(s, PITM) == Some(pitm_body(w.primary))
            &&& first_box(s, IINF) == Some(iinf_body(w.items))
            &&& first_box(s, IREF) == unless_empty(iref_body(w.items, w.refs))
            &&& first_box(s, IPRP) == Some(
                iprp_body(
                    property_list(w.items),
                    item_rows(w.items, w.items.len(), property_list(w.items)),
                ),
            )
            &&& first_box(s, ILOC) == Some(iloc_body(w.items, media_at(w)))
            &&& first_box(s, IDAT) == unless_empty(idat_body(w.items))
        }),
{
    broadcast use group_be_len;

    reveal(fits);
    reveal(items_file);
    reveal(media_at);
    reveal(meta_body);
    let fb = w.brand@ + u32_be(0) + cat(w.brands.len(), brand_bytes(w.brands));
    let start = media_at(w);
    let meta = meta_body(w.items, w.refs, w.primary, start);
    let rest = mdat_header(mdat_body(w.items).len()) + mdat_body(w.items);
    lemma_atom_len(FTYP, fb);
    lemma_outer(fb, meta, rest);
    assert(items_file(w) =~= atom(FTYP, fb) + atom(META, meta) + rest);
    lemma_inner(
        u32_be(0),
        hdlr_body(),
        pitm_body(w.primary),
        iinf_body(w.items),
        iref_body(w.items, w.refs),
        iprp_body(
            property_list(w.items),
            item_rows(w.items, w.items.len(), property_list(w.items)),
        ),
        iloc_body(w.items, start),
        idat_body(w.items),
    );
}

proof fn lemma_brands(brand: [u8; 4], brands: Seq<[u8; 4]>, i: int)
    ensures
        ({
            let s = brand@ + u32_be(0) + cat(brands.len(), brand_bytes(brands));
            &&& s.len() == 8 + 4 * brands.len()
            &&& code_at(s, 0) == brand
            &&& u32_at(s, 4) == 0
            &&& 0 <= i < brands.len() ==> code_at(s, 8 + 4 * i) == brands[i]
        }),
{
    broadcast use group_be_len;

    let f = brand_bytes(brands);
    let s = brand@ + u32_be(0) + cat(brands.len(), f);
    lemma_cat_len(brands.len(), f, 4);
    assert(code_at(s, 0) =~= brand);
    assert(s.subrange(4, 8) =~= u32_be(0));
    lemma_u32_at(s, 4, 0);
    if 0 <= i < brands.len() {
        assert(s.subrange(8, s.len() as int) =~= cat(brands.len(), f));
        lemma_row_at(s, 8, brands.len(), f, 4, i);
        let p = 8 + 4 * i;
        assert(code_at(s, p) =~= brands[i]) by {
            assert(s[p] == s.subrange(p, p + 4)[0]);
            assert(s[p + 1] == s.subrange(p, p + 4)[1]);
            assert(s[p + 2] == s.subrange(p, p + 4)[2]);
            assert(s[p + 3] == s.subrange(p, p + 4)[3]);
        }
    }
}

/// The file says the brands that were asked for: the major one, then the others, in
/// order.
pub proof fn law_brands_are_found_in_the_file(w: Items, i: int)
    requires
        fits(w),
    ensures
        ({
            let s = inside(items_file(w), FTYP);
            &&& code_at(s, 0) == w.brand
            &&& s.len() == 8 + 4 * w.brands.len()
            &&& 0 <= i < w.brands.len() ==> code_at(s, 8 + 4 * i) == w.brands[i]
        }),
{
    lemma_boxes_in_file(w);
    lemma_brands(w.brand, w.brands, i);
}

proof fn lemma_pitm(id: u32)
    ensures
        primary_of(pitm_body(id)) == id,
        pitm_body(id)[0] == 0 <==> id <= 0xffff,
        pitm_body(id)[0] <= 1,
{
    broadcast use group_be_len;

    let s = pitm_body(id);
    if id <= 0xffff {
        crate::bytes::lemma_be_bytes(0, 0, 0);
        assert(s[0] == u32_be(0)[0]);
        assert(s.subrange(4, 6) =~= u16_be(id as u16));
        lemma_u16_at(s, 4, id as u16);
    } else {
        crate::bytes::lemma_be_bytes(0, 0x0100_0000, 0);
        assert(s[0] == u32_be(0x0100_0000)[0]);
        assert(s.subrange(4, 8) =~= u32_be(id));
        lemma_u32_at(s, 4, id);
    }
}

proof fn lemma_pict()
    ensures
        hdlr_of(hdlr_body()) == Ok::<Hdlr, Error>(
            Hdlr {
                component_type: [0, 0, 0, 0],
                component_subtype: PICT,
                component_manufacturer: [0, 0, 0, 0],
            },
        ),
{
    broadcast use group_be_len;

    let s = hdlr_body();
    crate::bytes::lemma_be_bytes(0, 0, 0);
    assert(s[4] == u32_be(0)[0] && s[5] == u32_be(0)[1] && s[6] == u32_be(0)[2] && s[7] == u32_be(
        0,
    )[3]);
    assert(code_at(s, 4) =~= [0, 0, 0, 0]);
    assert(code_at(s, 8) =~= PICT);
    assert(code_at(s, 12) =~= [0, 0, 0, 0]);
}

/// The file says which item is the primary one, and that it is about pictures.
pub proof fn law_primary_item_is_found_in_the_file(w: Items)
    requires
        fits(w),
    ensures
        ({
            let s = meta_in(items_file(w));
            &&& primary_of(inside(s, PITM)) == w.primary
            &&& hdlr_of(inside(s, HDLR)) is Ok
            &&& hdlr_of(inside(s, HDLR))->Ok_0.component_subtype == PICT
        }),
{
    lemma_boxes_in_file(w);
    lemma_pitm(w.primary);
    lemma_pict();
}

proof fn lemma_infe(it: HeifItem)
    requires
        it.item_id <= 0xffff,
    ensures
        ({
            let s = infe_body(it);
            let n = utf8(it.item_name@).len() as int;
            &&& s[0] == 2
            &&& u16_at(s, 4) == it.item_id
            &&& u16_at(s, 6) == 0
            &&& code_at(s, 8) == it.item_type
            &&& s.len() == 13 + n
            &&& s.subrange(12, 12 + n) == utf8(it.item_name@)
            &&& s[12 + n] == 0
        }),
{
    broadcast use group_be_len;

    let s = infe_body(it);
    let n = utf8(it.item_name@).len() as int;
    crate::bytes::lemma_be_bytes(0, 0x0200_0000, 0);
    assert(s[0] == u32_be(0x0200_0000)[0]);
    assert(s.subrange(4, 6) =~= u16_be(it.item_id as u16));
    assert(s.subrange(6, 8) =~= u16_be(0));
    lemma_u16_at(s, 4, it.item_id as u16);
    lemma_u16_at(s, 6, 0);
    assert(code_at(s, 8) =~= it.item_type);
    assert(s.subrange(12, 12 + n) =~= utf8(it.item_name@));
}

proof fn lemma_iinf(items: Seq<HeifItem>, i: int)
    requires
        iinf_body(items).len() <= 0xffff_ffff,
        items.len() <= 0xffff,
        0 <= i < items.len(),
    ensures
        u16_at(iinf_body(items), 4) == items.len(),
        nth_box(tail(iinf_body(items), 6), INFE, i as nat) == Some(infe_body(items[i])),
{
    broadcast use {empty_right, group_be_len};

    let s = iinf_body(items);
    let n = items.len();
    let f = infe_atoms(items);
    let g = |k: int| infe_body(items[k]);
    assert(s.subrange(4, 6) =~= u16_be(n as u16));
    lemma_u16_at(s, 4, n as u16);
    assert(tail(s, 6) =~= cat(n, f));
    assert forall|k: int| 0 <= k < n implies holds_one(#[trigger] f(k), INFE, g(k)) by {
        lemma_cat_piece(n, f, k);
        lemma_atom_len(INFE, g(k));
        lemma_atom_is_one(INFE, g(k));
        assert(g(k) == infe_body(items[k]));
    }
    lemma_nth_of_cat(n, f, g, INFE, Seq::empty(), i);
}

/// The file counts the items and says of every item, in order, its number, its type and
/// its name.
pub proof fn law_items_are_found_in_the_file(w: Items, i: int)
    requires
        fits(w),
        0 <= i < w.items.len(),
    ensures
        ({
            let iinf = inside(meta_in(items_file(w)), IINF);
            let s = entry_in(iinf, i);
            let name = utf8(w.items[i].item_name@);
            &&& u16_at(iinf, 4) == w.items.len()
            &&& s[0] == 2
            &&& u16_at(s, 4) == w.items[i].item_id
            &&& code_at(s, 8) == w.items[i].item_type
            &&& s.len() == 13 + name.len()
            &&& s.subrange(12, 12 + name.len() as int) == name
            &&& s[12 + name.len() as int] == 0
        }),
{
    lemma_boxes_in_file(w);
    lemma_iinf_fits(w);
    lemma_iinf(w.items, i);
    lemma_infe(w.items[i]);
}

proof fn lemma_iinf_fits(w: Items)
    requires
        fits(w),
    ensures
        iinf_body(w.items).len() <= 0xffff_ffff,
        w.items.len() <= 0xffff,
        forall|i: int| 0 <= i < w.items.len() ==> (#[trigger] w.items[i]).item_id <= 0xffff,
{
    reveal(fits);
    reveal(meta_body);
    lemma_atom_len(IINF, iinf_body(w.items));
}

proof fn lemma_location_row(s: Seq<u8>, p: int, id: u32, inner: bool, offset: u64, len: nat, wide: bool)
    requires
        0 <= p,
        ({
            let row = iloc_row_bytes(id, inner, offset, len, wide);
            p + row.len() <= s.len() && s.subrange(p, p + row.len()) == row
        }),
        id <= 0xffff,
        wide || len <= 0xffff_ffff,
        len <= 0xffff_ffff_ffff_ffff,
    ensures
        iloc_row_bytes(id, inner, offset, len, wide).len() == (if wide {
            24int
        } else {
            20
        }),
        u16_at(s, p) == id,
        u16_at(s, p + 2) == (if inner {
            1int
        } else {
            0
        }),
        u16_at(s, p + 6) == 1,
        u64_at(s, p + 8) == offset,
        wide ==> u64_at(s, p + 16) == len,
        !wide ==> u32_at(s, p + 16) == len,
{
    broadcast use group_be_len;

    let row = iloc_row_bytes(id, inner, offset, len, wide);
    let n = row.len() as int;
    let method = if inner {
        1u16
    } else {
        0u16
    };
    lemma_part(s, p, p + n, 0, 2);
    lemma_part(s, p, p + n, 2, 4);
    lemma_part(s, p, p + n, 6, 8);
    lemma_part(s, p, p + n, 8, 16);
    lemma_part(s, p, p + n, 16, n);
    assert(row.subrange(0, 2) =~= u16_be(id as u16));
    assert(row.subrange(2, 4) =~= u16_be(method));
    assert(row.subrange(6, 8) =~= u16_be(1));
    assert(row.subrange(8, 16) =~= u64_be(offset));
    lemma_u16_at(s, p, id as u16);
    lemma_u16_at(s, p + 2, method);
    lemma_u16_at(s, p + 6, 1);
    lemma_u64_at(s, p + 8, offset);
    if wide {
        assert(row.subrange(16, n) =~= u64_be(len as u64));
        lemma_u64_at(s, p + 16, len as u64);
    } else {
        assert(row.subrange(16, n) =~= u32_be(len as u32));
        lemma_u32_at(s, p + 16, len as u32);
    }
}

proof fn lemma_iloc_head(items: Seq<HeifItem>, start: int)
    requires
        items.len() <= 0xffff,
    ensures
        ({
            let s = iloc_body(items, start);
            let wide = has_wide_data(items);
            &&& s[0] == 1
            &&& offset_bytes(s) == 8
            &&& length_bytes(s) == (if wide {
                8int
            } else {
                4
            })
            &&& base_bytes(s) == 0
            &&& u16_at(s, 6) == items.len()
            &&& s.len() == 8 + cat(items.len(), iloc_rows(items, start, wide)).len()
            &&& s.subrange(8, s.len() as int) == cat(items.len(), iloc_rows(items, start, wide))
        }),
{
    broadcast use group_be_len;

    let s = iloc_body(items, start);
    assert(s.subrange(6, 8) =~= u16_be(items.len() as u16));
    lemma_u16_at(s, 6, items.len() as u16);
    assert(s.subrange(8, s.len() as int) =~= cat(
        items.len(),
        iloc_rows(items, start, has_wide_data(items)),
    ));
}

proof fn lemma_row_len(items: Seq<HeifItem>, start: int, wide: bool)
    ensures
        forall|i: int|
            (#[trigger] iloc_rows(items, start, wide)(i)).len() == (if wide {
                24int
            } else {
                20
            }),
{
    broadcast use group_be_len;

}

proof fn lemma_location(items: Seq<HeifItem>, start: int, i: int)
    requires
        items.len() <= 0xffff,
        0 <= i < items.len(),
        items[i].item_id <= 0xffff,
        data_len(items, i) <= 0xffff_ffff_ffff_ffff,
        items[i].derivation is Some ==> data_len(items, i) <= 0xffff_ffff,
    ensures
        ({
            let s = iloc_body(items, start);
            let p = location_at(s, i as nat);
            &&& u16_at(s, 6) == items.len()
            &&& u16_at(s, p) == items[i].item_id
            &&& is_in_idat(s, i as nat) == (items[i].derivation is Some)
            &&& extent_offset(s, i as nat) == low64(data_offset(items, i, start))
            &&& extent_length(s, i as nat) == data_len(items, i)
        }),
{
    let s = iloc_body(items, start);
    let wide = has_wide_data(items);
    let f = iloc_rows(items, start, wide);
    let k: nat = if wide {
        24
    } else {
        20
    };
    lemma_iloc_head(items, start);
    lemma_row_len(items, start, wide);
    lemma_location_start(items, start, i as nat);
    lemma_row_at(s, 8, items.len(), f, k, i);
    if !wide && items[i].derivation is None {
        assert(mdat_piece(items[i]).len() <= 0xffff_ffff);
    }
    lemma_location_row(
        s,
        8 + k * i,
        items[i].item_id,
        items[i].derivation is Some,
        low64(data_offset(items, i, start)),
        data_len(items, i),
        wide,
    );
}

proof fn lemma_location_start(items: Seq<HeifItem>, start: int, i: nat)
    requires
        items.len() <= 0xffff,
        i < items.len(),
    ensures
        location_at(iloc_body(items, start), i) == 8 + (if has_wide_data(items) {
            24int
        } else {
            20
        }) * i,
    decreases i,
{
    let s = iloc_body(items, start);
    let wide = has_wide_data(items);
    lemma_iloc_head(items, start);
    if i > 0 {
        let j = i - 1;
        let f = iloc_rows(items, start, wide);
        let k: nat = if wide {
            24
        } else {
            20
        };
        lemma_location_start(items, start, j as nat);
        lemma_row_len(items, start, wide);
        lemma_row_at(s, 8, items.len(), f, k, j);
        lemma_one_extent(s, 8 + k * j, items, j, start, wide);
    }
}

proof fn lemma_one_extent(s: Seq<u8>, p: int, items: Seq<HeifItem>, j: int, start: int, wide: bool)
    requires
        0 <= p,
        p + iloc_row(items, j, start, wide).len() <= s.len(),
        s.subrange(p, p + iloc_row(items, j, start, wide).len()) == iloc_row(
            items,
            j,
            start,
            wide,
        ),
    ensures
        u16_at(s, p + 6) == 1,
{
    broadcast use group_be_len;

    let row = iloc_row(items, j, start, wide);
    lemma_part(s, p, p + row.len(), 6, 8);
    assert(row.subrange(6, 8) =~= u16_be(1));
    lemma_u16_at(s, p + 6, 1);
}

/// A reader that goes by the `iloc` box finds the data of every item: of a coded item in
/// the file, the bytes that were given, and of a derived item in the `idat` box, how it is
/// made.
#[verifier::rlimit(40)]
#[verifier::spinoff_prover]
pub proof fn law_item_data_are_found_in_the_file(w: Items, i: int)
    requires
        fits(w),
        0 <= i < w.items.len(),
        w.items[i].derivation is Some || w.items[i].data is Some,
    ensures
        ({
            let s = inside(meta_in(items_file(w)), ILOC);
            &&& u16_at(s, 6) == w.items.len()
            &&& u16_at(s, location_at(s, i as nat)) == w.items[i].item_id
            &&& item_data(items_file(w), i as nat) == (match w.items[i].derivation {
                Some(d) => derivation_body(d),
                None => w.items[i].data->Some_0@,
            })
        }),
{
    let start = media_at(w);
    lemma_boxes_in_file(w);
    lemma_iinf_fits(w);
    lemma_data_fits(w, i);
    lemma_location(w.items, start, i);
    lemma_data_place(w, i);
}

proof fn lemma_data_place(w: Items, i: int)
    requires
        fits(w),
        0 <= i < w.items.len(),
        w.items[i].derivation is Some || w.items[i].data is Some,
    ensures
        ({
            let at = low64(data_offset(w.items, i, media_at(w))) as int;
            let n = data_len(w.items, i) as int;
            match w.items[i].derivation {
                Some(d) => at + n <= idat_body(w.items).len() && idat_body(w.items).subrange(
                    at,
                    at + n,
                ) == derivation_body(d) && (n > 0 ==> idat_body(w.items).len() > 0),
                None => items_file(w).subrange(at, at + n) == w.items[i].data->Some_0@,
            }
        }),
{
    reveal(fits);
    reveal(items_file);
    reveal(media_at);
    lemma_data_fits(w, i);
    if w.items[i].derivation is Some {
        law_derived_data_stands_where_iloc_says(w.items, i, media_at(w));
    } else {
        law_coded_data_stands_where_iloc_says(w.brand, w.brands, w.items, w.refs, w.primary, i);
    }
}

proof fn lemma_data_fits(w: Items, i: int)
    requires
        fits(w),
        0 <= i < w.items.len(),
    ensures
        data_len(w.items, i) <= 0xffff_ffff_ffff_ffff,
        w.items[i].derivation is Some ==> data_len(w.items, i) <= 0xffff_ffff,
        idat_body(w.items).len() <= 0xffff_ffff,
{
    broadcast use group_be_len;

    reveal(fits);
    reveal(items_file);
    reveal(meta_body);
    lemma_atom_len(IDAT, idat_body(w.items));
    lemma_cat_piece(w.items.len(), crate::heif_layout::idat_pieces(w.items), i);
    lemma_cat_piece(w.items.len(), crate::heif_layout::mdat_pieces(w.items), i);
}

/// The box of a reference says its kind, from which item it goes, to how many items, and
/// to which.
pub proof fn law_reference_says_its_items(kind: [u8; 4], from_id: u32, to_ids: Seq<u32>, k: int)
    requires
        from_id <= 0xffff,
        to_ids.len() <= 0xffff,
        0 <= k < to_ids.len(),
        to_ids[k] <= 0xffff,
    ensures
        ({
            let s = inside(reference_atom(kind, from_id, to_ids), kind);
            &&& u16_at(s, 0) == from_id
            &&& u16_at(s, 2) == to_ids.len()
            &&& u16_at(s, 4 + 2 * k) == to_ids[k]
            &&& s.len() == 4 + 2 * to_ids.len()
        }),
{
    broadcast use {empty_right, group_be_len};

    let f = id_bytes(to_ids);
    let n = to_ids.len();
    let s = u16_be(low16(from_id as int)) + u16_be(low16(n as int)) + cat(n, f);
    lemma_cat_len(n, f, 2);
    lemma_atom_is_one(kind, s);
    lemma_found(atom(kind, s), Seq::empty(), kind, s);
    assert(s.subrange(0, 2) =~= u16_be(from_id as u16));
    assert(s.subrange(2, 4) =~= u16_be(n as u16));
    lemma_u16_at(s, 0, from_id as u16);
    lemma_u16_at(s, 2, n as u16);
    assert(s.subrange(4, s.len() as int) =~= cat(n, f));
    lemma_row_at(s, 4, n, f, 2, k);
    lemma_u16_at(s, 4 + 2 * k, to_ids[k] as u16);
}

/// The `iref` box holds the references of every derived item to its components, and
/// every reference that was added; it stands in the file if and only if there is one.
pub proof fn law_references_are_in_the_file(w: Items)
    requires
        fits(w),
    ensures
        ({
            let s = meta_in(items_file(w));
            first_box(s, IREF) is Some <==> (w.refs.len() > 0 || exists|i: int|
                0 <= i < w.items.len() && (#[trigger] w.items[i]).derivation is Some
                    && w.items[i].component_ids@.len() > 0)
        }),
        forall|i: int|
            0 <= i < w.items.len() && (#[trigger] w.items[i]).derivation is Some
                && w.items[i].component_ids@.len() > 0 ==> holds_reference(
                inside(meta_in(items_file(w)), IREF),
                reference_atom(
                    crate::fourcc::DIMG,
                    w.items[i].item_id,
                    w.items[i].component_ids@,
                ),
            ),
        forall|i: int|
            0 <= i < w.refs.len() ==> holds_reference(
                inside(meta_in(items_file(w)), IREF),
                reference_atom(
                    (#[trigger] w.refs[i]).kind,
                    w.refs[i].from_id,
                    w.refs[i].to_ids@,
                ),
            ),
{
    broadcast use group_be_len;

    lemma_boxes_in_file(w);
    let items = w.items;
    let refs = w.refs;
    let s = iref_body(items, refs);
    let f = crate::heif_layout::component_atoms(items);
    let g = crate::heif_layout::reference_atoms(refs);
    let a = cat(items.len(), f);
    let b = cat(refs.len(), g);
    if crate::heif_layout::any_reference(items, refs) {
        assert(s.len() >= 4);
        assert(s.subrange(4, 4 + a.len() as int) =~= a);
        assert(s.subrange(4 + a.len() as int, s.len() as int) =~= b);
        if refs.len() == 0 {
            let i = choose|i: int|
                0 <= i < items.len() && #[trigger] crate::heif_layout::has_components(items[i]);
            assert(items[i].derivation is Some);
        }
    } else {
        assert forall|i: int|
            0 <= i < items.len() && (#[trigger] items[i]).derivation is Some implies items[i].component_ids@.len()
            == 0 by {
            assert(!crate::heif_layout::has_components(items[i]));
        }
    }
    assert forall|i: int|
        0 <= i < items.len() && (#[trigger] items[i]).derivation is Some
            && items[i].component_ids@.len() > 0 implies holds_reference(
        s,
        reference_atom(crate::fourcc::DIMG, items[i].item_id, items[i].component_ids@),
    ) by {
        assert(crate::heif_layout::has_components(items[i]));
        crate::bytes::lemma_piece_at(s, 4, items.len(), f, i);
        lemma_holds(s, 4 + cat(i as nat, f).len() as int, f(i));
    }
    assert forall|i: int| 0 <= i < refs.len() implies holds_reference(
        s,
        reference_atom((#[trigger] refs[i]).kind, refs[i].from_id, refs[i].to_ids@),
    ) by {
        crate::bytes::lemma_piece_at(s, 4 + a.len() as int, refs.len(), g, i);
        lemma_holds(s, 4 + a.len() as int + cat(i as nat, g).len() as int, g(i));
    }
}

/// Bytes stand somewhere in a sequence.
pub open spec fn holds_reference(s: Seq<u8>, piece: Seq<u8>) -> bool {
    exists|p: int| 4 <= p && p + piece.len() <= s.len() && #[trigger] stands_at(s, p, piece)
}

/// Bytes stand at a place.
pub open spec fn stands_at(s: Seq<u8>, p: int, piece: Seq<u8>) -> bool {
    s.subrange(p, p + piece.len()) == piece
}

proof fn lemma_holds(s: Seq<u8>, p: int, piece: Seq<u8>)
    requires
        4 <= p,
        p + piece.len() <= s.len(),
        s.subrange(p, p + piece.len()) == piece,
    ensures
        holds_reference(s, piece),
{
    assert(stands_at(s, p, piece));
}

} // verus!
