//! The boxes of a file of image items, and where in the file each item's data
//! stands.
use crate::atom::{
    atom, lemma_atom_len, lemma_mdat_header_len, mdat_header, mdat_header_len, push_atom,
};
use crate::bytes::{
    cat, empty_left, empty_right, group_be_len, lemma_cat_len, lemma_cat_piece, lemma_cat_push,
    lemma_low64_sum, lemma_part_of_last, low16, low16_of, low32, low32_of, low64, plus64, put_bytes,
    put_code, put_u16, put_u32, put_u64, put_u8, put_zeros, u16_be, u32_be, u64_be, zeros,
};
use crate::fourcc::{DIMG, FTYP, HDLR, IDAT, IINF, ILOC, INFE, IPRP, IREF, META, PICT, PITM};
use crate::heif_item::{derivation_body, HeifItem};
use crate::heif_properties::{iprp_body, item_rows, property_list};
use crate::heif_write::HeifItemReference;
use crate::text::utf8;
use vstd::prelude::*;

verus! {

/// The codes of a list of brands.
pub open spec fn brand_bytes(brands: Seq<[u8; 4]>) -> spec_fn(int) -> Seq<u8> {
    |i: int| brands[i]@
}

/// The `ftyp` atom.
pub open spec fn ftyp_atom(brand: [u8; 4], brands: Seq<[u8; 4]>) -> Seq<u8> {
    atom(FTYP, brand@ + u32_be(0) + cat(brands.len(), brand_bytes(brands)))
}

/// Serialise the `ftyp` atom.
pub fn build_ftyp(brand: [u8; 4], brands: &Vec<[u8; 4]>) -> (r: Vec<u8>)
    ensures
        r@ == ftyp_atom(brand, brands@),
{
    broadcast use empty_left;

    let mut body: Vec<u8> = Vec::new();
    put_code(&mut body, brand);
    put_u32(&mut body, 0);
    let ghost before = body@;
    assert(body@ =~= before + cat(0, brand_bytes(brands@)));
    for i in 0..brands.len()
        invariant
            body@ == before + cat(i as nat, brand_bytes(brands@)),
    {
        put_code(&mut body, brands[i]);
        assert(body@ =~= before + cat((i + 1) as nat, brand_bytes(brands@)));
    }
    let mut out: Vec<u8> = Vec::new();
    push_atom(&mut out, FTYP, body.as_slice());
    out
}

/// The body of the `hdlr` box: the handler `pict` with an empty name.
pub open spec fn hdlr_body() -> Seq<u8> {
    u32_be(0) + u32_be(0) + PICT@ + zeros(12) + seq![0u8]
}

/// Serialise the body of the `hdlr` box.
pub fn build_hdlr_pict() -> (r: Vec<u8>)
    ensures
        r@ == hdlr_body(),
{
    broadcast use empty_left;

    let mut p: Vec<u8> = Vec::new();
    put_u32(&mut p, 0);
    put_u32(&mut p, 0);
    put_code(&mut p, PICT);
    put_zeros(&mut p, 12);
    put_u8(&mut p, 0);
    p
}

/// The body of the `pitm` box: the number of the primary item, in version 1
/// where it needs more than sixteen bits.
pub open spec fn pitm_body(item_id: u32) -> Seq<u8> {
    if item_id <= 0xffff {
        u32_be(0) + u16_be(item_id as u16)
    } else {
        u32_be(0x0100_0000) + u32_be(item_id)
    }
}

/// Serialise the body of the `pitm` box.
pub fn build_pitm_v0(item_id: u32) -> (r: Vec<u8>)
    ensures
        r@ == pitm_body(item_id),
{
    broadcast use empty_left;

    let mut p: Vec<u8> = Vec::new();
    if item_id <= 0xffff {
        put_u32(&mut p, 0);
        put_u16(&mut p, item_id as u16);
    } else {
        put_u32(&mut p, 0x0100_0000);
        put_u32(&mut p, item_id);
    }
    p
}

/// The body of the `infe` box of an item.
pub open spec fn infe_body(it: HeifItem) -> Seq<u8> {
    u32_be(0x0200_0000) + u16_be(low16(it.item_id as int)) + u16_be(0) + it.item_type@ + utf8(
        it.item_name@,
    ) + seq![0u8]
}

/// Serialise the body of the `infe` box of an item.
pub fn build_infe_v2(item: &HeifItem) -> (r: Vec<u8>)
    ensures
        r@ == infe_body(*item),
{
    broadcast use empty_left;

    let mut p: Vec<u8> = Vec::new();
    put_u32(&mut p, 0x0200_0000);
    put_u16(&mut p, (item.item_id % 0x1_0000) as u16);
    put_u16(&mut p, 0);
    put_code(&mut p, item.item_type);
    put_bytes(&mut p, item.item_name.as_str().as_bytes());
    put_u8(&mut p, 0);
    p
}

/// The `infe` boxes.
pub open spec fn infe_atoms(items: Seq<HeifItem>) -> spec_fn(int) -> Seq<u8> {
    |i: int| atom(INFE, infe_body(items[i]))
}

/// The body of the `iinf` box.
pub open spec fn iinf_body(items: Seq<HeifItem>) -> Seq<u8> {
    u32_be(0) + u16_be(low16(items.len() as int)) + cat(items.len(), infe_atoms(items))
}

/// Serialise the body of the `iinf` box.
pub fn build_iinf_v0(items: &Vec<HeifItem>) -> (r: Vec<u8>)
    ensures
        r@ == iinf_body(items@),
{
    broadcast use empty_left;

    let mut iinf: Vec<u8> = Vec::new();
    put_u32(&mut iinf, 0);
    put_u16(&mut iinf, low16_of(items.len()));
    let ghost before = iinf@;
    assert(iinf@ =~= before + cat(0, infe_atoms(items@)));
    for i in 0..items.len()
        invariant
            iinf@ == before + cat(i as nat, infe_atoms(items@)),
    {
        let body = build_infe_v2(&items[i]);
        push_atom(&mut iinf, INFE, body.as_slice());
        assert(iinf@ =~= before + cat((i + 1) as nat, infe_atoms(items@)));
    }
    iinf
}

/// The numbers of items in sixteen bits each.
pub open spec fn id_bytes(ids: Seq<u32>) -> spec_fn(int) -> Seq<u8> {
    |i: int| u16_be(low16(ids[i] as int))
}

/// The box of a reference.
pub open spec fn reference_atom(kind: [u8; 4], from_id: u32, to_ids: Seq<u32>) -> Seq<u8> {
    atom(
        kind,
        u16_be(low16(from_id as int)) + u16_be(low16(to_ids.len() as int)) + cat(
            to_ids.len(),
            id_bytes(to_ids),
        ),
    )
}

/// The item is derived and has components.
pub open spec fn has_components(it: HeifItem) -> bool {
    it.derivation is Some && it.component_ids@.len() > 0
}

/// The `dimg` boxes of derived items.
pub open spec fn component_atoms(items: Seq<HeifItem>) -> spec_fn(int) -> Seq<u8> {
    |i: int|
        if has_components(items[i]) {
            reference_atom(DIMG, items[i].item_id, items[i].component_ids@)
        } else {
            Seq::empty()
        }
}

/// The boxes of added references.
pub open spec fn reference_atoms(refs: Seq<HeifItemReference>) -> spec_fn(int) -> Seq<u8> {
    |i: int| reference_atom(refs[i].kind, refs[i].from_id, refs[i].to_ids@)
}

/// There is a reference to write.
pub open spec fn any_reference(items: Seq<HeifItem>, refs: Seq<HeifItemReference>) -> bool {
    refs.len() > 0 || exists|i: int| 0 <= i < items.len() && #[trigger] has_components(items[i])
}

/// The body of the `iref` box; empty where there are no references. References
/// of derived items to their components come first.
pub open spec fn iref_body(items: Seq<HeifItem>, refs: Seq<HeifItemReference>) -> Seq<u8> {
    if any_reference(items, refs) {
        u32_be(0) + cat(items.len(), component_atoms(items)) + cat(
            refs.len(),
            reference_atoms(refs),
        )
    } else {
        Seq::empty()
    }
}

fn push_reference(out: &mut Vec<u8>, kind: [u8; 4], from_id: u32, to_ids: &Vec<u32>)
    ensures
        final(out)@ == old(out)@ + reference_atom(kind, from_id, to_ids@),
{
    broadcast use empty_left;

    let mut body: Vec<u8> = Vec::new();
    put_u16(&mut body, (from_id % 0x1_0000) as u16);
    put_u16(&mut body, low16_of(to_ids.len()));
    let ghost before = body@;
    assert(body@ =~= before + cat(0, id_bytes(to_ids@)));
    for i in 0..to_ids.len()
        invariant
            body@ == before + cat(i as nat, id_bytes(to_ids@)),
    {
        put_u16(&mut body, (to_ids[i] % 0x1_0000) as u16);
        assert(body@ =~= before + cat((i + 1) as nat, id_bytes(to_ids@)));
    }
    push_atom(out, kind, body.as_slice());
}

/// Serialise the body of the `iref` box.
pub fn build_iref(items: &Vec<HeifItem>, refs: &Vec<HeifItemReference>) -> (r: Vec<u8>)
    ensures
        r@ == iref_body(items@, refs@),
{
    broadcast use {empty_left, empty_right};

    let mut iref: Vec<u8> = Vec::new();
    put_u32(&mut iref, 0);
    let mut any = refs.len() > 0;
    let ghost before = iref@;
    let ghost f = component_atoms(items@);
    assert(iref@ =~= before + cat(0, f));
    for i in 0..items.len()
        invariant
            f == component_atoms(items@),
            any == (refs@.len() > 0 || exists|k: int|
                0 <= k < i && #[trigger] has_components(items@[k])),
            iref@ == before + cat(i as nat, f),
    {
        if items[i].derivation.is_some() && items[i].component_ids.len() > 0 {
            assert(has_components(items@[i as int]));
            any = true;
            push_reference(&mut iref, DIMG, items[i].item_id, &items[i].component_ids);
        } else {
            assert(!has_components(items@[i as int]));
        }
        assert(iref@ =~= before + cat((i + 1) as nat, f));
    }
    let ghost middle = iref@;
    let ghost g = reference_atoms(refs@);
    assert(iref@ =~= middle + cat(0, g));
    for i in 0..refs.len()
        invariant
            g == reference_atoms(refs@),
            iref@ == middle + cat(i as nat, g),
    {
        push_reference(&mut iref, refs[i].kind, refs[i].from_id, &refs[i].to_ids);
        assert(iref@ =~= middle + cat((i + 1) as nat, g));
    }
    if any {
        iref
    } else {
        Vec::new()
    }
}

/// What an item adds to the `idat` box: the data of a derived item.
pub open spec fn idat_piece(it: HeifItem) -> Seq<u8> {
    match it.derivation {
        Some(d) => derivation_body(d),
        None => Seq::empty(),
    }
}

/// What an item adds to the `mdat` box: the data of a coded item.
pub open spec fn mdat_piece(it: HeifItem) -> Seq<u8> {
    match (it.derivation, it.data) {
        (None, Some(d)) => d@,
        _ => Seq::empty(),
    }
}

/// What each item adds to the `idat` box.
pub open spec fn idat_pieces(items: Seq<HeifItem>) -> spec_fn(int) -> Seq<u8> {
    |i: int| idat_piece(items[i])
}

/// What each item adds to the `mdat` box.
pub open spec fn mdat_pieces(items: Seq<HeifItem>) -> spec_fn(int) -> Seq<u8> {
    |i: int| mdat_piece(items[i])
}

/// The body of the `idat` box.
pub open spec fn idat_body(items: Seq<HeifItem>) -> Seq<u8> {
    cat(items.len(), idat_pieces(items))
}

/// The body of the `mdat` box.
pub open spec fn mdat_body(items: Seq<HeifItem>) -> Seq<u8> {
    cat(items.len(), mdat_pieces(items))
}

/// Collect the data of derived items.
pub fn build_idat(items: &Vec<HeifItem>) -> (r: Vec<u8>)
    ensures
        r@ == idat_body(items@),
{
    broadcast use empty_right;

    let mut out: Vec<u8> = Vec::new();
    for i in 0..items.len()
        invariant
            out@ == cat(i as nat, idat_pieces(items@)),
    {
        broadcast use empty_right;

        if let Some(d) = &items[i].derivation {
            let body = d.emit_body();
            put_bytes(&mut out, body.as_slice());
        }
    }
    out
}

/// Collect the data of coded items.
pub fn build_mdat(items: &Vec<HeifItem>) -> (r: Vec<u8>)
    ensures
        r@ == mdat_body(items@),
{
    let mut out: Vec<u8> = Vec::new();
    for i in 0..items.len()
        invariant
            out@ == cat(i as nat, mdat_pieces(items@)),
    {
        broadcast use empty_right;

        if items[i].derivation.is_none() {
            if let Some(data) = &items[i].data {
                put_bytes(&mut out, data.as_slice());
            }
        }
    }
    out
}

/// The data of some coded item is longer than 32 bits can say.
pub open spec fn has_wide_data(items: Seq<HeifItem>) -> bool {
    exists|i: int| 0 <= i < items.len() && (#[trigger] mdat_piece(items[i])).len() > 0xffff_ffff
}

/// Whether the data of some coded item is longer than 32 bits can say.
pub fn any_wide_data(items: &Vec<HeifItem>) -> (r: bool)
    ensures
        r == has_wide_data(items@),
{
    for i in 0..items.len()
        invariant
            forall|j: int| 0 <= j < i ==> (#[trigger] mdat_piece(items@[j])).len() <= 0xffff_ffff,
    {
        if items[i].derivation.is_none() {
            if let Some(data) = &items[i].data {
                if data.len() as u64 > 0xffff_ffff {
                    assert(mdat_piece(items@[i as int]).len() > 0xffff_ffff);
                    return true;
                }
            }
        }
    }
    false
}

/// Where the data of item `i` starts: in the `idat` box if it is derived, else
/// in the file, given where the body of `mdat` starts.
pub open spec fn data_offset(items: Seq<HeifItem>, i: int, mdat_start: int) -> int {
    if items[i].derivation is Some {
        cat(i as nat, idat_pieces(items)).len() as int
    } else {
        mdat_start + cat(i as nat, mdat_pieces(items)).len()
    }
}

/// How long the data of item `i` is.
pub open spec fn data_len(items: Seq<HeifItem>, i: int) -> nat {
    if items[i].derivation is Some {
        idat_piece(items[i]).len()
    } else {
        mdat_piece(items[i]).len()
    }
}

/// The row of item `i` in the `iloc` box: its number, whether its data stands
/// in `idat`, and the one extent of its data.
pub open spec fn iloc_row(items: Seq<HeifItem>, i: int, mdat_start: int, wide: bool) -> Seq<u8> {
    iloc_row_bytes(
        items[i].item_id,
        items[i].derivation is Some,
        low64(data_offset(items, i, mdat_start)),
        data_len(items, i),
        wide,
    )
}

/// A row of the `iloc` box.
pub open spec fn iloc_row_bytes(id: u32, in_idat: bool, offset: u64, len: nat, wide: bool) -> Seq<
    u8,
> {
    u16_be(low16(id as int)) + u16_be(
        if in_idat {
            1u16
        } else {
            0u16
        },
    ) + u16_be(0) + u16_be(1) + u64_be(offset) + (if wide {
        u64_be(low64(len as int))
    } else {
        u32_be(low32(len as int))
    })
}

fn put_iloc_row(out: &mut Vec<u8>, id: u32, in_idat: bool, offset: u64, len: usize, wide: bool)
    ensures
        final(out)@ == old(out)@ + iloc_row_bytes(id, in_idat, offset, len as nat, wide),
{
    broadcast use empty_left;

    let mut row: Vec<u8> = Vec::new();
    put_u16(&mut row, (id % 0x1_0000) as u16);
    put_u16(&mut row, if in_idat {
        1
    } else {
        0
    });
    put_u16(&mut row, 0);
    put_u16(&mut row, 1);
    put_u64(&mut row, offset);
    if wide {
        put_u64(&mut row, len as u64);
    } else {
        put_u32(&mut row, low32_of(len));
    }
    put_bytes(out, row.as_slice());
}

/// The rows of the `iloc` box.
pub open spec fn iloc_rows(items: Seq<HeifItem>, mdat_start: int, wide: bool) -> spec_fn(
    int,
) -> Seq<u8> {
    |i: int| iloc_row(items, i, mdat_start, wide)
}

/// The body of the `iloc` box. Offsets have eight bytes, lengths four or eight.
pub open spec fn iloc_body(items: Seq<HeifItem>, mdat_start: int) -> Seq<u8> {
    let wide = has_wide_data(items);
    seq![
        1u8,
        0u8,
        0u8,
        0u8,
        if wide {
            0x88u8
        } else {
            0x84u8
        },
        0u8,
    ] + u16_be(low16(items.len() as int)) + cat(items.len(), iloc_rows(items, mdat_start, wide))
}

/// Serialise the body of the `iloc` box.
pub fn build_iloc_v1(items: &Vec<HeifItem>, mdat_start: u64, wide: bool) -> (r: Vec<u8>)
    requires
        wide == has_wide_data(items@),
    ensures
        r@ == iloc_body(items@, mdat_start as int),
{
    let mut p: Vec<u8> = Vec::new();
    p.push(1);
    p.push(0);
    p.push(0);
    p.push(0);
    p.push(if wide {
        0x88
    } else {
        0x84
    });
    p.push(0);
    assert(p@ =~= seq![
        1u8,
        0u8,
        0u8,
        0u8,
        if wide {
            0x88u8
        } else {
            0x84u8
        },
        0u8,
    ]);
    put_u16(&mut p, low16_of(items.len()));
    let ghost before = p@;
    let ghost f = iloc_rows(items@, mdat_start as int, wide);
    assert(p@ =~= before + cat(0, f));
    let mut in_idat: u64 = 0;
    let mut in_mdat: u64 = 0;
    for i in 0..items.len()
        invariant
            f == iloc_rows(items@, mdat_start as int, wide),
            in_idat == low64(cat(i as nat, idat_pieces(items@)).len() as int),
            in_mdat == low64(cat(i as nat, mdat_pieces(items@)).len() as int),
            p@ == before + cat(i as nat, f),
    {
        let it = &items[i];
        let mut len: usize = 0;
        let mut off: u64 = plus64(mdat_start, in_mdat);
        proof {
            lemma_low64_sum(mdat_start as int, cat(i as nat, mdat_pieces(items@)).len() as int);
        }
        if let Some(d) = &it.derivation {
            let body = d.emit_body();
            len = body.len();
            off = in_idat;
            in_idat = plus64(in_idat, len as u64);
        } else if let Some(data) = &it.data {
            len = data.len();
            in_mdat = plus64(in_mdat, len as u64);
        }
        proof {
            lemma_low64_sum(cat(i as nat, idat_pieces(items@)).len() as int, len as int);
            lemma_low64_sum(cat(i as nat, mdat_pieces(items@)).len() as int, len as int);
        }
        put_iloc_row(&mut p, it.item_id, it.derivation.is_some(), off, len, wide);
        proof {
            assert(iloc_row_bytes(it.item_id, it.derivation is Some, off, len as nat, wide) == f(
                i as int,
            ));
            lemma_cat_push(before, i as nat, f);
        }
    }
    p
}

/// An atom that is left out where its body is empty.
pub open spec fn atom_unless_empty(code: [u8; 4], body: Seq<u8>) -> Seq<u8> {
    if body.len() == 0 {
        Seq::empty()
    } else {
        atom(code, body)
    }
}

fn push_atom_unless_empty(out: &mut Vec<u8>, code: [u8; 4], body: &[u8])
    ensures
        final(out)@ == old(out)@ + atom_unless_empty(code, body@),
{
    broadcast use empty_right;

    if body.len() > 0 {
        push_atom(out, code, body);
    }
}

/// The body of the `meta` box, given where the body of `mdat` starts.
#[verifier::opaque]
pub open spec fn meta_body(
    items: Seq<HeifItem>,
    refs: Seq<HeifItemReference>,
    primary: u32,
    mdat_start: int,
) -> Seq<u8> {
    u32_be(0) + atom(HDLR, hdlr_body()) + atom(PITM, pitm_body(primary)) + atom(
        IINF,
        iinf_body(items),
    ) + atom_unless_empty(IREF, iref_body(items, refs)) + atom(
        IPRP,
        iprp_body(property_list(items), item_rows(items, items.len(), property_list(items))),
    ) + atom(ILOC, iloc_body(items, mdat_start)) + atom_unless_empty(IDAT, idat_body(items))
}

/// Serialise the body of the `meta` box from the bodies of its boxes.
pub fn build_meta(
    hdlr: &[u8],
    pitm: &[u8],
    iinf: &[u8],
    iref: &[u8],
    iprp: &[u8],
    idat: &[u8],
    iloc: &[u8],
) -> (r: Vec<u8>)
    ensures
        r@ == u32_be(0) + atom(HDLR, hdlr@) + atom(PITM, pitm@) + atom(IINF, iinf@)
            + atom_unless_empty(IREF, iref@) + atom(IPRP, iprp@) + atom(ILOC, iloc@)
            + atom_unless_empty(IDAT, idat@),
{
    broadcast use empty_left;

    let mut body: Vec<u8> = Vec::new();
    put_u32(&mut body, 0);
    push_atom(&mut body, HDLR, hdlr);
    push_atom(&mut body, PITM, pitm);
    push_atom(&mut body, IINF, iinf);
    push_atom_unless_empty(&mut body, IREF, iref);
    push_atom(&mut body, IPRP, iprp);
    push_atom(&mut body, ILOC, iloc);
    push_atom_unless_empty(&mut body, IDAT, idat);
    body
}

/// The length of an atom that is left out where its body is empty.
fn len_unless_empty(body: &[u8]) -> (r: u128)
    ensures
        r == (if body@.len() == 0 {
            0
        } else {
            8 + body@.len()
        }),
        r <= 8 + usize::MAX,
{
    if body.len() == 0 {
        0
    } else {
        8 + body.len() as u128
    }
}

/// The length of the `meta` atom that [`build_meta`] gives a body, cut to
/// sixty-four bits.
pub fn build_meta_size(
    hdlr: &[u8],
    pitm: &[u8],
    iinf: &[u8],
    iref: &[u8],
    iprp: &[u8],
    idat: &[u8],
    iloc: &[u8],
) -> (r: u64)
    ensures
        r == low64(
            8 + (u32_be(0) + atom(HDLR, hdlr@) + atom(PITM, pitm@) + atom(IINF, iinf@)
                + atom_unless_empty(IREF, iref@) + atom(IPRP, iprp@) + atom(ILOC, iloc@)
                + atom_unless_empty(IDAT, idat@)).len() as int,
        ),
{
    broadcast use group_be_len;

    let mut body_len: u128 = 4;
    body_len = body_len + 8 + hdlr.len() as u128;
    body_len = body_len + 8 + pitm.len() as u128;
    body_len = body_len + 8 + iinf.len() as u128;
    body_len = body_len + len_unless_empty(iref);
    body_len = body_len + 8 + iprp.len() as u128;
    body_len = body_len + 8 + iloc.len() as u128;
    body_len = body_len + len_unless_empty(idat);
    ((8 + body_len) % 0x1_0000_0000_0000_0000) as u64
}

/// Where the body of `mdat` starts: behind `ftyp`, `meta` and its own header.
pub open spec fn mdat_start(
    brand: [u8; 4],
    brands: Seq<[u8; 4]>,
    items: Seq<HeifItem>,
    refs: Seq<HeifItemReference>,
    primary: u32,
) -> int {
    ftyp_atom(brand, brands).len() + 8 + meta_body(items, refs, primary, 0).len() + mdat_header_len(
        mdat_body(items).len(),
    )
}

/// The file.
pub open spec fn heif_file(
    brand: [u8; 4],
    brands: Seq<[u8; 4]>,
    items: Seq<HeifItem>,
    refs: Seq<HeifItemReference>,
    primary: u32,
) -> Seq<u8> {
    let start = low64(mdat_start(brand, brands, items, refs, primary));
    ftyp_atom(brand, brands) + atom(META, meta_body(items, refs, primary, start as int))
        + mdat_header(mdat_body(items).len()) + mdat_body(items)
}

/// The offsets in the `iloc` box do not change its length.
proof fn lemma_iloc_len(items: Seq<HeifItem>, a: int, b: int)
    ensures
        iloc_body(items, a).len() == iloc_body(items, b).len(),
{
    broadcast use group_be_len;

    let wide = has_wide_data(items);
    let k: nat = if wide {
        24
    } else {
        20
    };
    lemma_cat_len(items.len(), iloc_rows(items, a, wide), k);
    lemma_cat_len(items.len(), iloc_rows(items, b, wide), k);
}

/// The `meta` box is as long wherever `mdat` starts, so that a first pass can
/// measure it before the offsets in it are known.
pub proof fn law_offsets_do_not_change_the_length(
    items: Seq<HeifItem>,
    refs: Seq<HeifItemReference>,
    primary: u32,
    a: int,
    b: int,
)
    ensures
        meta_body(items, refs, primary, a).len() == meta_body(items, refs, primary, b).len(),
{
    broadcast use group_be_len;

    reveal(meta_body);
    lemma_iloc_len(items, a, b);
}

/// Where the body of `mdat` starts in the file, if 64-bit offsets can address
/// the file.
proof fn lemma_mdat_start(
    brand: [u8; 4],
    brands: Seq<[u8; 4]>,
    items: Seq<HeifItem>,
    refs: Seq<HeifItemReference>,
    primary: u32,
    lo: int,
    hi: int,
)
    requires
        heif_file(brand, brands, items, refs, primary).len() <= u64::MAX,
        0 <= lo <= hi <= mdat_body(items).len(),
    ensures
        ({
            let file = heif_file(brand, brands, items, refs, primary);
            let start = mdat_start(brand, brands, items, refs, primary);
            &&& low64(start) == start
            &&& low64(start + lo) == start + lo
            &&& file.len() == start + mdat_body(items).len()
            &&& file.subrange(start + lo, start + hi) == mdat_body(items).subrange(lo, hi)
        }),
{
    let body = mdat_body(items);
    let start = mdat_start(brand, brands, items, refs, primary);
    let cut = low64(start) as int;
    let meta = meta_body(items, refs, primary, cut);
    law_offsets_do_not_change_the_length(items, refs, primary, 0, cut);
    lemma_atom_len(META, meta);
    lemma_mdat_header_len(body.len());
    lemma_part_of_last(
        ftyp_atom(brand, brands),
        atom(META, meta),
        mdat_header(body.len()),
        body,
        lo,
        hi,
    );
}

/// A file that 64-bit offsets can address: the data of each coded item stands in
/// it where the `iloc` box says.
pub proof fn law_coded_data_stands_where_iloc_says(
    brand: [u8; 4],
    brands: Seq<[u8; 4]>,
    items: Seq<HeifItem>,
    refs: Seq<HeifItemReference>,
    primary: u32,
    i: int,
)
    requires
        0 <= i < items.len(),
        items[i].derivation is None,
        items[i].data is Some,
        heif_file(brand, brands, items, refs, primary).len() <= u64::MAX,
    ensures
        ({
            let file = heif_file(brand, brands, items, refs, primary);
            let start = low64(mdat_start(brand, brands, items, refs, primary)) as int;
            let at = low64(data_offset(items, i, start)) as int;
            &&& at + data_len(items, i) <= file.len()
            &&& file.subrange(at, at + data_len(items, i)) == items[i].data->Some_0@
        }),
{
    let f = mdat_pieces(items);
    let lo = cat(i as nat, f).len() as int;
    lemma_cat_piece(items.len(), f, i);
    lemma_mdat_start(brand, brands, items, refs, primary, lo, lo + f(i).len());
}

/// The data of each derived item stands in the `idat` box where the `iloc` box
/// says.
pub proof fn law_derived_data_stands_where_iloc_says(items: Seq<HeifItem>, i: int, mdat_start: int)
    requires
        0 <= i < items.len(),
        items[i].derivation is Some,
        idat_body(items).len() <= u64::MAX,
    ensures
        ({
            let at = low64(data_offset(items, i, mdat_start)) as int;
            &&& at + data_len(items, i) <= idat_body(items).len()
            &&& idat_body(items).subrange(at, at + data_len(items, i)) == derivation_body(
                items[i].derivation->Some_0,
            )
        }),
{
    lemma_cat_piece(items.len(), idat_pieces(items), i);
}

} // verus!
