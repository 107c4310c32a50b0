//! Writing user data (`udta`) and key-value metadata (`meta` with `hdlr`, `keys`
//! and `ilst`).
use crate::atom::{atom, push_atom};
use crate::bytes::{
    cat, empty_left, empty_right, lemma_cat_push, low32, low32_of, low32_plus, put_bytes, put_code,
    put_u16, put_u32, put_u8, put_zeros, same_code, u16_be, u32_be, zeros,
};
use crate::fourcc::{DATA, HDLR, ILST, KEYS, MDTA};
use crate::mux_types::{MetaItemModel, MetaPayload, MovMetaItem, MovMetadata, UserDataModel};
use crate::rows::views;
use crate::text::utf8;
use vstd::prelude::*;

verus! {

/// What a list of items of user data holds.
pub open spec fn user_data_models(v: Seq<MovMetadata>) -> Seq<([u8; 4], UserDataModel)> {
    views(v)
}

/// The item is text in one of several languages, under a code.
pub open spec fn is_text_under(m: ([u8; 4], UserDataModel), code: [u8; 4]) -> bool {
    m.0 == code && m.1 is IntlText
}

/// The first sixteen bits' worth of a text.
pub open spec fn short_text(text: Seq<u8>) -> Seq<u8> {
    if text.len() > 0xffff {
        text.take(0xffff)
    } else {
        text
    }
}

/// The record of one text: its length, its language and the text.
pub open spec fn text_record(language: u16, text: Seq<u8>) -> Seq<u8> {
    u16_be(short_text(text).len() as u16) + u16_be(language) + short_text(text)
}

/// The records of all texts under a code.
pub open spec fn text_records(m: Seq<([u8; 4], UserDataModel)>, code: [u8; 4]) -> spec_fn(
    int,
) -> Seq<u8> {
    |k: int|
        match m[k].1 {
            UserDataModel::IntlText { language, text } => if m[k].0 == code {
                text_record(language, text)
            } else {
                Seq::empty()
            },
            _ => Seq::empty(),
        }
}

/// An item before item `i` is text under the same code.
pub open spec fn text_came_before(m: Seq<([u8; 4], UserDataModel)>, i: int) -> bool {
    exists|j: int| 0 <= j < i && is_text_under(#[trigger] m[j], m[i].0)
}

/// The atom of item `i`. All texts under one code stand in the atom of the first
/// of them.
pub open spec fn user_data_atoms(m: Seq<([u8; 4], UserDataModel)>) -> spec_fn(int) -> Seq<u8> {
    |i: int|
        match m[i].1 {
            UserDataModel::IntlText { .. } => if text_came_before(m, i) {
                Seq::empty()
            } else {
                atom(m[i].0, cat(m.len(), text_records(m, m[i].0)))
            },
            UserDataModel::PlainUtf8 { language, text } => atom(
                m[i].0,
                u32_be(0) + u16_be(language) + text,
            ),
            UserDataModel::Raw(bytes) => atom(m[i].0, bytes),
        }
}

/// The body of a `udta` box.
pub open spec fn udta_body(m: Seq<([u8; 4], UserDataModel)>) -> Seq<u8> {
    cat(m.len(), user_data_atoms(m))
}

fn is_repeated_text(items: &Vec<MovMetadata>, i: usize) -> (r: bool)
    requires
        i < items@.len(),
    ensures
        r == text_came_before(user_data_models(items@), i as int),
{
    let ghost m = user_data_models(items@);
    for j in 0..i
        invariant
            i < items@.len(),
            m == user_data_models(items@),
            forall|k: int| 0 <= k < j ==> !is_text_under(#[trigger] m[k], m[i as int].0),
    {
        if same_code(&items[j].fourcc, &items[i].fourcc) {
            if let MetaPayload::IntlText { .. } = &items[j].payload {
                assert(is_text_under(m[j as int], m[i as int].0));
                return true;
            }
        }
    }
    false
}

fn put_text_record(out: &mut Vec<u8>, language: u16, text: &[u8])
    ensures
        final(out)@ == old(out)@ + text_record(language, text@),
{
    broadcast use empty_left;

    let len: usize = if text.len() > 0xffff {
        0xffff
    } else {
        text.len()
    };
    let mut p: Vec<u8> = Vec::new();
    put_u16(&mut p, len as u16);
    put_u16(&mut p, language);
    put_bytes(&mut p, &text[0..len]);
    assert(text@.subrange(0, len as int) =~= short_text(text@));
    put_bytes(out, p.as_slice());
}

fn build_text_records(items: &Vec<MovMetadata>, code: &[u8; 4]) -> (r: Vec<u8>)
    ensures
        r@ == cat(items@.len(), text_records(user_data_models(items@), *code)),
{
    let ghost m = user_data_models(items@);
    let ghost f = text_records(m, *code);
    let mut body: Vec<u8> = Vec::new();
    for k in 0..items.len()
        invariant
            m == user_data_models(items@),
            f == text_records(m, *code),
            body@ == cat(k as nat, f),
    {
        broadcast use empty_right;

        if same_code(&items[k].fourcc, code) {
            if let MetaPayload::IntlText { language, text } = &items[k].payload {
                put_text_record(&mut body, *language, text.as_str().as_bytes());
            }
        }
        assert(body@ == cat((k + 1) as nat, f));
    }
    body
}

/// Serialise the body of a `udta` box.
pub fn build_udta(items: &Vec<MovMetadata>) -> (r: Vec<u8>)
    ensures
        r@ == udta_body(user_data_models(items@)),
{
    let ghost m = user_data_models(items@);
    let ghost f = user_data_atoms(m);
    let mut udta: Vec<u8> = Vec::new();
    for i in 0..items.len()
        invariant
            m == user_data_models(items@),
            f == user_data_atoms(m),
            udta@ == cat(i as nat, f),
    {
        broadcast use {empty_left, empty_right};

        match &items[i].payload {
            MetaPayload::IntlText { .. } => {
                if !is_repeated_text(items, i) {
                    let body = build_text_records(items, &items[i].fourcc);
                    push_atom(&mut udta, items[i].fourcc, body.as_slice());
                }
            },
            MetaPayload::PlainUtf8 { language, text } => {
                let mut body: Vec<u8> = Vec::new();
                put_u32(&mut body, 0);
                put_u16(&mut body, *language);
                put_bytes(&mut body, text.as_str().as_bytes());
                push_atom(&mut udta, items[i].fourcc, body.as_slice());
            },
            MetaPayload::Raw(bytes) => {
                push_atom(&mut udta, items[i].fourcc, bytes.as_slice());
            },
        }
        assert(udta@ == cat((i + 1) as nat, f));
    }
    udta
}

/// What a list of keys with values holds.
pub open spec fn meta_item_models(v: Seq<MovMetaItem>) -> Seq<MetaItemModel> {
    views(v)
}

/// The body of the `hdlr` box of a `meta` box: the handler `mdta` with an empty
/// name.
pub open spec fn meta_hdlr_body() -> Seq<u8> {
    u32_be(0) + u32_be(0) + MDTA@ + zeros(12) + seq![0u8]
}

/// Serialise the body of the `hdlr` box of a `meta` box.
pub fn build_meta_hdlr() -> (r: Vec<u8>)
    ensures
        r@ == meta_hdlr_body(),
{
    broadcast use empty_left;

    let mut p: Vec<u8> = Vec::new();
    put_u32(&mut p, 0);
    put_u32(&mut p, 0);
    put_code(&mut p, MDTA);
    put_zeros(&mut p, 12);
    put_u8(&mut p, 0);
    p
}

/// The entries of the `keys` box: each is an atom whose code is the namespace.
pub open spec fn key_atoms(m: Seq<MetaItemModel>) -> spec_fn(int) -> Seq<u8> {
    |i: int| atom(m[i].namespace, utf8(m[i].key))
}

/// The body of the `keys` box.
pub open spec fn keys_body(m: Seq<MetaItemModel>) -> Seq<u8> {
    u32_be(0) + u32_be(low32(m.len() as int)) + cat(m.len(), key_atoms(m))
}

/// Serialise the body of the `keys` box.
pub fn build_keys(items: &Vec<MovMetaItem>) -> (r: Vec<u8>)
    ensures
        r@ == keys_body(meta_item_models(items@)),
{
    broadcast use empty_left;

    let ghost m = meta_item_models(items@);
    let ghost f = key_atoms(m);
    let mut p: Vec<u8> = Vec::new();
    put_u32(&mut p, 0);
    put_u32(&mut p, low32_of(items.len()));
    let ghost before = p@;
    assert(p@ =~= before + cat(0, f));
    for i in 0..items.len()
        invariant
            m == meta_item_models(items@),
            f == key_atoms(m),
            p@ == before + cat(i as nat, f),
    {
        push_atom(&mut p, items[i].namespace, items[i].key.as_str().as_bytes());
        proof {
            lemma_cat_push(before, i as nat, f);
        }
    }
    p
}

/// The `data` atom of a value: its type, a locale of 0 and the value.
pub open spec fn data_atom(m: MetaItemModel) -> Seq<u8> {
    atom(DATA, u32_be(m.type_code) + u32_be(0) + m.value)
}

/// The entries of the `ilst` box: the number of the key stands where the code of
/// an atom would.
pub open spec fn value_atoms(m: Seq<MetaItemModel>) -> spec_fn(int) -> Seq<u8> {
    |i: int|
        u32_be(low32((8 + data_atom(m[i]).len()) as int)) + u32_be(low32(i + 1)) + data_atom(m[i])
}

/// The body of the `ilst` box.
pub open spec fn ilst_body(m: Seq<MetaItemModel>) -> Seq<u8> {
    cat(m.len(), value_atoms(m))
}

/// Serialise the body of the `ilst` box.
pub fn build_ilst(items: &Vec<MovMetaItem>) -> (r: Vec<u8>)
    ensures
        r@ == ilst_body(meta_item_models(items@)),
{
    let ghost m = meta_item_models(items@);
    let ghost f = value_atoms(m);
    let mut p: Vec<u8> = Vec::new();
    for i in 0..items.len()
        invariant
            m == meta_item_models(items@),
            f == value_atoms(m),
            p@ == cat(i as nat, f),
    {
        broadcast use empty_left;

        let mut body: Vec<u8> = Vec::new();
        put_u32(&mut body, items[i].type_code);
        put_u32(&mut body, 0);
        put_bytes(&mut body, items[i].value.as_slice());
        let mut data: Vec<u8> = Vec::new();
        push_atom(&mut data, DATA, body.as_slice());
        let mut entry: Vec<u8> = Vec::new();
        put_u32(&mut entry, low32_plus(data.len(), 8));
        put_u32(&mut entry, low32_plus(i, 1));
        put_bytes(&mut entry, data.as_slice());
        assert(entry@ == f(i as int));
        put_bytes(&mut p, entry.as_slice());
        assert(p@ == cat((i + 1) as nat, f));
    }
    p
}

/// The body of a `meta` box.
pub open spec fn meta_items_body(m: Seq<MetaItemModel>) -> Seq<u8> {
    atom(HDLR, meta_hdlr_body()) + atom(KEYS, keys_body(m)) + atom(ILST, ilst_body(m))
}

/// Serialise the body of a `meta` box.
pub fn build_meta(items: &Vec<MovMetaItem>) -> (r: Vec<u8>)
    ensures
        r@ == meta_items_body(meta_item_models(items@)),
{
    broadcast use empty_left;

    let mut meta: Vec<u8> = Vec::new();
    let hdlr = build_meta_hdlr();
    push_atom(&mut meta, HDLR, hdlr.as_slice());
    let keys = build_keys(items);
    push_atom(&mut meta, KEYS, keys.as_slice());
    let ilst = build_ilst(items);
    push_atom(&mut meta, ILST, ilst.as_slice());
    meta
}

} // verus!
