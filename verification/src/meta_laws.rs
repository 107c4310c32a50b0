//! Key-value metadata that was written is read back.
use crate::atom::lemma_atom_at;
use crate::bytes::{
    cat, code_at, group_be_len, lemma_cat_piece, lemma_u32_at, low32, u32_at, u32_be,
};
use crate::fourcc::DATA;
use crate::key_value::{
    first_data, first_key_error, ilst_error, ilst_item, ilst_items, key_bytes, key_error, key_start,
    keys_error, keys_of, KeyValueModel,
};
use crate::mux_meta::{data_atom, ilst_body, key_atoms, keys_body, value_atoms};
use crate::mux_types::MetaItemModel;
use crate::text::{lemma_text_of_utf8, utf8};
use vstd::prelude::*;
use vstd::utf8::decode_utf8;

verus! {

/// Every number and length fits in the 32 bits for it.
pub open spec fn fits(m: Seq<MetaItemModel>) -> bool {
    &&& m.len() <= 0xffff_ffff
    &&& forall|i: int|
        0 <= i < m.len() ==> 8 + utf8((#[trigger] m[i]).key).len() <= 0xffff_ffff && 24
            + m[i].value.len() <= 0xffff_ffff
}

/// The names and namespaces of the keys.
pub open spec fn key_list(m: Seq<MetaItemModel>) -> Seq<(Seq<char>, [u8; 4])> {
    Seq::new(m.len(), |i: int| (m[i].key, m[i].namespace))
}

/// The items as they are read.
pub open spec fn read_items(m: Seq<MetaItemModel>) -> Seq<KeyValueModel> {
    Seq::new(
        m.len(),
        |i: int|
            KeyValueModel {
                namespace: m[i].namespace,
                key: m[i].key,
                type_code: m[i].type_code,
                value: m[i].value,
            },
    )
}

proof fn lemma_key_entry(m: Seq<MetaItemModel>, i: int)
    requires
        fits(m),
        0 <= i < m.len(),
        key_start(keys_body(m), i as nat) == 8 + cat(i as nat, key_atoms(m)).len(),
    ensures
        key_error(keys_body(m), i as nat) is None,
        key_bytes(keys_body(m), i as nat) == utf8(m[i].key),
        code_at(keys_body(m), key_start(keys_body(m), i as nat) + 4) == m[i].namespace,
        key_start(keys_body(m), (i + 1) as nat) == 8 + cat((i + 1) as nat, key_atoms(m)).len(),
{
    broadcast use group_be_len;

    let s = keys_body(m);
    let f = key_atoms(m);
    let all = cat(m.len(), f);
    let p = key_start(s, i as nat);
    let body = utf8(m[i].key);
    lemma_cat_piece(m.len(), f, i);
    let at = cat(i as nat, f).len() as int;
    assert(s.subrange(p, p + 8 + body.len()) =~= all.subrange(at, at + f(i).len()));
    lemma_atom_at(s, p, m[i].namespace, body);
    lemma_text_of_utf8(m[i].key);
}

proof fn lemma_keys(m: Seq<MetaItemModel>, n: nat)
    requires
        fits(m),
        n <= m.len(),
    ensures
        key_start(keys_body(m), n) == 8 + cat(n, key_atoms(m)).len(),
        first_key_error(keys_body(m), n) is None,
    decreases n,
{
    if n > 0 {
        lemma_keys(m, (n - 1) as nat);
        lemma_key_entry(m, n - 1);
    }
}

proof fn lemma_key_count(m: Seq<MetaItemModel>)
    requires
        fits(m),
    ensures
        u32_at(keys_body(m), 4) == m.len(),
        keys_body(m).len() >= 8,
{
    broadcast use group_be_len;

    let s = keys_body(m);
    assert(s.subrange(4, 8) =~= u32_be(low32(m.len() as int)));
    lemma_u32_at(s, 4, low32(m.len() as int));
}

proof fn lemma_key_read(m: Seq<MetaItemModel>, i: int)
    requires
        fits(m),
        0 <= i < m.len(),
    ensures
        decode_utf8(key_bytes(keys_body(m), i as nat)) == m[i].key,
        code_at(keys_body(m), key_start(keys_body(m), i as nat) + 4) == m[i].namespace,
{
    lemma_keys(m, i as nat);
    lemma_key_entry(m, i);
    vstd::utf8::encode_utf8_decode_utf8(m[i].key);
}

/// Keys that were written are read back.
pub proof fn law_keys_are_read_back(m: Seq<MetaItemModel>)
    requires
        fits(m),
    ensures
        keys_error(keys_body(m)) is None,
        keys_of(keys_body(m)) == key_list(m),
{
    let s = keys_body(m);
    lemma_key_count(m);
    lemma_keys(m, m.len());
    assert forall|i: int| 0 <= i < m.len() implies #[trigger] keys_of(s)[i] == key_list(m)[i] by {
        lemma_key_read(m, i);
    }
    assert(keys_of(s) =~= key_list(m));
}

/// The value in the `data` atom of an item.
proof fn lemma_data(m: MetaItemModel)
    requires
        24 + m.value.len() <= 0xffff_ffff,
    ensures
        first_data(data_atom(m), 0) == Some((m.type_code, m.value)),
        data_atom(m).len() == 16 + m.value.len(),
{
    broadcast use group_be_len;

    let d = data_atom(m);
    let body = u32_be(m.type_code) + u32_be(0) + m.value;
    assert(d.subrange(0, d.len() as int) =~= d);
    lemma_atom_at(d, 0, DATA, body);
    assert(d.subrange(8, 12) =~= d.subrange(8, d.len() as int).subrange(0, 4));
    assert(body.subrange(0, 4) =~= u32_be(m.type_code));
    lemma_u32_at(d, 8, m.type_code);
    assert(d.subrange(16, d.len() as int) =~= d.subrange(8, d.len() as int).subrange(
        8,
        d.len() - 8,
    ));
    assert(body.subrange(8, d.len() - 8) =~= m.value);
}

proof fn lemma_entry_at(s: Seq<u8>, p: int, number: u32, d: Seq<u8>)
    requires
        0 <= p,
        p + 8 + d.len() <= s.len(),
        8 + d.len() <= 0xffff_ffff,
        s.subrange(p, p + 8 + d.len()) == u32_be(low32((8 + d.len()) as int)) + u32_be(number) + d,
    ensures
        u32_at(s, p) == 8 + d.len(),
        u32_at(s, p + 4) == number,
        s.subrange(p + 8, p + 8 + d.len()) == d,
        (u32_be(low32((8 + d.len()) as int)) + u32_be(number) + d).len() == 8 + d.len(),
{
    broadcast use group_be_len;

    let n = d.len() as int;
    let piece = s.subrange(p, p + 8 + n);
    assert(s.subrange(p, p + 4) =~= piece.subrange(0, 4));
    assert(piece.subrange(0, 4) =~= u32_be((8 + n) as u32));
    lemma_u32_at(s, p, (8 + n) as u32);
    assert(s.subrange(p + 4, p + 8) =~= piece.subrange(4, 8));
    assert(piece.subrange(4, 8) =~= u32_be(number));
    lemma_u32_at(s, p + 4, number);
    assert(s.subrange(p + 8, p + 8 + n) =~= piece.subrange(8, 8 + n));
    assert(piece.subrange(8, 8 + n) =~= d);
}

proof fn lemma_value_entry(m: Seq<MetaItemModel>, i: int)
    requires
        fits(m),
        0 <= i < m.len(),
    ensures
        ({
            let s = ilst_body(m);
            let p = cat(i as nat, value_atoms(m)).len() as int;
            let end = cat((i + 1) as nat, value_atoms(m)).len() as int;
            &&& p + 8 <= s.len()
            &&& u32_at(s, p) >= 8
            &&& p + u32_at(s, p) == end
            &&& end <= s.len()
            &&& ilst_item(s, p, end, key_list(m)) == Some(read_items(m)[i])
        }),
{
    let f = value_atoms(m);
    lemma_cat_piece(m.len(), f, i);
    lemma_data(m[i]);
    assert(f(i).len() == 8 + data_atom(m[i]).len()) by {
        broadcast use group_be_len;

    }
    lemma_entry_at(
        ilst_body(m),
        cat(i as nat, f).len() as int,
        (i + 1) as u32,
        data_atom(m[i]),
    );
}

proof fn lemma_values(m: Seq<MetaItemModel>, i: nat)
    requires
        fits(m),
        i <= m.len(),
    ensures
        ilst_error(ilst_body(m), cat(i, value_atoms(m)).len() as int) is None,
        ilst_items(ilst_body(m), cat(i, value_atoms(m)).len() as int, key_list(m)) == read_items(
            m,
        ).subrange(i as int, m.len() as int),
    decreases m.len() - i,
{
    if i == m.len() {
        assert(read_items(m).subrange(i as int, m.len() as int) =~= Seq::empty());
    } else {
        lemma_values(m, i + 1);
        lemma_value_entry(m, i as int);
        let rest = read_items(m).subrange((i + 1) as int, m.len() as int);
        assert(seq![read_items(m)[i as int]] + rest =~= read_items(m).subrange(
            i as int,
            m.len() as int,
        ));
    }
}

/// Keys with values that were written are read back, in order: same namespace,
/// same key, same type and same value.
pub proof fn law_items_are_read_back(m: Seq<MetaItemModel>)
    requires
        fits(m),
    ensures
        ilst_error(ilst_body(m), 0) is None,
        ilst_items(ilst_body(m), 0, keys_of(keys_body(m))) == read_items(m),
{
    law_keys_are_read_back(m);
    lemma_values(m, 0);
    assert(read_items(m).subrange(0, m.len() as int) =~= read_items(m));
}

} // verus!
