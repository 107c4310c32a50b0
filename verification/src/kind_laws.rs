//! What is written of the kinds of a track is read back from its user data.
use crate::atom::{atom, lemma_atom_at, lemma_atom_len};
use crate::bytes::{cat, lemma_piece_at, u16_be, u32_be};
use crate::error::Error;
use crate::fourcc::{KIND, TSEL};
use crate::kind::{
    kind_body, kinds_of, law_kind_is_read_back, read_back, value_bytes, KindEntry, KindModel,
};
use crate::mux_meta::{text_came_before, text_records, udta_body, user_data_atoms, user_data_models};
use crate::mux_trak::{kind_atoms, track_udta_body};
use crate::mux_types::{TrackWrite, UserDataModel};
use crate::text::utf8;
use vstd::prelude::*;

verus! {

/// Neither text of a kind holds a zero byte.
pub open spec fn clean_kind(k: KindModel) -> bool {
    !utf8(k.scheme_uri).contains(0u8) && !value_bytes(k.value).contains(0u8)
}

/// The kinds as they are read back.
pub open spec fn read_kinds(v: Seq<KindEntry>) -> Seq<KindModel> {
    Seq::new(v.len(), |i: int| read_back(v[i]@))
}

proof fn lemma_passed_over(s: Seq<u8>, p: int, code: [u8; 4], body: Seq<u8>)
    requires
        0 <= p,
        p + atom(code, body).len() <= s.len() <= 0xffff_ffff,
        s.subrange(p, p + atom(code, body).len()) == atom(code, body),
        code != KIND,
    ensures
        kinds_of(s, p) == kinds_of(s, p + atom(code, body).len()),
{
    lemma_atom_len(code, body);
    lemma_atom_at(s, p, code, body);
}

proof fn lemma_taken(s: Seq<u8>, p: int, k: KindModel, rest: Seq<KindModel>)
    requires
        0 <= p,
        p + atom(KIND, kind_body(k)).len() <= s.len() <= 0xffff_ffff,
        s.subrange(p, p + atom(KIND, kind_body(k)).len()) == atom(KIND, kind_body(k)),
        clean_kind(k),
        kinds_of(s, p + atom(KIND, kind_body(k)).len()) == Ok::<Seq<KindModel>, Error>(rest),
    ensures
        kinds_of(s, p) == Ok::<Seq<KindModel>, Error>(seq![read_back(k)] + rest),
{
    lemma_atom_len(KIND, kind_body(k));
    lemma_atom_at(s, p, KIND, kind_body(k));
    law_kind_is_read_back(k);
}

/// The body of the atom of item `i`.
spec fn item_body(m: Seq<([u8; 4], UserDataModel)>, i: int) -> Seq<u8> {
    match m[i].1 {
        UserDataModel::IntlText { .. } => cat(m.len(), text_records(m, m[i].0)),
        UserDataModel::PlainUtf8 { language, text } => u32_be(0) + u16_be(language) + text,
        UserDataModel::Raw(bytes) => bytes,
    }
}

proof fn lemma_items_passed_over(s: Seq<u8>, m: Seq<([u8; 4], UserDataModel)>, i: nat)
    requires
        i <= m.len(),
        udta_body(m).len() <= s.len() <= 0xffff_ffff,
        s.subrange(0, udta_body(m).len() as int) == udta_body(m),
        forall|k: int| 0 <= k < m.len() ==> (#[trigger] m[k]).0 != KIND,
    ensures
        kinds_of(s, cat(i, user_data_atoms(m)).len() as int) == kinds_of(
            s,
            udta_body(m).len() as int,
        ),
    decreases m.len() - i,
{
    if i < m.len() {
        let f = user_data_atoms(m);
        let p = cat(i, f).len() as int;
        lemma_items_passed_over(s, m, i + 1);
        lemma_piece_at(s, 0, m.len(), f, i as int);
        assert(cat(i + 1, f) == cat(i, f) + f(i as int));
        if !(m[i as int].1 is IntlText && text_came_before(m, i as int)) {
            assert(f(i as int) == atom(m[i as int].0, item_body(m, i as int)));
            lemma_passed_over(s, p, m[i as int].0, item_body(m, i as int));
        }
    }
}

proof fn lemma_kinds_read(s: Seq<u8>, q: int, v: Seq<KindEntry>, i: nat)
    requires
        i <= v.len(),
        0 <= q,
        q + cat(v.len(), kind_atoms(v)).len() <= s.len() <= 0xffff_ffff,
        s.subrange(q, q + cat(v.len(), kind_atoms(v)).len()) == cat(v.len(), kind_atoms(v)),
        forall|k: int| 0 <= k < v.len() ==> clean_kind((#[trigger] v[k])@),
        kinds_of(s, q + cat(v.len(), kind_atoms(v)).len()) == Ok::<Seq<KindModel>, Error>(
            Seq::empty(),
        ),
    ensures
        kinds_of(s, q + cat(i, kind_atoms(v)).len()) == Ok::<Seq<KindModel>, Error>(
            read_kinds(v).subrange(i as int, v.len() as int),
        ),
    decreases v.len() - i,
{
    let all = read_kinds(v);
    if i < v.len() {
        let f = kind_atoms(v);
        let p = q + cat(i, f).len();
        let rest = all.subrange((i + 1) as int, v.len() as int);
        lemma_kinds_read(s, q, v, i + 1);
        lemma_piece_at(s, q, v.len(), f, i as int);
        assert(cat(i + 1, f) == cat(i, f) + f(i as int));
        assert(clean_kind(v[i as int]@));
        lemma_taken(s, p, v[i as int]@, rest);
        assert(seq![read_back(v[i as int]@)] + rest =~= all.subrange(i as int, v.len() as int));
    } else {
        assert(all.subrange(i as int, v.len() as int) =~= Seq::empty());
    }
}

/// The kinds of a track are what is found in the user data that is written for it, in
/// order. No other item of the user data is under the code of a kind.
pub proof fn law_kinds_are_found_in_user_data(t: TrackWrite)
    requires
        forall|i: int|
            0 <= i < t.track_kinds@.len() ==> clean_kind((#[trigger] t.track_kinds@[i])@),
        forall|i: int|
            0 <= i < t.metadata@.len() ==> (#[trigger] user_data_models(t.metadata@)[i]).0 != KIND,
        track_udta_body(t).len() <= 0xffff_ffff,
    ensures
        kinds_of(track_udta_body(t), 0) == Ok::<Seq<KindModel>, Error>(
            read_kinds(t.track_kinds@),
        ),
{
    let s = track_udta_body(t);
    let m = user_data_models(t.metadata@);
    let v = t.track_kinds@;
    let a = udta_body(m);
    let b = cat(v.len(), kind_atoms(v));
    let q = a.len() as int;
    let r = q + b.len();
    assert(s.subrange(0, q) =~= a);
    assert(s.subrange(q, r) =~= b);
    match t.track_selection {
        Some(x) => {
            assert(s.subrange(r, r + atom(TSEL, x.body@).len()) =~= atom(TSEL, x.body@));
            lemma_passed_over(s, r, TSEL, x.body@);
        },
        None => {},
    }
    assert(kinds_of(s, s.len() as int) == Ok::<Seq<KindModel>, Error>(Seq::empty()));
    lemma_items_passed_over(s, m, 0);
    lemma_kinds_read(s, q, v, 0);
    assert(read_kinds(v).subrange(0, v.len() as int) =~= read_kinds(v));
}

} // verus!
