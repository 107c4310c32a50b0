//! Track kind (`kind`): the role of a track, as a scheme and a name in it.
//!
//! After four bytes of version and flags come two texts, each ended by a zero
//! byte: the URI of the scheme and the value. A text whose zero byte is missing
//! runs to the end. An empty value stands for none.
use crate::bytes::{
    code_at, empty_left, group_be_len, put_bytes, put_u32, put_u8, read_code, read_u32, same_code,
    u32_at, u32_be,
};
use crate::error::Error;
use crate::fourcc::KIND;
use crate::rows::Duplicate;
use crate::text::{
    decode_lossy, find_text_end, lemma_text_end_is, lemma_text_of_utf8, next_text, text_end,
    text_of, utf8,
};
use vstd::prelude::*;

verus! {

/// The role of a track.
#[derive(Debug, Default, PartialEq, Eq)]
pub struct KindEntry {
    /// The kind itself, or the scheme that names it.
    pub scheme_uri: String,
    /// The name in the scheme.
    pub value: Option<String>,
}

/// What a [`KindEntry`] holds.
pub struct KindModel {
    pub scheme_uri: Seq<char>,
    pub value: Option<Seq<char>>,
}

impl View for KindEntry {
    type V = KindModel;

    open spec fn view(&self) -> KindModel {
        KindModel {
            scheme_uri: self.scheme_uri@,
            value: match self.value {
                Some(v) => Some(v@),
                None => None,
            },
        }
    }
}

impl Duplicate for KindEntry {
    fn duplicate(&self) -> (r: Self) {
        self.clone()
    }
}

impl Clone for KindEntry {
    fn clone(&self) -> (r: Self)
        ensures
            r@ == self@,
    {
        KindEntry {
            scheme_uri: self.scheme_uri.clone(),
            value: match &self.value {
                Some(v) => Some(v.clone()),
                None => None,
            },
        }
    }
}

/// The bytes of a value; none where there is no value.
pub open spec fn value_bytes(value: Option<Seq<char>>) -> Seq<u8> {
    match value {
        Some(v) => utf8(v),
        None => Seq::empty(),
    }
}

/// The body of a `kind` box.
pub open spec fn kind_body(k: KindModel) -> Seq<u8> {
    u32_be(0) + utf8(k.scheme_uri) + seq![0u8] + value_bytes(k.value) + seq![0u8]
}

impl KindEntry {
    /// Whether there is a value that is not empty.
    pub fn has_value(&self) -> (r: bool)
        ensures
            r == (self@.value is Some && self@.value->Some_0.len() > 0),
    {
        match &self.value {
            Some(v) => !v.as_str().is_empty(),
            None => false,
        }
    }

    /// Serialise the body.
    pub fn to_body_bytes(&self) -> (r: Vec<u8>)
        ensures
            r@ == kind_body(self@),
    {
        broadcast use empty_left;
        broadcast use crate::bytes::empty_right;

        let mut p: Vec<u8> = Vec::new();
        put_u32(&mut p, 0);
        put_bytes(&mut p, self.scheme_uri.as_str().as_bytes());
        put_u8(&mut p, 0);
        match &self.value {
            Some(v) => put_bytes(&mut p, v.as_str().as_bytes()),
            None => {},
        }
        put_u8(&mut p, 0);
        p
    }
}

/// What a `kind` body holds.
pub open spec fn kind_of(s: Seq<u8>) -> Result<KindModel, Error> {
    let after = next_text(s, 4);
    if s.len() < 4 {
        Err(Error::Number("MOV: kind payload ", s.len() as i128, " < 4 bytes"))
    } else if s[0] != 0 {
        Err(Error::Number("MOV: kind version ", s[0] as i128, " != 0"))
    } else {
        Ok(
            KindModel {
                scheme_uri: text_of(s.subrange(4, text_end(s, 4))),
                value: if text_end(s, after) > after {
                    Some(text_of(s.subrange(after, text_end(s, after))))
                } else {
                    None
                },
            },
        )
    }
}

/// Parse the body of a `kind` box.
pub fn parse_kind(payload: &[u8]) -> (r: Result<KindEntry, Error>)
    ensures
        match kind_of(payload@) {
            Ok(m) => r is Ok && r->Ok_0@ == m,
            Err(e) => r == Err::<KindEntry, Error>(e),
        },
{
    if payload.len() < 4 {
        return Err(Error::Number("MOV: kind payload ", payload.len() as i128, " < 4 bytes"));
    }
    let version: u8 = payload[0];
    if version != 0 {
        return Err(Error::Number("MOV: kind version ", version as i128, " != 0"));
    }
    let end: usize = find_text_end(payload, 4);
    let scheme_uri = decode_lossy(&payload[4..end]);
    let after: usize = if end < payload.len() {
        end + 1
    } else {
        payload.len()
    };
    let value_end: usize = find_text_end(payload, after);
    let value = if value_end > after {
        Some(decode_lossy(&payload[after..value_end]))
    } else {
        None
    };
    Ok(KindEntry { scheme_uri, value })
}

/// The `kind` boxes among the atoms of a `udta` body from `p` on. The walk ends
/// at an atom whose length is impossible.
pub open spec fn kinds_of(s: Seq<u8>, p: int) -> Result<Seq<KindModel>, Error>
    decreases s.len() - p,
{
    let size = u32_at(s, p);
    if p < 0 || p + 8 > s.len() || size < 8 || p + size > s.len() {
        Ok(Seq::empty())
    } else if code_at(s, p + 4) == KIND {
        match kind_of(s.subrange(p + 8, p + size)) {
            Err(e) => Err(e),
            Ok(m) => match kinds_of(s, p + size) {
                Err(e) => Err(e),
                Ok(rest) => Ok(seq![m] + rest),
            },
        }
    } else {
        kinds_of(s, p + size)
    }
}

/// What a list of kinds holds.
pub open spec fn kind_models(v: Seq<KindEntry>) -> Seq<KindModel> {
    Seq::new(v.len(), |i: int| v[i]@)
}

/// Parse all `kind` boxes in the body of a `udta` box, in the order of the file.
pub fn find_kinds_in_udta(udta_payload: &[u8]) -> (r: Result<Vec<KindEntry>, Error>)
    ensures
        match kinds_of(udta_payload@, 0) {
            Ok(m) => r is Ok && kind_models(r->Ok_0@) == m,
            Err(e) => r == Err::<Vec<KindEntry>, Error>(e),
        },
{
    let ghost s = udta_payload@;
    let mut out: Vec<KindEntry> = Vec::new();
    let mut p: usize = 0;
    assert(kind_models(out@) =~= Seq::empty());
    proof {
        if let Ok(m) = kinds_of(s, 0) {
            assert(Seq::<KindModel>::empty() + m =~= m);
        }
    }
    while udta_payload.len() - p >= 8
        invariant_except_break
            s == udta_payload@,
            p <= s.len(),
            match kinds_of(s, p as int) {
                Ok(m) => kinds_of(s, 0) == Ok::<Seq<KindModel>, Error>(kind_models(out@) + m),
                Err(e) => kinds_of(s, 0) == Err::<Seq<KindModel>, Error>(e),
            },
        ensures
            kinds_of(s, 0) == Ok::<Seq<KindModel>, Error>(kind_models(out@)),
        decreases s.len() - p,
    {
        let size: u32 = read_u32(udta_payload, p);
        if size < 8 || size as u64 > (udta_payload.len() - p) as u64 {
            assert(kind_models(out@) + Seq::<KindModel>::empty() =~= kind_models(out@));
            break;
        }
        let end: usize = p + size as usize;
        let code = read_code(udta_payload, p + 4);
        if same_code(&code, &KIND) {
            let kind = parse_kind(&udta_payload[p + 8..end])?;
            let ghost had = kind_models(out@);
            out.push(kind);
            proof {
                assert(kind_models(out@) =~= had + seq![kind@]);
                if let Ok(rest) = kinds_of(s, end as int) {
                    assert(had + (seq![kind@] + rest) =~= (had + seq![kind@]) + rest);
                }
            }
        }
        p = end;
        assert(kind_models(out@) + Seq::<KindModel>::empty() =~= kind_models(out@));
    }
    Ok(out)
}

/// An entry as it is read back: an empty value is none.
pub open spec fn read_back(k: KindModel) -> KindModel {
    KindModel {
        scheme_uri: k.scheme_uri,
        value: if value_bytes(k.value).len() > 0 {
            k.value
        } else {
            None
        },
    }
}

/// What was written is read back, but for an empty value, which is read as
/// none. Neither text holds a zero byte: it would end the text.
pub proof fn law_kind_is_read_back(k: KindModel)
    requires
        !utf8(k.scheme_uri).contains(0u8),
        !value_bytes(k.value).contains(0u8),
    ensures
        kind_of(kind_body(k)) == Ok::<KindModel, Error>(read_back(k)),
{
    broadcast use group_be_len;

    let s = kind_body(k);
    let scheme = utf8(k.scheme_uri);
    let value = value_bytes(k.value);
    let end = 4 + scheme.len();
    let after = end + 1;
    crate::bytes::lemma_be_bytes(0, 0, 0);
    assert(s[0] == 0);
    assert forall|i: int| 4 <= i < end implies s[i] != 0 by {
        assert(scheme[i - 4] == s[i]);
    }
    lemma_text_end_is(s, 4, end as int);
    assert(s.subrange(4, end as int) =~= scheme);
    lemma_text_of_utf8(k.scheme_uri);
    assert forall|i: int| after <= i < after + value.len() implies s[i] != 0 by {
        assert(value[i - after] == s[i]);
    }
    lemma_text_end_is(s, after as int, (after + value.len()) as int);
    assert(s.subrange(after as int, (after + value.len()) as int) =~= value);
    match k.value {
        Some(v) => {
            lemma_text_of_utf8(v);
        },
        None => {},
    }
}

} // verus!
