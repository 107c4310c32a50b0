//! Key-value metadata: the `keys` and `ilst` atoms of a `meta` atom.
//!
//! `keys` lists keys, each with a namespace. `ilst` lists values; the code of
//! an entry is the number of its key, counted from 1, and its body holds a
//! `data` atom with the value.
use crate::bytes::{code_at, read_code, read_u32, same_code, u32_at};
use crate::error::Error;
use crate::fourcc::DATA;
use crate::text::decode_strict;
use vstd::prelude::*;
use vstd::slice::slice_to_vec;
use vstd::utf8::{decode_utf8, valid_utf8};

verus! {

/// One key with its value.
#[derive(Clone, Debug, Default, PartialEq, Eq)]
pub struct MetaKeyValue {
    /// The namespace of the key.
    pub namespace: [u8; 4],
    /// The name of the key.
    pub key: String,
    /// The type of the value (1 is UTF-8 text).
    pub type_code: u32,
    /// The value.
    pub value: Vec<u8>,
}

/// What a [`MetaKeyValue`] holds.
pub struct KeyValueModel {
    pub namespace: [u8; 4],
    pub key: Seq<char>,
    pub type_code: u32,
    pub value: Seq<u8>,
}

impl View for MetaKeyValue {
    type V = KeyValueModel;

    open spec fn view(&self) -> KeyValueModel {
        KeyValueModel {
            namespace: self.namespace,
            key: self.key@,
            type_code: self.type_code,
            value: self.value@,
        }
    }
}

impl MetaKeyValue {
    /// The value as text: `Some` if and only if the type says text and the
    /// bytes are valid UTF-8.
    pub fn as_str(&self) -> (r: Option<&str>)
        ensures
            r is Some <==> self.type_code == 1 && valid_utf8(self.value@),
            r matches Some(s) ==> s@ == decode_utf8(self.value@),
    {
        if self.type_code == 1 {
            decode_strict(self.value.as_slice())
        } else {
            None
        }
    }
}

/// Where entry `j` of a `keys` body starts.
pub open spec fn key_start(s: Seq<u8>, j: nat) -> int
    decreases j,
{
    if j == 0 {
        8
    } else {
        key_start(s, (j - 1) as nat) + u32_at(s, key_start(s, (j - 1) as nat))
    }
}

/// The bytes of the name in entry `j`.
pub open spec fn key_bytes(s: Seq<u8>, j: nat) -> Seq<u8> {
    s.subrange(key_start(s, j) + 8, key_start(s, j) + u32_at(s, key_start(s, j)))
}

/// What is wrong with entry `j`, given that the entries before it are in order.
pub open spec fn key_error(s: Seq<u8>, j: nat) -> Option<Error> {
    let p = key_start(s, j);
    let size = u32_at(s, p);
    if p + 8 > s.len() {
        Some(Error::Rule("MOV: keys entry truncated"))
    } else if size < 8 || p + size > s.len() {
        Some(Error::Rule("MOV: keys entry size invalid"))
    } else if !valid_utf8(key_bytes(s, j)) {
        Some(Error::Rule("MOV: keys entry not UTF-8"))
    } else {
        None
    }
}

/// What is wrong with the first faulty entry among the first `n`.
pub open spec fn first_key_error(s: Seq<u8>, n: nat) -> Option<Error>
    decreases n,
{
    if n == 0 {
        None
    } else {
        match first_key_error(s, (n - 1) as nat) {
            Some(e) => Some(e),
            None => key_error(s, (n - 1) as nat),
        }
    }
}

/// Why a `keys` body is refused; `None` where it is well formed.
pub open spec fn keys_error(s: Seq<u8>) -> Option<Error> {
    if s.len() < 8 {
        Some(Error::Rule("MOV: keys payload < 8 bytes"))
    } else {
        first_key_error(s, u32_at(s, 4) as nat)
    }
}

/// The key names and namespaces of a `keys` body that is well formed.
pub open spec fn keys_of(s: Seq<u8>) -> Seq<(Seq<char>, [u8; 4])> {
    Seq::new(
        u32_at(s, 4) as nat,
        |j: int| (decode_utf8(key_bytes(s, j as nat)), code_at(s, key_start(s, j as nat) + 4)),
    )
}

/// The texts and codes of a list of keys.
pub open spec fn key_models(keys: Seq<(String, [u8; 4])>) -> Seq<(Seq<char>, [u8; 4])> {
    Seq::new(keys.len(), |j: int| (keys[j].0@, keys[j].1))
}

proof fn lemma_key_error_stays(s: Seq<u8>, j: nat, n: nat)
    requires
        j <= n,
        first_key_error(s, j) is Some,
    ensures
        first_key_error(s, n) == first_key_error(s, j),
    decreases n,
{
    if j < n {
        lemma_key_error_stays(s, j, (n - 1) as nat);
    }
}

/// Parse the body of a `keys` atom: version and flags, the number of entries,
/// and per entry its size, its namespace and its name.
pub fn parse_keys(payload: &[u8]) -> (r: Result<Vec<(String, [u8; 4])>, Error>)
    ensures
        keys_error(payload@) matches Some(e) ==> r == Err::<Vec<(String, [u8; 4])>, Error>(e),
        keys_error(payload@) is None ==> r is Ok && key_models(r->Ok_0@) == keys_of(payload@),
{
    if payload.len() < 8 {
        return Err(Error::Rule("MOV: keys payload < 8 bytes"));
    }
    let n: u32 = read_u32(payload, 4);
    let mut p: usize = 8;
    let mut out: Vec<(String, [u8; 4])> = Vec::new();
    let mut j: u32 = 0;
    while j < n
        invariant
            payload@.len() >= 8,
            n == u32_at(payload@, 4),
            j <= n,
            p == key_start(payload@, j as nat),
            p <= payload@.len(),
            first_key_error(payload@, j as nat) is None,
            out@.len() == j,
            forall|k: int|
                0 <= k < j ==> (#[trigger] out@[k]).0@ == decode_utf8(key_bytes(payload@, k as nat))
                    && out@[k].1 == code_at(payload@, key_start(payload@, k as nat) + 4),
        decreases n - j,
    {
        proof {
            if key_error(payload@, j as nat) is Some {
                lemma_key_error_stays(payload@, (j + 1) as nat, n as nat);
            }
        }
        if payload.len() - p < 8 {
            return Err(Error::Rule("MOV: keys entry truncated"));
        }
        let size: u32 = read_u32(payload, p);
        if size < 8 || size as u64 > (payload.len() - p) as u64 {
            return Err(Error::Rule("MOV: keys entry size invalid"));
        }
        let ns = read_code(payload, p + 4);
        let end: usize = p + size as usize;
        match decode_strict(&payload[p + 8..end]) {
            Some(key) => {
                out.push((key.to_owned(), ns));
            },
            None => {
                return Err(Error::Rule("MOV: keys entry not UTF-8"));
            },
        }
        p = end;
        j = j + 1;
    }
    assert(key_models(out@) =~= keys_of(payload@));
    Ok(out)
}

/// The type and the value of the first `data` atom at or behind `q` in the
/// body of an `ilst` entry.
pub open spec fn first_data(s: Seq<u8>, q: int) -> Option<(u32, Seq<u8>)>
    decreases s.len() - q,
{
    let size = u32_at(s, q);
    if q < 0 || q + 8 > s.len() || size < 8 || q + size > s.len() {
        None
    } else if code_at(s, q + 4) == DATA && size >= 16 {
        Some((u32_at(s, q + 8), s.subrange(q + 16, q + size)))
    } else {
        first_data(s, q + size)
    }
}

/// Why an `ilst` body is refused from `p` on.
pub open spec fn ilst_error(s: Seq<u8>, p: int) -> Option<Error>
    decreases s.len() - p,
{
    let size = u32_at(s, p);
    if p < 0 || p >= s.len() {
        None
    } else if p + 8 > s.len() {
        Some(Error::Rule("MOV: ilst entry truncated"))
    } else if size < 8 || p + size > s.len() {
        Some(Error::Rule("MOV: ilst entry size invalid"))
    } else {
        ilst_error(s, p + size)
    }
}

/// The item of the entry that spans `s` from `p` to `end`, if it holds a value
/// and names a key of the list.
pub open spec fn ilst_item(
    s: Seq<u8>,
    p: int,
    end: int,
    keys: Seq<(Seq<char>, [u8; 4])>,
) -> Option<KeyValueModel> {
    let number = u32_at(s, p + 4);
    match first_data(s.subrange(p + 8, end), 0) {
        Some((type_code, value)) => if 1 <= number <= keys.len() {
            Some(
                KeyValueModel {
                    namespace: keys[number - 1].1,
                    key: keys[number - 1].0,
                    type_code,
                    value,
                },
            )
        } else {
            None
        },
        None => None,
    }
}

/// The items of an `ilst` body from `p` on.
pub open spec fn ilst_items(
    s: Seq<u8>,
    p: int,
    keys: Seq<(Seq<char>, [u8; 4])>,
) -> Seq<KeyValueModel>
    decreases s.len() - p,
{
    let size = u32_at(s, p);
    if p < 0 || p + 8 > s.len() || size < 8 || p + size > s.len() {
        Seq::empty()
    } else {
        let rest = ilst_items(s, p + size, keys);
        match ilst_item(s, p, p + size, keys) {
            Some(item) => seq![item] + rest,
            None => rest,
        }
    }
}

/// What a list of items holds.
pub open spec fn item_models(items: Seq<MetaKeyValue>) -> Seq<KeyValueModel> {
    Seq::new(items.len(), |i: int| items[i]@)
}

fn find_data(body: &[u8]) -> (r: Option<(u32, Vec<u8>)>)
    ensures
        first_data(body@, 0) is Some <==> r is Some,
        first_data(body@, 0) matches Some(d) ==> r->Some_0.0 == d.0 && r->Some_0.1@ == d.1,
{
    let mut q: usize = 0;
    while body.len() - q >= 8
        invariant
            q <= body@.len(),
            first_data(body@, 0) == first_data(body@, q as int),
        decreases body@.len() - q,
    {
        let size: u32 = read_u32(body, q);
        if size < 8 || size as u64 > (body.len() - q) as u64 {
            return None;
        }
        let end: usize = q + size as usize;
        let code = read_code(body, q + 4);
        if same_code(&code, &DATA) && size >= 16 {
            return Some((read_u32(body, q + 8), slice_to_vec(&body[q + 16..end])));
        }
        q = end;
    }
    None
}

/// Parse the body of an `ilst` atom against a list of keys. An entry without a
/// value, or with the number of no key, is passed over.
pub fn parse_ilst(payload: &[u8], keys: &[(String, [u8; 4])]) -> (r: Result<
    Vec<MetaKeyValue>,
    Error,
>)
    ensures
        ilst_error(payload@, 0) matches Some(e) ==> r == Err::<Vec<MetaKeyValue>, Error>(e),
        ilst_error(payload@, 0) is None ==> r is Ok && item_models(r->Ok_0@) == ilst_items(
            payload@,
            0,
            key_models(keys@),
        ),
{
    let mut out: Vec<MetaKeyValue> = Vec::new();
    let ghost models = key_models(keys@);
    let mut p: usize = 0;
    assert(item_models(out@) =~= Seq::empty());
    assert(Seq::<KeyValueModel>::empty() + ilst_items(payload@, 0, models) =~= ilst_items(
        payload@,
        0,
        models,
    ));
    while p < payload.len()
        invariant
            p <= payload@.len(),
            models == key_models(keys@),
            ilst_error(payload@, 0) == ilst_error(payload@, p as int),
            ilst_error(payload@, p as int) is None ==> ilst_items(payload@, 0, models)
                == item_models(out@) + ilst_items(payload@, p as int, models),
        decreases payload@.len() - p,
    {
        let ghost done = item_models(out@);
        if payload.len() - p < 8 {
            return Err(Error::Rule("MOV: ilst entry truncated"));
        }
        let size: u32 = read_u32(payload, p);
        if size < 8 || size as u64 > (payload.len() - p) as u64 {
            return Err(Error::Rule("MOV: ilst entry size invalid"));
        }
        let number: u32 = read_u32(payload, p + 4);
        let end: usize = p + size as usize;
        let found = find_data(&payload[p + 8..end]);
        if let Some((type_code, value)) = found {
            if number >= 1 && (number as u64) <= keys.len() as u64 {
                let entry = &keys[(number - 1) as usize];
                let item = MetaKeyValue {
                    namespace: entry.1,
                    key: entry.0.clone(),
                    type_code,
                    value,
                };
                assert(ilst_item(payload@, p as int, end as int, models) == Some(item@));
                out.push(item);
                assert(item_models(out@) =~= done + seq![item@]);
            } else {
                assert(ilst_item(payload@, p as int, end as int, models) is None);
            }
        } else {
            assert(ilst_item(payload@, p as int, end as int, models) is None);
        }
        proof {
            let rest = ilst_items(payload@, end as int, models);
            match ilst_item(payload@, p as int, end as int, models) {
                Some(item) => {
                    assert(done + (seq![item] + rest) =~= done + seq![item] + rest);
                },
                None => {},
            }
        }
        p = end;
    }
    assert(ilst_items(payload@, p as int, models) =~= Seq::empty());
    assert(item_models(out@) + Seq::<KeyValueModel>::empty() =~= item_models(out@));
    Ok(out)
}

} // verus!
