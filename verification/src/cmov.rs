//! Compressed movie resources (`cmov`): how the resource was compressed (`dcom`), how
//! long it was and what came out (`cmvd`).
use crate::atom::{
    atom, child_at, lemma_atom_at, lemma_atom_len, push_atom, read_child, Child, ChildModel,
};
use crate::bytes::{
    code_at, empty_left, group_be_len, lemma_u32_at, low32, low32_of, put_bytes, put_code, put_u32,
    read_code, read_u32, same_code, u32_at, u32_be,
};
use crate::error::Error;
use crate::fourcc::{CMVD, DCOM, ZLIB};
use vstd::prelude::*;
use vstd::slice::slice_to_vec;

verus! {

/// The code of compression with zlib.
pub const DCOM_ALG_ZLIB: [u8; 4] = ZLIB;

/// How a movie resource was compressed.
#[derive(Clone, Copy, Debug, PartialEq, Eq)]
pub struct Dcom {
    pub algorithm: [u8; 4],
}

/// A compressed movie resource.
#[derive(Debug, PartialEq, Eq)]
pub struct Cmvd {
    /// How long the resource was.
    pub uncompressed_size: u32,
    /// What came out of compression.
    pub data: Vec<u8>,
}

/// A compressed movie resource and how it was compressed.
#[derive(Debug, PartialEq, Eq)]
pub struct Cmov {
    pub dcom: Dcom,
    pub cmvd: Cmvd,
}

/// What a [`Cmov`] holds.
pub struct CmovModel {
    pub algorithm: [u8; 4],
    pub uncompressed_size: u32,
    pub data: Seq<u8>,
}

impl View for Cmov {
    type V = CmovModel;

    open spec fn view(&self) -> CmovModel {
        CmovModel {
            algorithm: self.dcom.algorithm,
            uncompressed_size: self.cmvd.uncompressed_size,
            data: self.cmvd.data@,
        }
    }
}

/// The body of a `cmov` box.
pub open spec fn cmov_body(m: CmovModel) -> Seq<u8> {
    atom(DCOM, m.algorithm@) + atom(CMVD, u32_be(m.uncompressed_size) + m.data)
}

/// The zlib stream that `miniz_oxide::deflate::compress_to_vec_zlib` makes of bytes at
/// level 6.
pub uninterp spec fn zlib_stream(data: Seq<u8>) -> Seq<u8>;

/// The bytes that `miniz_oxide::inflate::decompress_to_vec_zlib` makes of a stream;
/// `None` where it refuses the stream.
pub uninterp spec fn inflated(stream: Seq<u8>) -> Option<Seq<u8>>;

/// Compress with `miniz_oxide::deflate::compress_to_vec_zlib` at level 6. The stream is
/// a function of the data alone, and inflating it gives the data back. No stream is
/// empty: it starts with a zlib header.
#[verifier::external_body]
fn deflate(data: &[u8]) -> (r: Vec<u8>)
    ensures
        r@ == zlib_stream(data@),
        r@.len() > 0,
        inflated(r@) == Some(data@),
{
    miniz_oxide::deflate::compress_to_vec_zlib(data, 6)
}

/// Inflate with `miniz_oxide::inflate::decompress_to_vec_zlib`. What comes out, or that
/// the stream is refused, is a function of the stream alone.
#[verifier::external_body]
fn inflate(stream: &[u8]) -> (r: Option<Vec<u8>>)
    requires
        stream@.len() > 0,
    ensures
        match r {
            Some(v) => inflated(stream@) == Some(v@),
            None => inflated(stream@) is None,
        },
{
    miniz_oxide::inflate::decompress_to_vec_zlib(stream).ok()
}

/// A movie resource, compressed.
pub open spec fn compressed(resource: Seq<u8>) -> CmovModel {
    CmovModel {
        algorithm: DCOM_ALG_ZLIB,
        uncompressed_size: low32(resource.len() as int),
        data: zlib_stream(resource),
    }
}

/// Put a stream and the length of what it was made of together.
pub fn wrap_stream(resource_len: usize, stream: Vec<u8>) -> (r: Cmov)
    ensures
        r@ == (CmovModel {
            algorithm: DCOM_ALG_ZLIB,
            uncompressed_size: low32(resource_len as int),
            data: stream@,
        }),
{
    Cmov {
        dcom: Dcom { algorithm: DCOM_ALG_ZLIB },
        cmvd: Cmvd { uncompressed_size: low32_of(resource_len), data: stream },
    }
}

/// Whether inflated bytes are the resource: there are as many as it was long.
pub open spec fn expanded(m: CmovModel, bytes: Option<Seq<u8>>) -> Result<Seq<u8>, Error> {
    match bytes {
        None => Err(Error::Rule("MOV: cmvd is not a zlib stream")),
        Some(b) => if b.len() != m.uncompressed_size {
            Err(
                Error::Numbers(
                    "MOV: cmvd inflates to ",
                    b.len() as i128,
                    " bytes, expected ",
                    m.uncompressed_size as i128,
                    "",
                ),
            )
        } else {
            Ok(b)
        },
    }
}

/// Take inflated bytes as the resource of a box, if there are as many as it was long.
pub fn accept_inflated(cmov: &Cmov, bytes: Option<Vec<u8>>) -> (r: Result<Vec<u8>, Error>)
    ensures
        match expanded(
            cmov@,
            match bytes {
                Some(b) => Some(b@),
                None => None,
            },
        ) {
            Ok(b) => r is Ok && r->Ok_0@ == b,
            Err(e) => r == Err::<Vec<u8>, Error>(e),
        },
{
    match bytes {
        None => Err(Error::Rule("MOV: cmvd is not a zlib stream")),
        Some(b) => {
            if b.len() as u64 != cmov.cmvd.uncompressed_size as u64 {
                return Err(
                    Error::Numbers(
                        "MOV: cmvd inflates to ",
                        b.len() as i128,
                        " bytes, expected ",
                        cmov.cmvd.uncompressed_size as i128,
                        "",
                    ),
                );
            }
            Ok(b)
        },
    }
}

/// The movie resource that a box holds.
pub open spec fn resource_of(m: CmovModel) -> Result<Seq<u8>, Error> {
    if m.algorithm != DCOM_ALG_ZLIB {
        Err(Error::Code("MOV: dcom algorithm ", m.algorithm, "????", " not supported"))
    } else if m.data.len() == 0 {
        expanded(m, None)
    } else {
        expanded(m, inflated(m.data))
    }
}

/// Compress a movie resource. What comes out expands to the resource again, if 32 bits
/// can say how long it is.
pub fn compress(resource: &[u8]) -> (r: Cmov)
    ensures
        r@ == compressed(resource@),
        resource@.len() <= 0xffff_ffff ==> resource_of(r@) == Ok::<Seq<u8>, Error>(resource@),
{
    wrap_stream(resource.len(), deflate(resource))
}

impl Cmov {
    /// Serialise the body.
    pub fn to_body_bytes(&self) -> (r: Vec<u8>)
        ensures
            r@ == cmov_body(self@),
    {
        broadcast use empty_left;

        let mut dcom: Vec<u8> = Vec::new();
        put_code(&mut dcom, self.dcom.algorithm);
        let mut cmvd: Vec<u8> = Vec::new();
        put_u32(&mut cmvd, self.cmvd.uncompressed_size);
        put_bytes(&mut cmvd, self.cmvd.data.as_slice());
        let mut out: Vec<u8> = Vec::new();
        push_atom(&mut out, DCOM, dcom.as_slice());
        push_atom(&mut out, CMVD, cmvd.as_slice());
        out
    }

    /// The movie resource.
    pub fn decompress(&self) -> (r: Result<Vec<u8>, Error>)
        ensures
            match resource_of(self@) {
                Ok(b) => r is Ok && r->Ok_0@ == b,
                Err(e) => r == Err::<Vec<u8>, Error>(e),
            },
    {
        if !same_code(&self.dcom.algorithm, &DCOM_ALG_ZLIB) {
            return Err(
                Error::Code("MOV: dcom algorithm ", self.dcom.algorithm, "????", " not supported"),
            );
        }
        if self.cmvd.data.len() == 0 {
            return accept_inflated(self, None);
        }
        accept_inflated(self, inflate(self.cmvd.data.as_slice()))
    }
}

/// The first child with a code from `p` on.
pub open spec fn first_child(s: Seq<u8>, p: int, code: [u8; 4]) -> Result<Option<ChildModel>, Error>
    decreases s.len() - p,
{
    if p < 0 || p + 8 > s.len() {
        Ok(None)
    } else {
        match child_at(s, p) {
            Err(e) => Err(e),
            Ok(c) => if c.code == code {
                Ok(Some(c))
            } else if c.end <= p {
                Ok(None)
            } else {
                first_child(s, c.end, code)
            },
        }
    }
}

fn find_child(s: &[u8], code: &[u8; 4]) -> (r: Result<Option<Child>, Error>)
    ensures
        match first_child(s@, 0, *code) {
            Ok(Some(c)) => r matches Ok(Some(d)) && d@ == c && c.start <= c.end <= s@.len(),
            Ok(None) => r matches Ok(None),
            Err(e) => r == Err::<Option<Child>, Error>(e),
        },
{
    let mut p: usize = 0;
    while s.len() - p >= 8
        invariant
            p <= s@.len(),
            first_child(s@, 0, *code) == first_child(s@, p as int, *code),
        decreases s@.len() - p,
    {
        let c = match read_child(s, p) {
            Ok(c) => c,
            Err(e) => {
                return Err(e);
            },
        };
        if same_code(&c.code, code) {
            return Ok(Some(c));
        }
        p = c.end;
    }
    Ok(None)
}

/// What a `cmov` body holds: its first `dcom` box and its first `cmvd` box, each with at
/// least four bytes.
pub open spec fn cmov_of(s: Seq<u8>) -> Result<CmovModel, Error> {
    match (first_child(s, 0, DCOM), first_child(s, 0, CMVD)) {
        (Err(e), _) => Err(e),
        (Ok(None), _) => Err(Error::Rule("MOV: cmov has no dcom")),
        (Ok(Some(d)), rest) => if d.end - d.start < 4 {
            Err(Error::Rule("MOV: dcom payload < 4 bytes"))
        } else {
            match rest {
                Err(e) => Err(e),
                Ok(None) => Err(Error::Rule("MOV: cmov has no cmvd")),
                Ok(Some(c)) => if c.end - c.start < 4 {
                    Err(Error::Rule("MOV: cmvd payload < 4 bytes"))
                } else {
                    Ok(
                        CmovModel {
                            algorithm: code_at(s, d.start),
                            uncompressed_size: u32_at(s, c.start),
                            data: s.subrange(c.start + 4, c.end),
                        },
                    )
                },
            }
        },
    }
}

/// Parse the body of a `cmov` box.
pub fn parse_cmov(body: &[u8]) -> (r: Result<Cmov, Error>)
    ensures
        match cmov_of(body@) {
            Ok(m) => r is Ok && r->Ok_0@ == m,
            Err(e) => r == Err::<Cmov, Error>(e),
        },
{
    let dcom = match find_child(body, &DCOM) {
        Err(e) => {
            return Err(e);
        },
        Ok(None) => {
            return Err(Error::Rule("MOV: cmov has no dcom"));
        },
        Ok(Some(d)) => d,
    };
    if dcom.end - dcom.start < 4 {
        return Err(Error::Rule("MOV: dcom payload < 4 bytes"));
    }
    let cmvd = match find_child(body, &CMVD) {
        Err(e) => {
            return Err(e);
        },
        Ok(None) => {
            return Err(Error::Rule("MOV: cmov has no cmvd"));
        },
        Ok(Some(c)) => c,
    };
    if cmvd.end - cmvd.start < 4 {
        return Err(Error::Rule("MOV: cmvd payload < 4 bytes"));
    }
    Ok(
        Cmov {
            dcom: Dcom { algorithm: read_code(body, dcom.start) },
            cmvd: Cmvd {
                uncompressed_size: read_u32(body, cmvd.start),
                data: slice_to_vec(&body[cmvd.start + 4..cmvd.end]),
            },
        },
    )
}

/// A compressed movie resource is read back.
pub proof fn law_cmov_is_read_back(m: CmovModel)
    requires
        m.data.len() + 12 <= 0xffff_ffff,
    ensures
        cmov_of(cmov_body(m)) == Ok::<CmovModel, Error>(m),
{
    broadcast use group_be_len;

    let s = cmov_body(m);
    let b = u32_be(m.uncompressed_size) + m.data;
    lemma_atom_len(DCOM, m.algorithm@);
    lemma_atom_len(CMVD, b);
    assert(s.subrange(0, 12) =~= atom(DCOM, m.algorithm@));
    assert(s.subrange(12, 12 + 8 + b.len() as int) =~= atom(CMVD, b));
    lemma_atom_at(s, 0, DCOM, m.algorithm@);
    lemma_atom_at(s, 12, CMVD, b);
    assert(DCOM@[0] == 0x64);
    assert(CMVD@[0] == 0x63);
    reveal_with_fuel(first_child, 3);
    let first = ChildModel { code: DCOM, start: 8, end: 12, open: false };
    let second = ChildModel { code: CMVD, start: 20, end: (20 + b.len()) as int, open: false };
    assert(child_at(s, 0) == Ok::<ChildModel, Error>(first));
    assert(child_at(s, 12) == Ok::<ChildModel, Error>(second));
    assert(first_child(s, 0, DCOM) == Ok::<Option<ChildModel>, Error>(Some(first)));
    assert(first_child(s, 0, CMVD) == Ok::<Option<ChildModel>, Error>(Some(second)));
    assert(code_at(s, 8) =~= m.algorithm) by {
        assert(s.subrange(8, 12)[0] == s[8]);
        assert(s.subrange(8, 12)[1] == s[9]);
        assert(s.subrange(8, 12)[2] == s[10]);
        assert(s.subrange(8, 12)[3] == s[11]);
    }
    assert(s.subrange(20, 24) =~= u32_be(m.uncompressed_size)) by {
        assert(s.subrange(20, 24) =~= s.subrange(20, 20 + b.len() as int).subrange(0, 4));
    }
    lemma_u32_at(s, 20, m.uncompressed_size);
    assert(s.subrange(24, 20 + b.len() as int) =~= m.data) by {
        assert(s.subrange(24, 20 + b.len() as int) =~= s.subrange(20, 20 + b.len() as int).subrange(
            4,
            b.len() as int,
        ));
    }
}

} // verus!
