//! Track matte (`matt`) and the compressed matte (`kmat`) in it.
//!
//! A `kmat` body is a version, three bytes of flags, an image description that
//! starts with its own length, and the compressed matte.
use crate::atom::{atom, push_atom};
use crate::bytes::{
    code_at, empty_left, group_be_len, lemma_u32_at, low32, low32_of, put_bytes, read_code,
    read_u32, same_code, tail, u32_at, u32_be,
};
use crate::error::Error;
use crate::fourcc::KMAT;
use vstd::prelude::*;
use vstd::slice::slice_to_vec;

verus! {

/// The least length of an image description.
pub const MIN_IMAGE_DESCRIPTION_SIZE: u32 = 16;

/// A compressed matte.
#[derive(Debug, Default, PartialEq, Eq)]
pub struct CompressedMatte {
    pub version: u8,
    pub flags: u32,
    /// The image description, its length included.
    pub image_description: Vec<u8>,
    /// The matte, coded as the image description says.
    pub matte_data: Vec<u8>,
}

/// A track matte.
#[derive(Debug, Default, PartialEq, Eq)]
pub struct Matte {
    pub compressed: CompressedMatte,
}

/// What a compressed matte holds.
pub struct MatteModel {
    pub version: u8,
    pub flags: u32,
    pub image_description: Seq<u8>,
    pub matte_data: Seq<u8>,
}

impl View for CompressedMatte {
    type V = MatteModel;

    open spec fn view(&self) -> MatteModel {
        MatteModel {
            version: self.version,
            flags: self.flags,
            image_description: self.image_description@,
            matte_data: self.matte_data@,
        }
    }
}

impl Clone for CompressedMatte {
    fn clone(&self) -> (r: Self)
        ensures
            r@ == self@,
    {
        CompressedMatte {
            version: self.version,
            flags: self.flags,
            image_description: slice_to_vec(self.image_description.as_slice()),
            matte_data: slice_to_vec(self.matte_data.as_slice()),
        }
    }
}

impl Clone for Matte {
    fn clone(&self) -> (r: Self)
        ensures
            r.compressed@ == self.compressed@,
    {
        Matte { compressed: self.compressed.clone() }
    }
}

/// The body of a `kmat` atom. Of the flags only the low 24 bits stand.
pub open spec fn kmat_body(m: MatteModel) -> Seq<u8> {
    seq![
        m.version,
        ((m.flags / 0x1_0000) % 0x100) as u8,
        ((m.flags / 0x100) % 0x100) as u8,
        (m.flags % 0x100) as u8,
    ] + m.image_description + m.matte_data
}

/// The body of a `matt` atom.
pub open spec fn matt_body(m: MatteModel) -> Seq<u8> {
    atom(KMAT, kmat_body(m))
}

impl CompressedMatte {
    /// The code of the codec that the image description names.
    pub fn data_format(&self) -> (r: Option<[u8; 4]>)
        ensures
            r == (if self.image_description@.len() < 8 {
                None
            } else {
                Some(code_at(self.image_description@, 4))
            }),
    {
        if self.image_description.len() < 8 {
            return None;
        }
        Some(read_code(self.image_description.as_slice(), 4))
    }

    /// The length of the image description.
    pub fn image_description_size(&self) -> (r: u32)
        ensures
            r == low32(self.image_description@.len() as int),
    {
        low32_of(self.image_description.len())
    }

    /// Serialise the body.
    pub fn to_body_bytes(&self) -> (r: Vec<u8>)
        ensures
            r@ == kmat_body(self@),
    {
        let mut p: Vec<u8> = Vec::new();
        p.push(self.version);
        p.push(((self.flags / 0x1_0000) % 0x100) as u8);
        p.push(((self.flags / 0x100) % 0x100) as u8);
        p.push((self.flags % 0x100) as u8);
        assert(p@ =~= seq![
            self.version,
            ((self.flags / 0x1_0000) % 0x100) as u8,
            ((self.flags / 0x100) % 0x100) as u8,
            (self.flags % 0x100) as u8,
        ]);
        put_bytes(&mut p, self.image_description.as_slice());
        put_bytes(&mut p, self.matte_data.as_slice());
        p
    }
}

impl Matte {
    /// Serialise the body.
    pub fn to_body_bytes(&self) -> (r: Vec<u8>)
        ensures
            r@ == matt_body(self.compressed@),
    {
        broadcast use empty_left;

        let kmat = self.compressed.to_body_bytes();
        let mut p: Vec<u8> = Vec::new();
        push_atom(&mut p, KMAT, kmat.as_slice());
        p
    }
}

/// What a `kmat` body holds.
pub open spec fn kmat_of(s: Seq<u8>) -> Result<MatteModel, Error> {
    let flags = (s[1] * 0x1_0000 + s[2] * 0x100 + s[3]) as u32;
    let size = u32_at(s, 4);
    if s.len() < 8 {
        Err(
            Error::Number(
                "MOV: kmat payload too short (",
                s.len() as i128,
                " bytes; need at least 8 for ver/flags + image-desc size word)",
            ),
        )
    } else if s[0] != 0 {
        Err(Error::Number(
                "MOV: kmat unknown version ",
                s[0] as i128,
                " (QTFF p. 45 fixes the field at 0)",
            ))
    } else if flags != 0 {
        Err(Error::Hex(
                "MOV: kmat flags=",
                flags,
                " != 0 (QTFF p. 45: 'Set this field to 0')",
            ))
    } else if size < 16 {
        Err(
            Error::Number(
                "MOV: kmat image-description size ",
                size as i128,
                " < 16 (QTFF p. 70 minimum for size+format+reserved+dref_index)",
            ),
        )
    } else if 4 + size > s.len() {
        Err(
            Error::Triple(
                "MOV: kmat image-description size ",
                size as i128,
                " exceeds body remainder ",
                (s.len() - 4) as i128,
                " (payload ",
                s.len() as i128,
                " bytes, header 4)",
            ),
        )
    } else {
        Ok(
            MatteModel {
                version: s[0],
                flags,
                image_description: s.subrange(4, 4 + size),
                matte_data: tail(s, 4 + size),
            },
        )
    }
}

/// Parse the body of a `kmat` atom.
pub fn parse_kmat(payload: &[u8]) -> (r: Result<CompressedMatte, Error>)
    ensures
        match kmat_of(payload@) {
            Ok(m) => r is Ok && r->Ok_0@ == m,
            Err(e) => r == Err::<CompressedMatte, Error>(e),
        },
{
    if payload.len() < 8 {
        return Err(
            Error::Number(
                "MOV: kmat payload too short (",
                payload.len() as i128,
                " bytes; need at least 8 for ver/flags + image-desc size word)",
            ),
        );
    }
    let version: u8 = payload[0];
    if version != 0 {
        return Err(Error::Number(
                "MOV: kmat unknown version ",
                version as i128,
                " (QTFF p. 45 fixes the field at 0)",
            ));
    }
    let flags: u32 = payload[1] as u32 * 0x1_0000 + payload[2] as u32 * 0x100 + payload[3] as u32;
    if flags != 0 {
        return Err(Error::Hex(
                "MOV: kmat flags=",
                flags,
                " != 0 (QTFF p. 45: 'Set this field to 0')",
            ));
    }
    let size: u32 = read_u32(payload, 4);
    if size < MIN_IMAGE_DESCRIPTION_SIZE {
        return Err(
            Error::Number(
                "MOV: kmat image-description size ",
                size as i128,
                " < 16 (QTFF p. 70 minimum for size+format+reserved+dref_index)",
            ),
        );
    }
    if size as u64 > (payload.len() - 4) as u64 {
        return Err(
            Error::Triple(
                "MOV: kmat image-description size ",
                size as i128,
                " exceeds body remainder ",
                (payload.len() - 4) as i128,
                " (payload ",
                payload.len() as i128,
                " bytes, header 4)",
            ),
        );
    }
    let end: usize = 4 + size as usize;
    Ok(
        CompressedMatte {
            version,
            flags,
            image_description: slice_to_vec(&payload[4..end]),
            matte_data: slice_to_vec(&payload[end..payload.len()]),
        },
    )
}

/// Where the child atom at `p` ends: a length of 0 means at the end of the
/// parent, and an impossible length that there is no child.
pub open spec fn child_end(s: Seq<u8>, p: int) -> Option<int> {
    let size = u32_at(s, p);
    if p + 8 > s.len() {
        None
    } else if size == 0 {
        Some(s.len() as int)
    } else if size < 8 || p + size > s.len() {
        None
    } else {
        Some(p + size)
    }
}

/// The first `kmat` atom in a `matt` body from `p` on. Every `kmat` atom is
/// parsed, and the first that is malformed is the error.
pub open spec fn first_kmat(s: Seq<u8>, p: int) -> Result<Option<MatteModel>, Error>
    decreases s.len() - p,
{
    if p < 0 {
        Ok(None)
    } else {
        match child_end(s, p) {
            None => Ok(None),
            Some(end) => if code_at(s, p + 4) == KMAT {
                match kmat_of(s.subrange(p + 8, end)) {
                    Err(e) => Err(e),
                    Ok(m) => match first_kmat(s, end) {
                        Err(e) => Err(e),
                        Ok(_) => Ok(Some(m)),
                    },
                }
            } else {
                first_kmat(s, end)
            },
        }
    }
}

/// What is found in a walk that had found something before.
pub open spec fn found(
    before: Option<MatteModel>,
    rest: Result<Option<MatteModel>, Error>,
) -> Result<Option<MatteModel>, Error> {
    match rest {
        Err(e) => Err(e),
        Ok(m) => if before is Some {
            Ok(before)
        } else {
            Ok(m)
        },
    }
}

/// What a `matt` body holds.
pub open spec fn matt_of(s: Seq<u8>) -> Result<MatteModel, Error> {
    match first_kmat(s, 0) {
        Err(e) => Err(e),
        Ok(None) => Err(Error::Rule("MOV: matt atom contains no kmat child (QTFF p. 44)")),
        Ok(Some(m)) => Ok(m),
    }
}

/// Parse the body of a `matt` atom. Other atoms than `kmat` are passed over,
/// and of several `kmat` atoms the first counts.
pub fn parse_matt(payload: &[u8]) -> (r: Result<Matte, Error>)
    ensures
        match matt_of(payload@) {
            Ok(m) => r is Ok && r->Ok_0.compressed@ == m,
            Err(e) => r == Err::<Matte, Error>(e),
        },
{
    let ghost s = payload@;
    let mut compressed: Option<CompressedMatte> = None;
    let ghost mut model: Option<MatteModel> = None;
    let mut p: usize = 0;
    while payload.len() - p >= 8
        invariant_except_break
            s == payload@,
            p <= s.len(),
            first_kmat(s, 0) == found(model, first_kmat(s, p as int)),
        invariant
            model is Some <==> compressed is Some,
            model is Some ==> compressed->Some_0@ == model->Some_0,
        ensures
            first_kmat(s, 0) == Ok::<Option<MatteModel>, Error>(model),
        decreases s.len() - p,
    {
        let size: u32 = read_u32(payload, p);
        if size != 0 && (size < 8 || size as u64 > (payload.len() - p) as u64) {
            break;
        }
        let end: usize = if size == 0 {
            payload.len()
        } else {
            p + size as usize
        };
        let code = read_code(payload, p + 4);
        if same_code(&code, &KMAT) {
            let parsed = parse_kmat(&payload[p + 8..end])?;
            if compressed.is_none() {
                proof {
                    model = Some(parsed@);
                }
                compressed = Some(parsed);
            }
        }
        p = end;
    }
    match compressed {
        Some(compressed) => Ok(Matte { compressed }),
        None => Err(Error::Rule("MOV: matt atom contains no kmat child (QTFF p. 44)")),
    }
}

/// A matte that can be read: version and flags are 0 and the image description
/// starts with its own length.
pub open spec fn readable(m: MatteModel) -> bool {
    m.version == 0 && m.flags == 0 && m.image_description.len() >= 16 && u32_at(
        m.image_description,
        0,
    ) == m.image_description.len()
}

/// A readable matte that was written as a `kmat` body is read back.
pub proof fn law_kmat_is_read_back(m: MatteModel)
    requires
        readable(m),
    ensures
        kmat_of(kmat_body(m)) == Ok::<MatteModel, Error>(m),
{
    let s = kmat_body(m);
    let n = m.image_description.len() as int;
    assert(u32_at(s, 4) == u32_at(m.image_description, 0));
    assert(s.subrange(4, 4 + n) =~= m.image_description);
    assert(tail(s, 4 + n) =~= m.matte_data);
}

/// A readable matte that was written as a `matt` body is read back, if its
/// length fits in the four bytes for it.
pub proof fn law_matt_is_read_back(m: MatteModel)
    requires
        readable(m),
        matt_body(m).len() <= 0xffff_ffff,
    ensures
        matt_of(matt_body(m)) == Ok::<MatteModel, Error>(m),
{
    broadcast use group_be_len;

    let s = matt_body(m);
    let body = kmat_body(m);
    let n = s.len() as int;
    law_kmat_is_read_back(m);
    assert(s.subrange(0, 4) =~= u32_be(n as u32));
    lemma_u32_at(s, 0, n as u32);
    assert(s.subrange(4, 8) =~= KMAT@);
    assert(code_at(s, 4) =~= KMAT) by {
        assert(s[4] == s.subrange(4, 8)[0]);
        assert(s[5] == s.subrange(4, 8)[1]);
        assert(s[6] == s.subrange(4, 8)[2]);
        assert(s[7] == s.subrange(4, 8)[3]);
    }
    assert(s.subrange(8, n) =~= body);
    assert(first_kmat(s, n) == Ok::<Option<MatteModel>, Error>(None));
}

} // verus!
