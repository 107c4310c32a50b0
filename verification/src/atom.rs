//! Atoms: a four-byte length, a four-byte code and a body.
use crate::bytes::{
    code_at, group_be_len, lemma_u32_at, low32, low32_plus, low64, plus64, put_bytes, put_code,
    put_u32, put_u64, read_code, read_u32, read_u64, u32_at, u32_be, u64_at, u64_be,
};
use crate::error::Error;
use crate::fourcc::MDAT;
use vstd::prelude::*;

verus! {

/// The atom with a code and a body. The length counts the eight bytes of the
/// header; of a length that does not fit in four bytes only the low ones stand.
pub open spec fn atom(code: [u8; 4], body: Seq<u8>) -> Seq<u8> {
    u32_be(low32((8 + body.len()) as int)) + code@ + body
}

/// Append an atom.
pub fn push_atom(out: &mut Vec<u8>, fourcc: [u8; 4], body: &[u8])
    ensures
        final(out)@ == old(out)@ + atom(fourcc, body@),
{
    put_u32(out, low32_plus(body.len(), 8));
    put_code(out, fourcc);
    put_bytes(out, body);
    assert(out@ =~= old(out)@ + atom(fourcc, body@));
}

/// An atom is eight bytes longer than its body.
pub proof fn lemma_atom_len(code: [u8; 4], body: Seq<u8>)
    ensures
        atom(code, body).len() == 8 + body.len(),
{
    broadcast use group_be_len;

}

/// An atom is found where it was written.
pub proof fn lemma_atom_at(s: Seq<u8>, p: int, code: [u8; 4], body: Seq<u8>)
    requires
        0 <= p,
        p + 8 + body.len() <= s.len(),
        s.subrange(p, p + 8 + body.len()) == atom(code, body),
        8 + body.len() <= 0xffff_ffff,
    ensures
        u32_at(s, p) == 8 + body.len(),
        code_at(s, p + 4) == code,
        s.subrange(p + 8, p + 8 + body.len()) == body,
{
    broadcast use group_be_len;

    let whole = s.subrange(p, p + 8 + body.len());
    assert(s.subrange(p, p + 4) =~= whole.subrange(0, 4));
    assert(whole.subrange(0, 4) =~= u32_be((8 + body.len()) as u32));
    lemma_u32_at(s, p, (8 + body.len()) as u32);
    assert(code_at(s, p + 4) =~= code) by {
        assert(s[p + 4] == whole[4]);
        assert(s[p + 5] == whole[5]);
        assert(s[p + 6] == whole[6]);
        assert(s[p + 7] == whole[7]);
    }
    assert(s.subrange(p + 8, p + 8 + body.len()) =~= whole.subrange(8, 8 + body.len() as int));
    assert(whole.subrange(8, 8 + body.len() as int) =~= body);
}

/// A child atom inside the body of its parent: its code, where its own body
/// starts and where it ends. An open child has no length of its own: it runs
/// to the end of the parent.
pub struct Child {
    pub code: [u8; 4],
    pub start: usize,
    pub end: usize,
    pub open: bool,
}

/// A child atom, with its positions as numbers.
pub struct ChildModel {
    pub code: [u8; 4],
    pub start: int,
    pub end: int,
    pub open: bool,
}

impl View for Child {
    type V = ChildModel;

    open spec fn view(&self) -> ChildModel {
        ChildModel {
            code: self.code,
            start: self.start as int,
            end: self.end as int,
            open: self.open,
        }
    }
}

/// The child atom whose header starts at `p`, where at least eight bytes are
/// left. A length of 0 means that the child is open, a length of 1 that eight
/// bytes behind the code hold the length.
pub open spec fn child_at(s: Seq<u8>, p: int) -> Result<ChildModel, Error> {
    let size = u32_at(s, p);
    let wide = u64_at(s, p + 8);
    let code = code_at(s, p + 4);
    if size == 0 {
        Ok(ChildModel { code, start: p + 8, end: s.len() as int, open: true })
    } else if size == 1 {
        if p + 16 > s.len() {
            Err(Error::Rule("MOV: 64-bit atom header truncated"))
        } else if wide < 16 {
            Err(Error::Rule("MOV: atom size smaller than its header"))
        } else if p + wide > s.len() {
            Err(Error::Rule("MOV: child atom exceeds its parent"))
        } else {
            Ok(ChildModel { code, start: p + 16, end: p + wide, open: false })
        }
    } else if size < 8 {
        Err(Error::Rule("MOV: atom size smaller than its header"))
    } else if p + size > s.len() {
        Err(Error::Rule("MOV: child atom exceeds its parent"))
    } else {
        Ok(ChildModel { code, start: p + 8, end: p + size, open: false })
    }
}

/// Read the header of the child atom at `p`.
pub fn read_child(s: &[u8], p: usize) -> (r: Result<Child, Error>)
    requires
        p + 8 <= s@.len(),
    ensures
        match child_at(s@, p as int) {
            Ok(c) => r is Ok && r->Ok_0@ == c && p + 8 <= c.start <= c.end <= s@.len(),
            Err(e) => r == Err::<Child, Error>(e),
        },
{
    assert(s.len() == s@.len());
    let size: u32 = read_u32(s, p);
    let code = read_code(s, p + 4);
    let left: usize = s.len() - p;
    if size == 0 {
        return Ok(Child { code, start: p + 8, end: s.len(), open: true });
    }
    if size == 1 {
        if left < 16 {
            return Err(Error::Rule("MOV: 64-bit atom header truncated"));
        }
        let wide: u64 = read_u64(s, p + 8);
        if wide < 16 {
            return Err(Error::Rule("MOV: atom size smaller than its header"));
        }
        if wide > left as u64 {
            return Err(Error::Rule("MOV: child atom exceeds its parent"));
        }
        return Ok(Child { code, start: p + 16, end: p + wide as usize, open: false });
    }
    if size < 8 {
        return Err(Error::Rule("MOV: atom size smaller than its header"));
    }
    if size as u64 > left as u64 {
        return Err(Error::Rule("MOV: child atom exceeds its parent"));
    }
    Ok(Child { code, start: p + 8, end: p + size as usize, open: false })
}

/// Length of the header of an `mdat` atom whose body is `n` bytes long.
pub open spec fn mdat_header_len(n: nat) -> int {
    if 8 + n > 0xffff_ffff {
        16
    } else {
        8
    }
}

/// The header of an `mdat` atom whose body is `n` bytes long. A length that
/// does not fit in four bytes stands in eight bytes behind the code.
pub open spec fn mdat_header(n: nat) -> Seq<u8> {
    if 8 + n > 0xffff_ffff {
        u32_be(1) + MDAT@ + u64_be(low64((16 + n) as int))
    } else {
        u32_be((8 + n) as u32) + MDAT@
    }
}

/// [`mdat_header_len`] is the length of [`mdat_header`].
pub proof fn lemma_mdat_header_len(n: nat)
    ensures
        mdat_header(n).len() == mdat_header_len(n),
{
    broadcast use group_be_len;

}

/// Append the header of an `mdat` atom whose body is `body_len` bytes long.
pub fn emit_mdat_header(out: &mut Vec<u8>, body_len: u64)
    ensures
        final(out)@ == old(out)@ + mdat_header(body_len as nat),
{
    if body_len > 0xffff_ffff - 8 {
        put_u32(out, 1);
        put_code(out, MDAT);
        put_u64(out, plus64(body_len, 16));
    } else {
        put_u32(out, (8 + body_len) as u32);
        put_code(out, MDAT);
    }
    assert(out@ =~= old(out)@ + mdat_header(body_len as nat));
}

} // verus!