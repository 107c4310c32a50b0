//! Preview (`pnot`): which atom of the file is its preview picture.
use crate::bytes::{code_at, read_code, read_u16, read_u32, u16_at, u32_at};
use crate::error::Error;
use vstd::prelude::*;

verus! {

/// Seconds from the start of 1904 to the start of 1970.
pub const MAC_TO_UNIX_EPOCH_SECONDS: u64 = 2_082_844_800;

/// Length of a `pnot` body.
pub const PNOT_BODY_LEN: usize = 12;

/// A preview.
#[derive(Clone, Copy, Debug, PartialEq, Eq)]
pub struct Pnot {
    /// When the preview was last changed, in seconds since the start of 1904.
    pub modification_date: u32,
    /// 0 where it has a meaning.
    pub version_number: u16,
    /// The code of the atom that is the preview.
    pub atom_type: [u8; 4],
    /// Which of the atoms with that code, counted from 1.
    pub atom_index: u16,
}

impl Pnot {
    /// Whether the version is the one that has a meaning.
    pub fn is_known_version(&self) -> (r: bool)
        ensures
            r == (self.version_number == 0),
    {
        self.version_number == 0
    }

    /// Whether the index counts from 1.
    pub fn is_valid_index(&self) -> (r: bool)
        ensures
            r == (self.atom_index >= 1),
    {
        self.atom_index >= 1
    }

    /// The modification date in seconds since the start of 1970; `None` before
    /// that.
    pub fn unix_seconds(&self) -> (r: Option<u64>)
        ensures
            r == (if self.modification_date < MAC_TO_UNIX_EPOCH_SECONDS {
                None
            } else {
                Some((self.modification_date - MAC_TO_UNIX_EPOCH_SECONDS) as u64)
            }),
    {
        let date: u64 = self.modification_date as u64;
        if date < MAC_TO_UNIX_EPOCH_SECONDS {
            None
        } else {
            Some(date - MAC_TO_UNIX_EPOCH_SECONDS)
        }
    }
}

/// What a `pnot` body holds.
pub open spec fn pnot_of(s: Seq<u8>) -> Result<Pnot, Error> {
    if s.len() != 12 {
        Err(Error::Number("MOV: pnot body ", s.len() as i128, " != expected 12 bytes (QTFF p. 26)"))
    } else {
        Ok(
            Pnot {
                modification_date: u32_at(s, 0),
                version_number: u16_at(s, 4),
                atom_type: code_at(s, 6),
                atom_index: u16_at(s, 10),
            },
        )
    }
}

/// Parse the body of a `pnot` atom: exactly twelve bytes.
pub fn parse_pnot(payload: &[u8]) -> (r: Result<Pnot, Error>)
    ensures
        r == pnot_of(payload@),
{
    if payload.len() != PNOT_BODY_LEN {
        return Err(
            Error::Number("MOV: pnot body ", payload.len() as i128, " != expected 12 bytes (QTFF p. 26)"),
        );
    }
    Ok(
        Pnot {
            modification_date: read_u32(payload, 0),
            version_number: read_u16(payload, 4),
            atom_type: read_code(payload, 6),
            atom_index: read_u16(payload, 10),
        },
    )
}

} // verus!
