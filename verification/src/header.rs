//! Movie, track and media headers: `mvhd`, `tkhd`, `mdhd`, `hdlr`, `hmhd` and
//! `elng`.
//!
//! `mvhd`, `tkhd` and `mdhd` come in version 0, with 32-bit times, and version 1,
//! with 64-bit times.
use crate::bytes::{
    code_at, empty_left, i16_at, i32_at, put_u16, put_u32, read_code, read_i16, read_i32, read_u16,
    read_u32, read_u64, same_code, u16_at, u16_be, u32_at, u32_be, u64_at,
};
use crate::error::Error;
use crate::fourcc::{HINT, META, SBTL, SOUN, SUBT, TEXT, TMCD, VIDE};
use crate::text::{decode_lossy, find_text_end, text_end, text_of};
use vstd::prelude::*;

pub use crate::brand::{parse_ftyp, BrandClass, Ftyp};

verus! {

/// A movie header. Times are in units of `time_scale` per second.
#[derive(Clone, Copy, Debug, Default)]
pub struct Mvhd {
    pub version: u8,
    pub creation_time: u64,
    pub modification_time: u64,
    pub time_scale: u32,
    pub duration: u64,
    /// Preferred rate, 16.16 fixed point.
    pub rate: u32,
    /// Preferred volume, 8.8 fixed point.
    pub volume: i16,
    pub next_track_id: u32,
}

/// What an `mvhd` body holds.
pub open spec fn mvhd_of(s: Seq<u8>) -> Result<Mvhd, Error> {
    let v1 = s[0] == 1;
    let p: int = if v1 {
        32
    } else {
        20
    };
    if s.len() < 4 {
        Err(Error::Rule("MOV: mvhd payload < 4 bytes (no version)"))
    } else if s[0] > 1 {
        Err(Error::Number("MOV: mvhd unknown version ", s[0] as i128, ""))
    } else if s.len() < p {
        if v1 {
            Err(Error::Rule("MOV: short read for mvhd v1 fixed fields"))
        } else {
            Err(Error::Rule("MOV: short read for mvhd v0 fixed fields"))
        }
    } else if s.len() < p + 6 {
        Err(Error::Rule("MOV: short read for mvhd rate+volume"))
    } else if s.len() < p + 80 {
        Err(Error::Rule("MOV: short read for mvhd next_track_id"))
    } else {
        Ok(
            Mvhd {
                version: s[0],
                creation_time: if v1 {
                    u64_at(s, 4)
                } else {
                    u32_at(s, 4) as u64
                },
                modification_time: if v1 {
                    u64_at(s, 12)
                } else {
                    u32_at(s, 8) as u64
                },
                time_scale: if v1 {
                    u32_at(s, 20)
                } else {
                    u32_at(s, 12)
                },
                duration: if v1 {
                    u64_at(s, 24)
                } else {
                    u32_at(s, 16) as u64
                },
                rate: u32_at(s, p),
                volume: i16_at(s, p + 4),
                next_track_id: u32_at(s, p + 76),
            },
        )
    }
}

/// Parse the body of an `mvhd` atom.
pub fn parse_mvhd(payload: &[u8]) -> (r: Result<Mvhd, Error>)
    ensures
        r == mvhd_of(payload@),
{
    if payload.len() < 4 {
        return Err(Error::Rule("MOV: mvhd payload < 4 bytes (no version)"));
    }
    let version: u8 = payload[0];
    if version > 1 {
        return Err(Error::Number("MOV: mvhd unknown version ", version as i128, ""));
    }
    let mut p: usize = 20;
    let mut creation_time: u64 = 0;
    let mut modification_time: u64 = 0;
    let mut time_scale: u32 = 0;
    let mut duration: u64 = 0;
    if version == 0 {
        if payload.len() < p {
            return Err(Error::Rule("MOV: short read for mvhd v0 fixed fields"));
        }
        creation_time = read_u32(payload, 4) as u64;
        modification_time = read_u32(payload, 8) as u64;
        time_scale = read_u32(payload, 12);
        duration = read_u32(payload, 16) as u64;
    } else {
        p = 32;
        if payload.len() < p {
            return Err(Error::Rule("MOV: short read for mvhd v1 fixed fields"));
        }
        creation_time = read_u64(payload, 4);
        modification_time = read_u64(payload, 12);
        time_scale = read_u32(payload, 20);
        duration = read_u64(payload, 24);
    }
    if payload.len() < p + 6 {
        return Err(Error::Rule("MOV: short read for mvhd rate+volume"));
    }
    if payload.len() < p + 80 {
        return Err(Error::Rule("MOV: short read for mvhd next_track_id"));
    }
    Ok(
        Mvhd {
            version,
            creation_time,
            modification_time,
            time_scale,
            duration,
            rate: read_u32(payload, p),
            volume: read_i16(payload, p + 4),
            next_track_id: read_u32(payload, p + 76),
        },
    )
}

/// A track header. Times are in units of the time scale of the movie.
#[derive(Clone, Copy, Debug, Default)]
pub struct Tkhd {
    pub version: u8,
    pub flags: u32,
    pub creation_time: u64,
    pub modification_time: u64,
    pub track_id: u32,
    pub duration: u64,
    pub layer: i16,
    pub alternate_group: i16,
    pub volume: i16,
    /// Width, 16.16 fixed point.
    pub width_fp: u32,
    /// Height, 16.16 fixed point.
    pub height_fp: u32,
    /// The display matrix in row order: `a b u c d v tx ty w`.
    pub matrix: [i32; 9],
}

/// How a display matrix turns the picture.
#[derive(Clone, Copy, Debug, PartialEq, Eq)]
pub enum TrackRotation {
    /// Not at all.
    Identity,
    /// A quarter turn clockwise.
    Rotate90,
    /// A half turn.
    Rotate180,
    /// Three quarter turns clockwise.
    Rotate270,
    /// Anything else.
    Other,
}

impl Default for TrackRotation {
    fn default() -> (r: Self)
        ensures
            r is Identity,
    {
        TrackRotation::Identity
    }
}

/// The rotation with the four matrix entries `a`, `b`, `c`, `d`.
pub open spec fn rotation_of(a: int, b: int, c: int, d: int) -> TrackRotation {
    let one: int = 0x1_0000;
    if a == one && b == 0 && c == 0 && d == one {
        TrackRotation::Identity
    } else if a == 0 && b == one && c == -one && d == 0 {
        TrackRotation::Rotate90
    } else if a == -one && b == 0 && c == 0 && d == -one {
        TrackRotation::Rotate180
    } else if a == 0 && b == -one && c == one && d == 0 {
        TrackRotation::Rotate270
    } else {
        TrackRotation::Other
    }
}

impl Tkhd {
    /// Whether the track is enabled.
    pub fn enabled(&self) -> (r: bool)
        ensures
            r == (self.flags % 2 == 1),
    {
        self.flags % 2 == 1
    }

    /// Whole pixels of the width.
    pub fn width(&self) -> (r: u32)
        ensures
            r == self.width_fp / 0x1_0000,
    {
        self.width_fp / 0x1_0000
    }

    /// Whole pixels of the height.
    pub fn height(&self) -> (r: u32)
        ensures
            r == self.height_fp / 0x1_0000,
    {
        self.height_fp / 0x1_0000
    }

    /// How the matrix turns the picture. Only `a`, `b`, `c` and `d` count.
    pub fn rotation(&self) -> (r: TrackRotation)
        ensures
            r == rotation_of(
                self.matrix@[0] as int,
                self.matrix@[1] as int,
                self.matrix@[3] as int,
                self.matrix@[4] as int,
            ),
    {
        let one: i32 = 0x1_0000;
        let a: i32 = self.matrix[0];
        let b: i32 = self.matrix[1];
        let c: i32 = self.matrix[3];
        let d: i32 = self.matrix[4];
        if a == one && b == 0 && c == 0 && d == one {
            TrackRotation::Identity
        } else if a == 0 && b == one && c == -one && d == 0 {
            TrackRotation::Rotate90
        } else if a == -one && b == 0 && c == 0 && d == -one {
            TrackRotation::Rotate180
        } else if a == 0 && b == -one && c == one && d == 0 {
            TrackRotation::Rotate270
        } else {
            TrackRotation::Other
        }
    }
}

/// The display matrix that starts at `p`.
pub open spec fn matrix_at(s: Seq<u8>, p: int) -> [i32; 9] {
    [
        i32_at(s, p),
        i32_at(s, p + 4),
        i32_at(s, p + 8),
        i32_at(s, p + 12),
        i32_at(s, p + 16),
        i32_at(s, p + 20),
        i32_at(s, p + 24),
        i32_at(s, p + 28),
        i32_at(s, p + 32),
    ]
}

/// What a `tkhd` body holds.
pub open spec fn tkhd_of(s: Seq<u8>) -> Result<Tkhd, Error> {
    let v1 = s[0] == 1;
    let p: int = if v1 {
        44
    } else {
        32
    };
    if s.len() < 4 {
        Err(Error::Rule("MOV: tkhd payload < 4 bytes"))
    } else if s[0] > 1 {
        Err(Error::Number("MOV: tkhd unknown version ", s[0] as i128, ""))
    } else if s.len() < p - 8 {
        if v1 {
            Err(Error::Rule("MOV: short read for tkhd v1 fixed fields"))
        } else {
            Err(Error::Rule("MOV: short read for tkhd v0 fixed fields"))
        }
    } else if s.len() < p + 8 {
        Err(Error::Rule("MOV: short read for tkhd layer/alt-group/volume/reserved"))
    } else if s.len() < p + 44 {
        Err(Error::Rule("MOV: short read for tkhd matrix"))
    } else if s.len() < p + 52 {
        Err(Error::Rule("MOV: short read for tkhd width+height"))
    } else {
        Ok(
            Tkhd {
                version: s[0],
                flags: (s[1] * 0x1_0000 + s[2] * 0x100 + s[3]) as u32,
                creation_time: if v1 {
                    u64_at(s, 4)
                } else {
                    u32_at(s, 4) as u64
                },
                modification_time: if v1 {
                    u64_at(s, 12)
                } else {
                    u32_at(s, 8) as u64
                },
                track_id: if v1 {
                    u32_at(s, 20)
                } else {
                    u32_at(s, 12)
                },
                duration: if v1 {
                    u64_at(s, 28)
                } else {
                    u32_at(s, 20) as u64
                },
                layer: i16_at(s, p),
                alternate_group: i16_at(s, p + 2),
                volume: i16_at(s, p + 4),
                width_fp: u32_at(s, p + 44),
                height_fp: u32_at(s, p + 48),
                matrix: matrix_at(s, p + 8),
            },
        )
    }
}

fn read_matrix(s: &[u8], p: usize) -> (r: [i32; 9])
    requires
        p + 36 <= s@.len(),
    ensures
        r == matrix_at(s@, p as int),
{
    assert(s.len() == s@.len());
    let r = [
        read_i32(s, p),
        read_i32(s, p + 4),
        read_i32(s, p + 8),
        read_i32(s, p + 12),
        read_i32(s, p + 16),
        read_i32(s, p + 20),
        read_i32(s, p + 24),
        read_i32(s, p + 28),
        read_i32(s, p + 32),
    ];
    assert(r =~= matrix_at(s@, p as int));
    r
}

/// Parse the body of a `tkhd` atom.
pub fn parse_tkhd(payload: &[u8]) -> (r: Result<Tkhd, Error>)
    ensures
        r == tkhd_of(payload@),
{
    if payload.len() < 4 {
        return Err(Error::Rule("MOV: tkhd payload < 4 bytes"));
    }
    let version: u8 = payload[0];
    if version > 1 {
        return Err(Error::Number("MOV: tkhd unknown version ", version as i128, ""));
    }
    let flags: u32 = payload[1] as u32 * 0x1_0000 + payload[2] as u32 * 0x100 + payload[3] as u32;
    let mut p: usize = 32;
    let mut creation_time: u64 = 0;
    let mut modification_time: u64 = 0;
    let mut track_id: u32 = 0;
    let mut duration: u64 = 0;
    if version == 0 {
        if payload.len() < 24 {
            return Err(Error::Rule("MOV: short read for tkhd v0 fixed fields"));
        }
        creation_time = read_u32(payload, 4) as u64;
        modification_time = read_u32(payload, 8) as u64;
        track_id = read_u32(payload, 12);
        duration = read_u32(payload, 20) as u64;
    } else {
        p = 44;
        if payload.len() < 36 {
            return Err(Error::Rule("MOV: short read for tkhd v1 fixed fields"));
        }
        creation_time = read_u64(payload, 4);
        modification_time = read_u64(payload, 12);
        track_id = read_u32(payload, 20);
        duration = read_u64(payload, 28);
    }
    if payload.len() < p + 8 {
        return Err(Error::Rule("MOV: short read for tkhd layer/alt-group/volume/reserved"));
    }
    if payload.len() < p + 44 {
        return Err(Error::Rule("MOV: short read for tkhd matrix"));
    }
    if payload.len() < p + 52 {
        return Err(Error::Rule("MOV: short read for tkhd width+height"));
    }
    Ok(
        Tkhd {
            version,
            flags,
            creation_time,
            modification_time,
            track_id,
            duration,
            layer: read_i16(payload, p),
            alternate_group: read_i16(payload, p + 2),
            volume: read_i16(payload, p + 4),
            width_fp: read_u32(payload, p + 44),
            height_fp: read_u32(payload, p + 48),
            matrix: read_matrix(payload, p + 8),
        },
    )
}

/// A media header. Times are in units of `time_scale` per second.
#[derive(Clone, Copy, Debug, Default)]
pub struct Mdhd {
    pub version: u8,
    pub creation_time: u64,
    pub modification_time: u64,
    pub time_scale: u32,
    pub duration: u64,
    /// The language, packed as three letters of five bits.
    pub language: u16,
    pub quality: u16,
}

/// What an `mdhd` body holds.
pub open spec fn mdhd_of(s: Seq<u8>) -> Result<Mdhd, Error> {
    let v1 = s[0] == 1;
    let p: int = if v1 {
        32
    } else {
        20
    };
    if s.len() < 4 {
        Err(Error::Rule("MOV: mdhd payload < 4 bytes"))
    } else if s[0] > 1 {
        Err(Error::Number("MOV: mdhd unknown version ", s[0] as i128, ""))
    } else if s.len() < p {
        if v1 {
            Err(Error::Rule("MOV: short read for mdhd v1 fixed fields"))
        } else {
            Err(Error::Rule("MOV: short read for mdhd v0 fixed fields"))
        }
    } else if s.len() < p + 4 {
        Err(Error::Rule("MOV: short read for mdhd language+quality"))
    } else {
        Ok(
            Mdhd {
                version: s[0],
                creation_time: if v1 {
                    u64_at(s, 4)
                } else {
                    u32_at(s, 4) as u64
                },
                modification_time: if v1 {
                    u64_at(s, 12)
                } else {
                    u32_at(s, 8) as u64
                },
                time_scale: if v1 {
                    u32_at(s, 20)
                } else {
                    u32_at(s, 12)
                },
                duration: if v1 {
                    u64_at(s, 24)
                } else {
                    u32_at(s, 16) as u64
                },
                language: u16_at(s, p),
                quality: u16_at(s, p + 2),
            },
        )
    }
}

/// Parse the body of an `mdhd` atom.
pub fn parse_mdhd(payload: &[u8]) -> (r: Result<Mdhd, Error>)
    ensures
        r == mdhd_of(payload@),
{
    if payload.len() < 4 {
        return Err(Error::Rule("MOV: mdhd payload < 4 bytes"));
    }
    let version: u8 = payload[0];
    if version > 1 {
        return Err(Error::Number("MOV: mdhd unknown version ", version as i128, ""));
    }
    let mut p: usize = 20;
    let mut creation_time: u64 = 0;
    let mut modification_time: u64 = 0;
    let mut time_scale: u32 = 0;
    let mut duration: u64 = 0;
    if version == 0 {
        if payload.len() < p {
            return Err(Error::Rule("MOV: short read for mdhd v0 fixed fields"));
        }
        creation_time = read_u32(payload, 4) as u64;
        modification_time = read_u32(payload, 8) as u64;
        time_scale = read_u32(payload, 12);
        duration = read_u32(payload, 16) as u64;
    } else {
        p = 32;
        if payload.len() < p {
            return Err(Error::Rule("MOV: short read for mdhd v1 fixed fields"));
        }
        creation_time = read_u64(payload, 4);
        modification_time = read_u64(payload, 12);
        time_scale = read_u32(payload, 20);
        duration = read_u64(payload, 24);
    }
    if payload.len() < p + 4 {
        return Err(Error::Rule("MOV: short read for mdhd language+quality"));
    }
    Ok(
        Mdhd {
            version,
            creation_time,
            modification_time,
            time_scale,
            duration,
            language: read_u16(payload, p),
            quality: read_u16(payload, p + 2),
        },
    )
}

/// A handler reference. The subtype says what kind of track it is.
#[derive(Clone, Copy, Debug, Default)]
pub struct Hdlr {
    pub component_type: [u8; 4],
    pub component_subtype: [u8; 4],
    pub component_manufacturer: [u8; 4],
}

impl Hdlr {
    /// Whether this is a video track.
    pub fn is_video(&self) -> (r: bool)
        ensures
            r == (self.component_subtype == VIDE),
    {
        same_code(&self.component_subtype, &VIDE)
    }

    /// Whether this is an audio track.
    pub fn is_audio(&self) -> (r: bool)
        ensures
            r == (self.component_subtype == SOUN),
    {
        same_code(&self.component_subtype, &SOUN)
    }

    /// Whether this is a text track.
    pub fn is_text(&self) -> (r: bool)
        ensures
            r == (self.component_subtype == TEXT),
    {
        same_code(&self.component_subtype, &TEXT)
    }

    /// Whether this is a subtitle or caption track: `subt`, `sbtl`, or timed
    /// text (`text`).
    pub fn is_subtitle(&self) -> (r: bool)
        ensures
            r == (self.component_subtype == SUBT || self.component_subtype == SBTL
                || self.component_subtype == TEXT),
    {
        same_code(&self.component_subtype, &SUBT) || same_code(&self.component_subtype, &SBTL)
            || same_code(&self.component_subtype, &TEXT)
    }

    /// Whether this is a time-code track.
    pub fn is_timecode(&self) -> (r: bool)
        ensures
            r == (self.component_subtype == TMCD),
    {
        same_code(&self.component_subtype, &TMCD)
    }

    /// Whether this is a timed-metadata track.
    pub fn is_metadata(&self) -> (r: bool)
        ensures
            r == (self.component_subtype == META),
    {
        same_code(&self.component_subtype, &META)
    }

    /// Whether this is a hint track.
    pub fn is_hint(&self) -> (r: bool)
        ensures
            r == (self.component_subtype == HINT),
    {
        same_code(&self.component_subtype, &HINT)
    }
}

/// What an `hdlr` body holds.
pub open spec fn hdlr_of(s: Seq<u8>) -> Result<Hdlr, Error> {
    if s.len() < 24 {
        Err(Error::Rule("MOV: short read for hdlr fixed fields"))
    } else {
        Ok(
            Hdlr {
                component_type: code_at(s, 4),
                component_subtype: code_at(s, 8),
                component_manufacturer: code_at(s, 12),
            },
        )
    }
}

/// Parse the body of an `hdlr` atom. The name behind the fixed fields is not
/// read.
pub fn parse_hdlr(payload: &[u8]) -> (r: Result<Hdlr, Error>)
    ensures
        r == hdlr_of(payload@),
{
    if payload.len() < 24 {
        return Err(Error::Rule("MOV: short read for hdlr fixed fields"));
    }
    Ok(
        Hdlr {
            component_type: read_code(payload, 4),
            component_subtype: read_code(payload, 8),
            component_manufacturer: read_code(payload, 12),
        },
    )
}

/// A hint media header: buffering figures of the packets of a hint track.
#[derive(Clone, Copy, Debug, Default, PartialEq, Eq)]
pub struct Hmhd {
    /// Size of the largest packet.
    pub max_pdu_size: u16,
    /// Average size of a packet.
    pub avg_pdu_size: u16,
    /// Greatest rate in bits per second.
    pub max_bitrate: u32,
    /// Average rate in bits per second.
    pub avg_bitrate: u32,
}

/// What an `hmhd` body holds.
pub open spec fn hmhd_of(s: Seq<u8>) -> Result<Hmhd, Error> {
    if s.len() < 20 {
        Err(Error::Rule("MOV: short read for hmhd fixed fields"))
    } else {
        Ok(
            Hmhd {
                max_pdu_size: u16_at(s, 4),
                avg_pdu_size: u16_at(s, 6),
                max_bitrate: u32_at(s, 8),
                avg_bitrate: u32_at(s, 12),
            },
        )
    }
}

/// Parse the body of an `hmhd` atom (20 bytes; more are ignored).
pub fn parse_hmhd(payload: &[u8]) -> (r: Result<Hmhd, Error>)
    ensures
        r == hmhd_of(payload@),
{
    if payload.len() < 20 {
        return Err(Error::Rule("MOV: short read for hmhd fixed fields"));
    }
    Ok(
        Hmhd {
            max_pdu_size: read_u16(payload, 4),
            avg_pdu_size: read_u16(payload, 6),
            max_bitrate: read_u32(payload, 8),
            avg_bitrate: read_u32(payload, 12),
        },
    )
}

impl Hmhd {
    /// The body on disk: version and flags, the fields, four reserved bytes.
    pub open spec fn body(&self) -> Seq<u8> {
        u32_be(0) + u16_be(self.max_pdu_size) + u16_be(self.avg_pdu_size) + u32_be(
            self.max_bitrate,
        ) + u32_be(self.avg_bitrate) + u32_be(0)
    }

    /// Serialise the body.
    pub fn to_body_bytes(&self) -> (r: Vec<u8>)
        ensures
            r@ == self.body(),
    {
        broadcast use empty_left;

        let mut out: Vec<u8> = Vec::new();
        put_u32(&mut out, 0);
        put_u16(&mut out, self.max_pdu_size);
        put_u16(&mut out, self.avg_pdu_size);
        put_u32(&mut out, self.max_bitrate);
        put_u32(&mut out, self.avg_bitrate);
        put_u32(&mut out, 0);
        out
    }
}

/// Which media header a track has.
#[derive(Clone, Copy, Debug, PartialEq, Eq)]
pub enum MediaHeaderKind {
    /// None was found.
    Absent,
    /// `vmhd`
    Video,
    /// `smhd`
    Sound,
    /// `hmhd`
    Hint,
    /// `sthd`
    Subtitle,
    /// `nmhd`
    Null,
    /// `gmhd`
    Generic,
}

impl Default for MediaHeaderKind {
    fn default() -> (r: Self)
        ensures
            r is Absent,
    {
        MediaHeaderKind::Absent
    }
}

/// The language tag that an `elng` body holds.
pub open spec fn elng_of(s: Seq<u8>) -> Result<Seq<char>, Error> {
    if s.len() < 4 {
        Err(Error::Rule("MOV: short read for elng FullBox header"))
    } else {
        Ok(text_of(s.subrange(4, text_end(s, 4))))
    }
}

/// Parse the body of an `elng` atom: behind version and flags, a language tag up
/// to the first zero byte, or to the end.
pub fn parse_elng(payload: &[u8]) -> (r: Result<String, Error>)
    ensures
        match elng_of(payload@) {
            Ok(t) => r is Ok && r->Ok_0@ == t,
            Err(e) => r == Err::<String, Error>(e),
        },
{
    if payload.len() < 4 {
        return Err(Error::Rule("MOV: short read for elng FullBox header"));
    }
    let end: usize = find_text_end(payload, 4);
    Ok(decode_lossy(&payload[4..end]))
}

} // verus!
