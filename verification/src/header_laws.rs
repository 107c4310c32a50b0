//! Headers that are laid out field by field, in both versions, are read back.
use crate::bytes::{
    code_at, group_be_len, i16_at, i16_be, i32_be, lemma_i16_at, lemma_i32_at, lemma_u16_at,
    lemma_u32_at, lemma_u64_at, u16_be, u32_at, u32_be, u64_at, u64_be,
};
use crate::error::Error;
use crate::header::{
    hdlr_of, hmhd_of, matrix_at, mdhd_of, mvhd_of, tkhd_of, Hdlr, Hmhd, Mdhd, Mvhd, Tkhd,
};
use vstd::prelude::*;

verus! {

/// A time or a duration: four bytes in version 0, eight in version 1.
pub open spec fn time_bytes(version: u8, x: u64) -> Seq<u8> {
    if version == 1 {
        u64_be(x)
    } else {
        u32_be(x as u32)
    }
}

/// How long a time is.
pub open spec fn time_len(version: u8) -> int {
    if version == 1 {
        8
    } else {
        4
    }
}

/// The version can hold a time.
pub open spec fn time_fits(version: u8, x: u64) -> bool {
    version == 1 || (version == 0 && x <= 0xffff_ffff)
}

/// A movie header laid out: version and flags, when it was made and changed, the time
/// scale, the duration, the rate, the volume, ten reserved bytes, the matrix, 24 bytes
/// of preview times, and the number for the next track.
pub open spec fn mvhd_layout(
    h: Mvhd,
    flags: Seq<u8>,
    reserved: Seq<u8>,
    matrix: Seq<u8>,
    times: Seq<u8>,
) -> Seq<u8> {
    seq![h.version] + flags + time_bytes(h.version, h.creation_time) + time_bytes(
        h.version,
        h.modification_time,
    ) + u32_be(h.time_scale) + time_bytes(h.version, h.duration) + u32_be(h.rate) + i16_be(h.volume)
        + reserved + matrix + times + u32_be(h.next_track_id)
}

/// A movie header laid out in either version is read back, whatever its reserved bytes
/// are and whatever stands behind it.
pub proof fn law_movie_header_layout_is_read(
    h: Mvhd,
    flags: Seq<u8>,
    reserved: Seq<u8>,
    matrix: Seq<u8>,
    times: Seq<u8>,
    rest: Seq<u8>,
)
    requires
        flags.len() == 3,
        reserved.len() == 10,
        matrix.len() == 36,
        times.len() == 24,
        time_fits(h.version, h.creation_time),
        time_fits(h.version, h.modification_time),
        time_fits(h.version, h.duration),
    ensures
        mvhd_of(mvhd_layout(h, flags, reserved, matrix, times) + rest) == Ok::<Mvhd, Error>(h),
{
    broadcast use group_be_len;

    let s = mvhd_layout(h, flags, reserved, matrix, times) + rest;
    let k = time_len(h.version);
    let p = 8 + 3 * k;
    assert(s[0] == h.version);
    assert(s.subrange(4, 4 + k) =~= time_bytes(h.version, h.creation_time));
    assert(s.subrange(4 + k, 4 + 2 * k) =~= time_bytes(h.version, h.modification_time));
    assert(s.subrange(4 + 2 * k, 8 + 2 * k) =~= u32_be(h.time_scale));
    assert(s.subrange(8 + 2 * k, p) =~= time_bytes(h.version, h.duration));
    assert(s.subrange(p, p + 4) =~= u32_be(h.rate));
    assert(s.subrange(p + 4, p + 6) =~= i16_be(h.volume));
    assert(s.subrange(p + 76, p + 80) =~= u32_be(h.next_track_id));
    lemma_time(s, 4, h.version, h.creation_time);
    lemma_time(s, 4 + k, h.version, h.modification_time);
    lemma_u32_at(s, 4 + 2 * k, h.time_scale);
    lemma_time(s, 8 + 2 * k, h.version, h.duration);
    lemma_u32_at(s, p, h.rate);
    lemma_i16_at(s, p + 4, h.volume);
    lemma_u32_at(s, p + 76, h.next_track_id);
}

proof fn lemma_time(s: Seq<u8>, p: int, version: u8, x: u64)
    requires
        0 <= p,
        p + time_len(version) <= s.len(),
        time_fits(version, x),
        s.subrange(p, p + time_len(version)) == time_bytes(version, x),
    ensures
        version == 1 ==> crate::bytes::u64_at(s, p) == x,
        version == 0 ==> crate::bytes::u32_at(s, p) == x,
{
    if version == 1 {
        lemma_u64_at(s, p, x);
    } else {
        lemma_u32_at(s, p, x as u32);
    }
}

/// The bytes of a matrix, in row order.
#[verifier::opaque]
pub open spec fn matrix_bytes(m: [i32; 9]) -> Seq<u8> {
    i32_be(m@[0]) + i32_be(m@[1]) + i32_be(m@[2]) + i32_be(m@[3]) + i32_be(m@[4]) + i32_be(m@[5])
        + i32_be(m@[6]) + i32_be(m@[7]) + i32_be(m@[8])
}

/// The first part of a track header: version, flags, when it was made and changed, the
/// number of the track, four reserved bytes, the duration and eight reserved bytes.
#[verifier::opaque]
pub open spec fn tkhd_first(h: Tkhd, a: Seq<u8>, b: Seq<u8>) -> Seq<u8> {
    seq![
        h.version,
        (h.flags / 0x1_0000) as u8,
        ((h.flags / 0x100) % 0x100) as u8,
        (h.flags % 0x100) as u8,
    ] + time_bytes(h.version, h.creation_time) + time_bytes(h.version, h.modification_time)
        + u32_be(h.track_id) + a + time_bytes(h.version, h.duration) + b
}

/// The second part of a track header: layer, group, volume, two reserved bytes, the
/// matrix, width and height.
#[verifier::opaque]
pub open spec fn tkhd_second(h: Tkhd, c: Seq<u8>) -> Seq<u8> {
    i16_be(h.layer) + i16_be(h.alternate_group) + i16_be(h.volume) + c + matrix_bytes(h.matrix)
        + u32_be(h.width_fp) + u32_be(h.height_fp)
}

/// A track header laid out.
pub open spec fn tkhd_layout(h: Tkhd, a: Seq<u8>, b: Seq<u8>, c: Seq<u8>) -> Seq<u8> {
    tkhd_first(h, a, b) + tkhd_second(h, c)
}

proof fn lemma_tkhd_first(h: Tkhd, a: Seq<u8>, b: Seq<u8>, rest: Seq<u8>)
    requires
        a.len() == 4,
        b.len() == 8,
        h.flags <= 0xff_ffff,
        time_fits(h.version, h.creation_time),
        time_fits(h.version, h.modification_time),
        time_fits(h.version, h.duration),
    ensures
        ({
            let s = tkhd_first(h, a, b) + rest;
            let v1 = h.version == 1;
            &&& tkhd_first(h, a, b).len() == 20 + 3 * time_len(h.version)
            &&& s[0] == h.version
            &&& s[1] * 0x1_0000 + s[2] * 0x100 + s[3] == h.flags
            &&& v1 ==> u64_at(s, 4) == h.creation_time && u64_at(s, 12) == h.modification_time
                && u32_at(s, 20) == h.track_id && u64_at(s, 28) == h.duration
            &&& !v1 ==> u32_at(s, 4) == h.creation_time && u32_at(s, 8) == h.modification_time
                && u32_at(s, 12) == h.track_id && u32_at(s, 20) == h.duration
        }),
{
    broadcast use group_be_len;

    reveal(tkhd_first);
    let s = tkhd_first(h, a, b) + rest;
    let k = time_len(h.version);
    assert(s[0] == h.version);
    assert(s[1] == h.flags / 0x1_0000);
    assert(s[2] == (h.flags / 0x100) % 0x100);
    assert(s[3] == h.flags % 0x100);
    assert(s.subrange(4, 4 + k) =~= time_bytes(h.version, h.creation_time));
    assert(s.subrange(4 + k, 4 + 2 * k) =~= time_bytes(h.version, h.modification_time));
    assert(s.subrange(4 + 2 * k, 8 + 2 * k) =~= u32_be(h.track_id));
    assert(s.subrange(12 + 2 * k, 12 + 3 * k) =~= time_bytes(h.version, h.duration));
    lemma_time(s, 4, h.version, h.creation_time);
    lemma_time(s, 4 + k, h.version, h.modification_time);
    lemma_u32_at(s, 4 + 2 * k, h.track_id);
    lemma_time(s, 12 + 2 * k, h.version, h.duration);
}

proof fn lemma_tkhd_second(first: Seq<u8>, h: Tkhd, c: Seq<u8>, rest: Seq<u8>)
    requires
        c.len() == 2,
    ensures
        ({
            let s = first + tkhd_second(h, c) + rest;
            let p = first.len() as int;
            &&& tkhd_second(h, c).len() == 52
            &&& i16_at(s, p) == h.layer
            &&& i16_at(s, p + 2) == h.alternate_group
            &&& i16_at(s, p + 4) == h.volume
            &&& matrix_at(s, p + 8) == h.matrix
            &&& u32_at(s, p + 44) == h.width_fp
            &&& u32_at(s, p + 48) == h.height_fp
        }),
{
    broadcast use group_be_len;

    reveal(tkhd_second);
    lemma_matrix_len(h.matrix);
    let s = first + tkhd_second(h, c) + rest;
    let p = first.len() as int;
    assert(s.subrange(p, p + 2) =~= i16_be(h.layer));
    assert(s.subrange(p + 2, p + 4) =~= i16_be(h.alternate_group));
    assert(s.subrange(p + 4, p + 6) =~= i16_be(h.volume));
    assert(s.subrange(p + 8, p + 44) =~= matrix_bytes(h.matrix));
    assert(s.subrange(p + 44, p + 48) =~= u32_be(h.width_fp));
    assert(s.subrange(p + 48, p + 52) =~= u32_be(h.height_fp));
    lemma_i16_at(s, p, h.layer);
    lemma_i16_at(s, p + 2, h.alternate_group);
    lemma_i16_at(s, p + 4, h.volume);
    lemma_matrix(s, p + 8, h.matrix);
    lemma_u32_at(s, p + 44, h.width_fp);
    lemma_u32_at(s, p + 48, h.height_fp);
}

proof fn lemma_matrix_len(m: [i32; 9])
    ensures
        matrix_bytes(m).len() == 36,
{
    broadcast use group_be_len;

    reveal(matrix_bytes);
}

proof fn lemma_matrix(s: Seq<u8>, p: int, m: [i32; 9])
    requires
        0 <= p,
        p + 36 <= s.len(),
        s.subrange(p, p + 36) == matrix_bytes(m),
    ensures
        matrix_at(s, p) == m,
{
    broadcast use group_be_len;

    reveal(matrix_bytes);
    let b = matrix_bytes(m);
    assert forall|k: int| 0 <= k < 9 implies #[trigger] s.subrange(p + 4 * k, p + 4 * k + 4)
        == b.subrange(4 * k, 4 * k + 4) by {
        assert(s.subrange(p + 4 * k, p + 4 * k + 4) =~= s.subrange(p, p + 36).subrange(
            4 * k,
            4 * k + 4,
        ));
    }
    assert(b.subrange(0, 4) =~= i32_be(m@[0]));
    assert(b.subrange(4, 8) =~= i32_be(m@[1]));
    assert(b.subrange(8, 12) =~= i32_be(m@[2]));
    assert(b.subrange(12, 16) =~= i32_be(m@[3]));
    assert(b.subrange(16, 20) =~= i32_be(m@[4]));
    assert(b.subrange(20, 24) =~= i32_be(m@[5]));
    assert(b.subrange(24, 28) =~= i32_be(m@[6]));
    assert(b.subrange(28, 32) =~= i32_be(m@[7]));
    assert(b.subrange(32, 36) =~= i32_be(m@[8]));
    assert(s.subrange(p + 4 * 0, p + 4 * 0 + 4) == b.subrange(0, 4));
    assert(s.subrange(p + 4 * 1, p + 4 * 1 + 4) == b.subrange(4, 8));
    assert(s.subrange(p + 4 * 2, p + 4 * 2 + 4) == b.subrange(8, 12));
    assert(s.subrange(p + 4 * 3, p + 4 * 3 + 4) == b.subrange(12, 16));
    assert(s.subrange(p + 4 * 4, p + 4 * 4 + 4) == b.subrange(16, 20));
    assert(s.subrange(p + 4 * 5, p + 4 * 5 + 4) == b.subrange(20, 24));
    assert(s.subrange(p + 4 * 6, p + 4 * 6 + 4) == b.subrange(24, 28));
    assert(s.subrange(p + 4 * 7, p + 4 * 7 + 4) == b.subrange(28, 32));
    assert(s.subrange(p + 4 * 8, p + 4 * 8 + 4) == b.subrange(32, 36));
    lemma_i32_at(s, p, m@[0]);
    lemma_i32_at(s, p + 4, m@[1]);
    lemma_i32_at(s, p + 8, m@[2]);
    lemma_i32_at(s, p + 12, m@[3]);
    lemma_i32_at(s, p + 16, m@[4]);
    lemma_i32_at(s, p + 20, m@[5]);
    lemma_i32_at(s, p + 24, m@[6]);
    lemma_i32_at(s, p + 28, m@[7]);
    lemma_i32_at(s, p + 32, m@[8]);
    assert(matrix_at(s, p) =~= m);
}

/// A track header laid out in either version is read back, whatever its reserved bytes
/// are and whatever stands behind it.
pub proof fn law_track_header_layout_is_read(
    h: Tkhd,
    a: Seq<u8>,
    b: Seq<u8>,
    c: Seq<u8>,
    rest: Seq<u8>,
)
    requires
        a.len() == 4,
        b.len() == 8,
        c.len() == 2,
        h.flags <= 0xff_ffff,
        time_fits(h.version, h.creation_time),
        time_fits(h.version, h.modification_time),
        time_fits(h.version, h.duration),
    ensures
        tkhd_of(tkhd_layout(h, a, b, c) + rest) == Ok::<Tkhd, Error>(h),
{
    lemma_tkhd_first(h, a, b, tkhd_second(h, c) + rest);
    lemma_tkhd_second(tkhd_first(h, a, b), h, c, rest);
    assert(tkhd_layout(h, a, b, c) + rest =~= tkhd_first(h, a, b) + (tkhd_second(h, c) + rest));
}

/// A media header laid out: version and flags, when it was made and changed, the time
/// scale, the duration, language and quality.
pub open spec fn mdhd_layout(h: Mdhd, flags: Seq<u8>) -> Seq<u8> {
    seq![h.version] + flags + time_bytes(h.version, h.creation_time) + time_bytes(
        h.version,
        h.modification_time,
    ) + u32_be(h.time_scale) + time_bytes(h.version, h.duration) + u16_be(h.language) + u16_be(
        h.quality,
    )
}

/// A media header laid out in either version is read back, whatever stands behind it.
pub proof fn law_media_header_layout_is_read(h: Mdhd, flags: Seq<u8>, rest: Seq<u8>)
    requires
        flags.len() == 3,
        time_fits(h.version, h.creation_time),
        time_fits(h.version, h.modification_time),
        time_fits(h.version, h.duration),
    ensures
        mdhd_of(mdhd_layout(h, flags) + rest) == Ok::<Mdhd, Error>(h),
{
    broadcast use group_be_len;

    let s = mdhd_layout(h, flags) + rest;
    let k = time_len(h.version);
    let p = 8 + 3 * k;
    assert(s[0] == h.version);
    assert(s.subrange(4, 4 + k) =~= time_bytes(h.version, h.creation_time));
    assert(s.subrange(4 + k, 4 + 2 * k) =~= time_bytes(h.version, h.modification_time));
    assert(s.subrange(4 + 2 * k, 8 + 2 * k) =~= u32_be(h.time_scale));
    assert(s.subrange(8 + 2 * k, p) =~= time_bytes(h.version, h.duration));
    assert(s.subrange(p, p + 2) =~= u16_be(h.language));
    assert(s.subrange(p + 2, p + 4) =~= u16_be(h.quality));
    lemma_time(s, 4, h.version, h.creation_time);
    lemma_time(s, 4 + k, h.version, h.modification_time);
    lemma_u32_at(s, 4 + 2 * k, h.time_scale);
    lemma_time(s, 8 + 2 * k, h.version, h.duration);
    lemma_u16_at(s, p, h.language);
    lemma_u16_at(s, p + 2, h.quality);
}

/// A handler reference laid out (version and flags, type, subtype, manufacturer, flags
/// and mask, a name) is read back.
pub proof fn law_handler_layout_is_read(h: Hdlr, flags: Seq<u8>, masks: Seq<u8>, name: Seq<u8>)
    requires
        flags.len() == 4,
        masks.len() == 8,
    ensures
        hdlr_of(
            flags + h.component_type@ + h.component_subtype@ + h.component_manufacturer@ + masks
                + name,
        ) == Ok::<Hdlr, Error>(h),
{
    let s = flags + h.component_type@ + h.component_subtype@ + h.component_manufacturer@ + masks
        + name;
    assert(code_at(s, 4) =~= h.component_type);
    assert(code_at(s, 8) =~= h.component_subtype);
    assert(code_at(s, 12) =~= h.component_manufacturer);
}

/// A hint media header laid out (version and flags, largest and average size of a
/// packet, greatest and average rate, four reserved bytes) is read back.
pub proof fn law_hint_header_layout_is_read(h: Hmhd, flags: Seq<u8>, rest: Seq<u8>)
    requires
        flags.len() == 4,
        rest.len() >= 4,
    ensures
        hmhd_of(
            flags + u16_be(h.max_pdu_size) + u16_be(h.avg_pdu_size) + u32_be(h.max_bitrate)
                + u32_be(h.avg_bitrate) + rest,
        ) == Ok::<Hmhd, Error>(h),
{
    broadcast use group_be_len;

    let s = flags + u16_be(h.max_pdu_size) + u16_be(h.avg_pdu_size) + u32_be(h.max_bitrate)
        + u32_be(h.avg_bitrate) + rest;
    assert(s.subrange(4, 6) =~= u16_be(h.max_pdu_size));
    assert(s.subrange(6, 8) =~= u16_be(h.avg_pdu_size));
    assert(s.subrange(8, 12) =~= u32_be(h.max_bitrate));
    assert(s.subrange(12, 16) =~= u32_be(h.avg_bitrate));
    lemma_u16_at(s, 4, h.max_pdu_size);
    lemma_u16_at(s, 6, h.avg_pdu_size);
    lemma_u32_at(s, 8, h.max_bitrate);
    lemma_u32_at(s, 12, h.avg_bitrate);
}

/// A header is read if and only if it has a known version and all of its bytes: 100 or
/// 112 of a movie header, 84 or 96 of a track header, 24 or 36 of a media header.
pub proof fn law_headers_need_all_their_bytes(s: Seq<u8>)
    ensures
        mvhd_of(s) is Ok <==> (s.len() >= 100 && s[0] == 0) || (s.len() >= 112 && s[0] == 1),
        tkhd_of(s) is Ok <==> (s.len() >= 84 && s[0] == 0) || (s.len() >= 96 && s[0] == 1),
        mdhd_of(s) is Ok <==> (s.len() >= 24 && s[0] == 0) || (s.len() >= 36 && s[0] == 1),
        hdlr_of(s) is Ok <==> s.len() >= 24,
        hmhd_of(s) is Ok <==> s.len() >= 20,
{
}

} // verus!
