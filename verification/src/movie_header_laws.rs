//! What the headers of a movie file say, as a reader finds them.
use crate::bytes::low32;
use crate::error::Error;
use crate::fourcc::{
    DINF, ELNG, GMHD, HDLR, HINT, HMHD, MDHD, META, MHLR, MINF, MOOV, MVHD, NMHD, SMHD, SOUN, STHD,
    SUBT, TEXT, TKHD, TMCD, VIDE, VMHD,
};
use crate::header::{hdlr_of, mdhd_of, mvhd_of, tkhd_of, Hdlr, Mdhd, Mvhd, Tkhd};
use crate::movie_walk::{
    addressable, file_of, lemma_moov_found, lemma_tkhd_found, lemma_track_boxes, lemma_track_found,
    lemma_traks_found, mdia_in, mdia_of, trak_in, trak_of, Movie,
};
use crate::mux_boxes::{
    handler, mdhd_body, media_duration, movie_duration, mvhd_body, short_duration, tkhd_body,
    track_hdlr_body, volume,
};

use crate::mux_tables::decode_time;
use crate::mux_trak::total_duration;
use crate::mux_types::{MuxTrackKind, TrackWrite};
use crate::read_back::{
    law_handler_is_read_back, law_media_header_is_read_back, law_movie_header_is_read_back,
    law_track_header_is_read_back,
};
use crate::walk::{first_box, inside};
use vstd::prelude::*;

verus! {

/// The header of a track, as a reader finds it.
#[verifier::opaque]
pub open spec fn track_header(trak: Seq<u8>) -> Result<Tkhd, Error> {
    tkhd_of(inside(trak, TKHD))
}

/// The header of the media of a track, as a reader finds it.
#[verifier::opaque]
pub open spec fn media_header(mdia: Seq<u8>) -> Result<Mdhd, Error> {
    mdhd_of(inside(mdia, MDHD))
}

/// The handler of the media of a track, as a reader finds it.
#[verifier::opaque]
pub open spec fn media_handler(mdia: Seq<u8>) -> Result<Hdlr, Error> {
    hdlr_of(inside(mdia, HDLR))
}

/// The header of a movie, as a reader finds it.
#[verifier::opaque]
pub open spec fn movie_header(moov: Seq<u8>) -> Result<Mvhd, Error> {
    mvhd_of(inside(moov, MVHD))
}

proof fn lemma_track_header(trak: Seq<u8>, kind: MuxTrackKind, id: u32, duration: u32)
    requires
        first_box(trak, TKHD) == Some(tkhd_body(kind, id, duration)),
    ensures
        ({
            let h = track_header(trak);
            &&& h is Ok
            &&& h->Ok_0.track_id == id
            &&& h->Ok_0.duration == duration
            &&& h->Ok_0.flags == 7
            &&& h->Ok_0.volume == (if kind is Audio {
                0x100int
            } else {
                0
            })
            &&& h->Ok_0.width_fp == (if kind is Video {
                kind->width * 0x1_0000
            } else {
                0
            })
            &&& h->Ok_0.height_fp == (if kind is Video {
                kind->height * 0x1_0000
            } else {
                0
            })
        }),
{
    reveal(track_header);
    law_track_header_is_read_back(kind, id, duration);
}

/// The header of every track is found in a written file. It says the number that the
/// track got when it was added, one more than its place, the duration in units of the
/// movie, the size of a picture and the full volume of a sound.
#[verifier::rlimit(40)]
pub proof fn law_track_headers_are_found_in_the_file(m: Movie, i: int)
    requires
        addressable(m),
        0 <= i < m.tracks.len() <= 0xffff_ffff,
    ensures
        ({
            let h = track_header(trak_in(file_of(m), i));
            let kind = m.tracks[i].kind;
            &&& h is Ok
            &&& h->Ok_0.track_id == i + 1
            &&& h->Ok_0.duration == short_duration(movie_duration(m.tracks[i], m.time_scale))
            &&& h->Ok_0.flags == 7
            &&& h->Ok_0.volume == (if kind is Audio {
                0x100int
            } else {
                0
            })
            &&& h->Ok_0.width_fp == (if kind is Video {
                kind->width * 0x1_0000
            } else {
                0
            })
            &&& h->Ok_0.height_fp == (if kind is Video {
                kind->height * 0x1_0000
            } else {
                0
            })
        }),
{
    lemma_track_found(m, i);
    lemma_tkhd_found(m, i);
    let d = short_duration(movie_duration(m.tracks[i], m.time_scale));
    lemma_track_header(trak_of(m, i), m.tracks[i].kind, low32(i + 1), d);
}

proof fn lemma_media_header(mdia: Seq<u8>, scale: u32, duration: u32, language: u16)
    requires
        first_box(mdia, MDHD) == Some(mdhd_body(scale, duration, language)),
    ensures
        ({
            let h = media_header(mdia);
            &&& h is Ok
            &&& h->Ok_0.time_scale == scale
            &&& h->Ok_0.duration == duration
            &&& h->Ok_0.language == language
        }),
{
    reveal(media_header);
    law_media_header_is_read_back(scale, duration, language);
}

proof fn lemma_media_handler(mdia: Seq<u8>, kind: MuxTrackKind)
    requires
        first_box(mdia, HDLR) == Some(track_hdlr_body(kind)),
    ensures
        ({
            let h = media_handler(mdia);
            &&& h is Ok
            &&& h->Ok_0.component_type == MHLR
            &&& h->Ok_0.component_subtype == handler(kind)
        }),
{
    reveal(media_handler);
    law_handler_is_read_back(kind);
}

/// The header of the media of every track is found in a written file. It says the units
/// per second, the duration in them and the language, and the handler says what kind of
/// track it is. The media header is the box that the kind asks for.
pub proof fn law_media_headers_are_found_in_the_file(m: Movie, i: int)
    requires
        addressable(m),
        0 <= i < m.tracks.len(),
    ensures
        ({
            let t = m.tracks[i];
            let mdia = mdia_in(file_of(m), i);
            let h = media_header(mdia);
            let k = media_handler(mdia);
            &&& h is Ok
            &&& h->Ok_0.time_scale == t.media_timescale
            &&& h->Ok_0.duration == short_duration(media_duration(t))
            &&& h->Ok_0.language == t.media_language
            &&& k is Ok
            &&& k->Ok_0.component_type == MHLR
            &&& t.kind is Video ==> k->Ok_0.component_subtype == VIDE
            &&& t.kind is Audio ==> k->Ok_0.component_subtype == SOUN
            &&& t.kind is Timecode ==> k->Ok_0.component_subtype == TMCD
            &&& t.kind is Text || t.kind is SimpleText ==> k->Ok_0.component_subtype == TEXT
            &&& t.kind is Metadata ==> k->Ok_0.component_subtype == META
            &&& t.kind is Subtitle ==> k->Ok_0.component_subtype == SUBT
            &&& t.kind is Hint ==> k->Ok_0.component_subtype == HINT
            &&& first_box(mdia, ELNG) is Some <==> t.extended_language is Some
        }),
{
    let t = m.tracks[i];
    let d = short_duration(media_duration(t));
    lemma_track_boxes(m, i);
    lemma_media_header(mdia_of(m, i), t.media_timescale, d, t.media_language);
    lemma_media_handler(mdia_of(m, i), t.kind);
}

/// Every kind of track has its own media header in a written file: `vmhd` a picture,
/// `smhd` a sound, `gmhd` time codes and text of QuickTime, `hmhd` hints, `sthd`
/// subtitles, and `nmhd` the others.
pub proof fn law_media_header_boxes_are_found_in_the_file(m: Movie, i: int)
    requires
        addressable(m),
        0 <= i < m.tracks.len(),
    ensures
        ({
            let kind = m.tracks[i].kind;
            let minf = inside(mdia_in(file_of(m), i), MINF);
            &&& kind is Video ==> first_box(minf, VMHD) is Some
            &&& kind is Audio ==> first_box(minf, SMHD) is Some
            &&& kind is Timecode || kind is Text ==> first_box(minf, GMHD) is Some
            &&& kind is Hint ==> first_box(minf, HMHD) is Some
            &&& kind is Subtitle ==> first_box(minf, STHD) is Some
            &&& kind is Metadata || kind is SimpleText ==> first_box(minf, NMHD) is Some
            &&& first_box(minf, DINF) is Some
        }),
{
    lemma_track_boxes(m, i);
}

proof fn lemma_movie_header(moov: Seq<u8>, scale: u32, duration: u32, next: u32)
    requires
        first_box(moov, MVHD) == Some(mvhd_body(scale, duration, next)),
    ensures
        ({
            let h = movie_header(moov);
            &&& h is Ok
            &&& h->Ok_0.time_scale == scale
            &&& h->Ok_0.duration == duration
            &&& h->Ok_0.rate == 0x1_0000
            &&& h->Ok_0.volume == 0x100
            &&& h->Ok_0.next_track_id == next
        }),
{
    reveal(movie_header);
    law_movie_header_is_read_back(scale, duration, next);
}

/// The header of the movie is found in a written file. It says the units per second, as
/// duration the greatest of the durations that the headers of the tracks say, the rate
/// and the volume 1, and a number for the next track that no track has.
pub proof fn law_movie_header_is_found_in_the_file(m: Movie, i: int)
    requires
        addressable(m),
        0 <= i < m.tracks.len() < 0xffff_ffff,
    ensures
        ({
            let h = movie_header(inside(file_of(m), MOOV));
            let t = track_header(trak_in(file_of(m), i));
            &&& h is Ok
            &&& h->Ok_0.time_scale == m.time_scale
            &&& h->Ok_0.rate == 0x1_0000
            &&& h->Ok_0.volume == 0x100
            &&& h->Ok_0.next_track_id == m.tracks.len() + 1
            &&& t is Ok
            &&& t->Ok_0.track_id < h->Ok_0.next_track_id
            &&& t->Ok_0.duration <= h->Ok_0.duration
            &&& h->Ok_0.duration == short_duration(
                total_duration(m.tracks, m.time_scale, m.tracks.len()),
            )
        }),
{
    let n = m.tracks.len();
    law_track_headers_are_found_in_the_file(m, i);
    crate::mux_trak::law_movie_lasts_as_long_as_its_longest_track(m.tracks, m.time_scale, n);
    assert(movie_duration(m.tracks[i], m.time_scale) <= total_duration(
        m.tracks,
        m.time_scale,
        n,
    ));
    lemma_movie_header_found(m);
}

proof fn lemma_movie_header_found(m: Movie)
    requires
        addressable(m),
        m.tracks.len() > 0,
    ensures
        ({
            let h = movie_header(inside(file_of(m), MOOV));
            &&& h is Ok
            &&& h->Ok_0.time_scale == m.time_scale
            &&& h->Ok_0.rate == 0x1_0000
            &&& h->Ok_0.volume == 0x100
            &&& h->Ok_0.next_track_id == low32((m.tracks.len() + 1) as int)
            &&& h->Ok_0.duration == short_duration(
                total_duration(m.tracks, m.time_scale, m.tracks.len()),
            )
        }),
{
    lemma_moov_found(m);
    lemma_traks_found(m, 0);
    lemma_movie_header(
        crate::movie_walk::moov_of(m),
        m.time_scale,
        short_duration(total_duration(m.tracks, m.time_scale, m.tracks.len())),
        low32((m.tracks.len() + 1) as int),
    );
}

/// The duration of a track in units of the movie is the duration of its samples, rounded
/// to the nearest unit: it is off by no more than half a unit.
pub proof fn law_movie_duration_is_the_nearest(t: TrackWrite, movie_ts: u32)
    requires
        t.media_timescale > 0,
        decode_time(t.samples@, t.samples@.len()) <= 0xffff_ffff,
    ensures
        ({
            let d = movie_duration(t, movie_ts) * t.media_timescale;
            let x = decode_time(t.samples@, t.samples@.len()) * movie_ts;
            -t.media_timescale <= 2 * (d - x) <= t.media_timescale
        }),
        media_duration(t) == decode_time(t.samples@, t.samples@.len()),
{
    reveal(movie_duration);
    let total = decode_time(t.samples@, t.samples@.len());
    lemma_decode_time_is_natural(t.samples@, t.samples@.len());
    let den = t.media_timescale as int;
    let x = total * movie_ts;
    assert(0 <= x <= 0xffff_ffff * 0xffff_ffff) by (nonlinear_arith)
        requires
            x == total * movie_ts,
            0 <= total <= 0xffff_ffff,
            0 <= movie_ts <= 0xffff_ffff,
    ;
    let y = x + den / 2;
    let q = y / den;
    vstd::arithmetic::div_mod::lemma_fundamental_div_mod(y, den);
    assert(0 <= q <= y) by (nonlinear_arith)
        requires
            y >= 0,
            den >= 1,
            q == y / den,
    ;
    assert(media_duration(t) == total);
    assert(movie_duration(t, movie_ts) == q);
    assert(den * q == q * den) by (nonlinear_arith);
    assert(0 <= y % den < den) by (nonlinear_arith)
        requires
            den >= 1,
    ;
}

proof fn lemma_decode_time_is_natural(s: Seq<crate::mux_types::MuxSample>, n: nat)
    ensures
        0 <= decode_time(s, n),
    decreases n,
{
    if n > 0 {
        lemma_decode_time_is_natural(s, (n - 1) as nat);
    }
}

} // verus!
