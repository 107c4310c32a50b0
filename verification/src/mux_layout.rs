//! Where the media of a file stand, and the file as a whole.
use crate::atom::{
    atom, emit_mdat_header, lemma_atom_len, lemma_mdat_header_len, mdat_header, mdat_header_len,
    push_atom,
};
use crate::bytes::{
    cat, empty_left, group_be_len, lemma_cat_piece, lemma_cat_push, lemma_low64_sum,
    lemma_low64_two, lemma_part, lemma_piece_at, low32, low64, plus64, put_bytes, put_code, put_u32,
    u32_be,
};
use crate::cmov::{cmov_body, Cmov, CmovModel};
use crate::fourcc::{CMOV, FTYP, ISOM, MOOV, MP42, QT};
use crate::mux_trak::{build_moov, moov_body, TrackPlace};
use crate::mux_types::{MovMetaItem, MovMetadata, MuxSample, TrackWrite};
use vstd::prelude::*;

verus! {

/// The data of samples.
pub open spec fn sample_rows(s: Seq<MuxSample>) -> spec_fn(int) -> Seq<u8> {
    |i: int| s[i].data@
}

/// The bytes of blobs.
pub open spec fn blob_rows(v: Seq<Vec<u8>>) -> spec_fn(int) -> Seq<u8> {
    |i: int| v[i]@
}

/// The data of the samples of a track, one behind the other.
pub open spec fn sample_bytes(t: TrackWrite) -> Seq<u8> {
    cat(t.samples@.len(), sample_rows(t.samples@))
}

/// The auxiliary information of the samples of a track.
pub open spec fn aux_bytes(t: TrackWrite) -> Seq<u8> {
    match t.sample_aux {
        Some(a) => cat(a.per_sample@.len(), blob_rows(a.per_sample@)),
        None => Seq::empty(),
    }
}

/// The media of tracks: the samples of each, then its auxiliary information.
pub open spec fn media_rows(tracks: Seq<TrackWrite>) -> spec_fn(int) -> Seq<u8> {
    |i: int| sample_bytes(tracks[i]) + aux_bytes(tracks[i])
}

/// The media of all tracks.
pub open spec fn media_bytes(tracks: Seq<TrackWrite>) -> Seq<u8> {
    cat(tracks.len(), media_rows(tracks))
}

/// The length of the media, in 64 bits.
pub open spec fn media_len(tracks: Seq<TrackWrite>) -> u64 {
    low64(media_bytes(tracks).len() as int)
}

/// The `ftyp` box: a QuickTime file that is also for readers of `isom` and
/// `mp42`.
pub open spec fn ftyp_atom() -> Seq<u8> {
    atom(FTYP, QT@ + u32_be(0x200) + QT@ + ISOM@ + MP42@)
}

/// Serialise the `ftyp` box.
pub fn build_ftyp() -> (r: Vec<u8>)
    ensures
        r@ == ftyp_atom(),
{
    broadcast use empty_left;

    let mut body: Vec<u8> = Vec::new();
    put_code(&mut body, QT);
    put_u32(&mut body, 0x200);
    put_code(&mut body, QT);
    put_code(&mut body, ISOM);
    put_code(&mut body, MP42);
    let mut out: Vec<u8> = Vec::new();
    push_atom(&mut out, FTYP, body.as_slice());
    out
}

/// Where the media start: behind the `ftyp` box and the header of the `mdat`
/// box.
pub open spec fn media_start(tracks: Seq<TrackWrite>) -> int {
    28 + mdat_header_len(media_len(tracks) as nat)
}

/// Where the samples of a track start.
pub open spec fn samples_start(tracks: Seq<TrackWrite>, i: int) -> int {
    media_start(tracks) + cat(i as nat, media_rows(tracks)).len()
}

/// Where the auxiliary information of a track starts.
pub open spec fn aux_start(tracks: Seq<TrackWrite>, i: int) -> int {
    samples_start(tracks, i) + sample_bytes(tracks[i]).len()
}

/// Where the media of a track stand, as its boxes say it.
pub open spec fn track_place(tracks: Seq<TrackWrite>, i: int) -> TrackPlace {
    TrackPlace {
        chunk_offset: low64(samples_start(tracks, i)),
        aux_offset: if tracks[i].sample_aux is Some {
            Some(low64(aux_start(tracks, i)))
        } else {
            None
        },
    }
}

/// Where the media of all tracks stand.
pub open spec fn track_places(tracks: Seq<TrackWrite>) -> Seq<TrackPlace> {
    Seq::new(tracks.len(), |i: int| track_place(tracks, i))
}

/// Some chunk starts where 32 bits do not reach.
pub open spec fn needs_wide(tracks: Seq<TrackWrite>) -> bool {
    exists|i: int|
        0 <= i < tracks.len() && (#[trigger] track_place(tracks, i)).chunk_offset > 0xffff_ffff
}

/// The movie resource: the `moov` box of the tracks where they stand.
pub open spec fn movie_resource(
    tracks: Seq<TrackWrite>,
    movie_ts: u32,
    metadata: Seq<MovMetadata>,
    apple_metadata: Seq<MovMetaItem>,
) -> Seq<u8> {
    atom(
        MOOV,
        moov_body(
            tracks,
            movie_ts,
            metadata,
            apple_metadata,
            track_places(tracks),
            needs_wide(tracks),
        ),
    )
}

/// What stands before the movie resource: the `ftyp` box and the `mdat` box.
pub open spec fn file_head(tracks: Seq<TrackWrite>) -> Seq<u8> {
    ftyp_atom() + mdat_header(media_len(tracks) as nat) + media_bytes(tracks)
}

/// The box of a compressed movie resource.
pub open spec fn compressed_atom(m: CmovModel) -> Seq<u8> {
    atom(MOOV, atom(CMOV, cmov_body(m)))
}

/// Serialise the box of a compressed movie resource.
pub fn wrap_compressed(cmov: &Cmov) -> (r: Vec<u8>)
    ensures
        r@ == compressed_atom(cmov@),
{
    broadcast use empty_left;

    let body = cmov.to_body_bytes();
    let mut moov: Vec<u8> = Vec::new();
    push_atom(&mut moov, CMOV, body.as_slice());
    let mut out: Vec<u8> = Vec::new();
    push_atom(&mut out, MOOV, moov.as_slice());
    out
}

/// Append the data of samples.
pub fn put_samples(out: &mut Vec<u8>, samples: &[MuxSample])
    ensures
        final(out)@ == old(out)@ + cat(samples@.len(), sample_rows(samples@)),
{
    let ghost f = sample_rows(samples@);
    assert(out@ =~= old(out)@ + cat(0, f));
    for i in 0..samples.len()
        invariant
            f == sample_rows(samples@),
            out@ == old(out)@ + cat(i as nat, f),
    {
        put_bytes(out, samples[i].data.as_slice());
        proof {
            lemma_cat_push(old(out)@, i as nat, f);
        }
    }
}

/// Append blobs.
pub fn put_blobs(out: &mut Vec<u8>, blobs: &[Vec<u8>])
    ensures
        final(out)@ == old(out)@ + cat(blobs@.len(), blob_rows(blobs@)),
{
    let ghost f = blob_rows(blobs@);
    assert(out@ =~= old(out)@ + cat(0, f));
    for i in 0..blobs.len()
        invariant
            f == blob_rows(blobs@),
            out@ == old(out)@ + cat(i as nat, f),
    {
        put_bytes(out, blobs[i].as_slice());
        proof {
            lemma_cat_push(old(out)@, i as nat, f);
        }
    }
}

/// The length of the data of samples, in 64 bits.
pub fn samples_len(samples: &[MuxSample]) -> (r: u64)
    ensures
        r == low64(cat(samples@.len(), sample_rows(samples@)).len() as int),
{
    let ghost f = sample_rows(samples@);
    let mut sum: u64 = 0;
    for i in 0..samples.len()
        invariant
            f == sample_rows(samples@),
            sum == low64(cat(i as nat, f).len() as int),
    {
        proof {
            lemma_low64_sum(cat(i as nat, f).len() as int, f(i as int).len() as int);
        }
        sum = plus64(sum, samples[i].data.len() as u64);
    }
    sum
}

/// The length of blobs, in 64 bits.
pub fn blobs_len(blobs: &[Vec<u8>]) -> (r: u64)
    ensures
        r == low64(cat(blobs@.len(), blob_rows(blobs@)).len() as int),
{
    let ghost f = blob_rows(blobs@);
    let mut sum: u64 = 0;
    for i in 0..blobs.len()
        invariant
            f == blob_rows(blobs@),
            sum == low64(cat(i as nat, f).len() as int),
    {
        proof {
            lemma_low64_sum(cat(i as nat, f).len() as int, f(i as int).len() as int);
        }
        sum = plus64(sum, blobs[i].len() as u64);
    }
    sum
}

fn track_aux_len(t: &TrackWrite) -> (r: u64)
    ensures
        r == low64(aux_bytes(*t).len() as int),
{
    match &t.sample_aux {
        Some(a) => blobs_len(a.per_sample.as_slice()),
        None => 0,
    }
}

fn total_media_len(tracks: &Vec<TrackWrite>) -> (r: u64)
    ensures
        r == media_len(tracks@),
{
    let ghost f = media_rows(tracks@);
    let mut sum: u64 = 0;
    for i in 0..tracks.len()
        invariant
            f == media_rows(tracks@),
            sum == low64(cat(i as nat, f).len() as int),
    {
        let s: u64 = samples_len(tracks[i].samples.as_slice());
        let a: u64 = track_aux_len(&tracks[i]);
        proof {
            let t = tracks@[i as int];
            let n = cat(i as nat, f).len() as int;
            let k = sample_bytes(t).len() as int;
            lemma_low64_two(n, k);
            lemma_low64_two(n + k, aux_bytes(t).len() as int);
            assert(cat((i + 1) as nat, f) == cat(i as nat, f) + f(i as int));
        }
        sum = plus64(plus64(sum, s), a);
    }
    sum
}

proof fn lemma_next_start(tracks: Seq<TrackWrite>, i: int)
    requires
        0 <= i < tracks.len(),
    ensures
        samples_start(tracks, i + 1) == aux_start(tracks, i) + aux_bytes(tracks[i]).len(),
        low64(aux_start(tracks, i)) == low64(
            low64(samples_start(tracks, i)) + low64(sample_bytes(tracks[i]).len() as int),
        ),
        low64(samples_start(tracks, i + 1)) == low64(
            low64(aux_start(tracks, i)) + low64(aux_bytes(tracks[i]).len() as int),
        ),
{
    let f = media_rows(tracks);
    assert(cat((i + 1) as nat, f) == cat(i as nat, f) + f(i));
    lemma_low64_two(samples_start(tracks, i), sample_bytes(tracks[i]).len() as int);
    lemma_low64_two(aux_start(tracks, i), aux_bytes(tracks[i]).len() as int);
}

fn lay_out(tracks: &Vec<TrackWrite>, body_len: u64) -> (r: Vec<TrackPlace>)
    requires
        body_len == media_len(tracks@),
    ensures
        r@ == track_places(tracks@),
{
    let mut cursor: u64 = if body_len > 0xffff_ffff - 8 {
        44
    } else {
        36
    };
    let mut places: Vec<TrackPlace> = Vec::new();
    assert(cursor == low64(samples_start(tracks@, 0)));
    for i in 0..tracks.len()
        invariant
            cursor == low64(samples_start(tracks@, i as int)),
            places@.len() == i,
            forall|k: int| 0 <= k < i ==> #[trigger] places@[k] == track_place(tracks@, k),
    {
        let t = &tracks[i];
        let chunk_offset: u64 = cursor;
        let s: u64 = samples_len(t.samples.as_slice());
        let a: u64 = track_aux_len(t);
        proof {
            lemma_next_start(tracks@, i as int);
        }
        cursor = plus64(cursor, s);
        let aux_offset = if t.sample_aux.is_some() {
            Some(cursor)
        } else {
            None
        };
        cursor = plus64(cursor, a);
        places.push(TrackPlace { chunk_offset, aux_offset });
    }
    assert(places@ =~= track_places(tracks@));
    places
}

fn any_wide(places: &Vec<TrackPlace>) -> (r: bool)
    ensures
        r == exists|i: int| 0 <= i < places@.len() && (#[trigger] places@[i]).chunk_offset > 0xffff_ffff,
{
    for i in 0..places.len()
        invariant
            forall|k: int| 0 <= k < i ==> (#[trigger] places@[k]).chunk_offset <= 0xffff_ffff,
    {
        if places[i].chunk_offset > 0xffff_ffff {
            return true;
        }
    }
    false
}

fn put_media(out: &mut Vec<u8>, tracks: &Vec<TrackWrite>)
    ensures
        final(out)@ == old(out)@ + media_bytes(tracks@),
{
    let ghost f = media_rows(tracks@);
    assert(out@ =~= old(out)@ + cat(0, f));
    for i in 0..tracks.len()
        invariant
            f == media_rows(tracks@),
            out@ == old(out)@ + cat(i as nat, f),
    {
        let ghost before = out@;
        put_samples(out, tracks[i].samples.as_slice());
        if let Some(a) = &tracks[i].sample_aux {
            put_blobs(out, a.per_sample.as_slice());
        }
        proof {
            assert(out@ =~= before + f(i as int));
            lemma_cat_push(old(out)@, i as nat, f);
        }
    }
}

/// Write the `ftyp` and `mdat` boxes, and the movie resource that belongs to
/// them.
pub fn encode_parts(
    tracks: &Vec<TrackWrite>,
    movie_ts: u32,
    metadata: &Vec<MovMetadata>,
    apple_metadata: &Vec<MovMetaItem>,
) -> (r: (Vec<u8>, Vec<u8>))
    requires
        forall|i: int| 0 <= i < tracks@.len() ==> (#[trigger] tracks@[i]).samples@.len() > 0,
    ensures
        r.0@ == file_head(tracks@),
        r.1@ == movie_resource(tracks@, movie_ts, metadata@, apple_metadata@),
{
    let body_len: u64 = total_media_len(tracks);
    let places = lay_out(tracks, body_len);
    let wide = any_wide(&places);
    proof {
        if wide {
            let i = choose|i: int|
                0 <= i < places@.len() && (#[trigger] places@[i]).chunk_offset > 0xffff_ffff;
            assert(places@[i] == track_place(tracks@, i));
        } else if needs_wide(tracks@) {
            let i = choose|i: int|
                0 <= i < tracks@.len() && (#[trigger] track_place(tracks@, i)).chunk_offset
                    > 0xffff_ffff;
            assert(places@[i] == track_place(tracks@, i));
        }
    }
    let mut out = build_ftyp();
    emit_mdat_header(&mut out, body_len);
    put_media(&mut out, tracks);
    let moov = build_moov(tracks, movie_ts, metadata, apple_metadata, &places, wide);
    let mut resource: Vec<u8> = Vec::new();
    push_atom(&mut resource, MOOV, moov.as_slice());
    assert(resource@ =~= movie_resource(tracks@, movie_ts, metadata@, apple_metadata@));
    (out, resource)
}

/// The bytes before the media are as many as the offsets count on.
pub proof fn lemma_media_start(tracks: Seq<TrackWrite>)
    ensures
        (ftyp_atom() + mdat_header(media_len(tracks) as nat)).len() == media_start(tracks),
{
    broadcast use group_be_len;

    lemma_mdat_header_len(media_len(tracks) as nat);
    lemma_atom_len(FTYP, QT@ + u32_be(0x200) + QT@ + ISOM@ + MP42@);
}

proof fn lemma_track_media(tracks: Seq<TrackWrite>, rest: Seq<u8>, i: int)
    requires
        0 <= i < tracks.len(),
    ensures
        ({
            let file = file_head(tracks) + rest;
            let s = sample_bytes(tracks[i]);
            let a = aux_bytes(tracks[i]);
            &&& 0 <= samples_start(tracks, i)
            &&& aux_start(tracks, i) + a.len() <= file_head(tracks).len() <= file.len()
            &&& file.subrange(samples_start(tracks, i), samples_start(tracks, i) + s.len()) == s
            &&& file.subrange(aux_start(tracks, i), aux_start(tracks, i) + a.len()) == a
        }),
{
    let head = ftyp_atom() + mdat_header(media_len(tracks) as nat);
    let media = media_bytes(tracks);
    let f = media_rows(tracks);
    let file = file_head(tracks) + rest;
    lemma_media_start(tracks);
    lemma_cat_piece(tracks.len(), f, i);
    let at = cat(i as nat, f).len() as int;
    let s = sample_bytes(tracks[i]);
    let a = aux_bytes(tracks[i]);
    let p = samples_start(tracks, i);
    let whole = s + a;
    assert(f(i) == whole);
    assert(file.subrange(p, p + whole.len()) =~= media.subrange(at, at + whole.len()));
    lemma_part(file, p, p + whole.len(), 0, s.len() as int);
    lemma_part(file, p, p + whole.len(), s.len() as int, whole.len() as int);
    assert(whole.subrange(0, s.len() as int) =~= s);
    assert(whole.subrange(s.len() as int, whole.len() as int) =~= a);
}

proof fn lemma_places(tracks: Seq<TrackWrite>, i: int)
    requires
        0 <= i < tracks.len(),
        file_head(tracks).len() <= 0xffff_ffff_ffff_ffff,
    ensures
        track_places(tracks)[i].chunk_offset == samples_start(tracks, i),
        tracks[i].sample_aux is Some ==> track_places(tracks)[i].aux_offset == Some(
            aux_start(tracks, i) as u64,
        ) && aux_start(tracks, i) <= 0xffff_ffff_ffff_ffff,
        !needs_wide(tracks) ==> samples_start(tracks, i) <= 0xffff_ffff,
{
    lemma_track_media(tracks, Seq::empty(), i);
    assert(track_places(tracks)[i] == track_place(tracks, i));
}

/// Each sample stands where the tables of its track say: behind the samples
/// before it in the chunk of the track. Where the offsets are written in 32
/// bits, they fit.
pub proof fn law_samples_stand_where_the_tables_say(
    tracks: Seq<TrackWrite>,
    rest: Seq<u8>,
    i: int,
    j: int,
)
    requires
        0 <= i < tracks.len(),
        0 <= j < tracks[i].samples@.len(),
        file_head(tracks).len() <= 0xffff_ffff_ffff_ffff,
    ensures
        ({
            let file = file_head(tracks) + rest;
            let chunk = track_places(tracks)[i].chunk_offset;
            let at = chunk + cat(j as nat, sample_rows(tracks[i].samples@)).len();
            let data = tracks[i].samples@[j].data@;
            &&& at + data.len() <= file.len()
            &&& file.subrange(at, at + data.len()) == data
            &&& !needs_wide(tracks) ==> low32(chunk as int) == chunk
        }),
{
    let file = file_head(tracks) + rest;
    let f = sample_rows(tracks[i].samples@);
    lemma_track_media(tracks, rest, i);
    lemma_places(tracks, i);
    lemma_piece_at(file, samples_start(tracks, i), tracks[i].samples@.len(), f, j);
}

/// The auxiliary information of each sample stands where the tables of its track
/// say: behind that of the samples before it.
pub proof fn law_aux_stands_where_the_tables_say(
    tracks: Seq<TrackWrite>,
    rest: Seq<u8>,
    i: int,
    j: int,
)
    requires
        0 <= i < tracks.len(),
        tracks[i].sample_aux is Some,
        0 <= j < tracks[i].sample_aux->Some_0.per_sample@.len(),
        file_head(tracks).len() <= 0xffff_ffff_ffff_ffff,
    ensures
        ({
            let file = file_head(tracks) + rest;
            let blobs = tracks[i].sample_aux->Some_0.per_sample@;
            let place = track_places(tracks)[i].aux_offset;
            let at = place->Some_0 + cat(j as nat, blob_rows(blobs)).len();
            let blob = blobs[j]@;
            &&& place is Some
            &&& at + blob.len() <= file.len()
            &&& file.subrange(at, at + blob.len()) == blob
        }),
{
    let file = file_head(tracks) + rest;
    let blobs = tracks[i].sample_aux->Some_0.per_sample@;
    lemma_track_media(tracks, rest, i);
    lemma_places(tracks, i);
    lemma_piece_at(file, aux_start(tracks, i), blobs.len(), blob_rows(blobs), j);
}

} // verus!
