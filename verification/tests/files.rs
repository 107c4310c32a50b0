use oxideav_mov::bitstream::BitWriter;
use oxideav_mov::brand::parse_ftyp;
use oxideav_mov::fragments::build_trun;
use oxideav_mov::header::{parse_elng, parse_hdlr, parse_mdhd, parse_mvhd, parse_tkhd};
use oxideav_mov::mux_boxes::{build_elng, build_mvhd, self_ref_index, track_movie_duration};
use oxideav_mov::mux_tables::{build_cslg, build_stsz, build_stts, derive_cslg};
use oxideav_mov::mux_types::TrackWrite;
use oxideav_mov::muxer::{
    DataReferenceWrite, FragmentationMode, MovMuxer, MuxSample, MuxTrackKind, SampleAuxStream,
};
use oxideav_mov::runs::run_lengths;
use oxideav_mov::slices::{slice_fragments, FragmentRun};

fn u32_of(b: &[u8], at: usize) -> u32 {
    u32::from_be_bytes([b[at], b[at + 1], b[at + 2], b[at + 3]])
}

fn boxes(body: &[u8]) -> Vec<([u8; 4], usize, usize)> {
    let mut out: Vec<([u8; 4], usize, usize)> = Vec::new();
    let mut at: usize = 0;
    while at + 8 <= body.len() {
        let size: usize = u32_of(body, at) as usize;
        out.push((body[at + 4..at + 8].try_into().unwrap(), at, at + size));
        at += size;
    }
    assert_eq!(at, body.len());
    out
}

fn child<'a>(body: &'a [u8], code: &[u8; 4]) -> Option<&'a [u8]> {
    for (c, from, to) in boxes(body) {
        if &c == code {
            return Some(&body[from + 8..to]);
        }
    }
    None
}

fn path<'a>(file: &'a [u8], codes: &[&[u8; 4]]) -> Option<&'a [u8]> {
    let mut body: &'a [u8] = file;
    for code in codes {
        body = child(body, code)?;
    }
    Some(body)
}

fn sample(byte: u8, len: usize, duration: u32, keyframe: bool) -> MuxSample {
    MuxSample {
        data: vec![byte; len],
        duration,
        keyframe,
        composition_offset: 0,
    }
}

fn video_kind() -> MuxTrackKind {
    MuxTrackKind::Video {
        format: *b"avc1",
        width: 320,
        height: 240,
    }
}

fn audio_kind() -> MuxTrackKind {
    MuxTrackKind::Audio {
        format: *b"sowt",
        channels: 2,
        bits_per_sample: 16,
        sample_rate: 48000,
    }
}

fn two_tracks() -> MovMuxer {
    let mut m = MovMuxer::new();
    m.add_track(
        video_kind(),
        10,
        vec![
            sample(1, 4, 5, true),
            sample(2, 5, 5, false),
            sample(3, 6, 5, true),
            sample(4, 7, 5, false),
        ],
        &[],
    );
    m.add_track(
        audio_kind(),
        100,
        (0..7).map(|i| sample(0x10 + i, 2 + i as usize, 30, true)).collect(),
        &[],
    );
    m.set_sample_aux(
        2,
        SampleAuxStream {
            aux_info_type: Some(*b"cenc"),
            aux_info_type_parameter: 1,
            per_sample: (0..7).map(|i| vec![0x80 + i; 3]).collect(),
        },
    )
    .unwrap();
    m
}

#[test]
fn samples_and_aux_stand_where_the_tables_say() {
    let bytes = two_tracks().encode_to_vec().unwrap();
    let top: Vec<[u8; 4]> = boxes(&bytes).iter().map(|b| b.0).collect();
    assert_eq!(top, [*b"ftyp", *b"mdat", *b"moov"]);
    let moov = child(&bytes, b"moov").unwrap();
    let traks: Vec<&[u8]> = boxes(moov)
        .iter()
        .filter(|b| &b.0 == b"trak")
        .map(|b| &moov[b.1 + 8..b.2])
        .collect();
    assert_eq!(traks.len(), 2);
    let first = path(traks[0], &[b"mdia", b"minf", b"stbl"]).unwrap();
    let second = path(traks[1], &[b"mdia", b"minf", b"stbl"]).unwrap();
    let mut at: usize = u32_of(child(first, b"stco").unwrap(), 8) as usize;
    assert_eq!(at, 36);
    for (byte, len) in [(1u8, 4usize), (2, 5), (3, 6), (4, 7)] {
        assert_eq!(bytes[at..at + len], vec![byte; len]);
        at += len;
    }
    assert_eq!(u32_of(child(second, b"stco").unwrap(), 8) as usize, at);
    for i in 0..7usize {
        assert_eq!(bytes[at..at + 2 + i], vec![0x10 + i as u8; 2 + i]);
        at += 2 + i;
    }
    let saio = child(second, b"saio").unwrap();
    assert_eq!(u32_of(saio, 12), 1);
    assert_eq!(u32_of(saio, 16) as usize, at);
    for i in 0..7u8 {
        assert_eq!(bytes[at..at + 3], [0x80 + i; 3]);
        at += 3;
    }
    let saiz = child(second, b"saiz").unwrap();
    assert_eq!(saiz[12], 3);
    assert_eq!(u32_of(saiz, 13), 7);
}

#[test]
fn headers_of_a_file_are_read_back() {
    let bytes = two_tracks().encode_to_vec().unwrap();
    let ftyp = parse_ftyp(child(&bytes, b"ftyp").unwrap()).unwrap();
    assert!(ftyp.is_quicktime());
    assert_eq!(ftyp.compatible_brands, [*b"qt  ", *b"isom", *b"mp42"]);
    let moov = child(&bytes, b"moov").unwrap();
    let mvhd = parse_mvhd(child(moov, b"mvhd").unwrap()).unwrap();
    assert_eq!(mvhd.time_scale, 600);
    assert_eq!(mvhd.duration, 1260);
    assert_eq!(mvhd.next_track_id, 3);
    assert_eq!(mvhd.volume, 0x100);
    let tkhd = parse_tkhd(path(moov, &[b"trak", b"tkhd"]).unwrap()).unwrap();
    assert_eq!(tkhd.flags, 7);
    assert_eq!(tkhd.track_id, 1);
    assert_eq!(tkhd.duration, 1200);
    assert_eq!(tkhd.width(), 320);
    assert_eq!(tkhd.height(), 240);
    assert_eq!(tkhd.volume, 0);
    let mdhd = parse_mdhd(path(moov, &[b"trak", b"mdia", b"mdhd"]).unwrap()).unwrap();
    assert_eq!(mdhd.time_scale, 10);
    assert_eq!(mdhd.duration, 20);
    assert_eq!(mdhd.language, 0x55c4);
    let hdlr = parse_hdlr(path(moov, &[b"trak", b"mdia", b"hdlr"]).unwrap()).unwrap();
    assert!(hdlr.is_video());
    assert_eq!(parse_elng(&build_elng("zh-Hant")).unwrap(), "zh-Hant");
    let long = build_mvhd(1, u32::MAX, 2);
    assert_eq!(parse_mvhd(&long).unwrap().duration, u32::MAX as u64);
}

#[test]
fn durations_are_rounded_to_the_nearest() {
    let t = |duration: u32, timescale: u32| {
        TrackWrite::new(video_kind(), timescale, vec![sample(0, 1, duration, true)], &[])
    };
    assert_eq!(track_movie_duration(&t(1, 3), 600), 200);
    assert_eq!(track_movie_duration(&t(1, 7), 600), 86);
    assert_eq!(track_movie_duration(&t(1, 1200), 600), 1);
    assert_eq!(track_movie_duration(&t(1, 1201), 600), 0);
    assert_eq!(track_movie_duration(&t(9, 0), 2), 18);
}

#[test]
fn fragments_hold_every_sample_once() {
    let bytes = two_tracks()
        .with_fragmentation(FragmentationMode::ByFrameCount(3))
        .encode_fragmented_to_vec()
        .unwrap();
    let top = boxes(&bytes);
    let codes: Vec<[u8; 4]> = top.iter().map(|b| b.0).collect();
    assert_eq!(
        codes,
        [*b"ftyp", *b"moov", *b"moof", *b"mdat", *b"moof", *b"mdat"]
    );
    let mut first: Vec<Vec<u8>> = Vec::new();
    let mut second: Vec<Vec<u8>> = Vec::new();
    let mut aux: Vec<u8> = Vec::new();
    let mut number: u32 = 1;
    for (code, from, to) in &top {
        if code != b"moof" {
            continue;
        }
        let moof = &bytes[from + 8..*to];
        assert_eq!(u32_of(child(moof, b"mfhd").unwrap(), 4), number);
        number += 1;
        for (c, a, b) in boxes(moof) {
            if &c != b"traf" {
                continue;
            }
            let traf = &moof[a + 8..b];
            let tfhd = child(traf, b"tfhd").unwrap();
            assert_eq!(u32_of(tfhd, 0), 0x02_0000);
            let trun = child(traf, b"trun").unwrap();
            assert_eq!(u32_of(trun, 0), 0x701);
            let mut at: usize = from + u32_of(trun, 8) as usize;
            for k in 0..u32_of(trun, 4) as usize {
                let size: usize = u32_of(trun, 16 + 12 * k) as usize;
                let data = bytes[at..at + size].to_vec();
                at += size;
                if u32_of(tfhd, 4) == 1 {
                    assert_eq!(u32_of(trun, 12 + 12 * k), 5);
                    let sync: bool = u32_of(trun, 20 + 12 * k) == 0;
                    assert_eq!(sync, data[0] % 2 == 1);
                    first.push(data);
                } else {
                    assert_eq!(u32_of(trun, 12 + 12 * k), 30);
                    second.push(data);
                }
            }
            if u32_of(tfhd, 4) == 2 {
                let saiz = child(traf, b"saiz").unwrap();
                let saio = child(traf, b"saio").unwrap();
                assert_eq!(saiz[12], 3);
                let n: usize = 3 * u32_of(saiz, 13) as usize;
                let at: usize = from + u32_of(saio, 16) as usize;
                aux.extend_from_slice(&bytes[at..at + n]);
            }
        }
    }
    assert_eq!(first, [vec![1; 4], vec![2; 5], vec![3; 6], vec![4; 7]]);
    let want: Vec<Vec<u8>> = (0..7u8).map(|i| vec![0x10 + i; 2 + i as usize]).collect();
    assert_eq!(second, want);
    let blobs: Vec<u8> = (0..7u8).flat_map(|i| [0x80 + i; 3]).collect();
    assert_eq!(aux, blobs);
}

#[test]
fn the_first_movie_box_of_a_fragmented_file_holds_no_samples() {
    let bytes = two_tracks()
        .with_fragmentation(FragmentationMode::ByDuration(10))
        .encode_fragmented_to_vec()
        .unwrap();
    let ftyp = parse_ftyp(child(&bytes, b"ftyp").unwrap()).unwrap();
    assert_eq!(ftyp.major_brand, *b"iso5");
    assert_eq!(
        ftyp.compatible_brands,
        [*b"iso5", *b"isom", *b"mp42", *b"dash", *b"msdh"]
    );
    let moov = child(&bytes, b"moov").unwrap();
    assert_eq!(parse_mvhd(child(moov, b"mvhd").unwrap()).unwrap().duration, 0);
    let stbl = path(moov, &[b"trak", b"mdia", b"minf", b"stbl"]).unwrap();
    assert_eq!(child(stbl, b"stts").unwrap(), [0; 8]);
    assert_eq!(child(stbl, b"stsz").unwrap(), [0; 12]);
    let mvex = child(moov, b"mvex").unwrap();
    let trex = boxes(mvex);
    assert_eq!(trex.len(), 2);
    assert_eq!(u32_of(mvex, 8 + 20), 0x1_0000);
    assert_eq!(u32_of(mvex, trex[1].1 + 8 + 20), 0);
    assert_eq!(u32_of(mvex, trex[1].1 + 8 + 4), 2);
}

#[test]
fn slices_follow_the_first_track() {
    let run = |track_idx: usize, lo: usize, hi: usize| FragmentRun { track_idx, lo, hi };
    let tracks = vec![
        TrackWrite::new(
            video_kind(),
            10,
            (0..5).map(|_| sample(0, 1, 4, true)).collect(),
            &[],
        ),
        TrackWrite::new(
            audio_kind(),
            100,
            (0..9).map(|_| sample(0, 1, 35, true)).collect(),
            &[],
        ),
    ];
    let by_time = slice_fragments(&tracks, FragmentationMode::ByDuration(7));
    assert_eq!(
        by_time,
        [
            vec![run(0, 0, 2), run(1, 0, 3)],
            vec![run(0, 2, 4), run(1, 3, 5)],
            vec![run(0, 4, 5), run(1, 5, 9)],
        ]
    );
    let by_count = slice_fragments(&tracks, FragmentationMode::ByFrameCount(4));
    assert_eq!(
        by_count,
        [
            vec![run(0, 0, 4), run(1, 0, 5)],
            vec![run(0, 4, 5), run(1, 5, 9)],
        ]
    );
    let whole = slice_fragments(&tracks, FragmentationMode::ByDuration(u64::MAX));
    assert_eq!(whole, [vec![run(0, 0, 5), run(1, 0, 9)]]);
    assert!(slice_fragments(&Vec::new(), FragmentationMode::ByFrameCount(1)).is_empty());
}

#[test]
fn a_run_box_says_each_sample() {
    let s = [sample(1, 3, 7, true), sample(2, 300, 8, false)];
    assert_eq!(
        build_trun(&s, -2),
        [
            0, 0, 7, 1, 0, 0, 0, 2, 0xff, 0xff, 0xff, 0xfe, 0, 0, 0, 7, 0, 0, 0, 3, 0, 0, 0, 0, 0,
            0, 0, 8, 0, 0, 1, 44, 0, 1, 0, 0
        ]
    );
}

#[test]
fn the_sample_description_names_this_file() {
    let url = || DataReferenceWrite::Url("x".to_string());
    assert_eq!(self_ref_index(&Vec::new()), 1);
    assert_eq!(self_ref_index(&vec![url(), url(), DataReferenceWrite::SelfRef]), 3);
    assert_eq!(self_ref_index(&vec![url()]), 1);
}

#[test]
fn runs_are_as_long_as_possible() {
    assert_eq!(run_lengths(&vec![7, 7, 7, 2, 7, 7]), [(3, 7), (1, 2), (2, 7)]);
    assert!(run_lengths(&Vec::new()).is_empty());
    let t = TrackWrite::new(
        video_kind(),
        1,
        vec![sample(0, 1, 4, true), sample(0, 1, 4, true), sample(0, 1, 9, true)],
        &[],
    );
    assert_eq!(
        build_stts(&t),
        [0, 0, 0, 0, 0, 0, 0, 2, 0, 0, 0, 2, 0, 0, 0, 4, 0, 0, 0, 1, 0, 0, 0, 9]
    );
    assert_eq!(build_stsz(&t), [0, 0, 0, 0, 0, 0, 0, 1, 0, 0, 0, 3]);
}

#[test]
fn derived_bounds_cover_the_samples() {
    let mut samples: Vec<MuxSample> = Vec::new();
    for off in [0i32, 3000, -1000, 2000] {
        samples.push(MuxSample {
            data: vec![0],
            duration: 1000,
            keyframe: true,
            composition_offset: off,
        });
    }
    let mut t = TrackWrite::new(video_kind(), 30000, samples, &[]);
    let c = derive_cslg(&t);
    assert_eq!(c.composition_to_dts_shift, 1000);
    assert_eq!(c.least_decode_to_display_delta, -1000);
    assert_eq!(c.greatest_decode_to_display_delta, 3000);
    assert_eq!(c.composition_start_time, 0);
    assert_eq!(c.composition_end_time, 6000);
    assert!(build_cslg(&t).is_none());
    t.cslg = Some(oxideav_mov::muxer::CslgWrite::Auto);
    let body = build_cslg(&t).unwrap();
    assert_eq!(oxideav_mov::media_meta::parse_cslg(&body).unwrap(), c);
    let mut wide = c;
    wide.composition_end_time = 1 << 40;
    t.cslg = Some(oxideav_mov::muxer::CslgWrite::Explicit(wide));
    let body = build_cslg(&t).unwrap();
    assert_eq!(body[0], 1);
    assert_eq!(oxideav_mov::media_meta::parse_cslg(&body).unwrap(), wide);
}

#[test]
fn bits_are_packed_from_the_top() {
    let mut w = BitWriter::new();
    w.put(5, 3);
    w.put(0x1ff, 9);
    w.put(1, 6);
    assert_eq!(w.finish(), [0xbf, 0xf0, 0x40]);
}
