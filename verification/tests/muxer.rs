use oxideav_mov::cmov::{parse_cmov, DCOM_ALG_ZLIB};
use oxideav_mov::media_meta::{
    Clap, ColorParameters, ColorParametersKind, Fiel, FieldOrdering, Pasp, parse_clap, parse_colr,
    parse_fiel, parse_pasp,
};
use oxideav_mov::mux_boxes::build_elst;
use oxideav_mov::mux_groups::{build_csgp, build_saio, build_saiz, csgp_min_size_code};
use oxideav_mov::mux_layout::build_ftyp;
use oxideav_mov::mux_tables::{build_ctts, build_stss, build_stsz, build_stts};
use oxideav_mov::mux_trak::build_stbl;
use oxideav_mov::mux_types::{
    MuxEdit, MuxSample, MuxTrackKind, SampleAuxStream, SampleGroupBoxForm, SampleToGroupWrite,
    TrackWrite, VisualExtensions,
};
use oxideav_mov::muxer::MovMuxer;

fn synth_video_samples(n: usize) -> Vec<MuxSample> {
    (0..n)
        .map(|i| MuxSample {
            data: vec![(i & 0xFF) as u8; 16 + (i % 8)],
            duration: 1000,
            keyframe: i % 5 == 0,
            composition_offset: 0,
        })
        .collect()
}

fn u32_of(b: &[u8], at: usize) -> u32 {
    u32::from_be_bytes([b[at], b[at + 1], b[at + 2], b[at + 3]])
}

fn i32_of(b: &[u8], at: usize) -> i32 {
    u32_of(b, at) as i32
}

fn child<'a>(body: &'a [u8], code: &[u8; 4]) -> Option<&'a [u8]> {
    let mut at: usize = 0;
    while at + 8 <= body.len() {
        let size: usize = u32_of(body, at) as usize;
        if &body[at + 4..at + 8] == code {
            return Some(&body[at + 8..at + size]);
        }
        at += size;
    }
    None
}

fn path<'a>(file: &'a [u8], codes: &[&[u8; 4]]) -> Option<&'a [u8]> {
    let mut body: &'a [u8] = file;
    for code in codes {
        body = child(body, code)?;
    }
    Some(body)
}

fn video_entry(file: &[u8]) -> &[u8] {
    let stsd = path(file, &[b"moov", b"trak", b"mdia", b"minf", b"stbl", b"stsd"]).unwrap();
    let size: usize = u32_of(stsd, 8) as usize;
    &stsd[8 + 16 + 70..8 + size]
}

struct Saiz {
    aux_info_type: Option<([u8; 4], u32)>,
    default_sample_info_size: u8,
    sample_count: u32,
    sample_info_sizes: Vec<u8>,
}

fn aux_type(body: &[u8]) -> (Option<([u8; 4], u32)>, usize) {
    if body[3] & 1 == 1 {
        let code: [u8; 4] = body[4..8].try_into().unwrap();
        (Some((code, u32_of(body, 8))), 12)
    } else {
        (None, 4)
    }
}

fn decode_saiz(body: &[u8]) -> Saiz {
    let (aux_info_type, at) = aux_type(body);
    Saiz {
        aux_info_type,
        default_sample_info_size: body[at],
        sample_count: u32_of(body, at + 1),
        sample_info_sizes: body[at + 5..].to_vec(),
    }
}

struct Saio {
    version: u8,
    aux_info_type: Option<([u8; 4], u32)>,
    offsets: Vec<u64>,
}

fn decode_saio(body: &[u8]) -> Saio {
    let (aux_info_type, at) = aux_type(body);
    let mut offsets: Vec<u64> = Vec::new();
    for k in 0..u32_of(body, at) as usize {
        offsets.push(if body[0] == 0 {
            u32_of(body, at + 4 + 4 * k) as u64
        } else {
            (u32_of(body, at + 4 + 8 * k) as u64) << 32 | u32_of(body, at + 8 + 8 * k) as u64
        });
    }
    Saio {
        version: body[0],
        aux_info_type,
        offsets,
    }
}

fn take_bits(body: &[u8], at: &mut usize, width: usize) -> u32 {
    let mut v: u32 = 0;
    for _ in 0..width {
        let bit: u8 = body[*at / 8] >> (7 - *at % 8) & 1;
        v = v << 1 | bit as u32;
        *at += 1;
    }
    v
}

struct Csgp {
    grouping_type: [u8; 4],
    grouping_type_parameter: u32,
    indices: Vec<u32>,
}

fn decode_csgp(body: &[u8]) -> Csgp {
    let flags: u32 = u32_of(body, 0);
    let widths: [usize; 4] = [4, 8, 16, 32];
    let index_width: usize = widths[(flags & 3) as usize];
    let count_width: usize = widths[(flags >> 2 & 3) as usize];
    let pattern_width: usize = widths[(flags >> 4 & 3) as usize];
    let mut at: usize = 8;
    let mut parameter: u32 = 0;
    if flags >> 6 & 1 == 1 {
        parameter = u32_of(body, at);
        at += 4;
    }
    let patterns: u32 = u32_of(body, at);
    let mut bit: usize = (at + 4) * 8;
    let mut shapes: Vec<(u32, u32)> = Vec::new();
    for _ in 0..patterns {
        let length: u32 = take_bits(body, &mut bit, pattern_width);
        let count: u32 = take_bits(body, &mut bit, count_width);
        shapes.push((length, count));
    }
    let mut indices: Vec<u32> = Vec::new();
    for (length, count) in shapes {
        let mut pattern: Vec<u32> = Vec::new();
        for _ in 0..length {
            pattern.push(take_bits(body, &mut bit, index_width));
        }
        for k in 0..count {
            indices.push(pattern[(k % length) as usize]);
        }
    }
    Csgp {
        grouping_type: body[4..8].try_into().unwrap(),
        grouping_type_parameter: parameter,
        indices,
    }
}

#[test]
fn ftyp_size_is_28_bytes_with_qt_major() {
    let v = build_ftyp();
    assert_eq!(v.len(), 28);
    assert_eq!(&v[4..8], b"ftyp");
    assert_eq!(&v[8..12], b"qt  ");
}

#[test]
fn empty_muxer_is_an_error() {
    let m = MovMuxer::new();
    assert!(m.encode_to_vec().is_err());
}

#[test]
fn track_with_zero_samples_is_an_error() {
    let mut m = MovMuxer::new();
    m.add_track(
        MuxTrackKind::Video {
            format: *b"avc1",
            width: 320,
            height: 240,
        },
        30000,
        Vec::new(),
        &[],
    );
    assert!(m.encode_to_vec().is_err());
}

#[test]
fn stts_runlength_encodes_uniform_durations() {
    let t = TrackWrite::new(
        MuxTrackKind::Video {
            format: *b"avc1",
            width: 8,
            height: 8,
        },
        1000,
        vec![
            MuxSample {
                data: vec![0; 4],
                duration: 33,
                keyframe: true,
                composition_offset: 0,
            },
            MuxSample {
                data: vec![0; 4],
                duration: 33,
                keyframe: false,
                composition_offset: 0,
            },
            MuxSample {
                data: vec![0; 4],
                duration: 33,
                keyframe: false,
                composition_offset: 0,
            },
        ],
        &[],
    );
    let stts = build_stts(&t);
    let n = u32::from_be_bytes([stts[4], stts[5], stts[6], stts[7]]);
    assert_eq!(n, 1);
    let count = u32::from_be_bytes([stts[8], stts[9], stts[10], stts[11]]);
    let dur = u32::from_be_bytes([stts[12], stts[13], stts[14], stts[15]]);
    assert_eq!(count, 3);
    assert_eq!(dur, 33);
    assert_eq!(stts.len(), 8 + 8);
}

fn track_with_offsets(offsets: &[i32]) -> TrackWrite {
    TrackWrite::new(
        MuxTrackKind::Video {
            format: *b"avc1",
            width: 8,
            height: 8,
        },
        30000,
        offsets
            .iter()
            .enumerate()
            .map(|(i, &off)| MuxSample {
                data: vec![(i & 0xFF) as u8; 8],
                duration: 1000,
                keyframe: i == 0,
                composition_offset: off,
            })
            .collect(),
        &[],
    )
}

#[test]
fn ctts_omitted_when_all_offsets_zero() {
    let t = track_with_offsets(&[0, 0, 0, 0]);
    assert!(
        build_ctts(&t).is_none(),
        "ctts must be omitted when PTS == DTS for every sample"
    );
}

#[test]
fn ctts_v0_when_all_offsets_non_negative() {
    let t = track_with_offsets(&[0, 2000, 1000, 1000, 0]);
    let body = build_ctts(&t).expect("ctts emitted");
    assert_eq!(body[0], 0, "version 0 expected for non-negative offsets");
    let n = u32::from_be_bytes([body[4], body[5], body[6], body[7]]);
    assert_eq!(n, 4);
    assert_eq!(
        u32::from_be_bytes([body[8], body[9], body[10], body[11]]),
        1
    );
    assert_eq!(
        u32::from_be_bytes([body[12], body[13], body[14], body[15]]),
        0
    );
    let r3_count = u32::from_be_bytes([body[24], body[25], body[26], body[27]]);
    let r3_off = u32::from_be_bytes([body[28], body[29], body[30], body[31]]);
    assert_eq!(r3_count, 2);
    assert_eq!(r3_off, 1000);
    assert_eq!(body.len(), 8 + 4 * 8);
}

#[test]
fn ctts_promotes_to_v1_when_any_offset_negative() {
    let t = track_with_offsets(&[0, -1000, 1000]);
    let body = build_ctts(&t).expect("ctts emitted");
    assert_eq!(body[0], 1, "version 1 forced by a negative offset");
    let n = u32::from_be_bytes([body[4], body[5], body[6], body[7]]);
    assert_eq!(n, 3);
    let r2_count = u32::from_be_bytes([body[16], body[17], body[18], body[19]]);
    let r2_off = i32::from_be_bytes([body[20], body[21], body[22], body[23]]);
    assert_eq!(r2_count, 1);
    assert_eq!(r2_off, -1000);
}

#[test]
fn ctts_roundtrips_through_demuxer() {
    let offsets = [0i32, 3000, -1000, 2000, 0];
    let mut m = MovMuxer::new().with_movie_timescale(600);
    m.add_track(
        MuxTrackKind::Video {
            format: *b"mp4v",
            width: 64,
            height: 48,
        },
        30000,
        track_with_offsets(&offsets).samples,
        &[],
    );
    let bytes = m.encode_to_vec().expect("encode reordered MOV");

    let stbl = path(&bytes, &[b"moov", b"trak", b"mdia", b"minf", b"stbl"]).unwrap();
    let ctts = child(stbl, b"ctts").expect("ctts table parsed back");
    let stts = child(stbl, b"stts").unwrap();
    assert_eq!(ctts[0], 1);
    let mut read: Vec<i32> = Vec::new();
    for k in 0..u32_of(ctts, 4) as usize {
        for _ in 0..u32_of(ctts, 8 + 8 * k) {
            read.push(i32_of(ctts, 12 + 8 * k));
        }
    }
    assert_eq!(read.len(), offsets.len());
    assert_eq!(u32_of(stts, 4), 1);
    assert_eq!(u32_of(stts, 8), 5);
    let duration: i64 = u32_of(stts, 12) as i64;
    let mut dts = 0i64;
    for (i, (&entry, &off)) in read.iter().zip(offsets.iter()).enumerate() {
        assert_eq!(entry, off, "composition offset at sample {i}");
        assert_eq!(dts + entry as i64, 1000 * i as i64 + off as i64, "PTS at sample {i}");
        dts += duration;
    }
}

#[test]
fn visual_extensions_roundtrip_through_demuxer() {
    let mut m = MovMuxer::new().with_movie_timescale(600);
    let tid = m.add_track(
        MuxTrackKind::Video {
            format: *b"mp4v",
            width: 1920,
            height: 1080,
        },
        30000,
        vec![MuxSample {
            data: vec![0u8; 16],
            duration: 1000,
            keyframe: true,
            composition_offset: 0,
        }],
        &[],
    );
    let ext = VisualExtensions {
        pasp: Some(Pasp {
            h_spacing: 40,
            v_spacing: 33,
        }),
        colr: Some(ColorParameters {
            kind: ColorParametersKind::Nclx {
                primaries: 9,
                transfer: 16,
                matrix: 9,
                full_range: true,
            },
        }),
        clap: Some(Clap {
            clean_aperture_width_n: 1916,
            clean_aperture_width_d: 1,
            clean_aperture_height_n: 1076,
            clean_aperture_height_d: 1,
            horiz_off_n: -2,
            horiz_off_d: 1,
            vert_off_n: 2,
            vert_off_d: 1,
        }),
        fiel: Some(Fiel {
            field_count: 2,
            field_ordering: 6,
        }),
        gamma: Some(0x0002_3333),
    };
    m.set_visual_extensions(tid, ext.clone())
        .expect("set visual extensions");
    let bytes = m
        .encode_to_vec()
        .expect("encode MOV with visual extensions");

    let entry = video_entry(&bytes);
    let pasp = parse_pasp(child(entry, b"pasp").unwrap()).unwrap();
    let colr = parse_colr(child(entry, b"colr").unwrap()).unwrap();
    let clap = parse_clap(child(entry, b"clap").unwrap()).unwrap();
    let fiel = parse_fiel(child(entry, b"fiel").unwrap()).unwrap();
    let gamma = u32_of(child(entry, b"gama").unwrap(), 0);
    assert_eq!(Some(pasp), ext.pasp, "pasp round-trips");
    assert_eq!(Some(colr), ext.colr, "colr round-trips");
    assert_eq!(Some(clap), ext.clap, "clap round-trips");
    assert_eq!(Some(fiel), ext.fiel, "fiel round-trips");
    assert_eq!(Some(gamma), ext.gamma, "gama round-trips");
    assert_eq!(fiel.ordering(), Some(FieldOrdering::BottomFieldFirst));
}

#[test]
fn visual_extensions_partial_only_emits_set_boxes() {
    let mut m = MovMuxer::new().with_movie_timescale(600);
    let tid = m.add_track(
        MuxTrackKind::Video {
            format: *b"mp4v",
            width: 64,
            height: 48,
        },
        30000,
        vec![MuxSample {
            data: vec![0u8; 8],
            duration: 1000,
            keyframe: true,
            composition_offset: 0,
        }],
        &[],
    );
    let ext = VisualExtensions {
        colr: Some(ColorParameters {
            kind: ColorParametersKind::Nclc {
                primaries: 1,
                transfer: 1,
                matrix: 1,
            },
        }),
        ..Default::default()
    };
    m.set_visual_extensions(tid, ext).expect("set colr only");
    let bytes = m.encode_to_vec().expect("encode");
    let entry = video_entry(&bytes);
    assert!(child(entry, b"colr").is_some(), "colr present");
    assert!(child(entry, b"pasp").is_none(), "no pasp emitted");
    assert!(child(entry, b"clap").is_none(), "no clap emitted");
    assert!(child(entry, b"fiel").is_none(), "no fiel emitted");
    assert!(child(entry, b"gama").is_none(), "no gama emitted");
}

#[test]
fn visual_extensions_rejected_on_audio_track() {
    let mut m = MovMuxer::new();
    let tid = m.add_track(
        MuxTrackKind::Audio {
            format: *b"mp4a",
            channels: 2,
            bits_per_sample: 16,
            sample_rate: 48000,
        },
        48000,
        vec![MuxSample {
            data: vec![0u8; 4],
            duration: 1024,
            keyframe: true,
            composition_offset: 0,
        }],
        &[],
    );
    let ext = VisualExtensions {
        pasp: Some(Pasp {
            h_spacing: 1,
            v_spacing: 1,
        }),
        ..Default::default()
    };
    assert!(
        m.set_visual_extensions(tid, ext).is_err(),
        "visual extensions are not valid on an audio sample entry"
    );
}

#[test]
fn visual_extensions_unknown_track_id_errors() {
    let mut m = MovMuxer::new();
    assert!(m
        .set_visual_extensions(99, VisualExtensions::default())
        .is_err());
}

#[test]
fn elst_v0_layout_unity_segment() {
    let body = build_elst(&[MuxEdit::segment(6000, 0)]);
    assert_eq!(body[0], 0, "version 0 for 32-bit-fitting fields");
    assert_eq!(&body[1..4], &[0, 0, 0], "flags = 0");
    let n = u32::from_be_bytes([body[4], body[5], body[6], body[7]]);
    assert_eq!(n, 1);
    assert_eq!(body.len(), 8 + 12);
    assert_eq!(
        u32::from_be_bytes([body[8], body[9], body[10], body[11]]),
        6000
    );
    assert_eq!(
        i32::from_be_bytes([body[12], body[13], body[14], body[15]]),
        0
    );
    assert_eq!(
        i32::from_be_bytes([body[16], body[17], body[18], body[19]]),
        0x0001_0000
    );
}

#[test]
fn elst_empty_edit_writes_minus_one_media_time() {
    let body = build_elst(&[MuxEdit::empty(1000), MuxEdit::segment(5000, 0)]);
    assert_eq!(body[0], 0);
    let n = u32::from_be_bytes([body[4], body[5], body[6], body[7]]);
    assert_eq!(n, 2);
    assert_eq!(
        i32::from_be_bytes([body[12], body[13], body[14], body[15]]),
        -1
    );
}

#[test]
fn elst_promotes_to_v1_on_wide_duration() {
    let body = build_elst(&[MuxEdit::segment(u32::MAX as u64 + 1, 0)]);
    assert_eq!(body[0], 1, "version 1 for >32-bit track_duration");
    assert_eq!(body.len(), 8 + 20);
    assert_eq!(
        u64::from_be_bytes([
            body[8], body[9], body[10], body[11], body[12], body[13], body[14], body[15]
        ]),
        u32::MAX as u64 + 1
    );
}

#[test]
fn set_edit_list_rejects_bad_negative_media_time() {
    let mut m = MovMuxer::new();
    m.add_track(
        MuxTrackKind::Video {
            format: *b"avc1",
            width: 8,
            height: 8,
        },
        30000,
        synth_video_samples(2),
        &[],
    );
    assert!(m
        .set_edit_list(
            1,
            &[MuxEdit {
                track_duration: 100,
                media_time: -2,
                media_rate: 0x0001_0000,
            }]
        )
        .is_err());
    assert!(m.set_edit_list(1, &[MuxEdit::empty(100)]).is_ok());
    assert!(m.set_edit_list(1, &[]).is_ok());
}

#[test]
fn set_edit_list_unknown_track_id_errors() {
    let mut m = MovMuxer::new();
    m.add_track(
        MuxTrackKind::Video {
            format: *b"avc1",
            width: 8,
            height: 8,
        },
        30000,
        synth_video_samples(2),
        &[],
    );
    assert!(m.set_edit_list(2, &[MuxEdit::segment(100, 0)]).is_err());
    assert!(m.set_edit_list(0, &[MuxEdit::segment(100, 0)]).is_err());
}

#[test]
fn edit_list_roundtrips_through_demuxer() {
    let mut m = MovMuxer::new().with_movie_timescale(600);
    let tid = m.add_track(
        MuxTrackKind::Video {
            format: *b"mp4v",
            width: 64,
            height: 48,
        },
        30000,
        synth_video_samples(6),
        &[],
    );
    let edits = [MuxEdit::empty(600), MuxEdit::segment(1200, 1500)];
    m.set_edit_list(tid, &edits).expect("attach edit list");
    let bytes = m.encode_to_vec().expect("encode MOV with edit list");

    let elst = path(&bytes, &[b"moov", b"trak", b"edts", b"elst"]).unwrap();
    assert_eq!(elst[0], 0);
    assert_eq!(u32_of(elst, 4), 2, "two edit segments parsed back");
    assert_eq!(u32_of(elst, 8), 600);
    assert_eq!(i32_of(elst, 12), -1, "head is an empty edit");
    assert_eq!(u32_of(elst, 20), 1200);
    assert_eq!(i32_of(elst, 24), 1500);
    assert_eq!(i32_of(elst, 28), 0x0001_0000);
}

#[test]
fn no_edit_list_emits_no_edts() {
    let mut m = MovMuxer::new();
    m.add_track(
        MuxTrackKind::Video {
            format: *b"avc1",
            width: 16,
            height: 16,
        },
        30000,
        synth_video_samples(3),
        &[],
    );
    let bytes = m.encode_to_vec().expect("encode MOV");
    assert!(
        !bytes.windows(4).any(|w| w == b"edts"),
        "no edts box when no edit list is set"
    );
}

#[test]
fn stss_omitted_when_all_keyframes() {
    let t = TrackWrite::new(
        MuxTrackKind::Audio {
            format: *b"sowt",
            channels: 2,
            bits_per_sample: 16,
            sample_rate: 44100,
        },
        44100,
        vec![
            MuxSample {
                data: vec![0; 1024],
                duration: 256,
                keyframe: true,
                composition_offset: 0,
            },
            MuxSample {
                data: vec![0; 1024],
                duration: 256,
                keyframe: true,
                composition_offset: 0,
            },
        ],
        &[],
    );
    assert!(build_stss(&t).is_none());
}

#[test]
fn stss_emitted_when_any_non_keyframe_present() {
    let t = TrackWrite::new(
        MuxTrackKind::Video {
            format: *b"avc1",
            width: 8,
            height: 8,
        },
        1000,
        synth_video_samples(11),
        &[],
    );
    let body = build_stss(&t).expect("stss should be emitted");
    let n = u32::from_be_bytes([body[4], body[5], body[6], body[7]]);
    assert_eq!(n, 3);
    let kf1 = u32::from_be_bytes([body[8], body[9], body[10], body[11]]);
    assert_eq!(kf1, 1);
    let kf3 = u32::from_be_bytes([body[16], body[17], body[18], body[19]]);
    assert_eq!(kf3, 11);
}

#[test]
fn stsz_uniform_when_all_samples_same_size() {
    let t = TrackWrite::new(
        MuxTrackKind::Audio {
            format: *b"sowt",
            channels: 1,
            bits_per_sample: 16,
            sample_rate: 8000,
        },
        8000,
        vec![
            MuxSample {
                data: vec![0; 64],
                duration: 32,
                keyframe: true,
                composition_offset: 0,
            },
            MuxSample {
                data: vec![0; 64],
                duration: 32,
                keyframe: true,
                composition_offset: 0,
            },
            MuxSample {
                data: vec![0; 64],
                duration: 32,
                keyframe: true,
                composition_offset: 0,
            },
        ],
        &[],
    );
    let stsz = build_stsz(&t);
    assert_eq!(stsz.len(), 12);
    assert_eq!(u32::from_be_bytes([stsz[4], stsz[5], stsz[6], stsz[7]]), 64);
    assert_eq!(
        u32::from_be_bytes([stsz[8], stsz[9], stsz[10], stsz[11]]),
        3
    );
}

#[test]
fn stsz_per_sample_when_sizes_vary() {
    let t = TrackWrite::new(
        MuxTrackKind::Video {
            format: *b"avc1",
            width: 8,
            height: 8,
        },
        1000,
        vec![
            MuxSample {
                data: vec![0; 16],
                duration: 33,
                keyframe: true,
                composition_offset: 0,
            },
            MuxSample {
                data: vec![0; 17],
                duration: 33,
                keyframe: false,
                composition_offset: 0,
            },
        ],
        &[],
    );
    let stsz = build_stsz(&t);
    assert_eq!(u32::from_be_bytes([stsz[4], stsz[5], stsz[6], stsz[7]]), 0);
    assert_eq!(
        u32::from_be_bytes([stsz[8], stsz[9], stsz[10], stsz[11]]),
        2
    );
    assert_eq!(stsz.len(), 12 + 2 * 4);
}

#[test]
fn saiz_default_size_form_for_uniform_blobs() {
    let aux = SampleAuxStream {
        aux_info_type: Some(*b"cenc"),
        aux_info_type_parameter: 0,
        per_sample: vec![vec![0u8; 16]; 4],
    };
    let body = build_saiz(&aux);
    assert_eq!(body[0], 0);
    let parsed = decode_saiz(&body);
    assert_eq!(parsed.default_sample_info_size, 16);
    assert_eq!(parsed.sample_count, 4);
    assert!(parsed.sample_info_sizes.is_empty());
    let a = parsed.aux_info_type.unwrap();
    assert_eq!(&a.0, b"cenc");
    assert_eq!(a.1, 0);
}

#[test]
fn saiz_per_sample_table_for_varying_blobs() {
    let aux = SampleAuxStream {
        aux_info_type: None,
        aux_info_type_parameter: 0,
        per_sample: vec![vec![0u8; 8], vec![], vec![0u8; 24]],
    };
    let body = build_saiz(&aux);
    let parsed = decode_saiz(&body);
    assert!(parsed.aux_info_type.is_none());
    assert_eq!(parsed.default_sample_info_size, 0);
    assert_eq!(parsed.sample_count, 3);
    assert_eq!(parsed.sample_info_sizes, vec![8u8, 0, 24]);
}

#[test]
fn saiz_all_empty_blobs_use_per_sample_zeros() {
    let aux = SampleAuxStream {
        aux_info_type: None,
        aux_info_type_parameter: 0,
        per_sample: vec![vec![]; 3],
    };
    let body = build_saiz(&aux);
    let parsed = decode_saiz(&body);
    assert_eq!(parsed.default_sample_info_size, 0);
    assert_eq!(parsed.sample_count, 3);
    assert_eq!(parsed.sample_info_sizes, vec![0u8, 0, 0]);
}

#[test]
fn saio_v0_single_entry_for_small_offset() {
    let aux = SampleAuxStream {
        aux_info_type: None,
        aux_info_type_parameter: 0,
        per_sample: vec![],
    };
    let body = build_saio(&aux, 0x1234);
    let parsed = decode_saio(&body);
    assert_eq!(parsed.version, 0);
    assert_eq!(parsed.offsets.len(), 1);
    assert_eq!(parsed.offsets[0], 0x1234);
    assert!(parsed.aux_info_type.is_none());
}

#[test]
fn saio_v1_single_entry_for_large_offset() {
    let big = 0x1_0000_0000u64;
    let aux = SampleAuxStream {
        aux_info_type: Some(*b"cenc"),
        aux_info_type_parameter: 3,
        per_sample: vec![],
    };
    let body = build_saio(&aux, big);
    let parsed = decode_saio(&body);
    assert_eq!(parsed.version, 1);
    assert_eq!(parsed.offsets.len(), 1);
    assert_eq!(parsed.offsets[0], big);
    let a = parsed.aux_info_type.expect("aux pair");
    assert_eq!(&a.0, b"cenc");
    assert_eq!(a.1, 3);
}

#[test]
fn set_sample_aux_rejects_wrong_blob_count() {
    let mut m = MovMuxer::new();
    let id = m.add_track(
        MuxTrackKind::Audio {
            format: *b"sowt",
            channels: 2,
            bits_per_sample: 16,
            sample_rate: 44100,
        },
        44100,
        vec![MuxSample {
            data: vec![1, 2, 3],
            duration: 1024,
            keyframe: true,
            composition_offset: 0,
        }],
        &[],
    );
    let err = m.set_sample_aux(
        id,
        SampleAuxStream {
            aux_info_type: None,
            aux_info_type_parameter: 0,
            per_sample: vec![vec![0u8; 4], vec![0u8; 4]],
        },
    );
    assert!(err.is_err());
}

#[test]
fn set_sample_aux_rejects_oversize_blob() {
    let mut m = MovMuxer::new();
    let id = m.add_track(
        MuxTrackKind::Audio {
            format: *b"sowt",
            channels: 1,
            bits_per_sample: 16,
            sample_rate: 8000,
        },
        8000,
        vec![MuxSample {
            data: vec![1],
            duration: 1,
            keyframe: true,
            composition_offset: 0,
        }],
        &[],
    );
    let err = m.set_sample_aux(
        id,
        SampleAuxStream {
            aux_info_type: None,
            aux_info_type_parameter: 0,
            per_sample: vec![vec![0u8; 256]],
        },
    );
    assert!(err.is_err());
}

#[test]
fn set_sample_aux_rejects_unknown_track() {
    let mut m = MovMuxer::new();
    let err = m.set_sample_aux(
        99,
        SampleAuxStream {
            aux_info_type: None,
            aux_info_type_parameter: 0,
            per_sample: vec![],
        },
    );
    assert!(err.is_err());
}

fn encode_video(compress: bool) -> Vec<u8> {
    let mut m = MovMuxer::new()
        .with_movie_timescale(600)
        .with_compressed_movie_resource(compress);
    m.add_track(
        MuxTrackKind::Video {
            format: *b"mp4v",
            width: 320,
            height: 240,
        },
        30000,
        synth_video_samples(6),
        &[],
    );
    m.encode_to_vec().expect("encode video MOV")
}

#[test]
fn compress_movie_resource_flag_defaults_off() {
    assert!(!MovMuxer::new().compresses_movie_resource());
    assert!(MovMuxer::new()
        .with_compressed_movie_resource(true)
        .compresses_movie_resource());
}

#[test]
fn compressed_write_emits_moov_cmov_dcom_cmvd_tree() {
    let bytes = encode_video(true);
    let moov_pos = bytes
        .windows(4)
        .position(|w| w == b"moov")
        .expect("moov FourCC present");
    let size_off = moov_pos - 4;
    let moov_size =
        u32::from_be_bytes(bytes[size_off..size_off + 4].try_into().unwrap()) as usize;
    let moov_body = &bytes[moov_pos + 4..size_off + moov_size];
    let cmov_size = u32::from_be_bytes(moov_body[0..4].try_into().unwrap()) as usize;
    assert_eq!(&moov_body[4..8], b"cmov");
    let cmov_body = &moov_body[8..cmov_size];
    let cmov = parse_cmov(cmov_body).expect("parse cmov body");
    assert_eq!(cmov.dcom.algorithm, DCOM_ALG_ZLIB);
    let resource = cmov.decompress().expect("decompress movie resource");
    assert_eq!(
        &resource[4..8],
        b"moov",
        "decompressed resource is a moov atom"
    );
    assert_eq!(
        resource.len() as u32,
        cmov.cmvd.uncompressed_size,
        "decompressed length equals the cmvd size word"
    );
}

#[test]
fn compressed_resource_decompresses_to_the_plain_moov() {
    let plain = encode_video(false);
    let compressed = encode_video(true);

    let plain_moov_pos = plain
        .windows(4)
        .position(|w| w == b"moov")
        .expect("plain moov present");
    let plain_moov = &plain[plain_moov_pos - 4..];

    let cmov_moov_pos = compressed
        .windows(4)
        .position(|w| w == b"moov")
        .expect("compressed moov present");
    let cmov_pos = cmov_moov_pos + 4;
    let cmov_size =
        u32::from_be_bytes(compressed[cmov_pos..cmov_pos + 4].try_into().unwrap()) as usize;
    let cmov_body = &compressed[cmov_pos + 8..cmov_pos + cmov_size];
    let cmov = parse_cmov(cmov_body).expect("parse cmov");
    let resource = cmov.decompress().expect("decompress");

    assert_eq!(
        resource, plain_moov,
        "decompressed resource is byte-identical to the plain moov atom"
    );
}

#[test]
fn plain_write_emits_no_cmov() {
    let plain = encode_video(false);
    assert!(
        !plain.windows(4).any(|w| w == b"cmov"),
        "plain output must carry no cmov atom"
    );
}

fn assert_csgp_roundtrip(grouping_type: [u8; 4], gtp: Option<u32>, indices: &[u32]) {
    let g = SampleToGroupWrite {
        grouping_type,
        grouping_type_parameter: gtp,
        indices: indices.to_vec(),
    };
    let body = build_csgp(&g);
    let parsed = decode_csgp(&body);
    assert_eq!(parsed.grouping_type, grouping_type);
    assert_eq!(parsed.grouping_type_parameter, gtp.unwrap_or(0));
    assert_eq!(parsed.indices.len(), indices.len());
    for (i, &want) in indices.iter().enumerate() {
        assert_eq!(
            parsed.indices[i],
            want,
            "sample {i} index mismatch"
        );
    }
}

#[test]
fn csgp_min_size_code_boundaries() {
    assert_eq!(csgp_min_size_code(0), (0, 4));
    assert_eq!(csgp_min_size_code(15), (0, 4));
    assert_eq!(csgp_min_size_code(16), (1, 8));
    assert_eq!(csgp_min_size_code(255), (1, 8));
    assert_eq!(csgp_min_size_code(256), (2, 16));
    assert_eq!(csgp_min_size_code(65535), (2, 16));
    assert_eq!(csgp_min_size_code(65536), (3, 32));
    assert_eq!(csgp_min_size_code(u32::MAX), (3, 32));
}

#[test]
fn csgp_roundtrips_simple_runs() {
    assert_csgp_roundtrip(*b"roll", None, &[1, 1, 2, 2]);
}

#[test]
fn csgp_roundtrips_alternating_indices() {
    assert_csgp_roundtrip(*b"rap ", None, &[1, 0, 2, 0, 3]);
}

#[test]
fn csgp_roundtrips_zero_index_no_group() {
    assert_csgp_roundtrip(*b"prol", None, &[0, 0, 0]);
}

#[test]
fn csgp_roundtrips_with_grouping_type_parameter() {
    assert_csgp_roundtrip(*b"seig", Some(0xDEAD_BEEF), &[1, 2, 3, 1, 2, 3]);
}

#[test]
fn csgp_widths_grow_with_value_magnitude() {
    let mut idx = vec![5u32; 300];
    idx.push(70_000);
    assert_csgp_roundtrip(*b"roll", None, &idx);

    let g = SampleToGroupWrite {
        grouping_type: *b"roll",
        grouping_type_parameter: None,
        indices: idx,
    };
    let body = build_csgp(&g);
    let flags = u32::from_be_bytes([0, body[1], body[2], body[3]]);
    assert_eq!(flags & 0b11, 3, "index_size_code → 32-bit");
    assert_eq!((flags >> 2) & 0b11, 2, "count_size_code → 16-bit");
    assert_eq!((flags >> 4) & 0b11, 0, "pattern_size_code → 4-bit");
    assert_eq!((flags >> 6) & 1, 0, "gtp present bit clear");
}

#[test]
fn csgp_preserves_fragment_local_msb() {
    let raw = 0x8000_0000u32 | 7;
    assert_csgp_roundtrip(*b"roll", None, &[raw, raw, 7]);
}

#[test]
fn build_stbl_emits_csgp_when_attached() {
    let mut t = track_with_offsets(&[0, 0, 0, 0]);
    t.sample_to_groups.push((
        SampleToGroupWrite {
            grouping_type: *b"roll",
            grouping_type_parameter: None,
            indices: vec![1, 1, 2, 2],
        },
        SampleGroupBoxForm::Compact,
    ));
    let stbl = build_stbl(&t, 0x40, false, None);
    assert!(
        stbl.windows(4).any(|w| w == b"csgp"),
        "stbl must carry a csgp when an assignment is attached"
    );
}

#[test]
fn build_stbl_omits_csgp_when_none() {
    let t = track_with_offsets(&[0, 0, 0, 0]);
    let stbl = build_stbl(&t, 0x40, false, None);
    assert!(
        !stbl.windows(4).any(|w| w == b"csgp"),
        "stbl must carry no csgp when no assignment is attached"
    );
}
