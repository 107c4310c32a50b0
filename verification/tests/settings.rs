use oxideav_mov::error::Error;
use oxideav_mov::kind::{find_kinds_in_udta, KindEntry};
use oxideav_mov::media_meta::{Cslg, Tapt, TaptDims};
use oxideav_mov::muxer::{
    AudioEntryV1, DataReferenceWrite, FragmentationMode, MovMetaItem, MovMetadata, MovMuxer,
    MuxEdit, MuxSample, MuxTrackKind, SampleAuxStream, SampleGroupBoxForm,
    SampleGroupDescriptionWrite, SampleToGroupWrite, TrackReference,
};
use oxideav_mov::parts::{
    ChannelLayout, ChannelStructure, Gmin, Load, SdtpEntry, SoundV1, SpeakerPosition, StshEntry,
    SubSample, SubSampleInfo, Tcmi, TextSampleDescription, Tmcd, TrackGroupTypeEntry, TrackSelection,
};

fn says(r: Result<(), Error>, want: &str) {
    assert_eq!(r.unwrap_err().message(), want);
}

fn u32_of(b: &[u8], at: usize) -> u32 {
    u32::from_be_bytes([b[at], b[at + 1], b[at + 2], b[at + 3]])
}

fn child<'a>(body: &'a [u8], code: &[u8; 4]) -> Option<&'a [u8]> {
    let mut at: usize = 0;
    while at + 8 <= body.len() {
        let size: usize = u32_of(body, at) as usize;
        if &body[at + 4..at + 8] == code {
            return Some(&body[at + 8..at + size]);
        }
        at += size;
    }
    None
}

fn path<'a>(file: &'a [u8], codes: &[&[u8; 4]]) -> Option<&'a [u8]> {
    let mut body: &'a [u8] = file;
    for code in codes {
        body = child(body, code)?;
    }
    Some(body)
}

fn samples(n: usize) -> Vec<MuxSample> {
    (0..n)
        .map(|i| MuxSample {
            data: vec![i as u8; 3 + i],
            duration: 100,
            keyframe: i == 0,
            composition_offset: 0,
        })
        .collect()
}

fn video(n: usize) -> MovMuxer {
    let mut m = MovMuxer::new();
    let id = m.add_track(
        MuxTrackKind::Video {
            format: *b"avc1",
            width: 320,
            height: 240,
        },
        1000,
        samples(n),
        &[],
    );
    assert_eq!(id, 1);
    m
}

fn audio(channels: u16) -> MovMuxer {
    let mut m = MovMuxer::new();
    m.add_track(
        MuxTrackKind::Audio {
            format: *b"sowt",
            channels,
            bits_per_sample: 16,
            sample_rate: 96000,
        },
        48000,
        samples(2),
        &[],
    );
    m
}

fn stbl(m: &MovMuxer) -> Vec<u8> {
    let bytes = m.encode_to_vec().unwrap();
    path(&bytes, &[b"moov", b"trak", b"mdia", b"minf", b"stbl"])
        .unwrap()
        .to_vec()
}

fn entry(m: &MovMuxer) -> Vec<u8> {
    child(&stbl(m), b"stsd").unwrap()[8..].to_vec()
}

#[test]
fn unknown_tracks_are_refused() {
    let mut m = video(2);
    let load = Load::default();
    says(m.auto_cslg(2), "MOV muxer: auto_cslg unknown track id 2");
    says(m.set_cslg(0, Cslg::default()), "MOV muxer: set_cslg unknown track id 0");
    says(
        m.set_track_language(9, 0),
        "MOV muxer: set_track_language unknown track id 9",
    );
    says(
        m.set_track_extended_language(9, "en"),
        "MOV muxer: set_track_extended_language unknown track id 9",
    );
    says(
        m.set_compact_sample_size(9, true),
        "MOV muxer: set_compact_sample_size unknown track id 9",
    );
    says(
        m.set_track_load_settings(9, Some(load)),
        "MOV muxer: set_track_load_settings unknown track id 9",
    );
    says(
        m.set_track_clipping(9, None),
        "MOV muxer: set_track_clipping unknown track id 9",
    );
    says(m.set_track_matte(9, None), "MOV muxer: set_track_matte unknown track id 9");
    says(
        m.set_track_selection(9, None),
        "MOV muxer: set_track_selection unknown track id 9",
    );
    says(m.set_track_kinds(9, &[]), "MOV muxer: set_track_kinds unknown track id 9");
    says(m.set_track_groups(9, &[]), "MOV muxer: set_track_groups unknown track id 9");
    says(
        m.set_track_metadata(9, &[]),
        "MOV muxer: set_track_metadata unknown track id 9",
    );
    says(
        m.set_track_apple_metadata(9, &[]),
        "MOV muxer: set_track_apple_metadata unknown track id 9",
    );
    says(m.set_edit_list(9, &[]), "MOV muxer: set_edit_list unknown track id 9");
    says(
        m.set_data_references(9, &[]),
        "MOV muxer: set_data_references unknown track id 9",
    );
    says(
        m.set_track_references(9, &[]),
        "MOV muxer: set_track_references unknown track id 9",
    );
    says(
        m.set_sample_dependencies(9, &[]),
        "MOV muxer: set_sample_dependencies unknown track id 9",
    );
    says(
        m.set_degradation_priorities(9, &[]),
        "MOV muxer: set_degradation_priorities unknown track id 9",
    );
    says(m.set_padding_bits(9, &[]), "MOV muxer: set_padding_bits unknown track id 9");
    says(
        m.set_shadow_sync_samples(9, &[]),
        "MOV muxer: set_shadow_sync_samples unknown track id 9",
    );
    says(m.set_sub_samples(9, &[]), "MOV muxer: set_sub_samples unknown track id 9");
    says(
        m.set_track_gmin(9, Gmin::default()),
        "MOV muxer: set_track_gmin unknown track id 9",
    );
    says(
        m.set_text_header_matrix(9, [0; 9]),
        "MOV muxer: set_text_header_matrix unknown track id 9",
    );
    says(
        m.set_track_aperture(9, Tapt::default()),
        "MOV muxer: set_track_aperture unknown track id 9",
    );
    says(
        m.set_sound_description_v1(9, SoundV1::default(), false),
        "MOV: unknown track id 9",
    );
    says(
        m.set_audio_entry_v1(9, AudioEntryV1::default()),
        "MOV: unknown track id 9",
    );
}

#[test]
fn settings_that_do_not_fit_are_refused() {
    let mut m = video(3);
    says(
        m.set_sample_aux(
            1,
            SampleAuxStream {
                aux_info_type: None,
                aux_info_type_parameter: 0,
                per_sample: vec![vec![0], vec![0]],
            },
        ),
        "MOV muxer: sample-aux stream has 2 blobs but track 1 has 3 samples",
    );
    says(
        m.set_sample_aux(
            1,
            SampleAuxStream {
                aux_info_type: None,
                aux_info_type_parameter: 0,
                per_sample: vec![vec![0], vec![0; 256], vec![0; 300]],
            },
        ),
        "MOV muxer: sample-aux blob 1 is 256 bytes; saiz size table is u8-wide (max 255)",
    );
    says(
        m.add_sample_to_group(
            1,
            SampleToGroupWrite {
                grouping_type: *b"roll",
                grouping_type_parameter: None,
                indices: vec![1],
            },
        ),
        "MOV muxer: sample-to-group has 1 indices but track 1 has 3 samples",
    );
    says(
        m.set_sample_group_description(
            1,
            SampleGroupDescriptionWrite {
                grouping_type: *b"roll",
                entries: Vec::new(),
            },
        ),
        "MOV muxer: sgpd for track 1 must carry at least one entry",
    );
    says(
        m.set_edit_list(
            1,
            &[
                MuxEdit::empty(5),
                MuxEdit {
                    track_duration: 1,
                    media_time: -7,
                    media_rate: 0x1_0000,
                },
            ],
        ),
        "MOV muxer: edit 1 has media_time -7 (only -1 is a legal negative value: the empty-edit sentinel)",
    );
    says(
        m.set_track_references(
            1,
            &[
                TrackReference::to(*b"tmcd", 1),
                TrackReference {
                    reference_type: *b"chap",
                    track_ids: vec![1, 5, 0],
                },
            ],
        ),
        "MOV muxer: set_track_references type \"chap\" references unknown track id 5 (1..=1 valid)",
    );
    says(
        m.set_data_references(1, &[DataReferenceWrite::Url("x".to_string())]),
        "MOV muxer: set_data_references requires exactly one SelfRef entry (the muxer writes samples in-file); got 0",
    );
    says(
        m.set_data_references(1, &[DataReferenceWrite::SelfRef, DataReferenceWrite::SelfRef]),
        "MOV muxer: set_data_references requires exactly one SelfRef entry (the muxer writes samples in-file); got 2",
    );
    says(
        m.set_sample_dependencies(1, &[SdtpEntry::default()]),
        "MOV muxer: sdtp has 1 rows but track 1 has 3 samples",
    );
    says(
        m.set_degradation_priorities(1, &[1, 2]),
        "MOV muxer: stdp has 2 rows but track 1 has 3 samples",
    );
    says(
        m.set_padding_bits(1, &[1, 2]),
        "MOV muxer: padb has 2 rows but track 1 has 3 samples",
    );
    says(
        m.set_padding_bits(1, &[1, 8, 9]),
        "MOV muxer: padb pad value 8 at sample 1 exceeds the 3-bit field (max 7)",
    );
    says(
        m.set_track_aperture(1, Tapt::default()),
        "MOV muxer: set_track_aperture given an empty Tapt (no clef/prof/enof rectangle)",
    );
    says(
        m.set_track_gmin(1, Gmin::default()),
        "MOV muxer: set_track_gmin on track 1 which carries no gmhd (only a time-code or text track has a Generic Media Information header)",
    );
    says(
        m.set_text_header_matrix(1, [0; 9]),
        "MOV muxer: set_text_header_matrix on track 1 which is not a text track (the gmhd/text header is defined only for a QuickTime text track)",
    );
    says(
        m.set_sound_description_v1(1, SoundV1::default(), true),
        "MOV: track 1 is not an audio track",
    );
    assert_eq!(m.encode_to_vec().unwrap(), video(3).encode_to_vec().unwrap());
    let mut a = audio(2);
    says(
        a.set_track_aperture(1, Tapt::default()),
        "MOV muxer: set_track_aperture track id 1 is not a video track (aperture modes apply only to a visual track)",
    );
}

#[test]
fn shadow_rows_are_put_in_order() {
    let row = |shadowed_sample_number: u32, sync_sample_number: u32| StshEntry {
        shadowed_sample_number,
        sync_sample_number,
    };
    let mut m = video(4);
    m.set_shadow_sync_samples(1, &[row(4, 1), row(2, 3), row(3, 1)]).unwrap();
    let stsh = child(&stbl(&m), b"stsh").unwrap().to_vec();
    assert_eq!(
        stsh,
        [
            0, 0, 0, 0, 0, 0, 0, 3, 0, 0, 0, 2, 0, 0, 0, 3, 0, 0, 0, 3, 0, 0, 0, 1, 0, 0, 0, 4, 0,
            0, 0, 1
        ]
    );
    says(
        m.set_shadow_sync_samples(1, &[row(3, 9), row(2, 1), row(3, 1)]),
        "MOV muxer: stsh duplicate shadowed_sample_number 3",
    );
    says(
        m.set_shadow_sync_samples(1, &[row(5, 1), row(2, 6)]),
        "MOV muxer: stsh sync_sample_number 6 out of range 1..=4",
    );
    says(
        m.set_shadow_sync_samples(1, &[row(2, 1), row(0, 7)]),
        "MOV muxer: stsh shadowed_sample_number 0 out of range 1..=4",
    );
    m.set_shadow_sync_samples(1, &[]).unwrap();
    assert!(child(&stbl(&m), b"stsh").is_none());
}

#[test]
fn sub_samples_are_put_in_order_and_counted_by_differences() {
    let part = |size: u32| SubSample {
        subsample_size: size,
        subsample_priority: 5,
        discardable: 1,
        codec_specific_parameters: 0x0102_0304,
    };
    let row = |sample_number: u32, sizes: &[u32]| SubSampleInfo {
        sample_number,
        subsamples: sizes.iter().map(|s| part(*s)).collect(),
    };
    let mut m = video(6);
    m.set_sub_samples(1, &[row(6, &[7]), row(2, &[1, 2])]).unwrap();
    let subs = child(&stbl(&m), b"subs").unwrap().to_vec();
    assert_eq!(
        subs,
        [
            0, 0, 0, 0, 0, 0, 0, 2, 0, 0, 0, 2, 0, 2, 0, 1, 5, 1, 1, 2, 3, 4, 0, 2, 5, 1, 1, 2, 3,
            4, 0, 0, 0, 4, 0, 1, 0, 7, 5, 1, 1, 2, 3, 4
        ]
    );
    m.set_sub_samples(1, &[row(1, &[0x1_0000])]).unwrap();
    let subs = child(&stbl(&m), b"subs").unwrap().to_vec();
    assert_eq!(subs[0], 1);
    assert_eq!(u32_of(&subs, 14), 0x1_0000);
    says(
        m.set_sub_samples(1, &[row(3, &[]), row(0, &[])]),
        "MOV muxer: subs sample_number 0 out of range 1..=6",
    );
    says(
        m.set_sub_samples(1, &[row(7, &[]), row(3, &[]), row(3, &[])]),
        "MOV muxer: subs sample_number 7 out of range 1..=6",
    );
    says(
        m.set_sub_samples(1, &[row(3, &[]), row(3, &[])]),
        "MOV muxer: subs duplicate sample_number 3",
    );
}

#[test]
fn groups_of_one_type_replace_each_other() {
    let group = |code: &[u8; 4], indices: &[u32]| SampleToGroupWrite {
        grouping_type: *code,
        grouping_type_parameter: None,
        indices: indices.to_vec(),
    };
    let mut m = video(2);
    m.add_sample_to_group_with_form(1, group(b"roll", &[1, 1]), SampleGroupBoxForm::Classic)
        .unwrap();
    m.add_sample_to_group_with_form(1, group(b"rap ", &[2, 2]), SampleGroupBoxForm::Classic)
        .unwrap();
    m.add_sample_to_group_with_form(1, group(b"roll", &[0, 3]), SampleGroupBoxForm::Classic)
        .unwrap();
    let table = stbl(&m);
    let count = table.windows(4).filter(|w| w == b"sbgp").count();
    assert_eq!(count, 2);
    let sbgp = child(&table, b"sbgp").unwrap();
    assert_eq!(
        sbgp,
        [
            0, 0, 0, 0, b'r', b'o', b'l', b'l', 0, 0, 0, 2, 0, 0, 0, 1, 0, 0, 0, 0, 0, 0, 0, 1, 0,
            0, 0, 3
        ]
    );
    let describe = |code: &[u8; 4], entries: Vec<Vec<u8>>| SampleGroupDescriptionWrite {
        grouping_type: *code,
        entries,
    };
    m.set_sample_group_description(1, describe(b"roll", vec![vec![0, 1]])).unwrap();
    m.set_sample_group_description(1, describe(b"roll", vec![vec![9], vec![1, 2]])).unwrap();
    let table = stbl(&m);
    assert_eq!(table.windows(4).filter(|w| w == b"sgpd").count(), 1);
    assert_eq!(
        child(&table, b"sgpd").unwrap(),
        [
            1, 0, 0, 0, b'r', b'o', b'l', b'l', 0, 0, 0, 0, 0, 0, 0, 2, 0, 0, 0, 1, 9, 0, 0, 0, 2, 1,
            2
        ]
    );
}

#[test]
fn tables_with_a_row_for_each_sample() {
    let mut m = video(3);
    m.set_sample_dependencies(
        1,
        &[
            SdtpEntry {
                is_leading: 1,
                sample_depends_on: 2,
                sample_is_depended_on: 3,
                sample_has_redundancy: 0,
            },
            SdtpEntry::default(),
            SdtpEntry {
                is_leading: 3,
                sample_depends_on: 3,
                sample_is_depended_on: 3,
                sample_has_redundancy: 3,
            },
        ],
    )
    .unwrap();
    m.set_degradation_priorities(1, &[1, 0x203, 0xffff]).unwrap();
    m.set_padding_bits(1, &[7, 1, 4]).unwrap();
    let table = stbl(&m);
    assert_eq!(child(&table, b"sdtp").unwrap(), [0, 0, 0, 0, 0x6c, 0, 0xff]);
    assert_eq!(
        child(&table, b"stdp").unwrap(),
        [0, 0, 0, 0, 0, 1, 2, 3, 0xff, 0xff]
    );
    assert_eq!(
        child(&table, b"padb").unwrap(),
        [0, 0, 0, 0, 0, 0, 0, 3, 0x71, 0x40]
    );
}

#[test]
fn compact_sizes_are_used_where_they_pay() {
    let sizes = |lens: &[usize]| -> Vec<MuxSample> {
        lens.iter()
            .map(|n| MuxSample {
                data: vec![0; *n],
                duration: 1,
                keyframe: true,
                composition_offset: 0,
            })
            .collect()
    };
    let build = |lens: &[usize]| {
        let mut m = MovMuxer::new();
        m.add_track(
            MuxTrackKind::Video {
                format: *b"avc1",
                width: 1,
                height: 1,
            },
            1,
            sizes(lens),
            &[],
        );
        m.set_compact_sample_size(1, true).unwrap();
        stbl(&m)
    };
    assert_eq!(
        child(&build(&[15, 1, 3]), b"stz2").unwrap(),
        [0, 0, 0, 0, 0, 0, 0, 4, 0, 0, 0, 3, 0xf1, 0x30]
    );
    assert_eq!(
        child(&build(&[16, 255]), b"stz2").unwrap(),
        [0, 0, 0, 0, 0, 0, 0, 8, 0, 0, 0, 2, 16, 255]
    );
    assert!(child(&build(&[256, 1]), b"stz2").is_none());
    assert!(child(&build(&[256, 1]), b"stsz").is_some());
    assert!(child(&build(&[5, 5]), b"stz2").is_none());
}

#[test]
fn sound_descriptions_of_version_one() {
    let mut m = audio(2);
    let v0 = entry(&m);
    assert_eq!(v0.len(), 36);
    assert_eq!(&v0[16..18], [0, 0]);
    assert_eq!(&v0[32..36], [0xff, 0xff, 0, 0]);
    let fields = SoundV1 {
        samples_per_packet: 1024,
        bytes_per_packet: 0,
        bytes_per_frame: 0,
        bytes_per_sample: 2,
    };
    m.set_sound_description_v1(1, fields, true).unwrap();
    let v1 = entry(&m);
    assert_eq!(v1.len(), 52);
    assert_eq!(&v1[16..18], [0, 1]);
    assert_eq!(&v1[28..30], [0xff, 0xfe]);
    assert_eq!(u32_of(&v1, 36), 1024);
    assert_eq!(u32_of(&v1, 48), 2);
    says(
        m.set_audio_entry_v1(1, AudioEntryV1::default()),
        "MOV: track already uses a QTFF SoundDescriptionV1; ISO v1 is exclusive",
    );
}

#[test]
fn audio_entries_of_version_one() {
    let position = SpeakerPosition {
        position: 3,
        azimuth: 0,
        elevation: 0,
    };
    let mut m = audio(2);
    let explicit = |n: usize| AudioEntryV1 {
        sampling_rate: Some(96000),
        channel_layout: Some(ChannelLayout {
            channels: Some(ChannelStructure::Explicit(vec![position; n])),
            object_count: None,
        }),
    };
    says(
        m.set_audio_entry_v1(1, explicit(3)),
        "MOV: chnl explicit layout has 3 rows for 2 channels",
    );
    says(
        m.set_audio_entry_v1(
            1,
            AudioEntryV1 {
                sampling_rate: None,
                channel_layout: Some(ChannelLayout {
                    channels: Some(ChannelStructure::Defined {
                        defined_layout: 0,
                        omitted_channels_map: 0,
                    }),
                    object_count: None,
                }),
            },
        ),
        "MOV: chnl definedLayout 0 selects the explicit form; use Explicit",
    );
    m.set_audio_entry_v1(1, explicit(2)).unwrap();
    let table = stbl(&m);
    let stsd = child(&table, b"stsd").unwrap();
    assert_eq!(&stsd[0..4], [1, 0, 0, 0]);
    let boxes = &stsd[8 + 36..];
    assert_eq!(child(boxes, b"srat").unwrap(), [0, 0, 0, 0, 0, 1, 0x77, 0]);
    assert_eq!(child(boxes, b"chnl").unwrap(), [0, 0, 0, 0, 1, 0, 3, 3]);
    says(
        m.set_sound_description_v1(1, SoundV1::default(), false),
        "MOV: track already uses an ISO AudioSampleEntryV1; QTFF v1 is exclusive",
    );
}

#[test]
fn what_stands_round_the_media_of_a_track() {
    let mut m = video(2);
    m.set_track_load_settings(
        1,
        Some(Load {
            preload_start_time: 1,
            preload_duration: 2,
            preload_flags: 3,
            default_hints: 4,
        }),
    )
    .unwrap();
    m.set_track_aperture(
        1,
        Tapt {
            clef: None,
            prof: Some(TaptDims {
                width_fp: 5 << 16,
                height_fp: 6 << 16,
            }),
            enof: None,
        },
    )
    .unwrap();
    m.set_track_references(1, &[TrackReference::to(*b"sync", 1)]).unwrap();
    m.set_track_groups(
        1,
        &[TrackGroupTypeEntry {
            track_group_type: *b"msrc",
            body: vec![0, 0, 0, 0, 0, 0, 0, 9],
        }],
    )
    .unwrap();
    m.set_track_language(1, 0x15c7).unwrap();
    m.set_track_extended_language(1, "en-US").unwrap();
    m.set_data_references(
        1,
        &[
            DataReferenceWrite::Url("http://a".to_string()),
            DataReferenceWrite::SelfRef,
        ],
    )
    .unwrap();
    m.set_track_metadata(1, &[MovMetadata::plain_utf8(*b"titl", 0x15c7, "hi")]).unwrap();
    m.set_track_apple_metadata(1, &[MovMetaItem::utf8("k", "v")]).unwrap();
    let bytes = m.encode_to_vec().unwrap();
    let trak = path(&bytes, &[b"moov", b"trak"]).unwrap();
    let mut codes: Vec<Vec<u8>> = Vec::new();
    let mut at: usize = 0;
    while at < trak.len() {
        codes.push(trak[at + 4..at + 8].to_vec());
        at += u32_of(trak, at) as usize;
    }
    assert_eq!(
        codes,
        [b"tkhd", b"tapt", b"load", b"tref", b"trgr", b"mdia", b"udta", b"meta"]
    );
    assert_eq!(
        child(trak, b"load").unwrap(),
        [0, 0, 0, 1, 0, 0, 0, 2, 0, 0, 0, 3, 0, 0, 0, 4]
    );
    assert_eq!(path(trak, &[b"tref", b"sync"]).unwrap(), [0, 0, 0, 1]);
    assert_eq!(path(trak, &[b"trgr", b"msrc"]).unwrap(), [0, 0, 0, 0, 0, 0, 0, 9]);
    assert_eq!(path(trak, &[b"tapt", b"prof"]).unwrap()[4..], [0, 5, 0, 0, 0, 6, 0, 0]);
    assert_eq!(path(trak, &[b"mdia", b"elng"]).unwrap(), b"\0\0\0\0en-US\0");
    let mdhd = path(trak, &[b"mdia", b"mdhd"]).unwrap();
    assert_eq!(&mdhd[20..22], [0x15, 0xc7]);
    let dref = path(trak, &[b"mdia", b"minf", b"dinf", b"dref"]).unwrap();
    assert_eq!(u32_of(dref, 4), 2);
    assert_eq!(child(&dref[8..], b"url ").unwrap(), b"\0\0\0\0http://a\0");
    assert_eq!(&entry(&m)[14..16], [0, 2]);
    assert_eq!(
        path(trak, &[b"udta", b"titl"]).unwrap(),
        [0, 0, 0, 0, 0x15, 0xc7, b'h', b'i']
    );
    m.set_track_extended_language(1, "").unwrap();
    let bytes = m.encode_to_vec().unwrap();
    assert!(path(&bytes, &[b"moov", b"trak", b"mdia", b"elng"]).is_none());
}

#[test]
fn other_kinds_of_tracks() {
    let mut m = MovMuxer::new();
    m.add_track(
        MuxTrackKind::Timecode {
            description: Tmcd { body: vec![1, 2] },
            tcmi: Tcmi { body: vec![3] },
        },
        600,
        samples(1),
        &[],
    );
    m.add_track(
        MuxTrackKind::Text {
            description: TextSampleDescription { body: vec![4] },
        },
        600,
        samples(1),
        &[5],
    );
    m.set_track_gmin(
        1,
        Gmin {
            graphics_mode: 0x40,
            opcolor: [1, 2, 3],
            balance: -1,
        },
    )
    .unwrap();
    m.set_text_header_matrix(2, [1, 2, 3, 4, 5, 6, 7, 8, -9]).unwrap();
    let bytes = m.encode_to_vec().unwrap();
    let gmhd = path(&bytes, &[b"moov", b"trak", b"mdia", b"minf", b"gmhd"]).unwrap();
    assert_eq!(
        child(gmhd, b"gmin").unwrap(),
        [0, 0, 0, 0, 0, 0x40, 0, 1, 0, 2, 0, 3, 0xff, 0xff, 0, 0]
    );
    assert_eq!(path(gmhd, &[b"tmcd", b"tcmi"]).unwrap(), [3]);
    let moov = child(&bytes, b"moov").unwrap();
    let first: usize = 8 + child(moov, b"mvhd").unwrap().len();
    let second: usize = first + u32_of(moov, first) as usize;
    let gmhd = path(&moov[second..], &[b"trak", b"mdia", b"minf", b"gmhd"]).unwrap();
    let text = child(gmhd, b"text").unwrap();
    assert_eq!(text.len(), 36);
    assert_eq!(u32_of(text, 0), 1);
    assert_eq!(u32_of(text, 32) as i32, -9);
    let stsd = path(&moov[second..], &[b"trak", b"mdia", b"minf", b"stbl", b"stsd"]).unwrap();
    assert_eq!(
        stsd[8..],
        [0, 0, 0, 18, b't', b'e', b'x', b't', 0, 0, 0, 0, 0, 0, 0, 1, 4, 5]
    );
}

#[test]
fn movie_metadata_stands_behind_the_tracks() {
    let mut m = video(1);
    m.set_metadata(&[
        MovMetadata::intl_text([0xa9, b'n', b'a', b'm'], 0, "one"),
        MovMetadata::raw(*b"abcd", vec![1, 2]),
        MovMetadata::intl_text([0xa9, b'n', b'a', b'm'], 5, "two"),
    ]);
    m.set_apple_metadata(&[MovMetaItem::utf8("com.key", "value")]);
    let bytes = m.encode_to_vec().unwrap();
    let udta = path(&bytes, &[b"moov", b"udta"]).unwrap();
    let name = child(udta, &[0xa9, b'n', b'a', b'm']).unwrap();
    assert_eq!(name.len(), 14);
    assert_eq!(&name[0..2], [0, 3]);
    assert_eq!(&name[4..7], b"one");
    assert_eq!(&name[11..14], b"two");
    assert_eq!(child(udta, b"abcd").unwrap(), [1, 2]);
    let meta = path(&bytes, &[b"moov", b"meta"]).unwrap();
    let keys = oxideav_mov::key_value::parse_keys(child(meta, b"keys").unwrap()).unwrap();
    let items = oxideav_mov::key_value::parse_ilst(child(meta, b"ilst").unwrap(), &keys).unwrap();
    assert_eq!(items.len(), 1);
    assert_eq!(items[0].key, "com.key");
    assert_eq!(items[0].as_str(), Some("value"));
}

#[test]
fn files_that_are_refused() {
    assert_eq!(
        MovMuxer::new().encode_to_vec().unwrap_err().message(),
        "MOV muxer: at least one track required"
    );
    let mut m = video(1);
    m.add_track(
        MuxTrackKind::Video {
            format: *b"avc1",
            width: 1,
            height: 1,
        },
        1,
        Vec::new(),
        &[],
    );
    assert_eq!(
        m.encode_to_vec().unwrap_err().message(),
        "MOV muxer: track 2 has zero samples"
    );
    assert_eq!(
        m.encode_fragmented_to_vec().unwrap_err().message(),
        "MOV muxer: fragmentation policy not set"
    );
    let m = m.with_fragmentation(FragmentationMode::ByFrameCount(0));
    assert_eq!(
        m.encode_fragmented_to_vec().unwrap_err().message(),
        "MOV muxer: track 2 has zero samples"
    );
    assert_eq!(
        MovMuxer::new()
            .with_fragmentation(FragmentationMode::ByDuration(1))
            .encode_fragmented_to_vec()
            .unwrap_err()
            .message(),
        "MOV muxer: at least one track required"
    );
    assert_eq!(
        video(1)
            .with_fragmentation(FragmentationMode::ByFrameCount(0))
            .encode_fragmented_to_vec()
            .unwrap_err()
            .message(),
        "MOV muxer: ByFrameCount threshold must be > 0"
    );
    assert_eq!(
        video(1)
            .with_fragmentation(FragmentationMode::ByDuration(0))
            .encode_fragmented_to_vec()
            .unwrap_err()
            .message(),
        "MOV muxer: ByDuration threshold must be > 0"
    );
}

#[test]
fn kinds_of_a_track_are_found_in_its_user_data() {
    let mut m = video(1);
    let kind = |scheme: &str, value: Option<&str>| KindEntry {
        scheme_uri: scheme.to_string(),
        value: value.map(|v| v.to_string()),
    };
    m.set_track_metadata(
        1,
        &[
            MovMetadata::intl_text([0xa9, b'n', b'a', b'm'], 0, "one"),
            MovMetadata::raw(*b"abcd", vec![1, 2]),
            MovMetadata::intl_text([0xa9, b'n', b'a', b'm'], 5, "two"),
            MovMetadata::plain_utf8(*b"titl", 0x15c7, "hi"),
        ],
    )
    .unwrap();
    m.set_track_kinds(
        1,
        &[
            kind("urn:mpeg:dash:role:2011", Some("main")),
            kind("urn:x", None),
            kind("urn:y", Some("")),
        ],
    )
    .unwrap();
    m.set_track_selection(1, Some(TrackSelection { body: vec![0; 8] })).unwrap();
    let bytes = m.encode_to_vec().unwrap();
    let udta = path(&bytes, &[b"moov", b"trak", b"udta"]).unwrap();
    assert!(child(udta, b"tsel").is_some());
    assert_eq!(
        find_kinds_in_udta(udta).unwrap(),
        [
            kind("urn:mpeg:dash:role:2011", Some("main")),
            kind("urn:x", None),
            kind("urn:y", None),
        ]
    );
}
