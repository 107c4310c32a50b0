use oxideav_mov::chan::{
    FC, FL, FR, LFE, SL, SR, TAG_MPEG_5_1_A, TAG_STEREO, TAG_USE_CHANNEL_BITMAP,
    TAG_USE_CHANNEL_DESCRIPTIONS, parse_chan,
};
use oxideav_mov::key_value::{parse_ilst, parse_keys};
use oxideav_mov::media_meta::{
    ColorParametersKind, Fiel, FieldOrdering, parse_clap, parse_colr, parse_cslg, parse_fiel,
    parse_pasp, parse_tapt_dims,
};

#[test]
fn pasp_roundtrip() {
    let mut p = Vec::new();
    p.extend_from_slice(&16u32.to_be_bytes());
    p.extend_from_slice(&9u32.to_be_bytes());
    let v = parse_pasp(&p).unwrap();
    assert_eq!(v.h_spacing, 16);
    assert_eq!(v.v_spacing, 9);
}

#[test]
fn clap_roundtrip() {
    let mut p = Vec::new();
    for n in [704u32, 1, 480, 1] {
        p.extend_from_slice(&n.to_be_bytes());
    }
    p.extend_from_slice(&(-4i32).to_be_bytes());
    p.extend_from_slice(&1u32.to_be_bytes());
    p.extend_from_slice(&8i32.to_be_bytes());
    p.extend_from_slice(&1u32.to_be_bytes());
    let c = parse_clap(&p).unwrap();
    assert_eq!(c.clean_aperture_width_n, 704);
    assert_eq!(c.horiz_off_n, -4);
    assert_eq!(c.vert_off_n, 8);
}

#[test]
fn colr_nclc_apple_variant() {
    let mut p = Vec::new();
    p.extend_from_slice(b"nclc");
    p.extend_from_slice(&1u16.to_be_bytes());
    p.extend_from_slice(&1u16.to_be_bytes());
    p.extend_from_slice(&1u16.to_be_bytes());
    let c = parse_colr(&p).unwrap();
    match c.kind {
        ColorParametersKind::Nclc {
            primaries,
            transfer,
            matrix,
        } => {
            assert_eq!((primaries, transfer, matrix), (1, 1, 1));
        }
        _ => panic!("expected nclc"),
    }
}

#[test]
fn colr_nclx_iso_variant_full_range() {
    let mut p = Vec::new();
    p.extend_from_slice(b"nclx");
    p.extend_from_slice(&9u16.to_be_bytes());
    p.extend_from_slice(&16u16.to_be_bytes());
    p.extend_from_slice(&9u16.to_be_bytes());
    p.push(0x80);
    let c = parse_colr(&p).unwrap();
    match c.kind {
        ColorParametersKind::Nclx {
            primaries,
            transfer,
            matrix,
            full_range,
        } => {
            assert_eq!((primaries, transfer, matrix), (9, 16, 9));
            assert!(full_range);
        }
        _ => panic!("expected nclx"),
    }
}

#[test]
fn tapt_dims_extract_int_pixels() {
    let mut p = vec![0u8; 12];
    p[4..8].copy_from_slice(&((320u32) << 16).to_be_bytes());
    p[8..12].copy_from_slice(&((240u32) << 16).to_be_bytes());
    let d = parse_tapt_dims(&p).unwrap();
    assert_eq!(d.width(), 320);
    assert_eq!(d.height(), 240);
}

#[test]
fn chan_extracts_layout_tag() {
    let mut p = Vec::new();
    p.extend_from_slice(&0u32.to_be_bytes());
    p.extend_from_slice(&100u32.to_be_bytes());
    p.extend_from_slice(&0u32.to_be_bytes());
    p.extend_from_slice(&0u32.to_be_bytes());
    let c = parse_chan(&p).unwrap();
    assert_eq!(c.layout_tag, 100);
    assert_eq!(c.num_descriptions, 0);
    assert!(c.channel_descriptions.is_empty());
}

#[test]
fn chan_stereo_layout_tag_maps_to_fl_fr() {
    let mut p = Vec::new();
    p.extend_from_slice(&0u32.to_be_bytes());
    p.extend_from_slice(&TAG_STEREO.to_be_bytes());
    p.extend_from_slice(&0u32.to_be_bytes());
    p.extend_from_slice(&0u32.to_be_bytes());
    let c = parse_chan(&p).unwrap();
    assert_eq!(c.channel_count(), 2);
    assert_eq!(c.channel_mask(), Some(FL | FR));
}

#[test]
fn chan_5_1_layout_tag_maps_to_full_mask() {
    let mut p = Vec::new();
    p.extend_from_slice(&0u32.to_be_bytes());
    p.extend_from_slice(&TAG_MPEG_5_1_A.to_be_bytes());
    p.extend_from_slice(&0u32.to_be_bytes());
    p.extend_from_slice(&0u32.to_be_bytes());
    let c = parse_chan(&p).unwrap();
    assert_eq!(c.channel_count(), 6);
    assert_eq!(c.channel_mask(), Some(FL | FR | FC | LFE | SL | SR));
}

#[test]
fn chan_use_channel_bitmap_returns_bitmap() {
    let mut p = Vec::new();
    p.extend_from_slice(&0u32.to_be_bytes());
    p.extend_from_slice(&TAG_USE_CHANNEL_BITMAP.to_be_bytes());
    let want_mask = FL | FR | FC | LFE;
    p.extend_from_slice(&want_mask.to_be_bytes());
    p.extend_from_slice(&0u32.to_be_bytes());
    let c = parse_chan(&p).unwrap();
    assert_eq!(c.channel_count(), 4);
    assert_eq!(c.channel_mask(), Some(want_mask));
}

#[test]
fn chan_use_channel_descriptions_or_labels() {
    let mut p = Vec::new();
    p.extend_from_slice(&0u32.to_be_bytes());
    p.extend_from_slice(&TAG_USE_CHANNEL_DESCRIPTIONS.to_be_bytes());
    p.extend_from_slice(&0u32.to_be_bytes());
    p.extend_from_slice(&2u32.to_be_bytes());
    for label in [1u32, 2u32] {
        p.extend_from_slice(&label.to_be_bytes());
        p.extend_from_slice(&0u32.to_be_bytes());
        p.extend_from_slice(&0f32.to_be_bytes());
        p.extend_from_slice(&0f32.to_be_bytes());
        p.extend_from_slice(&0f32.to_be_bytes());
    }
    let c = parse_chan(&p).unwrap();
    assert_eq!(c.channel_count(), 2);
    assert_eq!(c.channel_descriptions.len(), 2);
    assert_eq!(c.channel_descriptions[0].label, 1);
    assert_eq!(c.channel_descriptions[1].label, 2);
    assert_eq!(c.channel_mask(), Some(FL | FR));
}

#[test]
fn cslg_v0_round_trip() {
    let mut p = Vec::new();
    p.extend_from_slice(&0u32.to_be_bytes());
    p.extend_from_slice(&0i32.to_be_bytes());
    p.extend_from_slice(&(-3i32).to_be_bytes());
    p.extend_from_slice(&10i32.to_be_bytes());
    p.extend_from_slice(&0i32.to_be_bytes());
    p.extend_from_slice(&300i32.to_be_bytes());
    let c = parse_cslg(&p).unwrap();
    assert_eq!(c.composition_to_dts_shift, 0);
    assert_eq!(c.least_decode_to_display_delta, -3);
    assert_eq!(c.greatest_decode_to_display_delta, 10);
    assert_eq!(c.composition_end_time, 300);
}

#[test]
fn cslg_v1_round_trip_64bit() {
    let mut p = Vec::new();
    p.push(1);
    p.extend_from_slice(&[0, 0, 0]);
    for v in [0i64, -3, 10, 0, 300_000_000_000i64] {
        p.extend_from_slice(&v.to_be_bytes());
    }
    let c = parse_cslg(&p).unwrap();
    assert_eq!(c.composition_end_time, 300_000_000_000);
    assert_eq!(c.least_decode_to_display_delta, -3);
}

#[test]
fn cslg_unknown_version_errors() {
    let mut p = Vec::new();
    p.push(2);
    p.extend_from_slice(&[0, 0, 0]);
    assert!(parse_cslg(&p).is_err());
}

#[test]
fn keys_and_ilst_round_trip_simple() {
    let key = b"com.test.title";
    let mut keys = Vec::new();
    keys.extend_from_slice(&0u32.to_be_bytes());
    keys.extend_from_slice(&1u32.to_be_bytes());
    let entry_size: u32 = (8 + key.len()) as u32;
    keys.extend_from_slice(&entry_size.to_be_bytes());
    keys.extend_from_slice(b"mdta");
    keys.extend_from_slice(key);
    let parsed_keys = parse_keys(&keys).unwrap();
    assert_eq!(parsed_keys.len(), 1);
    assert_eq!(parsed_keys[0].0, "com.test.title");

    let mut data_atom = Vec::new();
    let data_atom_size: u32 = 16 + 2;
    data_atom.extend_from_slice(&data_atom_size.to_be_bytes());
    data_atom.extend_from_slice(b"data");
    data_atom.extend_from_slice(&1u32.to_be_bytes());
    data_atom.extend_from_slice(&0u32.to_be_bytes());
    data_atom.extend_from_slice(b"hi");

    let mut ilst = Vec::new();
    let entry_size: u32 = (8 + data_atom.len()) as u32;
    ilst.extend_from_slice(&entry_size.to_be_bytes());
    ilst.extend_from_slice(&1u32.to_be_bytes());
    ilst.extend_from_slice(&data_atom);

    let kv = parse_ilst(&ilst, &parsed_keys).unwrap();
    assert_eq!(kv.len(), 1);
    assert_eq!(kv[0].key, "com.test.title");
    assert_eq!(kv[0].as_str(), Some("hi"));
}

#[test]
fn fiel_progressive_round_trip() {
    let f = parse_fiel(&[1, 0]).unwrap();
    assert_eq!(f.field_count, 1);
    assert_eq!(f.field_ordering, 0);
    assert!(!f.is_interlaced());
    assert!(f.is_spec_field_count());
    assert_eq!(f.ordering(), Some(FieldOrdering::Unknown));
}

#[test]
fn fiel_interlaced_top_field_first() {
    let f = parse_fiel(&[2, 1]).unwrap();
    assert!(f.is_interlaced());
    assert!(f.is_spec_field_count());
    assert_eq!(f.ordering(), Some(FieldOrdering::TopFieldFirst));
}

#[test]
fn fiel_interlaced_bottom_field_first() {
    let f = parse_fiel(&[2, 6]).unwrap();
    assert!(f.is_interlaced());
    assert_eq!(f.ordering(), Some(FieldOrdering::BottomFieldFirst));
}

#[test]
fn fiel_interlaced_unknown_ordering() {
    let f = parse_fiel(&[2, 0]).unwrap();
    assert!(f.is_interlaced());
    assert_eq!(f.ordering(), Some(FieldOrdering::Unknown));
}

#[test]
fn fiel_unspec_ordering_byte_surfaces_none() {
    for raw in [2u8, 3, 4, 5, 7, 9, 0x55, 0xFF] {
        let f = parse_fiel(&[2, raw]).unwrap();
        assert_eq!(f.field_ordering, raw);
        assert_eq!(f.ordering(), None);
    }
}

#[test]
fn fiel_out_of_spec_field_count_preserved() {
    for raw in [0u8, 3, 17, 0x80, 0xFF] {
        let f = parse_fiel(&[raw, 0]).unwrap();
        assert_eq!(f.field_count, raw);
        assert!(!f.is_spec_field_count());
        assert!(!f.is_interlaced());
    }
}

#[test]
fn fiel_rejects_wrong_payload_length() {
    for len in [0usize, 1, 3, 4, 8] {
        let body = vec![0u8; len];
        let err = parse_fiel(&body).unwrap_err();
        assert!(err.message().contains("fiel payload length"));
    }
}

#[test]
fn fiel_default_is_progressive_unknown() {
    let f = Fiel::default();
    assert_eq!(f.field_count, 0);
    assert_eq!(f.field_ordering, 0);
    assert!(!f.is_interlaced());
    assert!(!f.is_spec_field_count());
    assert_eq!(f.ordering(), Some(FieldOrdering::Unknown));
}
