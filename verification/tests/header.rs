use oxideav_mov::brand::{BrandClass, Ftyp, parse_ftyp};
use oxideav_mov::header::{
    Hdlr, TrackRotation, parse_elng, parse_hdlr, parse_hmhd, parse_mdhd, parse_mvhd, parse_tkhd,
};

#[test]
fn hmhd_parses_all_fields() {
    let mut p = Vec::new();
    p.extend_from_slice(&0u32.to_be_bytes());
    p.extend_from_slice(&1500u16.to_be_bytes());
    p.extend_from_slice(&1200u16.to_be_bytes());
    p.extend_from_slice(&5_000_000u32.to_be_bytes());
    p.extend_from_slice(&3_000_000u32.to_be_bytes());
    p.extend_from_slice(&0u32.to_be_bytes());
    let h = parse_hmhd(&p).unwrap();
    assert_eq!(h.max_pdu_size, 1500);
    assert_eq!(h.avg_pdu_size, 1200);
    assert_eq!(h.max_bitrate, 5_000_000);
    assert_eq!(h.avg_bitrate, 3_000_000);
}

#[test]
fn hmhd_too_short_errors() {
    assert!(parse_hmhd(&[0u8; 8]).is_err());
}

#[test]
fn elng_parses_bcp47_tag() {
    let mut p = Vec::new();
    p.extend_from_slice(&0u32.to_be_bytes());
    p.extend_from_slice(b"en-US");
    p.push(0);
    assert_eq!(parse_elng(&p).unwrap(), "en-US");
}

#[test]
fn elng_tolerates_missing_terminator() {
    let mut p = Vec::new();
    p.extend_from_slice(&0u32.to_be_bytes());
    p.extend_from_slice(b"zh-CN");
    assert_eq!(parse_elng(&p).unwrap(), "zh-CN");
}

#[test]
fn elng_empty_tag_is_empty_string() {
    let mut p = Vec::new();
    p.extend_from_slice(&0u32.to_be_bytes());
    p.push(0);
    assert_eq!(parse_elng(&p).unwrap(), "");
}

#[test]
fn elng_too_short_for_fullbox_header_errors() {
    assert!(parse_elng(&[0u8; 3]).is_err());
}

#[test]
fn hdlr_is_hint_and_is_metadata() {
    let mk = |sub: &[u8; 4]| Hdlr {
        component_type: *b"mhlr",
        component_subtype: *sub,
        component_manufacturer: [0; 4],
    };
    assert!(mk(b"hint").is_hint());
    assert!(!mk(b"hint").is_metadata());
    assert!(mk(b"meta").is_metadata());
    assert!(!mk(b"meta").is_hint());
    assert!(!mk(b"vide").is_hint());
}

#[test]
fn ftyp_qt_brand_recognised() {
    let mut p = Vec::new();
    p.extend_from_slice(b"qt  ");
    p.extend_from_slice(&0x0200u32.to_be_bytes());
    p.extend_from_slice(b"qt  ");
    let f = parse_ftyp(&p).unwrap();
    assert_eq!(f.major_brand, *b"qt  ");
    assert_eq!(f.minor_version, 0x200);
    assert!(f.is_quicktime());
    assert_eq!(f.compatible_brands.len(), 1);
}

#[test]
fn ftyp_isom_with_qt_compat_recognised() {
    let mut p = Vec::new();
    p.extend_from_slice(b"isom");
    p.extend_from_slice(&0u32.to_be_bytes());
    p.extend_from_slice(b"qt  ");
    p.extend_from_slice(b"mp42");
    let f = parse_ftyp(&p).unwrap();
    assert!(f.is_quicktime());
}

#[test]
fn ftyp_too_short_errors() {
    assert!(parse_ftyp(&[0u8; 4]).is_err());
}

#[test]
fn mvhd_v0_round_trip() {
    let mut p = vec![0u8; 100];
    p[0] = 0;
    p[7] = 1;
    p[11] = 2;
    p[14..16].copy_from_slice(&600u16.to_be_bytes());
    p[18..20].copy_from_slice(&1200u16.to_be_bytes());
    p[20..24].copy_from_slice(&0x0001_0000u32.to_be_bytes());
    p[24..26].copy_from_slice(&0x0100i16.to_be_bytes());
    p[99] = 2;
    let mvhd = parse_mvhd(&p).unwrap();
    assert_eq!(mvhd.version, 0);
    assert_eq!(mvhd.time_scale, 600);
    assert_eq!(mvhd.duration, 1200);
    assert_eq!(mvhd.rate, 0x0001_0000);
    assert_eq!(mvhd.next_track_id, 2);
}

#[test]
fn tkhd_v0_dims_round_trip() {
    let mut p = vec![0u8; 84];
    p[3] = 0x07;
    p[15] = 1;
    let w = 320u32 << 16;
    p[76..80].copy_from_slice(&w.to_be_bytes());
    let h = 240u32 << 16;
    p[80..84].copy_from_slice(&h.to_be_bytes());
    let t = parse_tkhd(&p).unwrap();
    assert!(t.enabled());
    assert_eq!(t.track_id, 1);
    assert_eq!(t.width(), 320);
    assert_eq!(t.height(), 240);
}

fn build_tkhd_with_matrix(matrix: [i32; 9]) -> Vec<u8> {
    let mut p = vec![0u8; 84];
    p[3] = 0x07;
    p[15] = 1;
    for (i, v) in matrix.iter().enumerate() {
        let off = 40 + i * 4;
        p[off..off + 4].copy_from_slice(&v.to_be_bytes());
    }
    p[76..80].copy_from_slice(&(320u32 << 16).to_be_bytes());
    p[80..84].copy_from_slice(&(240u32 << 16).to_be_bytes());
    p
}

#[test]
fn tkhd_rotation_identity_recognised() {
    let m = [
        0x0001_0000i32,
        0,
        0,
        0,
        0x0001_0000i32,
        0,
        0,
        0,
        0x4000_0000i32,
    ];
    let t = parse_tkhd(&build_tkhd_with_matrix(m)).unwrap();
    assert_eq!(t.matrix, m);
    assert_eq!(t.rotation(), TrackRotation::Identity);
}

#[test]
fn tkhd_rotation_90_recognised() {
    let m = [
        0,
        0x0001_0000i32,
        0,
        -0x0001_0000i32,
        0,
        0,
        0,
        0,
        0x4000_0000i32,
    ];
    let t = parse_tkhd(&build_tkhd_with_matrix(m)).unwrap();
    assert_eq!(t.rotation(), TrackRotation::Rotate90);
}

#[test]
fn tkhd_rotation_180_recognised() {
    let m = [
        -0x0001_0000i32,
        0,
        0,
        0,
        -0x0001_0000i32,
        0,
        0,
        0,
        0x4000_0000i32,
    ];
    let t = parse_tkhd(&build_tkhd_with_matrix(m)).unwrap();
    assert_eq!(t.rotation(), TrackRotation::Rotate180);
}

#[test]
fn tkhd_rotation_270_recognised() {
    let m = [
        0,
        -0x0001_0000i32,
        0,
        0x0001_0000i32,
        0,
        0,
        0,
        0,
        0x4000_0000i32,
    ];
    let t = parse_tkhd(&build_tkhd_with_matrix(m)).unwrap();
    assert_eq!(t.rotation(), TrackRotation::Rotate270);
}

#[test]
fn tkhd_rotation_skewed_falls_into_other() {
    let m = [
        0x0002_0000i32,
        0,
        0,
        0,
        0x0001_0000i32,
        0,
        0,
        0,
        0x4000_0000i32,
    ];
    let t = parse_tkhd(&build_tkhd_with_matrix(m)).unwrap();
    assert_eq!(t.rotation(), TrackRotation::Other);
}

#[test]
fn mdhd_v0_round_trip() {
    let mut p = vec![0u8; 24];
    p[12..16].copy_from_slice(&30000u32.to_be_bytes());
    p[16..20].copy_from_slice(&60000u32.to_be_bytes());
    let m = parse_mdhd(&p).unwrap();
    assert_eq!(m.time_scale, 30000);
    assert_eq!(m.duration, 60000);
}

#[test]
fn hdlr_subtype_classifies_track() {
    let mut p = vec![0u8; 24];
    p[8..12].copy_from_slice(b"vide");
    let h = parse_hdlr(&p).unwrap();
    assert!(h.is_video());
    assert!(!h.is_audio());
}

fn ftyp_with(major: &[u8; 4], compat: &[&[u8; 4]]) -> Ftyp {
    Ftyp {
        major_brand: *major,
        minor_version: 0,
        compatible_brands: compat.iter().map(|b| **b).collect(),
    }
}

#[test]
fn brand_class_classifies_known_tags_and_preserves_unknown() {
    assert_eq!(BrandClass::classify(b"heic"), BrandClass::Heic);
    assert_eq!(BrandClass::classify(b"heix"), BrandClass::Heix);
    assert_eq!(BrandClass::classify(b"avif"), BrandClass::Avif);
    assert_eq!(BrandClass::classify(b"mif1"), BrandClass::Mif1);
    assert_eq!(BrandClass::classify(b"MA1B"), BrandClass::Ma1b);
    assert_eq!(BrandClass::classify(b"qt  "), BrandClass::Qt);
    match BrandClass::classify(b"vNDR") {
        BrandClass::Other(b) => assert_eq!(b, *b"vNDR"),
        other => panic!("expected Other(vNDR), got {other:?}"),
    }
}

#[test]
fn brand_class_fourcc_round_trips() {
    for tag in [
        b"heic", b"heix", b"heim", b"heis", b"avif", b"mif1", b"qt  ",
    ] {
        assert_eq!(BrandClass::classify(tag).fourcc(), *tag);
    }
    assert_eq!(BrandClass::Other(*b"vNDR").fourcc(), *b"vNDR");
}

#[test]
fn ftyp_brand_class_walks_major_then_compatible() {
    let f = ftyp_with(b"heic", &[b"mif1"]);
    let classes = f.brand_class();
    assert_eq!(classes, vec![BrandClass::Heic, BrandClass::Mif1]);
}

#[test]
fn ftyp_is_heic_detects_major_or_compatible_heic() {
    assert!(ftyp_with(b"heic", &[]).is_heic());
    assert!(ftyp_with(b"mif1", &[b"heix"]).is_heic());
    assert!(!ftyp_with(b"mif1", &[b"isom"]).is_heic());
    assert!(!ftyp_with(b"qt  ", &[b"qt  "]).is_heic());
}

#[test]
fn ftyp_is_avif_detects_avif_brand_family() {
    assert!(ftyp_with(b"avif", &[b"mif1"]).is_avif());
    assert!(ftyp_with(b"mif1", &[b"avis"]).is_avif());
    assert!(!ftyp_with(b"heic", &[b"mif1"]).is_avif());
}

#[test]
fn ftyp_is_miaf_recognises_explicit_and_derivative_brands() {
    assert!(ftyp_with(b"mif1", &[]).is_miaf());
    assert!(ftyp_with(b"heic", &[]).is_miaf());
    assert!(ftyp_with(b"avif", &[]).is_miaf());
    assert!(ftyp_with(b"MA1A", &[]).is_miaf());
    assert!(!ftyp_with(b"isom", &[b"mp42"]).is_miaf());
    assert!(!ftyp_with(b"qt  ", &[]).is_miaf());
}
