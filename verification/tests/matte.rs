use oxideav_mov::matte::{
    CompressedMatte, MIN_IMAGE_DESCRIPTION_SIZE, Matte, parse_kmat, parse_matt,
};

fn build_image_description(fourcc: &[u8; 4], extra_size: usize) -> Vec<u8> {
    let total = MIN_IMAGE_DESCRIPTION_SIZE as usize + extra_size;
    let mut out = Vec::with_capacity(total);
    out.extend_from_slice(&(total as u32).to_be_bytes());
    out.extend_from_slice(fourcc);
    out.extend_from_slice(&[0u8; 6]);
    out.extend_from_slice(&1u16.to_be_bytes());
    out.extend(std::iter::repeat(0u8).take(extra_size));
    out
}

fn build_kmat_body(version: u8, flags: u32, image_desc: &[u8], matte_data: &[u8]) -> Vec<u8> {
    let mut out = Vec::with_capacity(4 + image_desc.len() + matte_data.len());
    out.push(version);
    out.push(((flags >> 16) & 0xff) as u8);
    out.push(((flags >> 8) & 0xff) as u8);
    out.push((flags & 0xff) as u8);
    out.extend_from_slice(image_desc);
    out.extend_from_slice(matte_data);
    out
}

fn build_matt_body(kmat_body: &[u8]) -> Vec<u8> {
    let mut out = Vec::new();
    push_atom(&mut out, *b"kmat", kmat_body);
    out
}

fn push_atom(out: &mut Vec<u8>, fourcc: [u8; 4], body: &[u8]) {
    let size: u32 = (8 + body.len()) as u32;
    out.extend_from_slice(&size.to_be_bytes());
    out.extend_from_slice(&fourcc);
    out.extend_from_slice(body);
}

#[test]
fn kmat_minimum_image_description_round_trips() {
    let image_desc = build_image_description(b"raw ", 0);
    let matte_data = [0xAA, 0xBB, 0xCC, 0xDD];
    let body = build_kmat_body(0, 0, &image_desc, &matte_data);
    let parsed = parse_kmat(&body).unwrap();
    assert_eq!(parsed.version, 0);
    assert_eq!(parsed.flags, 0);
    assert_eq!(parsed.image_description, image_desc);
    assert_eq!(parsed.matte_data, matte_data);
    assert_eq!(parsed.data_format(), Some(*b"raw "));
    assert_eq!(parsed.image_description_size(), 16);
}

#[test]
fn kmat_with_extended_image_description_carves_correctly() {
    let image_desc = build_image_description(b"jpeg", 70);
    assert_eq!(image_desc.len(), 86);
    let matte_data: Vec<u8> = (0..32).collect();
    let body = build_kmat_body(0, 0, &image_desc, &matte_data);
    let parsed = parse_kmat(&body).unwrap();
    assert_eq!(parsed.image_description_size(), 86);
    assert_eq!(parsed.matte_data, matte_data);
    assert_eq!(parsed.data_format(), Some(*b"jpeg"));
}

#[test]
fn kmat_with_no_matte_data_accepted() {
    let image_desc = build_image_description(b"alis", 0);
    let body = build_kmat_body(0, 0, &image_desc, &[]);
    let parsed = parse_kmat(&body).unwrap();
    assert!(parsed.matte_data.is_empty());
    assert_eq!(parsed.image_description, image_desc);
}

#[test]
fn kmat_rejects_short_payload() {
    let body = [0u8; 7];
    let err = parse_kmat(&body).unwrap_err();
    assert!(err.message().contains("kmat payload too short"));
}

#[test]
fn kmat_rejects_unknown_version() {
    let image_desc = build_image_description(b"raw ", 0);
    let body = build_kmat_body(1, 0, &image_desc, &[]);
    let err = parse_kmat(&body).unwrap_err();
    assert!(err.message().contains("kmat unknown version 1"));
}

#[test]
fn kmat_rejects_non_zero_flags() {
    let image_desc = build_image_description(b"raw ", 0);
    let body = build_kmat_body(0, 0x000123, &image_desc, &[]);
    let err = parse_kmat(&body).unwrap_err();
    assert!(err.message().contains("kmat flags="));
}

#[test]
fn kmat_rejects_image_description_below_minimum() {
    let mut body = Vec::new();
    body.push(0);
    body.extend_from_slice(&[0, 0, 0]);
    body.extend_from_slice(&15u32.to_be_bytes());
    body.extend(std::iter::repeat(0u8).take(15));
    let err = parse_kmat(&body).unwrap_err();
    assert!(err.message().contains("image-description size 15"));
}

#[test]
fn kmat_rejects_image_description_overshooting_payload() {
    let mut body = Vec::new();
    body.push(0);
    body.extend_from_slice(&[0, 0, 0]);
    body.extend_from_slice(&32u32.to_be_bytes());
    body.extend(std::iter::repeat(0u8).take(20));
    let err = parse_kmat(&body).unwrap_err();
    assert!(err.message().contains("exceeds body remainder"));
}

#[test]
fn matt_wraps_single_kmat_child() {
    let image_desc = build_image_description(b"smc ", 0);
    let matte = b"\x10\x20\x30\x40";
    let kmat_body = build_kmat_body(0, 0, &image_desc, matte);
    let matt_body = build_matt_body(&kmat_body);
    let parsed = parse_matt(&matt_body).unwrap();
    assert_eq!(parsed.compressed.image_description, image_desc);
    assert_eq!(parsed.compressed.matte_data, matte);
    assert_eq!(parsed.compressed.data_format(), Some(*b"smc "));
}

#[test]
fn matt_first_wins_on_duplicate_kmat() {
    let id_a = build_image_description(b"AAAA", 0);
    let id_b = build_image_description(b"BBBB", 0);
    let kmat_a = build_kmat_body(0, 0, &id_a, b"first");
    let kmat_b = build_kmat_body(0, 0, &id_b, b"second");
    let mut matt_body = Vec::new();
    push_atom(&mut matt_body, *b"kmat", &kmat_a);
    push_atom(&mut matt_body, *b"kmat", &kmat_b);
    let parsed = parse_matt(&matt_body).unwrap();
    assert_eq!(parsed.compressed.data_format(), Some(*b"AAAA"));
    assert_eq!(parsed.compressed.matte_data, b"first");
}

#[test]
fn matt_tolerates_unknown_sibling_atoms() {
    let image_desc = build_image_description(b"raw ", 0);
    let kmat_body = build_kmat_body(0, 0, &image_desc, b"data");
    let mut matt_body = Vec::new();
    push_atom(&mut matt_body, *b"xxxx", &[0xCA, 0xFE, 0xBA, 0xBE]);
    push_atom(&mut matt_body, *b"kmat", &kmat_body);
    push_atom(&mut matt_body, *b"yyyy", &[0x01, 0x02]);
    let parsed = parse_matt(&matt_body).unwrap();
    assert_eq!(parsed.compressed.data_format(), Some(*b"raw "));
    assert_eq!(parsed.compressed.matte_data, b"data");
}

#[test]
fn matt_rejects_missing_kmat_child() {
    let mut matt_body = Vec::new();
    push_atom(&mut matt_body, *b"xxxx", &[0u8; 4]);
    let err = parse_matt(&matt_body).unwrap_err();
    assert!(err.message().contains("no kmat child"));
}

#[test]
fn matt_surfaces_inner_kmat_error() {
    let image_desc = build_image_description(b"raw ", 0);
    let bad = build_kmat_body(0xFF, 0, &image_desc, &[]);
    let mut matt_body = Vec::new();
    push_atom(&mut matt_body, *b"kmat", &bad);
    assert!(parse_matt(&matt_body).is_err());
}

#[test]
fn matt_handles_size_zero_trailing_child() {
    let image_desc = build_image_description(b"raw ", 0);
    let kmat_body = build_kmat_body(0, 0, &image_desc, b"tail");
    let mut matt_body = Vec::new();
    matt_body.extend_from_slice(&0u32.to_be_bytes());
    matt_body.extend_from_slice(b"kmat");
    matt_body.extend_from_slice(&kmat_body);
    let parsed = parse_matt(&matt_body).unwrap();
    assert_eq!(parsed.compressed.matte_data, b"tail");
}

#[test]
fn kmat_to_body_bytes_is_parse_inverse() {
    let image_desc = build_image_description(b"png ", 4);
    let cm = CompressedMatte {
        version: 0,
        flags: 0,
        image_description: image_desc,
        matte_data: vec![1, 2, 3, 4, 5],
    };
    let body = cm.to_body_bytes();
    assert_eq!(parse_kmat(&body).unwrap(), cm);
}

#[test]
fn kmat_to_body_bytes_empty_matte_data() {
    let cm = CompressedMatte {
        version: 0,
        flags: 0,
        image_description: build_image_description(b"raw ", 0),
        matte_data: Vec::new(),
    };
    let body = cm.to_body_bytes();
    let reparsed = parse_kmat(&body).unwrap();
    assert_eq!(reparsed, cm);
    assert_eq!(reparsed.data_format(), Some(*b"raw "));
    assert!(reparsed.matte_data.is_empty());
}

#[test]
fn matt_to_body_bytes_is_parse_inverse() {
    let matte = Matte {
        compressed: CompressedMatte {
            version: 0,
            flags: 0,
            image_description: build_image_description(b"jpeg", 8),
            matte_data: vec![0xAA; 16],
        },
    };
    let body = matte.to_body_bytes();
    assert_eq!(parse_matt(&body).unwrap(), matte);
}
