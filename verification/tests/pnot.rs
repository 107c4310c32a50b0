use oxideav_mov::pnot::{PNOT_BODY_LEN, parse_pnot};

fn build_pnot(
    modification_date: u32,
    version_number: u16,
    atom_type: [u8; 4],
    atom_index: u16,
) -> Vec<u8> {
    let mut p = Vec::with_capacity(PNOT_BODY_LEN);
    p.extend_from_slice(&modification_date.to_be_bytes());
    p.extend_from_slice(&version_number.to_be_bytes());
    p.extend_from_slice(&atom_type);
    p.extend_from_slice(&atom_index.to_be_bytes());
    p
}

#[test]
fn round_trip_fields() {
    let p = build_pnot(2_082_844_800, 0, *b"PICT", 1);
    let pnot = parse_pnot(&p).unwrap();
    assert_eq!(pnot.modification_date, 2_082_844_800);
    assert_eq!(pnot.version_number, 0);
    assert_eq!(pnot.atom_type, *b"PICT");
    assert_eq!(pnot.atom_index, 1);
    assert!(pnot.is_known_version());
    assert!(pnot.is_valid_index());
    assert_eq!(pnot.unix_seconds(), Some(0));
}

#[test]
fn unix_seconds_pre_1970_returns_none() {
    let p = build_pnot(0, 0, *b"PICT", 1);
    let pnot = parse_pnot(&p).unwrap();
    assert_eq!(pnot.unix_seconds(), None);
}

#[test]
fn unix_seconds_known_anchor() {
    let p = build_pnot(3_786_912_000, 0, *b"PICT", 1);
    let pnot = parse_pnot(&p).unwrap();
    assert_eq!(pnot.unix_seconds(), Some(1_704_067_200));
}

#[test]
fn unknown_version_parses_but_predicate_false() {
    let p = build_pnot(2_082_844_800, 1, *b"PICT", 1);
    let pnot = parse_pnot(&p).unwrap();
    assert!(!pnot.is_known_version());
    assert_eq!(pnot.atom_type, *b"PICT");
}

#[test]
fn zero_index_parses_but_predicate_false() {
    let p = build_pnot(2_082_844_800, 0, *b"PICT", 0);
    let pnot = parse_pnot(&p).unwrap();
    assert!(!pnot.is_valid_index());
    assert_eq!(pnot.atom_index, 0);
}

#[test]
fn non_pict_atom_type_round_trips() {
    let p = build_pnot(2_082_844_800, 0, *b"jpeg", 2);
    let pnot = parse_pnot(&p).unwrap();
    assert_eq!(pnot.atom_type, *b"jpeg");
    assert_eq!(pnot.atom_index, 2);
}

#[test]
fn truncated_body_rejects() {
    let p = vec![0u8; PNOT_BODY_LEN - 1];
    assert!(parse_pnot(&p).is_err());
}

#[test]
fn empty_body_rejects() {
    let p: Vec<u8> = Vec::new();
    assert!(parse_pnot(&p).is_err());
}

#[test]
fn trailing_bytes_reject() {
    let mut p = build_pnot(2_082_844_800, 0, *b"PICT", 1);
    p.push(0xAA);
    assert!(parse_pnot(&p).is_err());
}

#[test]
fn high_bit_atom_index_round_trips() {
    let p = build_pnot(2_082_844_800, 0, *b"PICT", 0xFFFF);
    let pnot = parse_pnot(&p).unwrap();
    assert_eq!(pnot.atom_index, 0xFFFF);
    assert!(pnot.is_valid_index());
}
