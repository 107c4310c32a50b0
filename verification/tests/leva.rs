use oxideav_mov::leva::{AssignmentType, parse_leva};

fn build_leva(rows: &[(u32, bool, u8, Vec<u8>)]) -> Vec<u8> {
    let mut p = Vec::new();
    p.push(0u8);
    p.extend_from_slice(&[0u8, 0, 0]);
    p.push(rows.len() as u8);
    for (tid, pad, ty, trailer) in rows {
        p.extend_from_slice(&tid.to_be_bytes());
        let mut flag_type = ty & 0x7F;
        if *pad {
            flag_type |= 0x80;
        }
        p.push(flag_type);
        p.extend_from_slice(trailer);
    }
    p
}

#[test]
fn parses_two_track_levels() {
    let p = build_leva(&[(1, false, 2, vec![]), (2, true, 2, vec![])]);
    let leva = parse_leva(&p).unwrap();
    assert_eq!(leva.level_count(), 2);
    assert_eq!(leva.levels[0].track_id, 1);
    assert!(!leva.levels[0].padding_flag);
    assert_eq!(leva.levels[0].assignment_type, AssignmentType::Track);
    assert_eq!(leva.levels[1].track_id, 2);
    assert!(leva.levels[1].padding_flag);
}

#[test]
fn parses_sample_group_assignment() {
    let p = build_leva(&[(1, false, 2, vec![]), (1, false, 0, b"roll".to_vec())]);
    let leva = parse_leva(&p).unwrap();
    assert_eq!(
        leva.levels[1].assignment_type,
        AssignmentType::SampleGroup {
            grouping_type: *b"roll"
        }
    );
}

#[test]
fn parses_parameterized_sample_group() {
    let mut trailer = Vec::new();
    trailer.extend_from_slice(b"tscl");
    trailer.extend_from_slice(&7u32.to_be_bytes());
    let p = build_leva(&[(1, false, 2, vec![]), (1, false, 1, trailer)]);
    let leva = parse_leva(&p).unwrap();
    assert_eq!(
        leva.levels[1].assignment_type,
        AssignmentType::ParameterizedSampleGroup {
            grouping_type: *b"tscl",
            grouping_type_parameter: 7,
        }
    );
}

#[test]
fn parses_sub_track_assignment() {
    let trailer = 42u32.to_be_bytes().to_vec();
    let p = build_leva(&[(1, false, 2, vec![]), (1, false, 4, trailer)]);
    let leva = parse_leva(&p).unwrap();
    assert_eq!(
        leva.levels[1].assignment_type,
        AssignmentType::SubTrack { sub_track_id: 42 }
    );
}

#[test]
fn type_3_track_alternate_decodes() {
    let p = build_leva(&[(1, false, 2, vec![]), (1, false, 3, vec![])]);
    let leva = parse_leva(&p).unwrap();
    assert_eq!(
        leva.levels[1].assignment_type,
        AssignmentType::TrackAlternate
    );
}

#[test]
fn reserved_assignment_type_is_surfaced_verbatim() {
    let p = build_leva(&[(1, false, 2, vec![]), (1, false, 5, vec![])]);
    let leva = parse_leva(&p).unwrap();
    assert_eq!(
        leva.levels[1].assignment_type,
        AssignmentType::Reserved { raw: 5 }
    );
}

#[test]
fn level_count_below_2_rejected() {
    let mut p = build_leva(&[(1, false, 2, vec![])]);
    p[4] = 1;
    assert!(parse_leva(&p).is_err());
}

#[test]
fn level_count_zero_rejected() {
    let mut p = build_leva(&[(1, false, 2, vec![])]);
    p[4] = 0;
    assert!(parse_leva(&p).is_err());
}

#[test]
fn leva_unknown_version_rejected() {
    let mut p = build_leva(&[(1, false, 2, vec![]), (2, false, 2, vec![])]);
    p[0] = 1;
    assert!(parse_leva(&p).is_err());
}

#[test]
fn leva_truncated_header_rejected() {
    let p = vec![0u8, 0, 0, 0];
    assert!(parse_leva(&p).is_err());
}

#[test]
fn truncated_row_prefix_rejected() {
    let mut p = build_leva(&[(1, false, 2, vec![]), (2, false, 2, vec![])]);
    p.truncate(p.len() - 1);
    assert!(parse_leva(&p).is_err());
}

#[test]
fn truncated_sample_group_trailer_rejected() {
    let mut p = build_leva(&[(1, false, 2, vec![]), (1, false, 0, b"roll".to_vec())]);
    p.truncate(p.len() - 2);
    assert!(parse_leva(&p).is_err());
}

#[test]
fn trailing_bytes_rejected() {
    let mut p = build_leva(&[(1, false, 2, vec![]), (2, false, 2, vec![])]);
    p.extend_from_slice(&[0u8, 0]);
    assert!(parse_leva(&p).is_err());
}

#[test]
fn ordering_rule_allows_2_3_prefix_then_one_tail_kind() {
    let p = build_leva(&[
        (1, false, 2, vec![]),
        (2, false, 3, vec![]),
        (3, false, 2, vec![]),
        (4, false, 0, b"aaaa".to_vec()),
        (5, false, 0, b"bbbb".to_vec()),
    ]);
    let leva = parse_leva(&p).unwrap();
    assert_eq!(leva.level_count(), 5);
}

#[test]
fn ordering_rule_mixed_tail_kinds_rejected() {
    let mut trailer1 = Vec::new();
    trailer1.extend_from_slice(b"bbbb");
    trailer1.extend_from_slice(&0u32.to_be_bytes());
    let p = build_leva(&[
        (1, false, 2, vec![]),
        (2, false, 0, b"aaaa".to_vec()),
        (3, false, 1, trailer1),
    ]);
    assert!(parse_leva(&p).is_err());
}

#[test]
fn ordering_rule_track_after_pinned_tail_rejected() {
    let p = build_leva(&[(1, false, 0, b"aaaa".to_vec()), (2, false, 2, vec![])]);
    assert!(parse_leva(&p).is_err());
}

#[test]
fn padding_flag_round_trips_for_every_assignment_type() {
    let trailer = 99u32.to_be_bytes().to_vec();
    let p = build_leva(&[(1, false, 2, vec![]), (7, true, 4, trailer)]);
    let leva = parse_leva(&p).unwrap();
    assert!(leva.levels[1].padding_flag);
    assert_eq!(
        leva.levels[1].assignment_type,
        AssignmentType::SubTrack { sub_track_id: 99 }
    );
}

#[test]
fn level_accessor_is_1_based_per_spec() {
    let p = build_leva(&[(11, false, 2, vec![]), (22, false, 2, vec![])]);
    let leva = parse_leva(&p).unwrap();
    assert!(leva.level(0).is_none());
    assert_eq!(leva.level(1).unwrap().track_id, 11);
    assert_eq!(leva.level(2).unwrap().track_id, 22);
    assert!(leva.level(3).is_none());
}

#[test]
fn track_ids_dedupes_first_wins() {
    let p = build_leva(&[
        (1, false, 2, vec![]),
        (2, false, 2, vec![]),
        (1, false, 2, vec![]),
    ]);
    let leva = parse_leva(&p).unwrap();
    assert_eq!(leva.track_ids(), vec![1, 2]);
}

#[test]
fn level_count_max_255_fits_in_byte_accessor() {
    let rows: Vec<(u32, bool, u8, Vec<u8>)> = (0..255u32)
        .map(|i| (i + 1, false, 2u8, Vec::new()))
        .collect();
    let p = build_leva(&rows);
    let leva = parse_leva(&p).unwrap();
    assert_eq!(leva.level_count(), 255);
    assert_eq!(leva.levels.len(), 255);
}
