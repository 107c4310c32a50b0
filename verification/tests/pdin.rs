use oxideav_mov::pdin::{Pdin, PdinEntry, parse_pdin};

fn build_pdin(version: u8, pairs: &[(u32, u32)]) -> Vec<u8> {
    let mut p = Vec::with_capacity(4 + 8 * pairs.len());
    p.push(version);
    p.extend_from_slice(&[0, 0, 0]);
    for (rate, delay) in pairs {
        p.extend_from_slice(&rate.to_be_bytes());
        p.extend_from_slice(&delay.to_be_bytes());
    }
    p
}

#[test]
fn parses_two_entries_in_file_order() {
    let p = build_pdin(0, &[(125_000, 2_000), (1_000_000, 250)]);
    let pdin = parse_pdin(&p).unwrap();
    assert_eq!(pdin.entries.len(), 2);
    assert_eq!(pdin.entries[0].rate, 125_000);
    assert_eq!(pdin.entries[0].initial_delay, 2_000);
    assert_eq!(pdin.entries[1].rate, 1_000_000);
    assert_eq!(pdin.entries[1].initial_delay, 250);
}

#[test]
fn empty_table_is_legal() {
    let p = build_pdin(0, &[]);
    let pdin = parse_pdin(&p).unwrap();
    assert!(pdin.entries.is_empty());
}

#[test]
fn pdin_unknown_version_rejected() {
    let p = build_pdin(1, &[(1, 1)]);
    assert!(parse_pdin(&p).is_err());
}

#[test]
fn pdin_truncated_header_rejected() {
    let p = vec![0u8; 3];
    assert!(parse_pdin(&p).is_err());
}

#[test]
fn partial_trailing_entry_rejected() {
    let mut p = build_pdin(0, &[(500_000, 1_000)]);
    p.extend_from_slice(&[0u8; 4]);
    assert!(parse_pdin(&p).is_err());
}

#[test]
fn interpolation_inside_bracket() {
    let pdin = Pdin {
        entries: vec![
            PdinEntry {
                rate: 100,
                initial_delay: 4000,
            },
            PdinEntry {
                rate: 200,
                initial_delay: 2000,
            },
        ],
    };
    assert_eq!(pdin.initial_delay_for(150), Some(3000));
}

#[test]
fn extrapolation_clamps_below_first_entry() {
    let pdin = Pdin {
        entries: vec![
            PdinEntry {
                rate: 100,
                initial_delay: 4000,
            },
            PdinEntry {
                rate: 200,
                initial_delay: 2000,
            },
        ],
    };
    assert_eq!(pdin.initial_delay_for(50), Some(4000));
}

#[test]
fn extrapolation_clamps_above_last_entry() {
    let pdin = Pdin {
        entries: vec![
            PdinEntry {
                rate: 100,
                initial_delay: 4000,
            },
            PdinEntry {
                rate: 200,
                initial_delay: 2000,
            },
        ],
    };
    assert_eq!(pdin.initial_delay_for(1_000), Some(2000));
}

#[test]
fn lookup_empty_table_is_none() {
    let pdin = Pdin {
        entries: Vec::new(),
    };
    assert_eq!(pdin.initial_delay_for(500_000), None);
}

#[test]
fn unordered_writer_input_still_interpolates_correctly() {
    let pdin = Pdin {
        entries: vec![
            PdinEntry {
                rate: 1_000_000,
                initial_delay: 200,
            },
            PdinEntry {
                rate: 250_000,
                initial_delay: 1_200,
            },
            PdinEntry {
                rate: 500_000,
                initial_delay: 600,
            },
        ],
    };
    assert_eq!(pdin.initial_delay_for(750_000), Some(400));
}

#[test]
fn exact_match_returns_exact_delay() {
    let pdin = Pdin {
        entries: vec![
            PdinEntry {
                rate: 100,
                initial_delay: 5_000,
            },
            PdinEntry {
                rate: 200,
                initial_delay: 2_000,
            },
            PdinEntry {
                rate: 300,
                initial_delay: 800,
            },
        ],
    };
    assert_eq!(pdin.initial_delay_for(200), Some(2_000));
}

#[test]
fn round_trip_through_parser() {
    let pairs = vec![(64_000, 8_000), (256_000, 2_000), (2_000_000, 200)];
    let bytes = build_pdin(0, &pairs);
    let pdin = parse_pdin(&bytes).unwrap();
    assert_eq!(pdin.entries.len(), 3);
    for (i, (rate, delay)) in pairs.iter().enumerate() {
        assert_eq!(pdin.entries[i].rate, *rate);
        assert_eq!(pdin.entries[i].initial_delay, *delay);
    }
}
