use oxideav_mov::kind::{KindEntry, find_kinds_in_udta, parse_kind};

fn build_kind(version: u8, flags: u32, scheme: &str, value: Option<&str>) -> Vec<u8> {
    let mut p = Vec::new();
    p.push(version);
    let f = flags.to_be_bytes();
    p.extend_from_slice(&f[1..4]);
    p.extend_from_slice(scheme.as_bytes());
    p.push(0);
    if let Some(v) = value {
        p.extend_from_slice(v.as_bytes());
        p.push(0);
    } else {
        p.push(0);
    }
    p
}

fn push_atom(out: &mut Vec<u8>, fourcc: [u8; 4], body: &[u8]) {
    let size: u32 = (8 + body.len()) as u32;
    out.extend_from_slice(&size.to_be_bytes());
    out.extend_from_slice(&fourcc);
    out.extend_from_slice(body);
}

#[test]
fn scheme_only_round_trip() {
    let p = build_kind(0, 0, "urn:mpeg:dash:role:2011", None);
    let k = parse_kind(&p).unwrap();
    assert_eq!(k.scheme_uri, "urn:mpeg:dash:role:2011");
    assert_eq!(k.value, None);
    assert!(!k.has_value());
}

#[test]
fn scheme_and_value_round_trip() {
    let p = build_kind(0, 0, "urn:mpeg:dash:role:2011", Some("main"));
    let k = parse_kind(&p).unwrap();
    assert_eq!(k.scheme_uri, "urn:mpeg:dash:role:2011");
    assert_eq!(k.value.as_deref(), Some("main"));
    assert!(k.has_value());
}

#[test]
fn webvtt_role_subtitles_round_trip() {
    let p = build_kind(0, 0, "https://www.w3.org/TR/webvtt1/", Some("subtitles"));
    let k = parse_kind(&p).unwrap();
    assert_eq!(k.scheme_uri, "https://www.w3.org/TR/webvtt1/");
    assert_eq!(k.value.as_deref(), Some("subtitles"));
}

#[test]
fn empty_value_after_scheme_surfaces_as_none() {
    let p = build_kind(0, 0, "foo", None);
    let k = parse_kind(&p).unwrap();
    assert_eq!(k.scheme_uri, "foo");
    assert!(k.value.is_none());
}

#[test]
fn missing_trailing_null_on_value_accepted() {
    let mut p = Vec::new();
    p.extend_from_slice(&[0, 0, 0, 0]);
    p.extend_from_slice(b"scheme\0tail");
    let k = parse_kind(&p).unwrap();
    assert_eq!(k.scheme_uri, "scheme");
    assert_eq!(k.value.as_deref(), Some("tail"));
}

#[test]
fn missing_trailing_null_on_scheme_yields_none_value() {
    let mut p = Vec::new();
    p.extend_from_slice(&[0, 0, 0, 0]);
    p.extend_from_slice(b"only-scheme");
    let k = parse_kind(&p).unwrap();
    assert_eq!(k.scheme_uri, "only-scheme");
    assert!(k.value.is_none());
}

#[test]
fn non_zero_version_rejected() {
    let p = build_kind(1, 0, "x", None);
    assert!(parse_kind(&p).is_err());
}

#[test]
fn truncated_below_fullbox_header_errors() {
    let p = vec![0u8; 3];
    assert!(parse_kind(&p).is_err());
}

#[test]
fn fullbox_flags_ignored() {
    let p = build_kind(0, 0x00FF_FFFF, "scheme", Some("v"));
    let k = parse_kind(&p).unwrap();
    assert_eq!(k.scheme_uri, "scheme");
    assert_eq!(k.value.as_deref(), Some("v"));
}

#[test]
fn invalid_utf8_in_scheme_uses_replacement_char() {
    let mut p = Vec::new();
    p.extend_from_slice(&[0, 0, 0, 0]);
    p.extend_from_slice(&[b'a', 0xFF, 0xFE, b'z', 0]);
    p.push(0);
    let k = parse_kind(&p).unwrap();
    assert!(k.scheme_uri.starts_with('a'));
    assert!(k.scheme_uri.ends_with('z'));
    assert!(k.scheme_uri.contains('\u{FFFD}'));
}

#[test]
fn find_kinds_in_udta_returns_empty_when_absent() {
    let mut udta = Vec::new();
    let intl_body = b"\x00\x05\x00\x00Title";
    push_atom(&mut udta, [0xA9, b'n', b'a', b'm'], intl_body);
    let kinds = find_kinds_in_udta(&udta).unwrap();
    assert!(kinds.is_empty());
}

#[test]
fn find_kinds_in_udta_collects_all_in_file_order() {
    let mut udta = Vec::new();
    let k1 = build_kind(0, 0, "urn:mpeg:dash:role:2011", Some("main"));
    push_atom(&mut udta, *b"kind", &k1);
    let intl_body = b"\x00\x05\x00\x00Title";
    push_atom(&mut udta, [0xA9, b'n', b'a', b'm'], intl_body);
    let k2 = build_kind(0, 0, "https://www.w3.org/TR/webvtt1/", Some("subtitles"));
    push_atom(&mut udta, *b"kind", &k2);
    let kinds = find_kinds_in_udta(&udta).unwrap();
    assert_eq!(kinds.len(), 2);
    assert_eq!(kinds[0].scheme_uri, "urn:mpeg:dash:role:2011");
    assert_eq!(kinds[0].value.as_deref(), Some("main"));
    assert_eq!(kinds[1].scheme_uri, "https://www.w3.org/TR/webvtt1/");
    assert_eq!(kinds[1].value.as_deref(), Some("subtitles"));
}

#[test]
fn find_kinds_propagates_inner_parse_error() {
    let mut udta = Vec::new();
    push_atom(&mut udta, *b"kind", &[0u8; 3]);
    assert!(find_kinds_in_udta(&udta).is_err());
}

#[test]
fn find_kinds_in_udta_handles_zero_terminator() {
    let mut udta = Vec::new();
    let k = build_kind(0, 0, "urn:scheme", None);
    push_atom(&mut udta, *b"kind", &k);
    udta.extend_from_slice(&0u32.to_be_bytes());
    let kinds = find_kinds_in_udta(&udta).unwrap();
    assert_eq!(kinds.len(), 1);
    assert_eq!(kinds[0].scheme_uri, "urn:scheme");
}

#[test]
fn to_body_bytes_is_parse_inverse_with_value() {
    let k = KindEntry {
        scheme_uri: "urn:mpeg:dash:role:2011".to_string(),
        value: Some("caption".to_string()),
    };
    let body = k.to_body_bytes();
    assert_eq!(parse_kind(&body).unwrap(), k);
}

#[test]
fn to_body_bytes_is_parse_inverse_uri_only() {
    let k = KindEntry {
        scheme_uri: "https://www.w3.org/TR/webvtt1/".to_string(),
        value: None,
    };
    let body = k.to_body_bytes();
    let reparsed = parse_kind(&body).unwrap();
    assert_eq!(reparsed, k);
    assert!(!reparsed.has_value());
}

#[test]
fn to_body_bytes_empty_value_round_trips_as_none() {
    let with_empty = KindEntry {
        scheme_uri: "urn:x".to_string(),
        value: Some(String::new()),
    };
    let as_none = KindEntry {
        scheme_uri: "urn:x".to_string(),
        value: None,
    };
    assert_eq!(with_empty.to_body_bytes(), as_none.to_body_bytes());
    assert_eq!(parse_kind(&with_empty.to_body_bytes()).unwrap(), as_none);
}
