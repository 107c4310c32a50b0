use oxideav_mov::metadata_sample::{
    BitRate, MetadataSampleEntry, SubtitleSampleEntry, TextMetadataSampleEntry,
    XmlSubtitleSampleEntry, parse_btrt, parse_metadata_sample_entry, parse_mett, parse_metx,
    parse_sbtt, parse_stpp, parse_subtitle_sample_entry, parse_urim,
};

fn btrt_box() -> Vec<u8> {
    let mut b = Vec::new();
    b.extend_from_slice(&20u32.to_be_bytes());
    b.extend_from_slice(b"btrt");
    b.extend_from_slice(&100u32.to_be_bytes());
    b.extend_from_slice(&200u32.to_be_bytes());
    b.extend_from_slice(&150u32.to_be_bytes());
    b
}

#[test]
fn parse_btrt_fields() {
    let b = btrt_box();
    let br = parse_btrt(&b[8..]).unwrap();
    assert_eq!(br.buffer_size_db, 100);
    assert_eq!(br.max_bitrate, 200);
    assert_eq!(br.avg_bitrate, 150);
}

#[test]
fn parse_btrt_too_short() {
    assert!(parse_btrt(&[0, 0, 0, 1]).is_err());
}

#[test]
fn metx_namespace_only() {
    let mut body = Vec::new();
    body.extend_from_slice(b"");
    body.push(0);
    body.extend_from_slice(b"http://example.com/ns");
    body.push(0);
    body.extend_from_slice(b"");
    body.push(0);
    let e = parse_metx(&body).unwrap();
    assert_eq!(e.content_encoding, "");
    assert_eq!(e.namespace, "http://example.com/ns");
    assert_eq!(e.schema_location, "");
    assert!(e.bitrate.is_none());
}

#[test]
fn metx_all_three_strings_and_btrt() {
    let mut body = Vec::new();
    body.extend_from_slice(b"application/zip");
    body.push(0);
    body.extend_from_slice(b"urn:ns");
    body.push(0);
    body.extend_from_slice(b"http://s/schema.xsd");
    body.push(0);
    body.extend_from_slice(&btrt_box());
    let e = parse_metx(&body).unwrap();
    assert_eq!(e.content_encoding, "application/zip");
    assert_eq!(e.namespace, "urn:ns");
    assert_eq!(e.schema_location, "http://s/schema.xsd");
    assert_eq!(e.bitrate.unwrap().avg_bitrate, 150);
}

#[test]
fn metx_two_strings() {
    let mut body = Vec::new();
    body.extend_from_slice(b"application/zip");
    body.push(0);
    body.extend_from_slice(b"urn:ns");
    body.push(0);
    let e = parse_metx(&body).unwrap();
    assert_eq!(e.content_encoding, "application/zip");
    assert_eq!(e.namespace, "urn:ns");
    assert_eq!(e.schema_location, "");
}

#[test]
fn mett_mime_and_txtc() {
    let mut body = Vec::new();
    body.extend_from_slice(b"");
    body.push(0);
    body.extend_from_slice(b"text/plain");
    body.push(0);
    let mut txtc = Vec::new();
    let cfg = b"prefix-text";
    let size = 8 + 4 + cfg.len() + 1;
    txtc.extend_from_slice(&(size as u32).to_be_bytes());
    txtc.extend_from_slice(b"txtC");
    txtc.extend_from_slice(&0u32.to_be_bytes());
    txtc.extend_from_slice(cfg);
    txtc.push(0);
    body.extend_from_slice(&txtc);
    let e = parse_mett(&body).unwrap();
    assert_eq!(e.content_encoding, "");
    assert_eq!(e.mime_format, "text/plain");
    assert_eq!(e.text_config.as_deref(), Some("prefix-text"));
}

#[test]
fn mett_single_string_is_mime() {
    let mut body = Vec::new();
    body.extend_from_slice(b"text/html");
    body.push(0);
    let e = parse_mett(&body).unwrap();
    assert_eq!(e.content_encoding, "");
    assert_eq!(e.mime_format, "text/html");
}

#[test]
fn urim_uri_init_btrt() {
    let mut body = Vec::new();
    let uri = b"urn:mpeg:dash:event:2012";
    let usize_ = 8 + 4 + uri.len() + 1;
    body.extend_from_slice(&(usize_ as u32).to_be_bytes());
    body.extend_from_slice(b"uri ");
    body.extend_from_slice(&0u32.to_be_bytes());
    body.extend_from_slice(uri);
    body.push(0);
    let init = [1u8, 2, 3, 4];
    let isize_ = 8 + 4 + init.len();
    body.extend_from_slice(&(isize_ as u32).to_be_bytes());
    body.extend_from_slice(b"uriI");
    body.extend_from_slice(&0u32.to_be_bytes());
    body.extend_from_slice(&init);
    body.extend_from_slice(&btrt_box());
    let e = parse_urim(&body).unwrap();
    assert_eq!(e.the_uri, "urn:mpeg:dash:event:2012");
    assert_eq!(e.init.as_deref(), Some(&[1u8, 2, 3, 4][..]));
    assert_eq!(e.bitrate.unwrap().max_bitrate, 200);
}

#[test]
fn dispatch_unknown_returns_none() {
    assert!(parse_metadata_sample_entry(b"avc1", &[]).unwrap().is_none());
}

#[test]
fn dispatch_recognises_all_three() {
    let mut metx = Vec::new();
    metx.extend_from_slice(b"urn:ns");
    metx.push(0);
    assert!(matches!(
        parse_metadata_sample_entry(b"metx", &metx).unwrap(),
        Some(MetadataSampleEntry::Xml(_))
    ));
    let mut mett = Vec::new();
    mett.extend_from_slice(b"text/plain");
    mett.push(0);
    assert!(matches!(
        parse_metadata_sample_entry(b"mett", &mett).unwrap(),
        Some(MetadataSampleEntry::Text(_))
    ));
    let mut urim = Vec::new();
    let uri = b"x";
    urim.extend_from_slice(&((8 + 4 + uri.len() + 1) as u32).to_be_bytes());
    urim.extend_from_slice(b"uri ");
    urim.extend_from_slice(&0u32.to_be_bytes());
    urim.extend_from_slice(uri);
    urim.push(0);
    assert!(matches!(
        parse_metadata_sample_entry(b"urim", &urim).unwrap(),
        Some(MetadataSampleEntry::Uri(_))
    ));
}

#[test]
fn bitrate_accessor() {
    let e = MetadataSampleEntry::Text(TextMetadataSampleEntry {
        bitrate: Some(BitRate {
            buffer_size_db: 1,
            max_bitrate: 2,
            avg_bitrate: 3,
        }),
        ..Default::default()
    });
    assert_eq!(e.bitrate().unwrap().avg_bitrate, 3);
}

#[test]
fn stpp_namespace_schema_aux_and_btrt() {
    let mut body = Vec::new();
    body.extend_from_slice(b"http://www.w3.org/ns/ttml");
    body.push(0);
    body.extend_from_slice(b"ttml.xsd");
    body.push(0);
    body.extend_from_slice(b"image/png font/ttf");
    body.push(0);
    body.extend_from_slice(&btrt_box());
    let e = parse_stpp(&body).unwrap();
    assert_eq!(e.namespace, "http://www.w3.org/ns/ttml");
    assert_eq!(e.schema_location, "ttml.xsd");
    assert_eq!(e.auxiliary_mime_types, "image/png font/ttf");
    assert_eq!(e.bitrate.unwrap().avg_bitrate, 150);
}

#[test]
fn stpp_namespace_only() {
    let mut body = Vec::new();
    body.extend_from_slice(b"urn:ns");
    body.push(0);
    let e = parse_stpp(&body).unwrap();
    assert_eq!(e.namespace, "urn:ns");
    assert_eq!(e.schema_location, "");
    assert_eq!(e.auxiliary_mime_types, "");
    assert!(e.bitrate.is_none());
}

#[test]
fn sbtt_mime_and_txtc() {
    let mut body = Vec::new();
    body.push(0);
    body.extend_from_slice(b"text/plain");
    body.push(0);
    let cfg = b"WEBVTT";
    let size = 8 + 4 + cfg.len() + 1;
    body.extend_from_slice(&(size as u32).to_be_bytes());
    body.extend_from_slice(b"txtC");
    body.extend_from_slice(&0u32.to_be_bytes());
    body.extend_from_slice(cfg);
    body.push(0);
    let e = parse_sbtt(&body).unwrap();
    assert_eq!(e.content_encoding, "");
    assert_eq!(e.mime_format, "text/plain");
    assert_eq!(e.text_config.as_deref(), Some("WEBVTT"));
}

#[test]
fn subtitle_dispatch_and_accessor() {
    let mut stpp = Vec::new();
    stpp.extend_from_slice(b"urn:ns");
    stpp.push(0);
    assert!(matches!(
        parse_subtitle_sample_entry(b"stpp", &stpp).unwrap(),
        Some(SubtitleSampleEntry::Xml(_))
    ));
    let mut sbtt = Vec::new();
    sbtt.extend_from_slice(b"text/plain");
    sbtt.push(0);
    assert!(matches!(
        parse_subtitle_sample_entry(b"sbtt", &sbtt).unwrap(),
        Some(SubtitleSampleEntry::Text(_))
    ));
    assert!(parse_subtitle_sample_entry(b"tx3g", &[]).unwrap().is_none());
    let e = SubtitleSampleEntry::Xml(XmlSubtitleSampleEntry {
        bitrate: Some(BitRate {
            buffer_size_db: 9,
            max_bitrate: 8,
            avg_bitrate: 7,
        }),
        ..Default::default()
    });
    assert_eq!(e.bitrate().unwrap().avg_bitrate, 7);
}
