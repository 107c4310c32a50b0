use oxideav_mov::fourcc::{COLR, ISPE, PIXI};
use oxideav_mov::iprp::{
    ColrInfo, Ispe, ItemProperties, ItemProperty, Pixi, PropertyAssociation, parse_colr_payload,
};
use oxideav_mov::iprp_read::{parse_ipma, parse_iprp};

fn push_atom(out: &mut Vec<u8>, fourcc: &[u8; 4], body: &[u8]) {
    let size = (8 + body.len()) as u32;
    out.extend_from_slice(&size.to_be_bytes());
    out.extend_from_slice(fourcc);
    out.extend_from_slice(body);
}

fn ispe_body(w: u32, h: u32) -> Vec<u8> {
    let mut p = Vec::new();
    p.extend_from_slice(&0u32.to_be_bytes());
    p.extend_from_slice(&w.to_be_bytes());
    p.extend_from_slice(&h.to_be_bytes());
    p
}

fn pixi_body(bits: &[u8]) -> Vec<u8> {
    let mut p = Vec::new();
    p.extend_from_slice(&0u32.to_be_bytes());
    p.push(bits.len() as u8);
    p.extend_from_slice(bits);
    p
}

fn colr_nclx() -> Vec<u8> {
    let mut p = Vec::new();
    p.extend_from_slice(b"nclx");
    p.extend_from_slice(&1u16.to_be_bytes());
    p.extend_from_slice(&13u16.to_be_bytes());
    p.extend_from_slice(&6u16.to_be_bytes());
    p.push(0x80);
    p
}

fn build_ipco(props: &[(&[u8; 4], &[u8])]) -> Vec<u8> {
    let mut body = Vec::new();
    for (fc, payload) in props {
        push_atom(&mut body, fc, payload);
    }
    body
}

fn build_ipma_v0(rows: &[(u16, &[(u8, bool)])]) -> Vec<u8> {
    let mut body = Vec::new();
    body.extend_from_slice(&0u32.to_be_bytes());
    body.extend_from_slice(&(rows.len() as u32).to_be_bytes());
    for (item_id, assocs) in rows {
        body.extend_from_slice(&item_id.to_be_bytes());
        body.push(assocs.len() as u8);
        for (idx, essential) in *assocs {
            let mut byte = idx & 0x7F;
            if *essential {
                byte |= 0x80;
            }
            body.push(byte);
        }
    }
    body
}

fn build_iprp(ipco_body: &[u8], ipma_body: &[u8]) -> Vec<u8> {
    let mut body = Vec::new();
    push_atom(&mut body, b"ipco", ipco_body);
    push_atom(&mut body, b"ipma", ipma_body);
    body
}

fn run_parse(iprp_body: &[u8]) -> ItemProperties {
    parse_iprp(iprp_body).unwrap()
}

#[test]
fn ipco_collects_property_boxes_in_order() {
    let ipco = build_ipco(&[
        (b"ispe", &ispe_body(256, 256)),
        (b"colr", &colr_nclx()),
        (b"pixi", &pixi_body(&[8, 8, 8])),
    ]);
    let ipma = build_ipma_v0(&[]);
    let iprp = build_iprp(&ipco, &ipma);
    let p = run_parse(&iprp);
    assert_eq!(p.properties.len(), 3);
    assert!(matches!(
        p.properties[0],
        ItemProperty::Ispe(Ispe {
            width: 256,
            height: 256
        })
    ));
    assert!(matches!(p.properties[1], ItemProperty::Colr(_)));
    assert!(matches!(p.properties[2], ItemProperty::Pixi(_)));
}

#[test]
fn ipma_v0_8bit_indices_resolve_to_properties() {
    let ipco = build_ipco(&[
        (b"ispe", &ispe_body(64, 64)),
        (b"colr", &colr_nclx()),
        (b"pixi", &pixi_body(&[8, 8, 8])),
    ]);
    let ipma = build_ipma_v0(&[(1, &[(1, true), (3, false)])]);
    let p = run_parse(&build_iprp(&ipco, &ipma));
    let row = p.associations_for(1).unwrap();
    assert_eq!(row.associations.len(), 2);
    assert_eq!(row.associations[0].index, 1);
    assert!(row.associations[0].essential);
    assert_eq!(row.associations[1].index, 3);
    assert!(!row.associations[1].essential);
    let resolved = p.resolve(1);
    assert_eq!(resolved.len(), 2);
    assert_eq!(resolved[0].fourcc(), ISPE);
    assert_eq!(resolved[1].fourcc(), PIXI);
}

#[test]
fn ipma_v1_16bit_indices() {
    let ipco = build_ipco(&[(b"ispe", &ispe_body(2, 2))]);
    let mut ipma = Vec::new();
    ipma.push(1u8);
    ipma.extend_from_slice(&[0, 0, 1]);
    ipma.extend_from_slice(&1u32.to_be_bytes());
    ipma.extend_from_slice(&42u32.to_be_bytes());
    ipma.push(1);
    ipma.extend_from_slice(&0x8001u16.to_be_bytes());
    let p = run_parse(&build_iprp(&ipco, &ipma));
    let row = p.associations_for(42).unwrap();
    assert_eq!(row.associations.len(), 1);
    assert_eq!(row.associations[0].index, 1);
    assert!(row.associations[0].essential);
}

#[test]
fn shared_property_used_by_multiple_items() {
    let ipco = build_ipco(&[
        (b"hvcC", &[1u8, 2, 3, 4][..]),
        (b"ispe", &ispe_body(128, 128)),
        (b"colr", &colr_nclx()),
        (b"pixi", &pixi_body(&[8, 8, 8])),
    ]);
    let row = [(1, true), (2, true), (3, false), (4, false)];
    let ipma = build_ipma_v0(&[(2, &row), (3, &row), (4, &row), (5, &row)]);
    let p = run_parse(&build_iprp(&ipco, &ipma));
    for id in 2..=5u32 {
        let r = p.resolve(id);
        assert_eq!(r.len(), 4);
        assert_eq!(r[0].fourcc(), *b"hvcC");
        assert_eq!(r[1].fourcc(), ISPE);
        assert_eq!(r[2].fourcc(), COLR);
        assert_eq!(r[3].fourcc(), PIXI);
    }
    assert_eq!(
        p.ispe_for(3),
        Some(Ispe {
            width: 128,
            height: 128
        })
    );
    assert!(p.colr_for(3).is_some());
}

#[test]
fn irot_imir_auxc_decode() {
    let auxc_payload = {
        let mut v = Vec::new();
        v.extend_from_slice(&0u32.to_be_bytes());
        v.extend_from_slice(b"urn:mpeg:hevc:2015:auxid:1");
        v.push(0);
        v
    };
    let ipco = build_ipco(&[
        (b"irot", &[3u8][..]),
        (b"imir", &[1u8][..]),
        (b"auxC", &auxc_payload),
    ]);
    let ipma = build_ipma_v0(&[(1, &[(1, false), (2, false), (3, false)])]);
    let p = run_parse(&build_iprp(&ipco, &ipma));
    let (rot, mir) = p.orientation_for(1);
    assert_eq!(rot.unwrap().steps, 3);
    assert_eq!(mir.unwrap().axis, 1);
    let auxc = p.auxc_for(1).unwrap();
    assert_eq!(auxc.aux_type, "urn:mpeg:hevc:2015:auxid:1");
}

#[test]
fn out_of_range_index_silently_skipped() {
    let ipco = build_ipco(&[(b"ispe", &ispe_body(2, 2))]);
    let ipma = build_ipma_v0(&[(1, &[(99, false), (1, true)])]);
    let p = run_parse(&build_iprp(&ipco, &ipma));
    let r = p.resolve(1);
    assert_eq!(r.len(), 1);
}

#[test]
fn empty_iprp_decodes() {
    let p = parse_iprp(b"").unwrap();
    assert!(p.properties.is_empty());
    assert!(p.associations.is_empty());
}

#[test]
fn ipma_assoc_count_zero_yields_empty_row() {
    let ipco = build_ipco(&[(b"ispe", &ispe_body(2, 2))]);
    let ipma = build_ipma_v0(&[(1, &[])]);
    let p = run_parse(&build_iprp(&ipco, &ipma));
    let row = p.associations_for(1).unwrap();
    assert!(row.associations.is_empty());
    assert!(p.resolve(1).is_empty());
}

#[test]
fn resolve_strict_accepts_natively_modelled_essentials() {
    let ipco = build_ipco(&[(b"ispe", &ispe_body(64, 64))]);
    let ipma = build_ipma_v0(&[(1, &[(1, true)])]);
    let p = run_parse(&build_iprp(&ipco, &ipma));
    let r = p.resolve_strict(1, &[]).unwrap();
    assert_eq!(r.len(), 1);
    assert_eq!(r[0].fourcc(), ISPE);
}

#[test]
fn resolve_strict_rejects_unrecognised_essential_other() {
    let ipco = build_ipco(&[
        (b"ispe", &ispe_body(64, 64)),
        (b"hvcC", &[1u8, 2, 3, 4][..]),
    ]);
    let ipma = build_ipma_v0(&[(1, &[(1, false), (2, true)])]);
    let p = run_parse(&build_iprp(&ipco, &ipma));
    match p.resolve_strict(1, &[]) {
        Err(fc) => assert_eq!(fc, *b"hvcC"),
        Ok(_) => panic!("expected essential-bit failure"),
    }
    let r = p.resolve_strict(1, &[*b"hvcC"]).unwrap();
    assert_eq!(r.len(), 2);
}

#[test]
fn parse_colr_payload_nclx_bt709_srgb_bt601() {
    let mut p = Vec::new();
    p.extend_from_slice(b"nclx");
    p.extend_from_slice(&1u16.to_be_bytes());
    p.extend_from_slice(&13u16.to_be_bytes());
    p.extend_from_slice(&5u16.to_be_bytes());
    p.push(0x00);
    let info = parse_colr_payload(&p).unwrap();
    match info {
        ColrInfo::Nclx {
            primaries,
            transfer,
            matrix,
            full_range,
        } => {
            assert_eq!(primaries, 1);
            assert_eq!(transfer, 13);
            assert_eq!(matrix, 5);
            assert!(!full_range);
        }
        other => panic!("expected Nclx, got {other:?}"),
    }
}

#[test]
fn parse_colr_payload_nclx_full_range_flag_decodes() {
    let mut p = Vec::new();
    p.extend_from_slice(b"nclx");
    p.extend_from_slice(&9u16.to_be_bytes());
    p.extend_from_slice(&16u16.to_be_bytes());
    p.extend_from_slice(&9u16.to_be_bytes());
    p.push(0x80);
    let info = parse_colr_payload(&p).unwrap();
    match info {
        ColrInfo::Nclx { full_range, .. } => assert!(full_range),
        other => panic!("expected Nclx, got {other:?}"),
    }
}

#[test]
fn parse_colr_payload_ricc_preserves_bytes_and_length() {
    let mut p = Vec::new();
    p.extend_from_slice(b"rICC");
    let profile_bytes: Vec<u8> = (0u8..24).collect();
    p.extend_from_slice(&profile_bytes);
    let info = parse_colr_payload(&p).unwrap();
    assert_eq!(info.colour_type(), *b"rICC");
    assert!(info.is_icc());
    assert_eq!(info.icc_bytes().unwrap(), &profile_bytes[..]);
    assert_eq!(info.icc_bytes().unwrap().len(), 24);
    match info {
        ColrInfo::RestrictedIcc(b) => assert_eq!(b, profile_bytes),
        other => panic!("expected RestrictedIcc, got {other:?}"),
    }
}

#[test]
fn parse_colr_payload_prof_preserves_bytes_and_length() {
    let mut p = Vec::new();
    p.extend_from_slice(b"prof");
    let profile_bytes: Vec<u8> = (0u8..64).collect();
    p.extend_from_slice(&profile_bytes);
    let info = parse_colr_payload(&p).unwrap();
    assert_eq!(info.colour_type(), *b"prof");
    assert!(info.is_icc());
    assert_eq!(info.icc_bytes().unwrap().len(), 64);
    match info {
        ColrInfo::UnrestrictedIcc(b) => assert_eq!(b, profile_bytes),
        other => panic!("expected UnrestrictedIcc, got {other:?}"),
    }
}

#[test]
fn parse_colr_payload_rejects_apple_nclc_for_heif() {
    let mut p = Vec::new();
    p.extend_from_slice(b"nclc");
    p.extend_from_slice(&1u16.to_be_bytes());
    p.extend_from_slice(&1u16.to_be_bytes());
    p.extend_from_slice(&1u16.to_be_bytes());
    assert!(parse_colr_payload(&p).is_err());
}

#[test]
fn parse_colr_payload_rejects_unknown_tag() {
    let mut p = Vec::new();
    p.extend_from_slice(b"XXXX");
    p.extend_from_slice(&[0u8; 8]);
    assert!(parse_colr_payload(&p).is_err());
}

#[test]
fn parse_colr_payload_rejects_truncated_nclx() {
    let mut p = Vec::new();
    p.extend_from_slice(b"nclx");
    p.extend_from_slice(&[0u8; 5]);
    assert!(parse_colr_payload(&p).is_err());
}

#[test]
fn color_profile_accessor_returns_nclx_for_associated_item() {
    let ipco = build_ipco(&[(b"ispe", &ispe_body(64, 64)), (b"colr", &colr_nclx())]);
    let ipma = build_ipma_v0(&[(1, &[(1, true), (2, false)])]);
    let p = run_parse(&build_iprp(&ipco, &ipma));
    let info = p.color_profile(1).expect("expected nclx profile");
    match info {
        ColrInfo::Nclx {
            primaries,
            transfer,
            matrix,
            full_range,
        } => {
            assert_eq!((primaries, transfer, matrix), (1, 13, 6));
            assert!(full_range);
        }
        other => panic!("expected Nclx, got {other:?}"),
    }
}

#[test]
fn color_profile_accessor_returns_none_for_apple_nclc() {
    let mut nclc = Vec::new();
    nclc.extend_from_slice(b"nclc");
    nclc.extend_from_slice(&1u16.to_be_bytes());
    nclc.extend_from_slice(&1u16.to_be_bytes());
    nclc.extend_from_slice(&1u16.to_be_bytes());
    let ipco = build_ipco(&[(b"colr", &nclc)]);
    let ipma = build_ipma_v0(&[(1, &[(1, false)])]);
    let p = run_parse(&build_iprp(&ipco, &ipma));
    assert!(p.color_profile(1).is_none());
}

#[test]
fn color_profile_accessor_returns_none_when_no_colr() {
    let ipco = build_ipco(&[(b"ispe", &ispe_body(2, 2))]);
    let ipma = build_ipma_v0(&[(1, &[(1, false)])]);
    let p = run_parse(&build_iprp(&ipco, &ipma));
    assert!(p.color_profile(1).is_none());
}

#[test]
fn color_profile_accessor_returns_icc_for_prof_payload() {
    let mut prof = Vec::new();
    prof.extend_from_slice(b"prof");
    prof.extend_from_slice(&[0xAB; 16]);
    let ipco = build_ipco(&[(b"colr", &prof)]);
    let ipma = build_ipma_v0(&[(1, &[(1, false)])]);
    let p = run_parse(&build_iprp(&ipco, &ipma));
    let info = p.color_profile(1).expect("expected prof profile");
    match info {
        ColrInfo::UnrestrictedIcc(b) => {
            assert_eq!(b.len(), 16);
            assert!(b.iter().all(|&x| x == 0xAB));
        }
        other => panic!("expected UnrestrictedIcc, got {other:?}"),
    }
}

#[test]
fn pixi_accessor_returns_channel_bit_depths() {
    let ipco = build_ipco(&[(b"pixi", &pixi_body(&[8, 8, 8]))]);
    let ipma = build_ipma_v0(&[(7, &[(1, true)])]);
    let p = run_parse(&build_iprp(&ipco, &ipma));
    let info = p.pixi(7).expect("pixi associated");
    assert_eq!(info.num_channels(), 3);
    assert_eq!(info.channels, vec![8, 8, 8]);
}

#[test]
fn pixi_accessor_returns_rgba_4_channels() {
    let ipco = build_ipco(&[(b"pixi", &pixi_body(&[8, 8, 8, 8]))]);
    let ipma = build_ipma_v0(&[(1, &[(1, false)])]);
    let p = run_parse(&build_iprp(&ipco, &ipma));
    let info = p.pixi(1).expect("rgba pixi associated");
    assert_eq!(info.channels, vec![8, 8, 8, 8]);
}

#[test]
fn pixi_accessor_returns_hdr_10bit_channels() {
    let ipco = build_ipco(&[(b"pixi", &pixi_body(&[10, 10, 10]))]);
    let ipma = build_ipma_v0(&[(2, &[(1, false)])]);
    let p = run_parse(&build_iprp(&ipco, &ipma));
    let info = p.pixi(2).expect("hdr pixi associated");
    assert_eq!(info.channels, vec![10, 10, 10]);
}

#[test]
fn pixi_accessor_returns_none_when_unassociated() {
    let ipco = build_ipco(&[(b"ispe", &ispe_body(2, 2))]);
    let ipma = build_ipma_v0(&[(1, &[(1, false)])]);
    let p = run_parse(&build_iprp(&ipco, &ipma));
    assert!(p.pixi(1).is_none());
}

#[test]
fn resolve_strict_tolerates_non_essential_unknown_other() {
    let ipco = build_ipco(&[(b"ispe", &ispe_body(64, 64)), (b"xyzZ", &[0u8; 8][..])]);
    let ipma = build_ipma_v0(&[(1, &[(1, true), (2, false)])]);
    let p = run_parse(&build_iprp(&ipco, &ipma));
    let r = p.resolve_strict(1, &[]).unwrap();
    assert_eq!(r.len(), 2);
}

fn association(index: u16, essential: bool) -> PropertyAssociation {
    PropertyAssociation { index, essential }
}

#[test]
fn associations_with_index_zero_are_left_out() {
    let narrow = [
        0, 0, 0, 0, 0, 0, 0, 3, // three rows
        0, 1, 4, 0x80, 0x02, 0x00, 0x81, // among others
        0, 2, 1, 0x80, // nothing else
        0, 3, 0, // nothing at all
    ];
    let rows = parse_ipma(&narrow).unwrap();
    assert_eq!(rows.len(), 3);
    assert_eq!(rows[0].item_id, 1);
    assert_eq!(rows[0].associations, [association(2, false), association(1, true)]);
    assert_eq!(rows[1].item_id, 2);
    assert_eq!(rows[1].associations, []);
    assert_eq!(rows[2].item_id, 3);
    assert_eq!(rows[2].associations, []);
    let wide = [0, 0, 0, 1, 0, 0, 0, 1, 0, 7, 3, 0x80, 0, 0x81, 2, 0, 0];
    let rows = parse_ipma(&wide).unwrap();
    assert_eq!(rows.len(), 1);
    assert_eq!(rows[0].item_id, 7);
    assert_eq!(rows[0].associations, [association(0x102, true)]);
}
