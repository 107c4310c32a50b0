use oxideav_mov::brand::parse_ftyp;
use oxideav_mov::chan::parse_chan;
use oxideav_mov::cmov::{compress, parse_cmov, Cmov, Cmvd, Dcom};
use oxideav_mov::error::{Error, Name};
use oxideav_mov::header::{
    parse_elng, parse_hdlr, parse_hmhd, parse_mdhd, parse_mvhd, parse_tkhd,
};
use oxideav_mov::heif_write::{HeifDerivation, HeifItem, HeifWriter};
use oxideav_mov::iprp::{
    parse_auxc_payload, parse_cclv_payload, parse_clli_payload, parse_colr_payload, parse_iprp,
    parse_mdcv_payload,
};
use oxideav_mov::iprp_read::{parse_ipma, parse_property_box};
use oxideav_mov::key_value::{parse_ilst, parse_keys};
use oxideav_mov::kind::parse_kind;
use oxideav_mov::leva::parse_leva;
use oxideav_mov::matte::{parse_kmat, parse_matt};
use oxideav_mov::media_meta::{
    parse_clap, parse_colr, parse_cslg, parse_fiel, parse_pasp, parse_tapt_dims,
};
use oxideav_mov::metadata_sample::parse_btrt;
use oxideav_mov::pdin::parse_pdin;
use oxideav_mov::pnot::parse_pnot;

fn says<T>(r: Result<T, Error>, want: &str) {
    match r {
        Ok(_) => panic!("taken, but should be refused: {want}"),
        Err(e) => assert_eq!(e.message(), want),
    }
}

fn bytes(lead: &[u8], len: usize) -> Vec<u8> {
    let mut v = lead.to_vec();
    v.resize(len, 0);
    v
}

fn atom(code: &[u8; 4], body: &[u8]) -> Vec<u8> {
    let mut v = ((8 + body.len()) as u32).to_be_bytes().to_vec();
    v.extend_from_slice(code);
    v.extend_from_slice(body);
    v
}

#[test]
fn messages_name_numbers_and_codes() {
    assert_eq!(Error::Rule("a").message(), "a");
    assert_eq!(Error::Number("a ", 0, "").message(), "a 0");
    assert_eq!(Error::Number("a ", -17, " b").message(), "a -17 b");
    assert_eq!(
        Error::Number("", i128::MIN, "").message(),
        "-170141183460469231731687303715884105728"
    );
    assert_eq!(Error::Numbers("a", 10, "b", 907, "c").message(), "a10b907c");
    assert_eq!(Error::Triple("a", 1, "b", 2, "c", 3, "d").message(), "a1b2c3d");
    assert_eq!(Error::Hex("a=", 0x123, "!").message(), "a=0x0123!");
    assert_eq!(Error::Hex("", 0xfedcba, "").message(), "0xfedcba");
    assert_eq!(Error::Hex("", u32::MAX, "").message(), "0xffffffff");
    assert_eq!(
        Error::Names("a", 3, "b", Name::Word("W"), "c", Name::Numbered("x ", 5, " y"), "d").message(),
        "a3bWcx 5 yd"
    );
    assert_eq!(Error::Code("a ", *b"moov", "?", "!").message(), "a \"moov\"!");
    assert_eq!(
        Error::Code("a ", [b'q', b'"', b'\\', b'\n'], "?", "").message(),
        "a \"q\\\"\\\\\\n\""
    );
    assert_eq!(Error::Code("a ", [0, 1, 0x7f, b' '], "?", "").message(), "a \"\\0\\u{1}\\u{7f} \"");
    assert_eq!(Error::Code("a ", [0xa9, b'n', b'a', b'm'], "????", "").message(), "a \"????\"");
    assert_eq!(
        Error::CodeNumbers("a ", *b"chap", "?", " b ", 4, " c ", 2, "").message(),
        "a \"chap\" b 4 c 2"
    );
}

#[test]
fn headers_that_are_refused() {
    says(parse_ftyp(&[0; 7]), "MOV: ftyp payload < 8 bytes");
    says(parse_ftyp(&[0; 10]), "MOV: ftyp compatible-brands not 4-aligned");
    says(parse_mvhd(&[0; 3]), "MOV: mvhd payload < 4 bytes (no version)");
    says(parse_mvhd(&bytes(&[2], 100)), "MOV: mvhd unknown version 2");
    says(parse_mvhd(&bytes(&[1], 31)), "MOV: short read for mvhd v1 fixed fields");
    says(parse_mvhd(&bytes(&[0], 19)), "MOV: short read for mvhd v0 fixed fields");
    says(parse_mvhd(&bytes(&[0], 25)), "MOV: short read for mvhd rate+volume");
    says(parse_mvhd(&bytes(&[0], 99)), "MOV: short read for mvhd next_track_id");
    says(parse_tkhd(&[0; 3]), "MOV: tkhd payload < 4 bytes");
    says(parse_tkhd(&bytes(&[9], 100)), "MOV: tkhd unknown version 9");
    says(parse_tkhd(&bytes(&[1], 35)), "MOV: short read for tkhd v1 fixed fields");
    says(parse_tkhd(&bytes(&[0], 23)), "MOV: short read for tkhd v0 fixed fields");
    says(
        parse_tkhd(&bytes(&[0], 39)),
        "MOV: short read for tkhd layer/alt-group/volume/reserved",
    );
    says(parse_tkhd(&bytes(&[0], 75)), "MOV: short read for tkhd matrix");
    says(parse_tkhd(&bytes(&[0], 83)), "MOV: short read for tkhd width+height");
    says(parse_mdhd(&[0; 3]), "MOV: mdhd payload < 4 bytes");
    says(parse_mdhd(&bytes(&[3], 40)), "MOV: mdhd unknown version 3");
    says(parse_mdhd(&bytes(&[1], 31)), "MOV: short read for mdhd v1 fixed fields");
    says(parse_mdhd(&bytes(&[0], 19)), "MOV: short read for mdhd v0 fixed fields");
    says(parse_mdhd(&bytes(&[0], 23)), "MOV: short read for mdhd language+quality");
    says(parse_hdlr(&[0; 23]), "MOV: short read for hdlr fixed fields");
    says(parse_hmhd(&[0; 19]), "MOV: short read for hmhd fixed fields");
    says(parse_elng(&[0; 3]), "MOV: short read for elng FullBox header");
}

#[test]
fn media_metadata_that_is_refused() {
    says(parse_pasp(&[0; 7]), "MOV: pasp payload < 8 bytes");
    says(parse_clap(&[0; 31]), "MOV: clap payload < 32 bytes");
    says(parse_colr(&[0; 3]), "MOV: colr payload < 4 bytes (no type)");
    says(parse_colr(&bytes(b"nclc", 9)), "MOV: colr nclc < 6 bytes");
    says(parse_colr(&bytes(b"nclx", 10)), "MOV: colr nclx < 7 bytes");
    says(
        parse_fiel(&[0; 3]),
        "MOV: fiel payload length 3 != 2 bytes (QTFF p. 94: field_count + field_ordering)",
    );
    says(parse_tapt_dims(&[0; 11]), "MOV: tapt sub-atom payload < 12 bytes");
    says(parse_cslg(&[0; 3]), "MOV: cslg payload < 4 bytes");
    says(parse_cslg(&[0; 23]), "MOV: cslg truncated table");
    says(parse_cslg(&bytes(&[1], 43)), "MOV: cslg truncated table");
    says(parse_cslg(&bytes(&[7], 44)), "MOV: cslg unknown version 7");
    says(parse_chan(&[0; 15]), "MOV: chan payload < 16 bytes");
    says(parse_btrt(&[0; 11]), "MOV: btrt payload < 12 bytes");
    says(parse_keys(&[0; 7]), "MOV: keys payload < 8 bytes");
    says(parse_keys(&[0, 0, 0, 0, 0, 0, 0, 1, 0, 0]), "MOV: keys entry truncated");
    says(
        parse_keys(&[0, 0, 0, 0, 0, 0, 0, 1, 0, 0, 0, 7, 0, 0, 0, 0]),
        "MOV: keys entry size invalid",
    );
    says(
        parse_keys(&[0, 0, 0, 0, 0, 0, 0, 1, 0, 0, 0, 9, b'm', b'd', b't', b'a', 0xff]),
        "MOV: keys entry not UTF-8",
    );
    says(
        parse_ilst(&[0, 0, 0, 4, 0, 0, 0, 1], &Vec::new()),
        "MOV: ilst entry size invalid",
    );
}

#[test]
fn item_properties_that_are_refused() {
    says(parse_property_box(b"ispe", &[0; 11]), "MOV: ispe payload < 12 bytes");
    says(parse_property_box(b"pixi", &[0; 4]), "MOV: pixi payload < 5 bytes");
    says(
        parse_property_box(b"pixi", &[0, 0, 0, 0, 2, 8]),
        "MOV: pixi truncated bits_per_channel",
    );
    says(parse_property_box(b"irot", &[]), "MOV: irot payload empty");
    says(parse_property_box(b"imir", &[]), "MOV: imir payload empty");
    says(parse_property_box(b"pasp", &[0; 7]), "MOV: pasp payload < 8 bytes");
    says(parse_property_box(b"clap", &[0; 31]), "MOV: clap payload < 32 bytes");
    says(parse_auxc_payload(&[0; 3]), "MOV: auxC payload < 4 bytes");
    says(
        parse_clli_payload(&[0; 5]),
        "MOV: clli payload must be 4 or 8 bytes, got 5",
    );
    says(
        parse_mdcv_payload(&[0; 25]),
        "MOV: mdcv payload must be 24 or 28 bytes, got 25",
    );
    says(
        parse_cclv_payload(&[0; 4]),
        "MOV: cclv payload < 5 bytes (FullBox + flags)",
    );
    says(
        parse_cclv_payload(&bytes(&[0, 0, 0, 0, 0x20], 28)),
        "MOV: cclv primaries truncated",
    );
    says(
        parse_cclv_payload(&bytes(&[0, 0, 0, 0, 0x10], 8)),
        "MOV: cclv min_luminance truncated",
    );
    says(
        parse_cclv_payload(&bytes(&[0, 0, 0, 0, 0x18], 12)),
        "MOV: cclv max_luminance truncated",
    );
    says(
        parse_cclv_payload(&bytes(&[0, 0, 0, 0, 0x1c], 16)),
        "MOV: cclv avg_luminance truncated",
    );
    says(parse_ipma(&[0; 7]), "MOV: ipma payload < 8 bytes");
    says(
        parse_ipma(&[0, 0, 0, 0, 0, 0, 0, 1, 0]),
        "MOV: ipma item_ID v0 truncated",
    );
    says(
        parse_ipma(&[1, 0, 0, 0, 0, 0, 0, 1, 0, 0, 0]),
        "MOV: ipma item_ID v1 truncated",
    );
    says(
        parse_ipma(&[0, 0, 0, 0, 0, 0, 0, 1, 0, 1]),
        "MOV: ipma association_count missing",
    );
    says(
        parse_ipma(&[0, 0, 0, 1, 0, 0, 0, 1, 0, 1, 1, 0]),
        "MOV: ipma 16-bit assoc truncated",
    );
    says(
        parse_ipma(&[0, 0, 0, 0, 0, 0, 0, 1, 0, 1, 2, 0]),
        "MOV: ipma 8-bit assoc truncated",
    );
    says(
        parse_iprp(&[0, 0, 0, 1, b'i', b'p', b'c', b'o', 0, 0]),
        "MOV: 64-bit atom header truncated",
    );
    says(
        parse_iprp(&[0, 0, 0, 7, b'i', b'p', b'c', b'o']),
        "MOV: atom size smaller than its header",
    );
    says(
        parse_iprp(&[0, 0, 0, 9, b'i', b'p', b'c', b'o']),
        "MOV: child atom exceeds its parent",
    );
    says(parse_colr_payload(&[0; 3]), "HEIF: colr payload < 4 bytes (no tag)");
    says(
        parse_colr_payload(&bytes(b"nclx", 10)),
        "HEIF: colr nclx body < 7 bytes (need 3×u16 indices + 1 flag byte)",
    );
    says(
        parse_colr_payload(b"nclc"),
        "HEIF: colr 'nclc' tag is the QTFF Apple shape, not legal in HEIF (use ISO 'nclx')",
    );
    says(
        parse_colr_payload(b"XXXX"),
        "HEIF: colr unknown colour_type tag \"XXXX\"",
    );
    says(
        parse_colr_payload(b"a\"b\t"),
        "HEIF: colr unknown colour_type tag \"a\\\"b\\t\"",
    );
    says(
        parse_colr_payload(&[0xff; 4]),
        "HEIF: colr unknown colour_type tag \"<non-utf8>\"",
    );
}

fn leva(rows: &[u8], count: u8) -> Vec<u8> {
    let mut v = vec![0, 0, 0, 0, count];
    v.extend_from_slice(rows);
    v
}

#[test]
fn levels_that_are_refused() {
    says(
        parse_leva(&[0; 4]),
        "MOV: leva payload 4 < 5-byte FullBox header + level_count",
    );
    says(
        parse_leva(&[1, 0, 0, 0, 2]),
        "MOV: leva unknown version 1 (spec fixes at 0)",
    );
    says(parse_leva(&leva(&[], 1)), "MOV: leva level_count 1 < 2 (§8.8.13.3)");
    says(
        parse_leva(&leva(&[0; 9], 2)),
        "MOV: leva level_count 2 needs ≥ 10 body bytes but only 9 remain",
    );
    says(
        parse_leva(&leva(&[0, 0, 0, 1, 1, 1, 1, 1, 1, 0], 2)),
        "MOV: leva row 1 type=1 truncated reading grouping_type / grouping_type_parameter",
    );
    says(
        parse_leva(&leva(&[0, 0, 0, 1, 2, 0, 0, 0, 2, 0], 2)),
        "MOV: leva row 2 type=0 truncated reading grouping_type",
    );
    says(
        parse_leva(&leva(&[0, 0, 0, 1, 2, 0, 0, 0, 2, 4], 2)),
        "MOV: leva row 2 type=4 truncated reading sub_track_id",
    );
    says(
        parse_leva(&leva(&[0, 0, 0, 1, 0, 9, 9, 9, 9, 0, 0, 0], 2)),
        "MOV: leva row 2 truncated reading track_id+flag/type",
    );
    says(
        parse_leva(&leva(&[0, 0, 0, 1, 0, 9, 9, 9, 9, 0, 0, 0, 2, 4, 0, 0, 0, 1], 2)),
        "MOV: leva row 2 assignment_type kind SubTrack contradicts pinned kind SampleGroup (§8.8.13.3 sequence rule)",
    );
    says(
        parse_leva(&leva(&[0, 0, 0, 1, 7, 0, 0, 0, 2, 5], 2)),
        "MOV: leva row 2 assignment_type kind Reserved { raw: 5 } contradicts pinned kind Reserved { raw: 7 } (§8.8.13.3 sequence rule)",
    );
    says(
        parse_leva(&leva(&[0, 0, 0, 1, 7, 0, 0, 0, 2, 1, 0, 0, 0, 0, 0, 0, 0, 0], 2)),
        "MOV: leva row 2 assignment_type kind ParameterizedSampleGroup contradicts pinned kind Reserved { raw: 7 } (§8.8.13.3 sequence rule)",
    );
    says(
        parse_leva(&leva(&[0, 0, 0, 1, 7, 0, 0, 0, 2, 3], 2)),
        "MOV: leva row 2 type=2/3 follows a pinned non-2/3 tail (§8.8.13.3 sequence rule)",
    );
    says(
        parse_leva(&leva(&[0, 0, 0, 1, 2, 0, 0, 0, 2, 3, 8], 2)),
        "MOV: leva has 1 bytes of unconsumed trailing data after 2 levels",
    );
}

#[test]
fn other_atoms_that_are_refused() {
    says(parse_matt(&[]), "MOV: matt atom contains no kmat child (QTFF p. 44)");
    let short = "MOV: kmat payload too short (7 bytes; need at least 8 for ver/flags + image-desc size word)";
    says(parse_kmat(&[0; 7]), short);
    says(parse_matt(&atom(b"kmat", &[0; 7])), short);
    says(
        parse_kmat(&bytes(&[1], 20)),
        "MOV: kmat unknown version 1 (QTFF p. 45 fixes the field at 0)",
    );
    says(
        parse_kmat(&bytes(&[0, 0, 1, 0x23], 20)),
        "MOV: kmat flags=0x0123 != 0 (QTFF p. 45: 'Set this field to 0')",
    );
    says(
        parse_kmat(&bytes(&[0, 0xab, 0xcd, 0xef], 20)),
        "MOV: kmat flags=0xabcdef != 0 (QTFF p. 45: 'Set this field to 0')",
    );
    says(
        parse_kmat(&bytes(&[0, 0, 0, 0, 0, 0, 0, 15], 20)),
        "MOV: kmat image-description size 15 < 16 (QTFF p. 70 minimum for size+format+reserved+dref_index)",
    );
    says(
        parse_kmat(&bytes(&[0, 0, 0, 0, 0, 0, 0, 17], 20)),
        "MOV: kmat image-description size 17 exceeds body remainder 16 (payload 20 bytes, header 4)",
    );
    assert!(parse_kind(&[0; 3]).unwrap_err().message().starts_with("MOV: kind payload 3"));
    assert!(parse_kind(&[2, 0, 0, 0]).unwrap_err().message().starts_with("MOV: kind version 2"));
    says(parse_pdin(&[0; 3]), "MOV: pdin payload 3 < 4-byte FullBox header");
    says(
        parse_pdin(&[4, 0, 0, 0]),
        "MOV: pdin unknown version 4 (spec defines only v0)",
    );
    says(parse_pdin(&[0; 9]), "MOV: pdin body 5 bytes is not a multiple of 8");
    says(
        parse_pnot(&[0; 11]),
        "MOV: pnot body 11 != expected 12 bytes (QTFF p. 26)",
    );
}

#[test]
fn image_files_that_are_refused() {
    let coded = |id: u32| HeifItem::coded(id, *b"hvc1", vec![1, 2, 3]);
    says(HeifWriter::new().write_to_vec(), "HEIF writer: primary item not set");

    let mut w = HeifWriter::new();
    w.add_item(coded(1)).add_item(coded(1)).set_primary(1);
    assert_eq!(
        w.write_to_vec().unwrap_err().message(),
        "HEIF writer: duplicate item id 1"
    );

    let mut w = HeifWriter::new();
    w.add_item(coded(1)).set_primary(2);
    assert_eq!(
        w.write_to_vec().unwrap_err().message(),
        "HEIF writer: primary item 2 not in item list"
    );

    let mut w = HeifWriter::new();
    let mut bare = coded(7);
    bare.data = None;
    w.add_item(bare).set_primary(7);
    assert_eq!(
        w.write_to_vec().unwrap_err().message(),
        "HEIF writer: coded item 7 has no data + no derivation"
    );

    let grid = HeifDerivation::Grid {
        rows: 1,
        cols: 2,
        output_width: 64,
        output_height: 32,
    };
    let mut w = HeifWriter::new();
    w.add_item(coded(1))
        .add_item(HeifItem::derived(2, grid, vec![1, 9]))
        .set_primary(2);
    assert_eq!(
        w.write_to_vec().unwrap_err().message(),
        "HEIF writer: derived item 2 component 9 not in item list"
    );
    let grid = HeifDerivation::Grid {
        rows: 1,
        cols: 1,
        output_width: 1,
        output_height: 1,
    };
    let mut w = HeifWriter::new();
    w.add_item(HeifItem::derived(3, grid, Vec::new())).set_primary(3);
    assert_eq!(
        w.write_to_vec().unwrap_err().message(),
        "HEIF writer: derived item 3 has no component_ids"
    );
}

#[test]
fn compressed_resources_that_are_refused() {
    says(parse_cmov(&[]), "MOV: cmov has no dcom");
    says(parse_cmov(&atom(b"dcom", b"zli")), "MOV: dcom payload < 4 bytes");
    says(parse_cmov(&atom(b"dcom", b"zlib")), "MOV: cmov has no cmvd");
    let mut short = atom(b"dcom", b"zlib");
    short.extend_from_slice(&atom(b"cmvd", &[0; 3]));
    says(parse_cmov(&short), "MOV: cmvd payload < 4 bytes");
    says(
        parse_cmov(&[0, 0, 0, 99, b'd', b'c', b'o', b'm']),
        "MOV: child atom exceeds its parent",
    );
    let make = |algorithm: &[u8; 4], uncompressed_size: u32, data: &[u8]| Cmov {
        dcom: Dcom {
            algorithm: *algorithm,
        },
        cmvd: Cmvd {
            uncompressed_size,
            data: data.to_vec(),
        },
    };
    says(
        make(b"adec", 1, &[1]).decompress(),
        "MOV: dcom algorithm \"adec\" not supported",
    );
    says(make(b"zlib", 1, &[]).decompress(), "MOV: cmvd is not a zlib stream");
    says(make(b"zlib", 1, &[1, 2, 3]).decompress(), "MOV: cmvd is not a zlib stream");
    let packed = compress(b"some bytes").cmvd.data;
    says(
        make(b"zlib", 11, &packed).decompress(),
        "MOV: cmvd inflates to 10 bytes, expected 11",
    );
}

#[test]
fn compressed_resources_expand_again() {
    for resource in [&b""[..], &b"x"[..], &[7u8; 5000][..]] {
        let cmov = compress(resource);
        assert_ne!(cmov.cmvd.data, resource);
        assert_eq!(
            miniz_oxide::inflate::decompress_to_vec_zlib(&cmov.cmvd.data).unwrap(),
            resource
        );
        let back = parse_cmov(&cmov.to_body_bytes()).unwrap();
        assert_eq!(back, cmov);
        assert_eq!(back.decompress().unwrap(), resource);
    }
}
