use oxideav_mov::heif_item::{Amve, LayerSelector};
use oxideav_mov::heif_properties::{build_iprp, collect_properties, collect_rows};
use oxideav_mov::heif_write::{HeifItem, HeifProperty};
use oxideav_mov::iprp::{
    parse_iprp, AuxC, Cclv, Clli, ColrInfo, Imir, Irot, Ispe, ItemProperty, Mdcv, Pixi,
};
use oxideav_mov::metadata_sample::{
    parse_metadata_sample_entry, parse_subtitle_sample_entry, BitRate, MetadataSampleEntry,
    SubtitleSampleEntry, TextMetadataSampleEntry, TextSubtitleSampleEntry, UriMetadataSampleEntry,
    XmlMetadataSampleEntry, XmlSubtitleSampleEntry,
};

fn item(id: u32, properties: Vec<HeifProperty>) -> HeifItem {
    let mut it = HeifItem::coded(id, *b"hvc1", vec![1]);
    for p in properties {
        it = it.with_property(p);
    }
    it
}

#[test]
fn written_properties_are_read_back() {
    let mdcv = Mdcv {
        display_primaries: [(1, 2), (3, 4), (5, 6)],
        white_point: (7, 8),
        max_display_luminance: 9,
        min_display_luminance: 10,
    };
    let cclv = Cclv {
        cancel_flag: true,
        persistence_flag: false,
        primaries: Some([(-1, 2), (3, -4), (5, 6)]),
        min_luminance: None,
        max_luminance: Some(77),
        avg_luminance: Some(66),
    };
    let items = vec![item(
        5,
        vec![
            HeifProperty::Ispe(Ispe {
                width: 640,
                height: 480,
            }),
            HeifProperty::Pixi(Pixi {
                bits_per_channel: vec![8, 9, 10],
            }),
            HeifProperty::Colr(ColrInfo::RestrictedIcc(vec![1, 2, 3])),
            HeifProperty::AuxC(AuxC {
                aux_type: "urn:x".to_string(),
                aux_subtype: vec![4, 5],
            }),
            HeifProperty::Irot(Irot { steps: 3 }),
            HeifProperty::Imir(Imir { axis: 1 }),
            HeifProperty::Clli(Clli {
                max_content_light_level: 1000,
                max_pic_average_light_level: 400,
            }),
            HeifProperty::Mdcv(mdcv),
            HeifProperty::Cclv(cclv),
            HeifProperty::Lsel(LayerSelector { layer_id: 2 }),
            HeifProperty::Amve(Amve {
                ambient_illuminance: 1,
                ambient_light_x: 2,
                ambient_light_y: 3,
            }),
            HeifProperty::Other {
                fourcc: *b"hvcC",
                payload: vec![9, 9],
            },
        ],
    )];
    let list = collect_properties(&items);
    let rows = collect_rows(&items, &list);
    let read = parse_iprp(&build_iprp(&list, &rows)).unwrap();
    assert_eq!(read.properties.len(), 12);
    assert_eq!(read.associations, rows);
    assert_eq!(
        read.ispe_for(5),
        Some(Ispe {
            width: 640,
            height: 480
        })
    );
    assert_eq!(read.pixi_for(5).unwrap().bits_per_channel, [8, 9, 10]);
    assert_eq!(
        read.color_profile(5),
        Some(ColrInfo::RestrictedIcc(vec![1, 2, 3]))
    );
    let auxc = read.auxc_for(5).unwrap();
    assert_eq!(auxc.aux_type, "urn:x");
    assert_eq!(auxc.aux_subtype, [4, 5]);
    assert_eq!(read.properties[4], ItemProperty::Irot(Irot { steps: 3 }));
    assert_eq!(read.properties[5], ItemProperty::Imir(Imir { axis: 1 }));
    assert_eq!(read.properties[7], ItemProperty::Mdcv(mdcv));
    assert_eq!(read.properties[8], ItemProperty::Cclv(cclv));
    assert_eq!(
        read.properties[9],
        ItemProperty::Other {
            fourcc: *b"lsel",
            payload: vec![0, 2]
        }
    );
    assert_eq!(
        read.properties[10],
        ItemProperty::Other {
            fourcc: *b"amve",
            payload: vec![0, 0, 0, 0, 0, 0, 0, 1, 0, 2, 0, 3]
        }
    );
    assert_eq!(
        read.properties[11],
        ItemProperty::Other {
            fourcc: *b"hvcC",
            payload: vec![9, 9]
        }
    );
    let essential: Vec<bool> = read.associations[0]
        .associations
        .iter()
        .map(|a| a.essential)
        .collect();
    assert_eq!(
        essential,
        [true, true, false, true, true, true, false, false, false, false, false, true]
    );
}

#[test]
fn shared_properties_are_written_once() {
    let ispe = || {
        HeifProperty::Ispe(Ispe {
            width: 2,
            height: 3,
        })
    };
    let items = vec![
        item(1, vec![ispe(), HeifProperty::Irot(Irot { steps: 1 })]),
        item(0x1_0000, vec![HeifProperty::Irot(Irot { steps: 1 }), ispe()]),
        item(3, Vec::new()),
    ];
    let list = collect_properties(&items);
    assert_eq!(list.len(), 3);
    let rows = collect_rows(&items, &list);
    let index: Vec<Vec<u16>> = rows
        .iter()
        .map(|r| r.associations.iter().map(|a| a.index).collect())
        .collect();
    assert_eq!(index, [vec![1, 2], vec![2, 1], vec![3]]);
    let read = parse_iprp(&build_iprp(&list, &rows)).unwrap();
    assert_eq!(read.associations, rows);
    assert_eq!(
        read.ispe_for(3),
        Some(Ispe {
            width: 0,
            height: 0
        })
    );
}

#[test]
fn many_properties_need_wide_indices() {
    let mut properties: Vec<HeifProperty> = Vec::new();
    for n in 0..200u32 {
        properties.push(HeifProperty::Ispe(Ispe {
            width: n,
            height: 1,
        }));
    }
    let items = vec![item(1, properties)];
    let list = collect_properties(&items);
    let rows = collect_rows(&items, &list);
    let body = build_iprp(&list, &rows);
    let read = parse_iprp(&body).unwrap();
    assert_eq!(read.properties.len(), 200);
    assert_eq!(read.associations, rows);
    assert_eq!(read.associations[0].associations[199].index, 200);
}

#[test]
fn written_sample_entries_are_read_back() {
    let rates = BitRate {
        buffer_size_db: 1,
        max_bitrate: 2,
        avg_bitrate: 3,
    };
    let metadata = [
        MetadataSampleEntry::Xml(XmlMetadataSampleEntry {
            content_encoding: "gzip".to_string(),
            namespace: "urn:n".to_string(),
            schema_location: "loc".to_string(),
            bitrate: Some(rates),
        }),
        MetadataSampleEntry::Xml(XmlMetadataSampleEntry {
            namespace: "urn:n".to_string(),
            ..Default::default()
        }),
        MetadataSampleEntry::Text(TextMetadataSampleEntry {
            content_encoding: String::new(),
            mime_format: "text/plain".to_string(),
            text_config: Some("head".to_string()),
            bitrate: Some(rates),
        }),
        MetadataSampleEntry::Uri(UriMetadataSampleEntry {
            the_uri: "urn:u".to_string(),
            init: Some(vec![7, 8]),
            bitrate: Some(rates),
        }),
    ];
    for e in metadata {
        let back = parse_metadata_sample_entry(&e.format(), &e.to_body_bytes()).unwrap();
        assert_eq!(back, Some(e));
    }
    let subtitles = [
        SubtitleSampleEntry::Xml(XmlSubtitleSampleEntry {
            namespace: "urn:ttml".to_string(),
            schema_location: "s".to_string(),
            auxiliary_mime_types: "image/png".to_string(),
            bitrate: None,
        }),
        SubtitleSampleEntry::Text(TextSubtitleSampleEntry {
            content_encoding: "e".to_string(),
            mime_format: "text/vtt".to_string(),
            text_config: None,
            bitrate: Some(rates),
        }),
    ];
    for e in subtitles {
        let back = parse_subtitle_sample_entry(&e.format(), &e.to_body_bytes()).unwrap();
        assert_eq!(back, Some(e));
    }
}
