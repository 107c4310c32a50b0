use oxideav_mov::heif_write::{HeifDerivation, HeifItem, HeifProperty, HeifWriter};
use oxideav_mov::iprp::{parse_iprp, ColrInfo, Ispe, ItemProperties, Pixi};

fn u16_of(b: &[u8], at: usize) -> u16 {
    u16::from_be_bytes([b[at], b[at + 1]])
}

fn u32_of(b: &[u8], at: usize) -> u32 {
    u32::from_be_bytes([b[at], b[at + 1], b[at + 2], b[at + 3]])
}

fn child<'a>(body: &'a [u8], code: &[u8; 4]) -> Option<&'a [u8]> {
    let mut at: usize = 0;
    while at + 8 <= body.len() {
        let size: usize = u32_of(body, at) as usize;
        if &body[at + 4..at + 8] == code {
            return Some(&body[at + 8..at + size]);
        }
        at += size;
    }
    None
}

/// What the `meta` box of a written file says, read by hand.
struct Meta<'a> {
    handler_type: [u8; 4],
    primary_item: Option<u32>,
    items: Vec<(u32, [u8; 4])>,
    locations: Vec<(u32, u8, Vec<(u64, u64)>)>,
    references: Vec<([u8; 4], u32, Vec<u32>)>,
    idat: Option<&'a [u8]>,
    properties: ItemProperties,
}

fn sized(b: &[u8], at: &mut usize, width: usize) -> u64 {
    let mut v: u64 = 0;
    for _ in 0..width {
        v = v << 8 | b[*at] as u64;
        *at += 1;
    }
    v
}

fn parse_meta(bytes: &[u8]) -> Meta<'_> {
    let meta = &child(bytes, b"meta").unwrap()[4..];
    let hdlr = child(meta, b"hdlr").unwrap();
    let pitm = child(meta, b"pitm");
    let iinf = child(meta, b"iinf").unwrap();
    let mut items: Vec<(u32, [u8; 4])> = Vec::new();
    let mut at: usize = if iinf[0] == 0 { 6 } else { 8 };
    while at + 8 <= iinf.len() {
        let size: usize = u32_of(iinf, at) as usize;
        let infe = &iinf[at + 8..at + size];
        if infe[0] == 2 {
            items.push((u16_of(infe, 4) as u32, infe[8..12].try_into().unwrap()));
        } else {
            items.push((u32_of(infe, 4), infe[10..14].try_into().unwrap()));
        }
        at += size;
    }
    let iloc = child(meta, b"iloc").unwrap();
    let version: u8 = iloc[0];
    let offset_size: usize = (iloc[4] >> 4) as usize;
    let length_size: usize = (iloc[4] & 15) as usize;
    let base_size: usize = (iloc[5] >> 4) as usize;
    let index_size: usize = if version == 0 { 0 } else { (iloc[5] & 15) as usize };
    let mut p: usize = 6;
    let count: u64 = sized(iloc, &mut p, if version < 2 { 2 } else { 4 });
    let mut locations: Vec<(u32, u8, Vec<(u64, u64)>)> = Vec::new();
    for _ in 0..count {
        let id: u32 = sized(iloc, &mut p, if version < 2 { 2 } else { 4 }) as u32;
        let method: u8 = if version == 0 {
            0
        } else {
            (sized(iloc, &mut p, 2) & 15) as u8
        };
        sized(iloc, &mut p, 2);
        let base: u64 = sized(iloc, &mut p, base_size);
        let extents: u64 = sized(iloc, &mut p, 2);
        let mut list: Vec<(u64, u64)> = Vec::new();
        for _ in 0..extents {
            sized(iloc, &mut p, index_size);
            let offset: u64 = sized(iloc, &mut p, offset_size);
            let length: u64 = sized(iloc, &mut p, length_size);
            list.push((base + offset, length));
        }
        locations.push((id, method, list));
    }
    assert_eq!(p, iloc.len());
    let mut references: Vec<([u8; 4], u32, Vec<u32>)> = Vec::new();
    if let Some(iref) = child(meta, b"iref") {
        let width: usize = if iref[0] == 0 { 2 } else { 4 };
        let mut q: usize = 4;
        while q + 8 <= iref.len() {
            let code: [u8; 4] = iref[q + 4..q + 8].try_into().unwrap();
            q += 8;
            let from: u32 = sized(iref, &mut q, width) as u32;
            let n: u64 = sized(iref, &mut q, 2);
            let mut to: Vec<u32> = Vec::new();
            for _ in 0..n {
                to.push(sized(iref, &mut q, width) as u32);
            }
            references.push((code, from, to));
        }
    }
    Meta {
        handler_type: hdlr[8..12].try_into().unwrap(),
        primary_item: pitm.map(|b| {
            if b[0] == 0 {
                u16_of(b, 4) as u32
            } else {
                u32_of(b, 4)
            }
        }),
        items,
        locations,
        references,
        idat: child(meta, b"idat"),
        properties: parse_iprp(child(meta, b"iprp").unwrap()).unwrap(),
    }
}

impl Meta<'_> {
    fn location(&self, id: u32) -> (u8, Vec<(u64, u64)>) {
        for (item, method, list) in &self.locations {
            if *item == id {
                return (*method, list.clone());
            }
        }
        panic!("no location");
    }

    fn derived_from(&self, id: u32) -> Vec<u32> {
        for (code, from, to) in &self.references {
            if code == b"dimg" && *from == id {
                return to.clone();
            }
        }
        Vec::new()
    }
}

#[test]
fn write_single_item_roundtrips() {
    let mut w = HeifWriter::new();
    let item = HeifItem::coded(1, *b"hvc1", b"FAKE_HEVC_PAYLOAD".to_vec())
        .with_property(HeifProperty::Ispe(Ispe {
            width: 64,
            height: 64,
        }))
        .with_property(HeifProperty::Pixi(Pixi {
            bits_per_channel: vec![8, 8, 8],
        }))
        .with_property(HeifProperty::Colr(ColrInfo::Nclx {
            primaries: 1,
            transfer: 13,
            matrix: 6,
            full_range: true,
        }));
    w.add_item(item).set_primary(1);
    let bytes = w.write_to_vec().unwrap();

    let meta = parse_meta(&bytes);
    assert_eq!(&meta.handler_type, b"pict");
    assert_eq!(meta.primary_item, Some(1));
    assert_eq!(meta.items.len(), 1);
    assert_eq!(&meta.items[0].1, b"hvc1");
    assert_eq!(meta.items[0].0, 1);

    let (method, extents) = meta.location(1);
    assert_eq!(method, 0);
    assert_eq!(extents.len(), 1);
    let (off, len) = extents[0];
    assert_eq!(len as usize, b"FAKE_HEVC_PAYLOAD".len());
    let actual = &bytes[off as usize..(off + len) as usize];
    assert_eq!(actual, b"FAKE_HEVC_PAYLOAD");

    let props = &meta.properties;
    let ispe = props.ispe_for(1).unwrap();
    assert_eq!(ispe.width, 64);
    assert_eq!(ispe.height, 64);
    let pixi = props.pixi_for(1).unwrap();
    assert_eq!(pixi.bits_per_channel, vec![8, 8, 8]);
    let colr = props.color_profile(1).unwrap();
    match colr {
        ColrInfo::Nclx {
            primaries,
            transfer,
            matrix,
            full_range,
        } => {
            assert_eq!(primaries, 1);
            assert_eq!(transfer, 13);
            assert_eq!(matrix, 6);
            assert!(full_range);
        }
        other => panic!("expected Nclx, got {other:?}"),
    }
}

#[test]
fn write_grid_with_two_tiles_roundtrips() {
    let mut w = HeifWriter::new();
    w.add_item(
        HeifItem::coded(1, *b"hvc1", b"TILE_A".to_vec())
            .with_property(HeifProperty::Ispe(Ispe {
                width: 32,
                height: 32,
            }))
            .with_property(HeifProperty::Pixi(Pixi {
                bits_per_channel: vec![8, 8, 8],
            })),
    );
    w.add_item(
        HeifItem::coded(2, *b"hvc1", b"TILE_B".to_vec())
            .with_property(HeifProperty::Ispe(Ispe {
                width: 32,
                height: 32,
            }))
            .with_property(HeifProperty::Pixi(Pixi {
                bits_per_channel: vec![8, 8, 8],
            })),
    );
    w.add_item(
        HeifItem::derived(
            3,
            HeifDerivation::Grid {
                rows: 1,
                cols: 2,
                output_width: 64,
                output_height: 32,
            },
            vec![1, 2],
        )
        .with_property(HeifProperty::Ispe(Ispe {
            width: 64,
            height: 32,
        })),
    );
    w.set_primary(3);
    let bytes = w.write_to_vec().unwrap();
    let meta = parse_meta(&bytes);
    assert_eq!(meta.primary_item, Some(3));
    assert_eq!(meta.items.len(), 3);
    let dimg = meta.derived_from(3);
    assert_eq!(dimg, vec![1, 2]);

    let (method, ext) = meta.location(1);
    assert_eq!(method, 0);
    let (off, len) = ext[0];
    assert_eq!(&bytes[off as usize..(off + len) as usize], b"TILE_A");
    let (method, ext) = meta.location(2);
    assert_eq!(method, 0);
    let (off, len) = ext[0];
    assert_eq!(&bytes[off as usize..(off + len) as usize], b"TILE_B");
    let (method, ext) = meta.location(3);
    assert_eq!(method, 1);
    let (off, len) = ext[0];
    let grid = &meta.idat.unwrap()[off as usize..(off + len) as usize];
    assert_eq!(grid[0], 0);
    assert_eq!(grid[2] as u32 + 1, 1);
    assert_eq!(grid[3] as u32 + 1, 2);
    let mut at: usize = 4;
    let width: usize = if grid[1] & 1 == 1 { 4 } else { 2 };
    assert_eq!(sized(grid, &mut at, width), 64);
    assert_eq!(sized(grid, &mut at, width), 32);
}
