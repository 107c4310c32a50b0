//! Reading item properties: the property boxes, the associations, and the
//! `iprp` box that holds both.
use crate::atom::{child_at, read_child};
use crate::bytes::{i32_at, read_i32, read_u16, read_u32, same_code, tail, u16_at, u32_at};
use crate::error::Error;
use crate::iprp::{
    AssociationModel, AuxC, Cclv, Clli, Imir, Irot, Ispe, ItemProperties, ItemProperty,
    ItemPropertyAssociation, Mdcv, Pixi, PropertyAssociation, PropertyModel, AUXC, CCLV, CLAP, CLLI,
    COLR, IMIR, IPCO, IPMA, IROT, ISPE, MDCV, PASP, PIXI,
};
use crate::media_meta::{clap_of, colr_of, parse_clap, parse_colr, parse_pasp, pasp_of};
use crate::text::{decode_strict, find_text_end, text_end};
use vstd::prelude::*;
use vstd::slice::slice_to_vec;
use vstd::utf8::{decode_utf8, valid_utf8};

verus! {

fn parse_ispe(body: &[u8]) -> (r: Result<Ispe, Error>)
    ensures
        r == (if body@.len() < 12 {
            Err(Error::Rule("MOV: ispe payload < 12 bytes"))
        } else {
            Ok(Ispe { width: u32_at(body@, 4), height: u32_at(body@, 8) })
        }),
{
    if body.len() < 12 {
        return Err(Error::Rule("MOV: ispe payload < 12 bytes"));
    }
    Ok(Ispe { width: read_u32(body, 4), height: read_u32(body, 8) })
}

/// The bits per channel in a `pixi` body.
pub open spec fn pixi_of(s: Seq<u8>) -> Result<Seq<u8>, Error> {
    if s.len() < 5 {
        Err(Error::Rule("MOV: pixi payload < 5 bytes"))
    } else if s.len() < 5 + s[4] {
        Err(Error::Rule("MOV: pixi truncated bits_per_channel"))
    } else {
        Ok(s.subrange(5, 5 + s[4]))
    }
}

fn parse_pixi(body: &[u8]) -> (r: Result<Pixi, Error>)
    ensures
        match pixi_of(body@) {
            Ok(m) => r is Ok && r->Ok_0.bits_per_channel@ == m,
            Err(e) => r == Err::<Pixi, Error>(e),
        },
{
    if body.len() < 5 {
        return Err(Error::Rule("MOV: pixi payload < 5 bytes"));
    }
    let n: usize = body[4] as usize;
    if body.len() - 5 < n {
        return Err(Error::Rule("MOV: pixi truncated bits_per_channel"));
    }
    Ok(Pixi { bits_per_channel: slice_to_vec(&body[5..5 + n]) })
}

fn parse_irot(body: &[u8]) -> (r: Result<Irot, Error>)
    ensures
        r == (if body@.len() == 0 {
            Err(Error::Rule("MOV: irot payload empty"))
        } else {
            Ok(Irot { steps: (body@[0] % 4) as u8 })
        }),
{
    if body.is_empty() {
        return Err(Error::Rule("MOV: irot payload empty"));
    }
    Ok(Irot { steps: body[0] % 4 })
}

fn parse_imir(body: &[u8]) -> (r: Result<Imir, Error>)
    ensures
        r == (if body@.len() == 0 {
            Err(Error::Rule("MOV: imir payload empty"))
        } else {
            Ok(Imir { axis: (body@[0] % 2) as u8 })
        }),
{
    if body.is_empty() {
        return Err(Error::Rule("MOV: imir payload empty"));
    }
    Ok(Imir { axis: body[0] % 2 })
}

/// The URN and what follows it in an `auxC` body. A URN that is not valid
/// UTF-8 counts as empty.
pub open spec fn auxc_of(s: Seq<u8>) -> (Seq<char>, Seq<u8>) {
    let end = text_end(s, 4);
    let urn = s.subrange(4, end);
    (
        if valid_utf8(urn) {
            decode_utf8(urn)
        } else {
            Seq::empty()
        },
        tail(
            s,
            if end < s.len() {
                end + 1
            } else {
                end
            },
        ),
    )
}

/// Parse the body of an `auxC` box.
pub fn parse_auxc_payload(body: &[u8]) -> (r: Result<AuxC, Error>)
    ensures
        body@.len() < 4 ==> r == Err::<AuxC, Error>(Error::Rule("MOV: auxC payload < 4 bytes")),
        body@.len() >= 4 ==> r is Ok && r->Ok_0.aux_type@ == auxc_of(body@).0
            && r->Ok_0.aux_subtype@ == auxc_of(body@).1,
{
    if body.len() < 4 {
        return Err(Error::Rule("MOV: auxC payload < 4 bytes"));
    }
    let end: usize = find_text_end(body, 4);
    let aux_type = match decode_strict(&body[4..end]) {
        Some(s) => s.to_owned(),
        None => String::new(),
    };
    let next: usize = if end < body.len() {
        end + 1
    } else {
        end
    };
    Ok(AuxC { aux_type, aux_subtype: slice_to_vec(&body[next..body.len()]) })
}

/// What a `clli` body holds: four bytes, or eight with version and flags.
pub open spec fn clli_of(s: Seq<u8>) -> Result<Clli, Error> {
    if s.len() != 4 && s.len() != 8 {
        Err(Error::Number("MOV: clli payload must be 4 or 8 bytes, got ", s.len() as i128, ""))
    } else {
        let i = s.len() - 4;
        Ok(
            Clli {
                max_content_light_level: u16_at(s, i),
                max_pic_average_light_level: u16_at(s, i + 2),
            },
        )
    }
}

/// Parse the body of a `clli` box.
pub fn parse_clli_payload(body: &[u8]) -> (r: Result<Clli, Error>)
    ensures
        r == clli_of(body@),
{
    if body.len() != 4 && body.len() != 8 {
        return Err(
            Error::Number("MOV: clli payload must be 4 or 8 bytes, got ", body.len() as i128, ""),
        );
    }
    let i: usize = body.len() - 4;
    Ok(
        Clli {
            max_content_light_level: read_u16(body, i),
            max_pic_average_light_level: read_u16(body, i + 2),
        },
    )
}

/// What an `mdcv` body holds: twenty-four bytes, or twenty-eight with version
/// and flags. The three x come before the three y.
pub open spec fn mdcv_of(s: Seq<u8>) -> Result<Mdcv, Error> {
    if s.len() != 24 && s.len() != 28 {
        Err(Error::Number("MOV: mdcv payload must be 24 or 28 bytes, got ", s.len() as i128, ""))
    } else {
        let i = s.len() - 24;
        Ok(
            Mdcv {
                display_primaries: [
                    (u16_at(s, i), u16_at(s, i + 6)),
                    (u16_at(s, i + 2), u16_at(s, i + 8)),
                    (u16_at(s, i + 4), u16_at(s, i + 10)),
                ],
                white_point: (u16_at(s, i + 12), u16_at(s, i + 14)),
                max_display_luminance: u32_at(s, i + 16),
                min_display_luminance: u32_at(s, i + 20),
            },
        )
    }
}

/// Parse the body of an `mdcv` box.
pub fn parse_mdcv_payload(body: &[u8]) -> (r: Result<Mdcv, Error>)
    ensures
        r == mdcv_of(body@),
{
    if body.len() != 24 && body.len() != 28 {
        return Err(
            Error::Number("MOV: mdcv payload must be 24 or 28 bytes, got ", body.len() as i128, ""),
        );
    }
    let i: usize = body.len() - 24;
    Ok(
        Mdcv {
            display_primaries: [
                (read_u16(body, i), read_u16(body, i + 6)),
                (read_u16(body, i + 2), read_u16(body, i + 8)),
                (read_u16(body, i + 4), read_u16(body, i + 10)),
            ],
            white_point: (read_u16(body, i + 12), read_u16(body, i + 14)),
            max_display_luminance: read_u32(body, i + 16),
            min_display_luminance: read_u32(body, i + 20),
        },
    )
}

/// The primaries that start at `i`: three x, then three y.
pub open spec fn primaries_at(s: Seq<u8>, i: int) -> [(i32, i32); 3] {
    [
        (i32_at(s, i), i32_at(s, i + 12)),
        (i32_at(s, i + 4), i32_at(s, i + 16)),
        (i32_at(s, i + 8), i32_at(s, i + 20)),
    ]
}

/// Whether the bit worth `b` is set in a byte.
pub open spec fn bit(byte: u8, b: int) -> bool {
    (byte as int / b) % 2 == 1
}

/// `n` bytes if they are there.
pub open spec fn taken(present: bool, n: int) -> int {
    if present {
        n
    } else {
        0
    }
}

/// What a `cclv` body holds. Behind version and flags comes a byte whose bits
/// say which of the fields behind it are there.
pub open spec fn cclv_of(s: Seq<u8>) -> Result<Cclv, Error> {
    let flags = s[4];
    let min_at = 5 + taken(bit(flags, 0x20), 24);
    let max_at = min_at + taken(bit(flags, 0x10), 4);
    let avg_at = max_at + taken(bit(flags, 0x08), 4);
    if s.len() < 5 {
        Err(Error::Rule("MOV: cclv payload < 5 bytes (FullBox + flags)"))
    } else if bit(flags, 0x20) && s.len() < 29 {
        Err(Error::Rule("MOV: cclv primaries truncated"))
    } else if bit(flags, 0x10) && s.len() < min_at + 4 {
        Err(Error::Rule("MOV: cclv min_luminance truncated"))
    } else if bit(flags, 0x08) && s.len() < max_at + 4 {
        Err(Error::Rule("MOV: cclv max_luminance truncated"))
    } else if bit(flags, 0x04) && s.len() < avg_at + 4 {
        Err(Error::Rule("MOV: cclv avg_luminance truncated"))
    } else {
        Ok(
            Cclv {
                cancel_flag: bit(flags, 0x80),
                persistence_flag: bit(flags, 0x40),
                primaries: if bit(flags, 0x20) {
                    Some(primaries_at(s, 5))
                } else {
                    None
                },
                min_luminance: if bit(flags, 0x10) {
                    Some(u32_at(s, min_at))
                } else {
                    None
                },
                max_luminance: if bit(flags, 0x08) {
                    Some(u32_at(s, max_at))
                } else {
                    None
                },
                avg_luminance: if bit(flags, 0x04) {
                    Some(u32_at(s, avg_at))
                } else {
                    None
                },
            },
        )
    }
}

/// Parse the body of a `cclv` box.
pub fn parse_cclv_payload(body: &[u8]) -> (r: Result<Cclv, Error>)
    ensures
        r == cclv_of(body@),
{
    if body.len() < 5 {
        return Err(Error::Rule("MOV: cclv payload < 5 bytes (FullBox + flags)"));
    }
    let flags: u8 = body[4];
    let mut idx: usize = 5;
    let primaries = if (flags / 0x20) % 2 == 1 {
        if body.len() - idx < 24 {
            return Err(Error::Rule("MOV: cclv primaries truncated"));
        }
        let prims = [
            (read_i32(body, idx), read_i32(body, idx + 12)),
            (read_i32(body, idx + 4), read_i32(body, idx + 16)),
            (read_i32(body, idx + 8), read_i32(body, idx + 20)),
        ];
        assert(prims =~= primaries_at(body@, 5));
        idx = idx + 24;
        Some(prims)
    } else {
        None
    };
    let min_luminance: Option<u32> = if (flags / 0x10) % 2 == 1 {
        if body.len() - idx < 4 {
            return Err(Error::Rule("MOV: cclv min_luminance truncated"));
        }
        idx = idx + 4;
        Some(read_u32(body, idx - 4))
    } else {
        None
    };
    let max_luminance: Option<u32> = if (flags / 0x08) % 2 == 1 {
        if body.len() - idx < 4 {
            return Err(Error::Rule("MOV: cclv max_luminance truncated"));
        }
        idx = idx + 4;
        Some(read_u32(body, idx - 4))
    } else {
        None
    };
    let avg_luminance: Option<u32> = if (flags / 0x04) % 2 == 1 {
        if body.len() - idx < 4 {
            return Err(Error::Rule("MOV: cclv avg_luminance truncated"));
        }
        Some(read_u32(body, idx))
    } else {
        None
    };
    Ok(
        Cclv {
            cancel_flag: (flags / 0x80) % 2 == 1,
            persistence_flag: (flags / 0x40) % 2 == 1,
            primaries,
            min_luminance,
            max_luminance,
            avg_luminance,
        },
    )
}

/// The property that a box with a code and a body stands for.
pub open spec fn property_of(code: [u8; 4], s: Seq<u8>) -> Result<PropertyModel, Error> {
    if code == COLR {
        match colr_of(s) {
            Ok(c) => Ok(PropertyModel::Colr(c)),
            Err(e) => Err(e),
        }
    } else if code == PASP {
        match pasp_of(s) {
            Ok(p) => Ok(PropertyModel::Pasp(p)),
            Err(e) => Err(e),
        }
    } else if code == CLAP {
        match clap_of(s) {
            Ok(c) => Ok(PropertyModel::Clap(c)),
            Err(e) => Err(e),
        }
    } else if code == ISPE {
        if s.len() < 12 {
            Err(Error::Rule("MOV: ispe payload < 12 bytes"))
        } else {
            Ok(PropertyModel::Ispe(Ispe { width: u32_at(s, 4), height: u32_at(s, 8) }))
        }
    } else if code == PIXI {
        match pixi_of(s) {
            Ok(m) => Ok(PropertyModel::Pixi(m)),
            Err(e) => Err(e),
        }
    } else if code == IROT {
        if s.len() == 0 {
            Err(Error::Rule("MOV: irot payload empty"))
        } else {
            Ok(PropertyModel::Irot(Irot { steps: (s[0] % 4) as u8 }))
        }
    } else if code == IMIR {
        if s.len() == 0 {
            Err(Error::Rule("MOV: imir payload empty"))
        } else {
            Ok(PropertyModel::Imir(Imir { axis: (s[0] % 2) as u8 }))
        }
    } else if code == AUXC {
        if s.len() < 4 {
            Err(Error::Rule("MOV: auxC payload < 4 bytes"))
        } else {
            Ok(PropertyModel::AuxC(auxc_of(s).0, auxc_of(s).1))
        }
    } else if code == CLLI {
        match clli_of(s) {
            Ok(m) => Ok(PropertyModel::Clli(m)),
            Err(e) => Err(e),
        }
    } else if code == MDCV {
        match mdcv_of(s) {
            Ok(m) => Ok(PropertyModel::Mdcv(m)),
            Err(e) => Err(e),
        }
    } else if code == CCLV {
        match cclv_of(s) {
            Ok(m) => Ok(PropertyModel::Cclv(m)),
            Err(e) => Err(e),
        }
    } else {
        Ok(PropertyModel::Other(code, s))
    }
}

/// Parse a property box.
pub fn parse_property_box(code: &[u8; 4], body: &[u8]) -> (r: Result<ItemProperty, Error>)
    ensures
        match property_of(*code, body@) {
            Ok(m) => r is Ok && r->Ok_0@ == m,
            Err(e) => r == Err::<ItemProperty, Error>(e),
        },
{
    if same_code(code, &COLR) {
        Ok(ItemProperty::Colr(parse_colr(body)?))
    } else if same_code(code, &PASP) {
        Ok(ItemProperty::Pasp(parse_pasp(body)?))
    } else if same_code(code, &CLAP) {
        Ok(ItemProperty::Clap(parse_clap(body)?))
    } else if same_code(code, &ISPE) {
        Ok(ItemProperty::Ispe(parse_ispe(body)?))
    } else if same_code(code, &PIXI) {
        Ok(ItemProperty::Pixi(parse_pixi(body)?))
    } else if same_code(code, &IROT) {
        Ok(ItemProperty::Irot(parse_irot(body)?))
    } else if same_code(code, &IMIR) {
        Ok(ItemProperty::Imir(parse_imir(body)?))
    } else if same_code(code, &AUXC) {
        Ok(ItemProperty::AuxC(parse_auxc_payload(body)?))
    } else if same_code(code, &CLLI) {
        Ok(ItemProperty::Clli(parse_clli_payload(body)?))
    } else if same_code(code, &MDCV) {
        Ok(ItemProperty::Mdcv(parse_mdcv_payload(body)?))
    } else if same_code(code, &CCLV) {
        Ok(ItemProperty::Cclv(parse_cclv_payload(body)?))
    } else {
        Ok(ItemProperty::Other { fourcc: *code, payload: slice_to_vec(body) })
    }
}

/// Length of an item id in an `ipma` body.
pub open spec fn id_len(s: Seq<u8>) -> int {
    if s[0] == 0 {
        2
    } else {
        4
    }
}

/// Length of an association in an `ipma` body.
pub open spec fn assoc_len(s: Seq<u8>) -> int {
    if s[3] % 2 == 1 {
        2
    } else {
        1
    }
}

/// Where row `j` of an `ipma` body starts.
pub open spec fn ipma_start(s: Seq<u8>, j: nat) -> int
    decreases j,
{
    if j == 0 {
        8
    } else {
        let p = ipma_start(s, (j - 1) as nat);
        p + id_len(s) + 1 + s[p + id_len(s)] * assoc_len(s)
    }
}

/// What is wrong with row `j`, given that the rows before it are in order.
pub open spec fn ipma_row_error(s: Seq<u8>, j: nat) -> Option<Error> {
    let p = ipma_start(s, j);
    let q = p + id_len(s);
    if q > s.len() {
        if s[0] == 0 {
            Some(Error::Rule("MOV: ipma item_ID v0 truncated"))
        } else {
            Some(Error::Rule("MOV: ipma item_ID v1 truncated"))
        }
    } else if q == s.len() {
        Some(Error::Rule("MOV: ipma association_count missing"))
    } else if q + 1 + s[q] * assoc_len(s) > s.len() {
        if assoc_len(s) == 2 {
            Some(Error::Rule("MOV: ipma 16-bit assoc truncated"))
        } else {
            Some(Error::Rule("MOV: ipma 8-bit assoc truncated"))
        }
    } else {
        None
    }
}

/// What is wrong with the first faulty row among the first `n`.
pub open spec fn ipma_rows_error(s: Seq<u8>, n: nat) -> Option<Error>
    decreases n,
{
    if n == 0 {
        None
    } else {
        match ipma_rows_error(s, (n - 1) as nat) {
            Some(e) => Some(e),
            None => ipma_row_error(s, (n - 1) as nat),
        }
    }
}

proof fn lemma_ipma_error_stays(s: Seq<u8>, j: nat, n: nat)
    requires
        j <= n,
        ipma_rows_error(s, j) is Some,
    ensures
        ipma_rows_error(s, n) == ipma_rows_error(s, j),
    decreases n,
{
    if j < n {
        lemma_ipma_error_stays(s, j, (n - 1) as nat);
    }
}

/// The association that starts at `q`: the top bit says essential, the rest is
/// the index.
pub open spec fn assoc_at(s: Seq<u8>, q: int) -> PropertyAssociation {
    if assoc_len(s) == 2 {
        PropertyAssociation {
            index: (u16_at(s, q) % 0x8000) as u16,
            essential: u16_at(s, q) >= 0x8000,
        }
    } else {
        PropertyAssociation { index: (s[q] % 0x80) as u16, essential: s[q] >= 0x80 }
    }
}

/// The associations among the first `n` from `q` on. The index 0 stands for none and
/// is left out.
pub open spec fn associations_at(s: Seq<u8>, q: int, n: nat) -> Seq<PropertyAssociation>
    decreases n,
{
    if n == 0 {
        Seq::empty()
    } else {
        let before = associations_at(s, q, (n - 1) as nat);
        let a = assoc_at(s, q + (n - 1) * assoc_len(s));
        if a.index == 0 {
            before
        } else {
            before.push(a)
        }
    }
}

/// Row `j` of an `ipma` body.
pub open spec fn ipma_row(s: Seq<u8>, j: nat) -> AssociationModel {
    let p = ipma_start(s, j);
    let q = p + id_len(s);
    AssociationModel {
        item_id: if s[0] == 0 {
            u16_at(s, p) as u32
        } else {
            u32_at(s, p)
        },
        associations: associations_at(s, q + 1, s[q] as nat),
    }
}

/// The rows of an `ipma` body.
pub open spec fn ipma_of(s: Seq<u8>) -> Result<Seq<AssociationModel>, Error> {
    if s.len() < 8 {
        Err(Error::Rule("MOV: ipma payload < 8 bytes"))
    } else {
        match ipma_rows_error(s, u32_at(s, 4) as nat) {
            Some(e) => Err(e),
            None => Ok(Seq::new(u32_at(s, 4) as nat, |j: int| ipma_row(s, j as nat))),
        }
    }
}

/// What a list of rows holds.
pub open spec fn row_models(rows: Seq<ItemPropertyAssociation>) -> Seq<AssociationModel> {
    Seq::new(rows.len(), |j: int| rows[j]@)
}

fn parse_associations(body: &[u8], start: usize, count: u8, wide: bool) -> (r: Vec<
    PropertyAssociation,
>)
    requires
        body@.len() >= 8,
        wide == (assoc_len(body@) == 2),
        start + count * assoc_len(body@) <= body@.len(),
    ensures
        r@ == associations_at(body@, start as int, count as nat),
{
    let mut out: Vec<PropertyAssociation> = Vec::new();
    let step: usize = if wide {
        2
    } else {
        1
    };
    let mut q: usize = start;
    let mut k: u8 = 0;
    while k < count
        invariant
            wide == (assoc_len(body@) == 2),
            step == assoc_len(body@),
            k <= count,
            q == start + k * step,
            start + count * step <= body@.len(),
            out@ == associations_at(body@, start as int, k as nat),
        decreases count - k,
    {
        assert(body.len() == body@.len());
        assert((k + 1) * step <= count * step && (k + 1) * step == k * step + step)
            by (nonlinear_arith)
            requires
                k < count,
                step >= 0,
        ;
        let a = if wide {
            let raw: u16 = read_u16(body, q);
            PropertyAssociation { index: raw % 0x8000, essential: raw >= 0x8000 }
        } else {
            let raw: u8 = body[q];
            PropertyAssociation { index: (raw % 0x80) as u16, essential: raw >= 0x80 }
        };
        assert(a == assoc_at(body@, start + k * assoc_len(body@)));
        if a.index != 0 {
            out.push(a);
        }
        q = q + step;
        k = k + 1;
    }
    out
}

/// Parse the body of an `ipma` box. Associations with the index 0 are left out; a row
/// that is left without any stays.
pub fn parse_ipma(body: &[u8]) -> (r: Result<Vec<ItemPropertyAssociation>, Error>)
    ensures
        match ipma_of(body@) {
            Ok(m) => r is Ok && row_models(r->Ok_0@) == m,
            Err(e) => r == Err::<Vec<ItemPropertyAssociation>, Error>(e),
        },
{
    if body.len() < 8 {
        return Err(Error::Rule("MOV: ipma payload < 8 bytes"));
    }
    let version: u8 = body[0];
    let wide: bool = body[3] % 2 == 1;
    let id: usize = if version == 0 {
        2
    } else {
        4
    };
    let n: u32 = read_u32(body, 4);
    let mut out: Vec<ItemPropertyAssociation> = Vec::new();
    let mut p: usize = 8;
    let mut j: u32 = 0;
    while j < n
        invariant
            body@.len() >= 8,
            version == body@[0],
            wide == (assoc_len(body@) == 2),
            id == id_len(body@),
            n == u32_at(body@, 4),
            j <= n,
            p == ipma_start(body@, j as nat),
            p <= body@.len(),
            ipma_rows_error(body@, j as nat) is None,
            out@.len() == j,
            forall|k: int| 0 <= k < j ==> (#[trigger] out@[k])@ == ipma_row(body@, k as nat),
        decreases n - j,
    {
        proof {
            if ipma_row_error(body@, j as nat) is Some {
                lemma_ipma_error_stays(body@, (j + 1) as nat, n as nat);
            }
        }
        if body.len() - p < id {
            if version == 0 {
                return Err(Error::Rule("MOV: ipma item_ID v0 truncated"));
            }
            return Err(Error::Rule("MOV: ipma item_ID v1 truncated"));
        }
        let item_id: u32 = if version == 0 {
            read_u16(body, p) as u32
        } else {
            read_u32(body, p)
        };
        let q: usize = p + id;
        if q >= body.len() {
            return Err(Error::Rule("MOV: ipma association_count missing"));
        }
        let count: u8 = body[q];
        let span: usize = if wide {
            count as usize * 2
        } else {
            count as usize
        };
        if body.len() - (q + 1) < span {
            if wide {
                return Err(Error::Rule("MOV: ipma 16-bit assoc truncated"));
            }
            return Err(Error::Rule("MOV: ipma 8-bit assoc truncated"));
        }
        let associations = parse_associations(body, q + 1, count, wide);
        let row = ItemPropertyAssociation { item_id, associations };
        assert(row@.associations =~= ipma_row(body@, j as nat).associations);
        out.push(row);
        p = q + 1 + span;
        j = j + 1;
    }
    assert(row_models(out@) =~= Seq::new(n as nat, |j: int| ipma_row(body@, j as nat)));
    Ok(out)
}

/// The properties in an `ipco` body from `p` on.
pub open spec fn ipco_of(s: Seq<u8>, p: int) -> Result<Seq<PropertyModel>, Error>
    decreases s.len() - p,
{
    if p < 0 || p + 8 > s.len() {
        Ok(Seq::empty())
    } else {
        match child_at(s, p) {
            Err(e) => Err(e),
            Ok(c) => match property_of(c.code, s.subrange(c.start, c.end)) {
                Err(e) => Err(e),
                Ok(m) => if c.end <= p {
                    Ok(Seq::empty())
                } else {
                    match ipco_of(s, c.end) {
                        Err(e) => Err(e),
                        Ok(rest) => Ok(seq![m] + rest),
                    }
                },
            },
        }
    }
}

/// What a list of properties holds.
pub open spec fn property_models(v: Seq<ItemProperty>) -> Seq<PropertyModel> {
    Seq::new(v.len(), |i: int| v[i]@)
}

/// Parse the body of an `ipco` box, appending the properties to a list.
fn parse_ipco(body: &[u8], out: &mut Vec<ItemProperty>) -> (r: Result<(), Error>)
    ensures
        match ipco_of(body@, 0) {
            Ok(m) => r is Ok && property_models(final(out)@) == property_models(old(out)@) + m,
            Err(e) => r == Err::<(), Error>(e),
        },
{
    let ghost before = property_models(out@);
    let ghost mut done: Seq<PropertyModel> = Seq::empty();
    assert(before + done =~= before);
    let mut p: usize = 0;
    while body.len() - p >= 8
        invariant
            p <= body@.len(),
            property_models(out@) == before + done,
            match ipco_of(body@, p as int) {
                Ok(m) => ipco_of(body@, 0) == Ok::<Seq<PropertyModel>, Error>(done + m),
                Err(e) => ipco_of(body@, 0) == Err::<Seq<PropertyModel>, Error>(e),
            },
        decreases body@.len() - p,
    {
        let c = read_child(body, p)?;
        let prop = parse_property_box(&c.code, &body[c.start..c.end])?;
        let ghost had = out@;
        out.push(prop);
        proof {
            assert(property_models(out@) =~= property_models(had) + seq![prop@]);
            assert(before + done + seq![prop@] =~= before + (done + seq![prop@]));
            if let Ok(rest) = ipco_of(body@, c.end as int) {
                assert(done + (seq![prop@] + rest) =~= (done + seq![prop@]) + rest);
            }
            done = done + seq![prop@];
        }
        p = c.end;
    }
    proof {
        assert(done + Seq::<PropertyModel>::empty() =~= done);
    }
    Ok(())
}

/// The properties and the associations in an `iprp` body from `p` on. An open
/// `ipco` holds no properties.
pub open spec fn iprp_of(s: Seq<u8>, p: int) -> Result<
    (Seq<PropertyModel>, Seq<AssociationModel>),
    Error,
>
    decreases s.len() - p,
{
    if p < 0 || p + 8 > s.len() {
        Ok((Seq::empty(), Seq::empty()))
    } else {
        match child_at(s, p) {
            Err(e) => Err(e),
            Ok(c) => {
                let body = s.subrange(c.start, c.end);
                let here: Result<(Seq<PropertyModel>, Seq<AssociationModel>), Error> = if c.code
                    == IPCO {
                    if c.open {
                        Ok((Seq::empty(), Seq::empty()))
                    } else {
                        match ipco_of(body, 0) {
                            Err(e) => Err(e),
                            Ok(m) => Ok((m, Seq::empty())),
                        }
                    }
                } else if c.code == IPMA {
                    match ipma_of(body) {
                        Err(e) => Err(e),
                        Ok(m) => Ok((Seq::empty(), m)),
                    }
                } else {
                    Ok((Seq::empty(), Seq::empty()))
                };
                match here {
                    Err(e) => Err(e),
                    Ok((props, rows)) => if c.end <= p {
                        Ok((props, rows))
                    } else {
                        match iprp_of(s, c.end) {
                            Err(e) => Err(e),
                            Ok((more_props, more_rows)) => Ok((props + more_props, rows + more_rows)),
                        }
                    },
                }
            },
        }
    }
}

/// Parse the body of an `iprp` box. The properties of all `ipco` boxes stand
/// behind each other, and so do the rows of all `ipma` boxes; other boxes are
/// passed over.
pub fn parse_iprp(body: &[u8]) -> (r: Result<ItemProperties, Error>)
    ensures
        match iprp_of(body@, 0) {
            Ok(m) => r is Ok && property_models(r->Ok_0.properties@) == m.0 && row_models(
                r->Ok_0.associations@,
            ) == m.1,
            Err(e) => r == Err::<ItemProperties, Error>(e),
        },
{
    let mut properties: Vec<ItemProperty> = Vec::new();
    let mut associations: Vec<ItemPropertyAssociation> = Vec::new();
    assert(property_models(properties@) =~= Seq::empty());
    assert(row_models(associations@) =~= Seq::empty());
    proof {
        if let Ok(m) = iprp_of(body@, 0) {
            assert(Seq::<PropertyModel>::empty() + m.0 =~= m.0);
            assert(Seq::<AssociationModel>::empty() + m.1 =~= m.1);
        }
    }
    let mut p: usize = 0;
    while body.len() - p >= 8
        invariant
            p <= body@.len(),
            match iprp_of(body@, p as int) {
                Ok(m) => iprp_of(body@, 0) == Ok::<
                    (Seq<PropertyModel>, Seq<AssociationModel>),
                    Error,
                >((property_models(properties@) + m.0, row_models(associations@) + m.1)),
                Err(e) => iprp_of(body@, 0) == Err::<
                    (Seq<PropertyModel>, Seq<AssociationModel>),
                    Error,
                >(e),
            },
        decreases body@.len() - p,
    {
        let ghost had_props = property_models(properties@);
        let ghost had_rows = row_models(associations@);
        let ghost mut new_props: Seq<PropertyModel> = Seq::empty();
        let ghost mut new_rows: Seq<AssociationModel> = Seq::empty();
        let c = read_child(body, p)?;
        let inner: &[u8] = &body[c.start..c.end];
        if same_code(&c.code, &IPCO) {
            if !c.open {
                parse_ipco(inner, &mut properties)?;
                proof {
                    new_props = ipco_of(inner@, 0)->Ok_0;
                }
            }
        } else if same_code(&c.code, &IPMA) {
            let mut rows = parse_ipma(inner)?;
            proof {
                new_rows = ipma_of(inner@)->Ok_0;
            }
            let ghost old_rows = associations@;
            let ghost added = rows@;
            associations.append(&mut rows);
            assert(row_models(associations@) =~= row_models(old_rows) + row_models(added));
        }
        proof {
            assert(had_props + Seq::<PropertyModel>::empty() =~= had_props);
            assert(had_rows + Seq::<AssociationModel>::empty() =~= had_rows);
            assert(property_models(properties@) == had_props + new_props);
            assert(row_models(associations@) == had_rows + new_rows);
            if let Ok(rest) = iprp_of(body@, c.end as int) {
                assert(had_props + (new_props + rest.0) =~= (had_props + new_props) + rest.0);
                assert(had_rows + (new_rows + rest.1) =~= (had_rows + new_rows) + rest.1);
            }
        }
        p = c.end;
    }
    proof {
        assert(property_models(properties@) + Seq::<PropertyModel>::empty() =~= property_models(
            properties@,
        ));
        assert(row_models(associations@) + Seq::<AssociationModel>::empty() =~= row_models(
            associations@,
        ));
    }
    Ok(ItemProperties { properties, associations })
}

} // verus!
