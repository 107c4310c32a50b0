//! Where item properties, keys, kinds and texts stand in their boxes.
use crate::atom::{child_at, lemma_atom_len, ChildModel};
use crate::bytes::{
    code_at, group_be_len, lemma_u32_at, tail, u16_at, u32_at, u32_be, u64_at, zeros,
};
use crate::cmov::{cmov_body, CmovModel};
use crate::code_laws::spells;
use crate::error::Error;
use crate::fourcc::{CMVD, DATA, DCOM};
use crate::heif_item::{property_body, HeifPropertyModel};
use crate::iprp::{Imir, Irot, Ispe, PropertyAssociation, PropertyModel};
use crate::iprp_read::{assoc_at, auxc_of, ipma_row, ipma_start, property_of};
use crate::key_value::{first_data, key_start, keys_of};
use crate::kind::{kind_of, KindModel};
use crate::metadata_sample::{MetadataSampleEntry, SubtitleSampleEntry};
use crate::mux_meta::text_record;
use crate::sample_entry::{metadata_entry_body, subtitle_entry_body};
use crate::text::{lemma_text_end_is, lemma_text_of_utf8, utf8};
use crate::walk::{boxes, first_box, inside, lemma_boxes_2, lemma_boxes_found, lemma_passes_nothing};
use vstd::prelude::*;
use vstd::utf8::decode_utf8;

verus! {

/// The size of an image stands behind version and flags: the width, then the height.
pub proof fn law_image_size_layout(code: [u8; 4], s: Seq<u8>)
    requires
        spells(code, "ispe"),
        s.len() >= 12,
    ensures
        property_of(code, s) == Ok::<PropertyModel, Error>(
            PropertyModel::Ispe(Ispe { width: u32_at(s, 4), height: u32_at(s, 8) }),
        ),
{
    reveal_strlit("ispe");
    assert(code =~= crate::fourcc::ISPE);
    lemma_property_codes();
}

/// The low two bits say by how many quarters an image is turned.
pub proof fn law_image_rotation_layout(code: [u8; 4], s: Seq<u8>)
    requires
        spells(code, "irot"),
        s.len() >= 1,
    ensures
        property_of(code, s) == Ok::<PropertyModel, Error>(
            PropertyModel::Irot(Irot { steps: (s[0] % 4) as u8 }),
        ),
{
    reveal_strlit("irot");
    assert(code =~= crate::fourcc::IROT);
    lemma_property_codes();
}

/// The low bit says at which axis an image is mirrored.
pub proof fn law_image_mirror_layout(code: [u8; 4], s: Seq<u8>)
    requires
        spells(code, "imir"),
        s.len() >= 1,
    ensures
        property_of(code, s) == Ok::<PropertyModel, Error>(
            PropertyModel::Imir(Imir { axis: (s[0] % 2) as u8 }),
        ),
{
    reveal_strlit("imir");
    assert(code =~= crate::fourcc::IMIR);
    lemma_property_codes();
}

/// The bits of each channel stand behind version, flags and the number of channels.
pub proof fn law_pixel_depth_layout(code: [u8; 4], s: Seq<u8>, bits: Seq<u8>)
    requires
        spells(code, "pixi"),
        s.len() >= 5 + bits.len(),
        s[4] == bits.len(),
        s.subrange(5, 5 + bits.len() as int) == bits,
    ensures
        property_of(code, s) == Ok::<PropertyModel, Error>(PropertyModel::Pixi(bits)),
{
    reveal_strlit("pixi");
    assert(code =~= crate::fourcc::PIXI);
    lemma_property_codes();
}

proof fn lemma_property_codes()
    ensures
        crate::fourcc::COLR@[0] == 0x63u8 && crate::fourcc::COLR@[1] == 0x6fu8,
        crate::fourcc::PASP@[0] == 0x70u8 && crate::fourcc::PASP@[1] == 0x61u8,
        crate::fourcc::CLAP@[0] == 0x63u8 && crate::fourcc::CLAP@[1] == 0x6cu8,
        crate::fourcc::ISPE@[0] == 0x69u8 && crate::fourcc::ISPE@[1] == 0x73u8,
        crate::fourcc::PIXI@[0] == 0x70u8 && crate::fourcc::PIXI@[1] == 0x69u8,
        crate::fourcc::IROT@[0] == 0x69u8 && crate::fourcc::IROT@[1] == 0x72u8,
        crate::fourcc::IMIR@[0] == 0x69u8 && crate::fourcc::IMIR@[1] == 0x6du8,
{
}

/// An auxiliary type is a URN that a zero byte ends, behind version and flags; all bytes
/// behind it are the subtype.
pub proof fn law_auxiliary_type_layout(head: Seq<u8>, urn: Seq<char>, rest: Seq<u8>)
    requires
        head.len() == 4,
        !utf8(urn).contains(0u8),
    ensures
        auxc_of(head + utf8(urn) + seq![0u8] + rest) == (urn, rest),
{
    let s = head + utf8(urn) + seq![0u8] + rest;
    let text = utf8(urn);
    let end = 4 + text.len() as int;
    assert forall|i: int| 4 <= i < end implies s[i] != 0 by {
        assert(text[i - 4] == s[i]);
    }
    lemma_text_end_is(s, 4, end);
    assert(s.subrange(4, end) =~= text);
    lemma_text_of_utf8(urn);
    assert(tail(s, end + 1) =~= rest);
}

/// In an `ipma` body a row starts with the item, in two bytes in version 0 and in four
/// otherwise, and the number of associations. Each of these has one byte, or two where the
/// low flag is set; the top bit says that a property is essential, and the rest is its
/// number.
#[verifier::rlimit(40)]
pub proof fn law_association_layout(s: Seq<u8>, j: nat, q: int)
    requires
        s.len() >= 8,
    ensures
        ipma_start(s, 0) == 8,
        ({
            let p = ipma_start(s, j);
            let id_bytes = if s[0] == 0 {
                2int
            } else {
                4
            };
            let width = if s[3] % 2 == 1 {
                2int
            } else {
                1
            };
            &&& ipma_start(s, j + 1) == p + id_bytes + 1 + s[p + id_bytes] * width
            &&& ipma_row(s, j).item_id == (if s[0] == 0 {
                u16_at(s, p) as u32
            } else {
                u32_at(s, p)
            })
        }),
        s[3] % 2 == 1 ==> assoc_at(s, q) == (PropertyAssociation {
            index: ((s[q] % 128) * 256 + s[q + 1]) as u16,
            essential: s[q] / 128 == 1,
        }),
        s[3] % 2 == 0 ==> assoc_at(s, q) == (PropertyAssociation {
            index: (s[q] % 128) as u16,
            essential: s[q] / 128 == 1,
        }),
{
    assert(ipma_start(s, j + 1) == ipma_start(s, j) + crate::iprp_read::id_len(s) + 1 + s[ipma_start(
        s,
        j,
    ) + crate::iprp_read::id_len(s)] * crate::iprp_read::assoc_len(s)) by {
        assert((j + 1 - 1) as nat == j);
    }
}

/// A key stands as its length, its namespace and its name, the first one behind version,
/// flags and the number of keys.
pub proof fn law_key_layout(s: Seq<u8>, j: nat)
    requires
        s.len() >= 8,
        j < u32_at(s, 4),
    ensures
        keys_of(s).len() == u32_at(s, 4),
        key_start(s, 0) == 8,
        ({
            let p = key_start(s, j);
            let size = u32_at(s, p);
            &&& key_start(s, j + 1) == p + size
            &&& keys_of(s)[j as int] == (decode_utf8(s.subrange(p + 8, p + size)), code_at(s, p + 4))
        }),
{
    assert((j + 1 - 1) as nat == j);
}

/// A value stands in a `data` atom: its type, four bytes of locale, and the value.
pub proof fn law_value_layout(s: Seq<u8>)
    requires
        16 <= s.len() <= 0xffff_ffff,
        u32_at(s, 0) == s.len(),
        spells(code_at(s, 4), "data"),
    ensures
        first_data(s, 0) == Some((u32_at(s, 8), s.subrange(16, s.len() as int))),
{
    reveal_strlit("data");
    assert(code_at(s, 4) =~= DATA);
}

/// A `kind` body is version and flags, the scheme, a zero byte, the value and a zero byte.
/// An empty value is none.
pub proof fn law_kind_layout(scheme: Seq<char>, value: Seq<char>)
    requires
        !utf8(scheme).contains(0u8),
        !utf8(value).contains(0u8),
    ensures
        kind_of(zeros(4) + utf8(scheme) + seq![0u8] + utf8(value) + seq![0u8]) == Ok::<
            KindModel,
            Error,
        >(
            KindModel {
                scheme_uri: scheme,
                value: if utf8(value).len() == 0 {
                    None
                } else {
                    Some(value)
                },
            },
        ),
{
    let a = utf8(scheme);
    let b = utf8(value);
    let s = zeros(4) + a + seq![0u8] + b + seq![0u8];
    let end = 4 + a.len() as int;
    assert forall|i: int| 4 <= i < end implies s[i] != 0 by {
        assert(a[i - 4] == s[i]);
    }
    lemma_text_end_is(s, 4, end);
    assert(s.subrange(4, end) =~= a);
    let last = end + 1 + b.len();
    assert forall|i: int| end + 1 <= i < last implies s[i] != 0 by {
        assert(b[i - end - 1] == s[i]);
    }
    lemma_text_end_is(s, end + 1, last);
    assert(s.subrange(end + 1, last) =~= b);
    lemma_text_of_utf8(scheme);
    lemma_text_of_utf8(value);
}

/// These texts stand in front, one behind the other, each ended by a zero byte.
pub open spec fn starts_with_texts(s: Seq<u8>, a: Seq<char>, b: Seq<char>) -> bool {
    let n = utf8(a).len() as int;
    let m = utf8(b).len() as int;
    &&& n + m + 2 <= s.len()
    &&& s.subrange(0, n) == utf8(a)
    &&& s[n] == 0
    &&& s.subrange(n + 1, n + 1 + m) == utf8(b)
    &&& s[n + 1 + m] == 0
}

proof fn lemma_two_texts(a: Seq<char>, b: Seq<char>, rest: Seq<u8>)
    ensures
        starts_with_texts(utf8(a) + seq![0u8] + (utf8(b) + seq![0u8]) + rest, a, b),
{
    let s = utf8(a) + seq![0u8] + (utf8(b) + seq![0u8]) + rest;
    let n = utf8(a).len() as int;
    let m = utf8(b).len() as int;
    assert(s.subrange(0, n) =~= utf8(a));
    assert(s.subrange(n + 1, n + 1 + m) =~= utf8(b));
}

/// A metadata sample entry of XML starts with the content encoding and the namespace, one
/// of text with the content encoding and the format.
pub proof fn law_metadata_entry_texts(e: MetadataSampleEntry)
    ensures
        e matches MetadataSampleEntry::Xml(x) ==> starts_with_texts(
            metadata_entry_body(e),
            x.content_encoding@,
            x.namespace@,
        ),
        e matches MetadataSampleEntry::Text(x) ==> starts_with_texts(
            metadata_entry_body(e),
            x.content_encoding@,
            x.mime_format@,
        ),
{
    let s = metadata_entry_body(e);
    match e {
        MetadataSampleEntry::Xml(x) => {
            let front = crate::sample_entry::ended_text(x.content_encoding@)
                + crate::sample_entry::ended_text(x.namespace@);
            let rest = tail(s, front.len() as int);
            assert(s =~= front + rest);
            lemma_two_texts(x.content_encoding@, x.namespace@, rest);
        },
        MetadataSampleEntry::Text(x) => {
            let front = crate::sample_entry::ended_text(x.content_encoding@)
                + crate::sample_entry::ended_text(x.mime_format@);
            let rest = tail(s, front.len() as int);
            assert(s =~= front + rest);
            lemma_two_texts(x.content_encoding@, x.mime_format@, rest);
        },
        MetadataSampleEntry::Uri(_) => {},
    }
}

/// A subtitle sample entry of XML starts with the namespace and the schema location, one of
/// text with the content encoding and the format.
pub proof fn law_subtitle_entry_texts(e: SubtitleSampleEntry)
    ensures
        e matches SubtitleSampleEntry::Xml(x) ==> starts_with_texts(
            subtitle_entry_body(e),
            x.namespace@,
            x.schema_location@,
        ),
        e matches SubtitleSampleEntry::Text(x) ==> starts_with_texts(
            subtitle_entry_body(e),
            x.content_encoding@,
            x.mime_format@,
        ),
{
    let s = subtitle_entry_body(e);
    match e {
        SubtitleSampleEntry::Xml(x) => {
            let front = crate::sample_entry::ended_text(x.namespace@)
                + crate::sample_entry::ended_text(x.schema_location@);
            let rest = tail(s, front.len() as int);
            assert(s =~= front + rest);
            lemma_two_texts(x.namespace@, x.schema_location@, rest);
        },
        SubtitleSampleEntry::Text(x) => {
            let front = crate::sample_entry::ended_text(x.content_encoding@)
                + crate::sample_entry::ended_text(x.mime_format@);
            let rest = tail(s, front.len() as int);
            assert(s =~= front + rest);
            lemma_two_texts(x.content_encoding@, x.mime_format@, rest);
        },
    }
}

/// A compressed movie resource is a box with the algorithm, and a box with the length that
/// the resource had and the stream.
pub proof fn law_compressed_resource_layout(m: CmovModel)
    requires
        m.data.len() <= 0xffff_0000,
    ensures
        ({
            let s = cmov_body(m);
            &&& first_box(s, DCOM) == Some(m.algorithm@)
            &&& first_box(s, CMVD) is Some
            &&& u32_at(inside(s, CMVD), 0) == m.uncompressed_size
            &&& tail(inside(s, CMVD), 4) == m.data
        }),
{
    broadcast use group_be_len;

    let b = u32_be(m.uncompressed_size) + m.data;
    let l = seq![(DCOM, Some(m.algorithm@)), (CMVD, Some(b))];
    lemma_boxes_2(l[0], l[1]);
    let s = cmov_body(m);
    assert(boxes(l) =~= s);
    assert(s + Seq::<u8>::empty() =~= s);
    lemma_atom_len(DCOM, m.algorithm@);
    lemma_atom_len(CMVD, b);
    assert(DCOM@[0] == 0x64u8 && CMVD@[0] == 0x63u8);
    lemma_passes_nothing(DCOM);
    lemma_passes_nothing(CMVD);
    lemma_boxes_found(l, Seq::empty(), 0);
    lemma_boxes_found(l, Seq::empty(), 1);
    assert(b.subrange(0, 4) =~= u32_be(m.uncompressed_size));
    lemma_u32_at(b, 0, m.uncompressed_size);
    assert(tail(b, 4) =~= m.data);
}

/// A record of a text in user data says its length, its language, and the text.
pub proof fn law_text_record_layout(language: u16, text: Seq<u8>)
    requires
        text.len() <= 0xffff,
    ensures
        text_record(language, text).len() == 4 + text.len(),
        u16_at(text_record(language, text), 0) == text.len(),
        u16_at(text_record(language, text), 2) == language,
        tail(text_record(language, text), 4) == text,
{
    broadcast use group_be_len;

    let r = text_record(language, text);
    assert(r.subrange(0, 2) =~= crate::bytes::u16_be(text.len() as u16));
    assert(r.subrange(2, 4) =~= crate::bytes::u16_be(language));
    crate::bytes::lemma_u16_at(r, 0, text.len() as u16);
    crate::bytes::lemma_u16_at(r, 2, language);
    assert(tail(r, 4) =~= text);
}

/// The header of a child is its length and its code. A length of 1 says that the length
/// stands in the next eight bytes, and a length of 0 that the child runs to the end. Any
/// other length that the header or the parent contradicts is refused.
pub proof fn law_child_layout(s: Seq<u8>, p: int)
    requires
        0 <= p,
        p + 8 <= s.len(),
    ensures
        ({
            let code = code_at(s, p + 4);
            let n = u32_at(s, p);
            &&& n == 0 ==> child_at(s, p) == Ok::<ChildModel, Error>(
                ChildModel { code, start: p + 8, end: s.len() as int, open: true },
            )
            &&& n >= 8 && p + n <= s.len() ==> child_at(s, p) == Ok::<ChildModel, Error>(
                ChildModel { code, start: p + 8, end: p + n, open: false },
            )
            &&& n == 1 && p + 16 <= s.len() && u64_at(s, p + 8) >= 16 && p + u64_at(s, p + 8)
                <= s.len() ==> child_at(s, p) == Ok::<ChildModel, Error>(
                ChildModel { code, start: p + 16, end: p + u64_at(s, p + 8), open: false },
            )
            &&& 1 < n < 8 || (n >= 8 && p + n > s.len()) ==> child_at(s, p) is Err
            &&& n == 1 && (p + 16 > s.len() || u64_at(s, p + 8) < 16 || p + u64_at(s, p + 8)
                > s.len()) ==> child_at(s, p) is Err
        }),
{
}

/// A layer stands in two bytes.
pub proof fn law_layer_layout(l: crate::heif_item::LayerSelector)
    ensures
        property_body(HeifPropertyModel::Lsel(l)).len() == 2,
        u16_at(property_body(HeifPropertyModel::Lsel(l)), 0) == l.layer_id,
{
    broadcast use group_be_len;

    let b = property_body(HeifPropertyModel::Lsel(l));
    assert(b.subrange(0, 2) =~= crate::bytes::u16_be(l.layer_id));
    crate::bytes::lemma_u16_at(b, 0, l.layer_id);
}

/// Ambient light stands as the illuminance and the two coordinates, behind version and
/// flags.
pub proof fn law_ambient_light_layout(a: crate::heif_item::Amve)
    ensures
        ({
            let b = property_body(HeifPropertyModel::Amve(a));
            &&& b.len() == 12
            &&& u32_at(b, 0) == 0
            &&& u32_at(b, 4) == a.ambient_illuminance
            &&& u16_at(b, 8) == a.ambient_light_x
            &&& u16_at(b, 10) == a.ambient_light_y
        }),
{
    broadcast use group_be_len;

    let b = property_body(HeifPropertyModel::Amve(a));
    assert(b.subrange(0, 4) =~= u32_be(0));
    assert(b.subrange(4, 8) =~= u32_be(a.ambient_illuminance));
    assert(b.subrange(8, 10) =~= crate::bytes::u16_be(a.ambient_light_x));
    assert(b.subrange(10, 12) =~= crate::bytes::u16_be(a.ambient_light_y));
    lemma_u32_at(b, 0, 0);
    lemma_u32_at(b, 4, a.ambient_illuminance);
    crate::bytes::lemma_u16_at(b, 8, a.ambient_light_x);
    crate::bytes::lemma_u16_at(b, 10, a.ambient_light_y);
}

} // verus!
