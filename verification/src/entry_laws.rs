//! What is written of sample entries is read back.
use crate::atom::{atom, lemma_atom_at, lemma_atom_len, ChildModel};
use crate::bytes::{group_be_len, lemma_u32_at, u32_be};
use crate::error::Error;
use crate::fourcc::{BTRT, TXTC, URI, URI_INIT};
use crate::metadata_sample::{
    bitrate_in, boxes_of, btrt_of, full_box_text, has_short_btrt, is_metx, is_stpp, is_text_entry,
    is_urim, last_box, looks_like_box_at, text_at, text_count, text_in, text_model, text_start,
    BitRate, MetadataSampleEntry, SubtitleSampleEntry, UriMetadataSampleEntry,
    XmlMetadataSampleEntry, XmlSubtitleSampleEntry,
};
use crate::sample_entry::{
    btrt_atom, ended_text, metadata_entry_body, subtitle_entry_body, text_entry_body, txtc_atom,
    uri_init_atom,
};
use crate::text::{lemma_text_end_is, lemma_text_of_utf8, next_text, text_end, text_of, utf8};
use vstd::prelude::*;

verus! {

/// A text that its zero byte ends.
pub open spec fn clean(t: Seq<char>) -> bool {
    !utf8(t).contains(0u8)
}

proof fn lemma_text_here(s: Seq<u8>, p: int, t: Seq<char>)
    requires
        clean(t),
        0 <= p,
        p + ended_text(t).len() <= s.len(),
        s.subrange(p, p + ended_text(t).len()) == ended_text(t),
    ensures
        text_of(s.subrange(p, text_end(s, p))) == t,
        next_text(s, p) == p + ended_text(t).len(),
{
    let b = utf8(t);
    let e = ended_text(t);
    let end = p + b.len();
    let here = s.subrange(p, p + e.len());
    assert forall|i: int| p <= i < end implies s[i] != 0 by {
        assert(here[i - p] == s[i]);
        assert(e[i - p] == b[i - p]);
    }
    assert(s[end] == 0) by {
        assert(here[b.len() as int] == s[end]);
    }
    lemma_text_end_is(s, p, end);
    assert(s.subrange(p, end) =~= b) by {
        assert forall|i: int| 0 <= i < b.len() implies s.subrange(p, end)[i] == b[i] by {
            assert(here[i] == e[i]);
        }
    }
    lemma_text_of_utf8(t);
}

/// The box that an atom is.
pub open spec fn box_at(p: int, code: [u8; 4], body: Seq<u8>) -> ChildModel {
    ChildModel { code, start: p + 8, end: p + 8 + body.len(), open: false }
}

proof fn lemma_box_here(s: Seq<u8>, p: int, code: [u8; 4], body: Seq<u8>)
    requires
        0 <= p,
        p + 8 + body.len() <= s.len(),
        s.subrange(p, p + 8 + body.len()) == atom(code, body),
        8 + body.len() <= 0xffff_ffff,
    ensures
        boxes_of(s, p) == seq![box_at(p, code, body)] + boxes_of(s, p + 8 + body.len()),
        s.subrange(p + 8, p + 8 + body.len()) == body,
{
    lemma_atom_at(s, p, code, body);
}

/// The body of a `btrt` box.
pub open spec fn btrt_body(b: BitRate) -> Seq<u8> {
    u32_be(b.buffer_size_db) + u32_be(b.max_bitrate) + u32_be(b.avg_bitrate)
}

proof fn lemma_btrt(b: BitRate)
    ensures
        btrt_body(b).len() == 12,
        btrt_of(btrt_body(b)) == b,
{
    broadcast use group_be_len;

    let s = btrt_body(b);
    assert(s.subrange(0, 4) =~= u32_be(b.buffer_size_db));
    assert(s.subrange(4, 8) =~= u32_be(b.max_bitrate));
    assert(s.subrange(8, 12) =~= u32_be(b.avg_bitrate));
    lemma_u32_at(s, 0, b.buffer_size_db);
    lemma_u32_at(s, 4, b.max_bitrate);
    lemma_u32_at(s, 8, b.avg_bitrate);
}

proof fn lemma_codes()
    ensures
        BTRT != TXTC && BTRT != URI && BTRT != URI_INIT && URI != URI_INIT && TXTC != URI,
{
    assert(BTRT@[0] == 0x62);
    assert(TXTC@[0] == 0x74);
    assert(URI@[0] == 0x75 && URI@[3] == 0x20);
    assert(URI_INIT@[0] == 0x75 && URI_INIT@[3] == 0x49);
}

/// The boxes of a `btrt` box that may be there.
pub open spec fn btrt_boxes(p: int, b: Option<BitRate>) -> Seq<ChildModel> {
    match b {
        Some(b) => seq![box_at(p, BTRT, btrt_body(b))],
        None => Seq::empty(),
    }
}

proof fn lemma_btrt_here(s: Seq<u8>, p: int, b: Option<BitRate>)
    requires
        0 <= p,
        p + btrt_atom(b).len() <= s.len(),
        s.subrange(p, p + btrt_atom(b).len()) == btrt_atom(b),
    ensures
        boxes_of(s, p) == btrt_boxes(p, b) + boxes_of(s, p + btrt_atom(b).len()),
        b matches Some(x) ==> s.subrange(p + 8, p + 20) == btrt_body(x),
{
    match b {
        Some(x) => {
            lemma_btrt(x);
            lemma_atom_len(BTRT, btrt_body(x));
            lemma_box_here(s, p, BTRT, btrt_body(x));
        },
        None => {
            assert(Seq::<ChildModel>::empty() + boxes_of(s, p) =~= boxes_of(s, p));
        },
    }
}

proof fn lemma_only_btrt(s: Seq<u8>, p: int, b: Option<BitRate>)
    requires
        0 <= p,
        p + btrt_atom(b).len() == s.len(),
        s.subrange(p, s.len() as int) == btrt_atom(b),
    ensures
        bitrate_in(s, boxes_of(s, p)) == Ok::<Option<BitRate>, Error>(b),
{
    reveal_with_fuel(last_box, 3);
    lemma_btrt_here(s, p, b);
    let boxes = btrt_boxes(p, b);
    assert(boxes + Seq::<ChildModel>::empty() =~= boxes);
    if let Some(x) = b {
        lemma_btrt(x);
        assert(boxes.last() == box_at(p, BTRT, btrt_body(x)));
    }
}

proof fn lemma_three_texts(
    s: Seq<u8>,
    a: Seq<char>,
    b: Seq<char>,
    c: Seq<char>,
    rest: Seq<u8>,
)
    requires
        s == ended_text(a) + ended_text(b) + ended_text(c) + rest,
        clean(a),
        clean(b),
        clean(c),
        !looks_like_box_at(s, 0),
        !looks_like_box_at(s, ended_text(a).len() as int),
        !looks_like_box_at(s, (ended_text(a) + ended_text(b)).len() as int),
    ensures
        text_count(s, 3) == 3,
        text_at(s, 0) == a,
        text_at(s, 1) == b,
        text_at(s, 2) == c,
        text_start(s, 3) == s.len() - rest.len(),
{
    reveal_with_fuel(text_start, 4);
    reveal_with_fuel(text_count, 4);
    let p = ended_text(a).len() as int;
    let q = p + ended_text(b).len();
    let r = q + ended_text(c).len();
    assert(s.subrange(0, p) =~= ended_text(a));
    assert(s.subrange(p, q) =~= ended_text(b));
    assert(s.subrange(q, r) =~= ended_text(c));
    lemma_text_here(s, 0, a);
    lemma_text_here(s, p, b);
    lemma_text_here(s, q, c);
}

/// An XML metadata entry is read back, unless one of its texts looks like a box.
pub proof fn law_metx_is_read_back(x: XmlMetadataSampleEntry)
    requires
        clean(x.content_encoding@),
        clean(x.namespace@),
        clean(x.schema_location@),
        ({
            let s = metadata_entry_body(MetadataSampleEntry::Xml(x));
            let a = ended_text(x.content_encoding@);
            let b = ended_text(x.namespace@);
            &&& !looks_like_box_at(s, 0)
            &&& !looks_like_box_at(s, a.len() as int)
            &&& !looks_like_box_at(s, (a + b).len() as int)
        }),
    ensures
        is_metx(metadata_entry_body(MetadataSampleEntry::Xml(x)), x),
{
    let s = metadata_entry_body(MetadataSampleEntry::Xml(x));
    let rest = btrt_atom(x.bitrate);
    lemma_three_texts(s, x.content_encoding@, x.namespace@, x.schema_location@, rest);
    let p = s.len() - rest.len();
    assert(s.subrange(p, s.len() as int) =~= rest);
    lemma_only_btrt(s, p, x.bitrate);
}

/// An XML subtitle entry is read back, unless one of its texts looks like a box.
pub proof fn law_stpp_is_read_back(x: XmlSubtitleSampleEntry)
    requires
        clean(x.namespace@),
        clean(x.schema_location@),
        clean(x.auxiliary_mime_types@),
        ({
            let s = subtitle_entry_body(SubtitleSampleEntry::Xml(x));
            let a = ended_text(x.namespace@);
            let b = ended_text(x.schema_location@);
            &&& !looks_like_box_at(s, 0)
            &&& !looks_like_box_at(s, a.len() as int)
            &&& !looks_like_box_at(s, (a + b).len() as int)
        }),
    ensures
        is_stpp(subtitle_entry_body(SubtitleSampleEntry::Xml(x)), x),
{
    let s = subtitle_entry_body(SubtitleSampleEntry::Xml(x));
    let rest = btrt_atom(x.bitrate);
    lemma_three_texts(s, x.namespace@, x.schema_location@, x.auxiliary_mime_types@, rest);
    let p = s.len() - rest.len();
    assert(s.subrange(p, s.len() as int) =~= rest);
    lemma_only_btrt(s, p, x.bitrate);
}

/// The body of a `txtC` or `uri ` box.
pub open spec fn full_text_body(t: Seq<char>) -> Seq<u8> {
    u32_be(0) + ended_text(t)
}

proof fn lemma_full_text(t: Seq<char>)
    requires
        clean(t),
    ensures
        full_box_text(full_text_body(t)) == t,
{
    broadcast use group_be_len;

    let s = full_text_body(t);
    assert(s.subrange(4, s.len() as int) =~= ended_text(t));
    lemma_text_here(s, 4, t);
}

proof fn lemma_two_texts(s: Seq<u8>, a: Seq<char>, b: Seq<char>, rest: Seq<u8>)
    requires
        s == ended_text(a) + ended_text(b) + rest,
        clean(a),
        clean(b),
        !looks_like_box_at(s, 0),
        !looks_like_box_at(s, ended_text(a).len() as int),
    ensures
        text_count(s, 2) == 2,
        text_at(s, 0) == a,
        text_at(s, 1) == b,
        text_start(s, 2) == s.len() - rest.len(),
{
    reveal_with_fuel(text_start, 3);
    reveal_with_fuel(text_count, 3);
    let p = ended_text(a).len() as int;
    let q = p + ended_text(b).len();
    assert(s.subrange(0, p) =~= ended_text(a));
    assert(s.subrange(p, q) =~= ended_text(b));
    lemma_text_here(s, 0, a);
    lemma_text_here(s, p, b);
}

/// The boxes of a `txtC` box that may be there.
pub open spec fn txtc_boxes(p: int, t: Option<String>) -> Seq<ChildModel> {
    match t {
        Some(t) => seq![box_at(p, TXTC, full_text_body(t@))],
        None => Seq::empty(),
    }
}

proof fn lemma_box_list(q: int, bitrate: Option<BitRate>, r: int, text_config: Option<String>)
    ensures
        ({
            let boxes = btrt_boxes(q, bitrate) + txtc_boxes(r, text_config);
            &&& !has_short_btrt(boxes)
            &&& last_box(boxes, BTRT) == (match bitrate {
                Some(x) => Some(box_at(q, BTRT, btrt_body(x))),
                None => None,
            })
            &&& last_box(boxes, TXTC) == (match text_config {
                Some(t) => Some(box_at(r, TXTC, full_text_body(t@))),
                None => None,
            })
        }),
{
    reveal_with_fuel(last_box, 4);
    lemma_codes();
    let first = btrt_boxes(q, bitrate);
    let second = txtc_boxes(r, text_config);
    let boxes = first + second;
    if let Some(x) = bitrate {
        lemma_btrt(x);
        assert(first.last() == box_at(q, BTRT, btrt_body(x)));
        assert(first.drop_last() =~= Seq::empty());
    }
    if text_config is Some {
        assert(boxes.last() == second[0]);
        assert(boxes.drop_last() =~= first);
    } else {
        assert(boxes =~= first);
    }
    assert forall|i: int| 0 <= i < boxes.len() implies !((#[trigger] boxes[i]).code == BTRT
        && boxes[i].end - boxes[i].start < 12) by {
        if i < first.len() {
            assert(boxes[i] == first[i]);
        } else {
            assert(boxes[i] == second[i - first.len()]);
        }
    }
}

proof fn lemma_txtc_here(s: Seq<u8>, p: int, t: Option<String>)
    requires
        t matches Some(x) ==> clean(x@) && full_text_body(x@).len() + 8 <= 0xffff_ffff,
        0 <= p,
        p + txtc_atom(t).len() == s.len(),
        s.subrange(p, s.len() as int) == txtc_atom(t),
    ensures
        boxes_of(s, p) == txtc_boxes(p, t),
        t matches Some(x) ==> s.subrange(p + 8, p + 8 + full_text_body(x@).len())
            == full_text_body(x@),
{
    if let Some(x) = t {
        lemma_atom_len(TXTC, full_text_body(x@));
        lemma_box_here(s, p, TXTC, full_text_body(x@));
        let one = txtc_boxes(p, t);
        assert(one + Seq::<ChildModel>::empty() =~= one);
    }
}

proof fn lemma_boxes_here(
    s: Seq<u8>,
    q: int,
    r: int,
    bitrate: Option<BitRate>,
    text_config: Option<String>,
)
    requires
        text_config matches Some(t) ==> clean(t@) && full_text_body(t@).len() + 8 <= 0xffff_ffff,
        0 <= q <= r <= s.len(),
        s.subrange(q, r) == btrt_atom(bitrate),
        s.subrange(r, s.len() as int) == txtc_atom(text_config),
    ensures
        bitrate_in(s, boxes_of(s, q)) == Ok::<Option<BitRate>, Error>(bitrate),
        text_in(s, boxes_of(s, q), TXTC) == text_model(text_config),
{
    lemma_btrt_here(s, q, bitrate);
    lemma_txtc_here(s, r, text_config);
    lemma_box_list(q, bitrate, r, text_config);
    if let Some(x) = bitrate {
        lemma_btrt(x);
    }
    if let Some(t) = text_config {
        lemma_full_text(t@);
    }
}

/// A text entry (`mett`, `sbtt` or `stxt`) is read back, unless one of its texts
/// looks like a box.
pub proof fn law_text_entry_is_read_back(
    content_encoding: Seq<char>,
    mime_format: Seq<char>,
    bitrate: Option<BitRate>,
    text_config: Option<String>,
)
    requires
        clean(content_encoding),
        clean(mime_format),
        text_config matches Some(t) ==> clean(t@) && full_text_body(t@).len() + 8 <= 0xffff_ffff,
        ({
            let s = text_entry_body(content_encoding, mime_format, bitrate, text_config);
            &&& !looks_like_box_at(s, 0)
            &&& !looks_like_box_at(s, ended_text(content_encoding).len() as int)
        }),
    ensures
        is_text_entry(
            text_entry_body(content_encoding, mime_format, bitrate, text_config),
            content_encoding,
            mime_format,
            text_model(text_config),
            bitrate,
        ),
{
    let s = text_entry_body(content_encoding, mime_format, bitrate, text_config);
    let c = btrt_atom(bitrate);
    let d = txtc_atom(text_config);
    assert(s =~= ended_text(content_encoding) + ended_text(mime_format) + (c + d));
    lemma_two_texts(s, content_encoding, mime_format, c + d);
    let q = s.len() - (c + d).len();
    let r = q + c.len();
    assert(s.subrange(q, r) =~= c);
    assert(s.subrange(r, s.len() as int) =~= d);
    lemma_boxes_here(s, q, r, bitrate, text_config);
}

/// A URI metadata entry is read back.
#[verifier::rlimit(40)]
pub proof fn law_urim_is_read_back(u: UriMetadataSampleEntry)
    requires
        clean(u.the_uri@),
        full_text_body(u.the_uri@).len() + 8 <= 0xffff_ffff,
        u.init matches Some(b) ==> b@.len() + 12 <= 0xffff_ffff,
    ensures
        is_urim(metadata_entry_body(MetadataSampleEntry::Uri(u)), u),
{
    broadcast use group_be_len;

    reveal_with_fuel(last_box, 5);
    lemma_codes();
    let s = metadata_entry_body(MetadataSampleEntry::Uri(u));
    let text = full_text_body(u.the_uri@);
    let a = atom(URI, text);
    let b = uri_init_atom(u.init);
    let c = btrt_atom(u.bitrate);
    lemma_atom_len(URI, text);
    lemma_full_text(u.the_uri@);
    let p = a.len() as int;
    let q = p + b.len();
    assert(s.subrange(0, p) =~= a);
    assert(s.subrange(p, q) =~= b);
    assert(s.subrange(q, s.len() as int) =~= c);
    lemma_box_here(s, 0, URI, text);
    let head = seq![box_at(0, URI, text)];
    let none = Seq::<ChildModel>::empty();
    let middle: Seq<ChildModel> = match u.init {
        Some(v) => seq![box_at(p, URI_INIT, u32_be(0) + v@)],
        None => none,
    };
    if let Some(v) = u.init {
        let body = u32_be(0) + v@;
        lemma_atom_len(URI_INIT, body);
        lemma_box_here(s, p, URI_INIT, body);
        assert(s.subrange(p + 12, p + 8 + body.len()) =~= v@) by {
            assert(body.subrange(4, body.len() as int) =~= v@);
            assert(s.subrange(p + 12, p + 8 + body.len()) =~= s.subrange(
                p + 8,
                p + 8 + body.len(),
            ).subrange(4, body.len() as int));
        }
    } else {
        assert(middle + boxes_of(s, q) =~= boxes_of(s, q));
    }
    lemma_btrt_here(s, q, u.bitrate);
    if let Some(x) = u.bitrate {
        lemma_btrt(x);
    }
    let last = btrt_boxes(q, u.bitrate);
    assert(boxes_of(s, s.len() as int) == none);
    assert(last + none =~= last);
    let boxes = boxes_of(s, 0);
    assert(boxes == head + (middle + last));
    if u.bitrate is Some {
        assert(boxes.last() == last[0]);
        assert(boxes.drop_last() =~= head + middle);
    } else {
        assert(boxes =~= head + middle);
    }
    if u.init is Some {
        assert((head + middle).last() == middle[0]);
        assert((head + middle).drop_last() =~= head);
    } else {
        assert(head + middle =~= head);
    }
    assert(head.last() == box_at(0, URI, text));
    assert(head.drop_last() =~= none);
    assert forall|i: int| 0 <= i < boxes.len() implies !((#[trigger] boxes[i]).code == BTRT
        && boxes[i].end - boxes[i].start < 12) by {
        if i == 0 {
            assert(boxes[i] == head[0]);
        } else if i < 1 + middle.len() {
            assert(boxes[i] == middle[i - 1]);
        } else {
            assert(boxes[i] == last[i - 1 - middle.len()]);
        }
    }
}

} // verus!
