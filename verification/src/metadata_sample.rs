//! Sample entries of timed metadata (`metx`, `mett`, `urim`), subtitles (`stpp`,
//! `sbtt`) and timed text (`stxt`).
//!
//! The body of such an entry is a number of texts, each ended by a zero byte,
//! and then boxes. Texts may be left out at the end, so that where the boxes
//! start is told by what looks like a box.
use crate::atom::{Child, ChildModel};
use crate::bytes::{code_at, read_code, read_u32, same_code, u32_at};
use crate::error::Error;
use crate::fourcc::{BTRT, METT, METX, SBTT, STPP, TXTC, URI, URIM, URI_INIT};
use crate::text::{decode_lossy, find_text_end, next_text, text_end, text_of};
use vstd::prelude::*;
use vstd::slice::slice_to_vec;

verus! {

/// Bit rates of a stream (`btrt`).
#[derive(Clone, Copy, Debug, Default, PartialEq, Eq)]
pub struct BitRate {
    /// Size of the decoding buffer in bytes.
    pub buffer_size_db: u32,
    /// Greatest rate in bits per second.
    pub max_bitrate: u32,
    /// Average rate in bits per second.
    pub avg_bitrate: u32,
}

/// The bit rates in the first twelve bytes.
pub open spec fn btrt_of(s: Seq<u8>) -> BitRate {
    BitRate {
        buffer_size_db: u32_at(s, 0),
        max_bitrate: u32_at(s, 4),
        avg_bitrate: u32_at(s, 8),
    }
}

/// Parse the body of a `btrt` box (12 bytes; more are ignored).
pub fn parse_btrt(payload: &[u8]) -> (r: Result<BitRate, Error>)
    ensures
        r == (if payload@.len() < 12 {
            Err(Error::Rule("MOV: btrt payload < 12 bytes"))
        } else {
            Ok(btrt_of(payload@))
        }),
{
    if payload.len() < 12 {
        return Err(Error::Rule("MOV: btrt payload < 12 bytes"));
    }
    Ok(
        BitRate {
            buffer_size_db: read_u32(payload, 0),
            max_bitrate: read_u32(payload, 4),
            avg_bitrate: read_u32(payload, 8),
        },
    )
}

/// A sample entry of timed metadata.
#[derive(Clone, Debug, PartialEq, Eq)]
pub enum MetadataSampleEntry {
    /// `metx`
    Xml(XmlMetadataSampleEntry),
    /// `mett`
    Text(TextMetadataSampleEntry),
    /// `urim`
    Uri(UriMetadataSampleEntry),
}

/// XML metadata (`metx`).
#[derive(Clone, Debug, Default, PartialEq, Eq)]
pub struct XmlMetadataSampleEntry {
    /// How the metadata is encoded; empty if it is not.
    pub content_encoding: String,
    /// Namespaces, with spaces between them.
    pub namespace: String,
    /// URLs of schemas, with spaces between them; may be empty.
    pub schema_location: String,
    pub bitrate: Option<BitRate>,
}

/// Text metadata (`mett`).
#[derive(Clone, Debug, Default, PartialEq, Eq)]
pub struct TextMetadataSampleEntry {
    /// How the metadata is encoded; empty if it is not.
    pub content_encoding: String,
    /// The MIME type of the samples.
    pub mime_format: String,
    /// Text in front of each sync sample.
    pub text_config: Option<String>,
    pub bitrate: Option<BitRate>,
}

/// Metadata that a URI identifies (`urim`).
#[derive(Clone, Debug, Default, PartialEq, Eq)]
pub struct UriMetadataSampleEntry {
    pub the_uri: String,
    /// Initialization data.
    pub init: Option<Vec<u8>>,
    pub bitrate: Option<BitRate>,
}

/// A sample entry of subtitles.
#[derive(Clone, Debug, PartialEq, Eq)]
pub enum SubtitleSampleEntry {
    /// `stpp`
    Xml(XmlSubtitleSampleEntry),
    /// `sbtt`
    Text(TextSubtitleSampleEntry),
}

/// XML subtitles (`stpp`).
#[derive(Clone, Debug, Default, PartialEq, Eq)]
pub struct XmlSubtitleSampleEntry {
    /// Namespaces, with spaces between them.
    pub namespace: String,
    /// URLs of schemas, with spaces between them; may be empty.
    pub schema_location: String,
    /// MIME types of images and fonts; may be empty.
    pub auxiliary_mime_types: String,
    pub bitrate: Option<BitRate>,
}

/// Text subtitles (`sbtt`).
#[derive(Clone, Debug, Default, PartialEq, Eq)]
pub struct TextSubtitleSampleEntry {
    /// How the subtitles are encoded; empty if they are not.
    pub content_encoding: String,
    /// The MIME type of the samples.
    pub mime_format: String,
    /// Text in front of each sync sample.
    pub text_config: Option<String>,
    pub bitrate: Option<BitRate>,
}

/// Timed text (`stxt`).
#[derive(Clone, Debug, Default, PartialEq, Eq)]
pub struct SimpleTextSampleEntry {
    /// How the text is encoded; empty if it is not.
    pub content_encoding: String,
    /// The MIME type of the samples.
    pub mime_format: String,
    /// Text in front of each sync sample.
    pub text_config: Option<String>,
    pub bitrate: Option<BitRate>,
}

impl MetadataSampleEntry {
    /// The bit rates.
    pub fn bitrate(&self) -> (r: Option<BitRate>)
        ensures
            r == (match *self {
                MetadataSampleEntry::Xml(e) => e.bitrate,
                MetadataSampleEntry::Text(e) => e.bitrate,
                MetadataSampleEntry::Uri(e) => e.bitrate,
            }),
    {
        match self {
            MetadataSampleEntry::Xml(e) => e.bitrate,
            MetadataSampleEntry::Text(e) => e.bitrate,
            MetadataSampleEntry::Uri(e) => e.bitrate,
        }
    }
}

impl SubtitleSampleEntry {
    /// The bit rates.
    pub fn bitrate(&self) -> (r: Option<BitRate>)
        ensures
            r == (match *self {
                SubtitleSampleEntry::Xml(e) => e.bitrate,
                SubtitleSampleEntry::Text(e) => e.bitrate,
            }),
    {
        match self {
            SubtitleSampleEntry::Xml(e) => e.bitrate,
            SubtitleSampleEntry::Text(e) => e.bitrate,
        }
    }
}

/// The byte is a printable ASCII character.
pub open spec fn printable(b: u8) -> bool {
    0x20 <= b <= 0x7e
}

/// What stands at `p` looks like a box: its length is possible and its code
/// printable.
pub open spec fn looks_like_box_at(s: Seq<u8>, p: int) -> bool {
    p + 8 <= s.len() && 8 <= u32_at(s, p) && p + u32_at(s, p) <= s.len() && printable(s[p + 4])
        && printable(s[p + 5]) && printable(s[p + 6]) && printable(s[p + 7])
}

fn looks_like_box(buf: &[u8], p: usize) -> (r: bool)
    requires
        p <= buf@.len(),
    ensures
        r == looks_like_box_at(buf@, p as int),
{
    if buf.len() - p < 8 {
        return false;
    }
    let size: u32 = read_u32(buf, p);
    if size < 8 || size as u64 > (buf.len() - p) as u64 {
        return false;
    }
    let code = read_code(buf, p + 4);
    0x20 <= code[0] && code[0] <= 0x7e && 0x20 <= code[1] && code[1] <= 0x7e && 0x20 <= code[2]
        && code[2] <= 0x7e && 0x20 <= code[3] && code[3] <= 0x7e
}

/// Where text `k` starts, counted from 0, if there are so many.
pub open spec fn text_start(s: Seq<u8>, k: nat) -> int
    decreases k,
{
    if k == 0 {
        0
    } else {
        next_text(s, text_start(s, (k - 1) as nat))
    }
}

/// Text `k`.
pub open spec fn text_at(s: Seq<u8>, k: nat) -> Seq<char> {
    text_of(s.subrange(text_start(s, k), text_end(s, text_start(s, k))))
}

/// How many texts there are before the boxes, if there are at most `limit`.
pub open spec fn text_count(s: Seq<u8>, limit: nat) -> nat
    decreases limit,
{
    if limit == 0 {
        0
    } else {
        let k = text_count(s, (limit - 1) as nat);
        if k == limit - 1 && text_start(s, k) < s.len() && !looks_like_box_at(
            s,
            text_start(s, k),
        ) {
            limit
        } else {
            k
        }
    }
}

proof fn lemma_text_count_stays(s: Seq<u8>, k: nat, limit: nat)
    requires
        k <= limit,
        text_count(s, k) == k,
        text_start(s, k) >= s.len() || looks_like_box_at(s, text_start(s, k)),
    ensures
        text_count(s, limit) == k,
    decreases limit,
{
    if k < limit {
        lemma_text_count_stays(s, k, (limit - 1) as nat);
    }
}

/// Read the texts before the boxes, and say where they end.
fn leading_texts(buf: &[u8], limit: usize) -> (r: (Vec<String>, usize))
    ensures
        r.0@.len() == text_count(buf@, limit as nat),
        forall|k: int| 0 <= k < r.0@.len() ==> (#[trigger] r.0@[k])@ == text_at(buf@, k as nat),
        r.1 == text_start(buf@, text_count(buf@, limit as nat)),
        r.1 <= buf@.len(),
        r.0@.len() <= limit,
{
    let mut texts: Vec<String> = Vec::new();
    let mut p: usize = 0;
    while p < buf.len() && texts.len() < limit && !looks_like_box(buf, p)
        invariant
            p <= buf@.len(),
            texts@.len() <= limit,
            p == text_start(buf@, texts@.len()),
            text_count(buf@, texts@.len()) == texts@.len(),
            forall|k: int|
                0 <= k < texts@.len() ==> (#[trigger] texts@[k])@ == text_at(buf@, k as nat),
        decreases limit - texts@.len(),
    {
        let end: usize = find_text_end(buf, p);
        let text = decode_lossy(&buf[p..end]);
        assert(text@ == text_at(buf@, texts@.len()));
        texts.push(text);
        p = if end < buf.len() {
            end + 1
        } else {
            end
        };
    }
    proof {
        if texts@.len() < limit {
            lemma_text_count_stays(buf@, texts@.len(), limit as nat);
        }
    }
    (texts, p)
}

/// The boxes from `p` on. A length of 0 means that a box runs to the end; the
/// walk ends at an impossible length.
pub open spec fn boxes_of(s: Seq<u8>, p: int) -> Seq<ChildModel>
    decreases s.len() - p,
{
    let size = u32_at(s, p);
    let code = code_at(s, p + 4);
    if p < 0 || p + 8 > s.len() {
        Seq::empty()
    } else if size == 0 {
        seq![ChildModel { code, start: p + 8, end: s.len() as int, open: true }]
    } else if size < 8 || p + size > s.len() {
        Seq::empty()
    } else {
        seq![ChildModel { code, start: p + 8, end: p + size, open: false }] + boxes_of(s, p + size)
    }
}

/// What a list of boxes holds.
pub open spec fn box_models(v: Seq<Child>) -> Seq<ChildModel> {
    Seq::new(v.len(), |i: int| v[i]@)
}

fn walk_boxes(buf: &[u8], from: usize) -> (r: Vec<Child>)
    requires
        from <= buf@.len(),
    ensures
        box_models(r@) == boxes_of(buf@, from as int),
        forall|i: int|
            0 <= i < r@.len() ==> (#[trigger] r@[i]).start <= r@[i].end && r@[i].end <= buf@.len(),
{
    let mut out: Vec<Child> = Vec::new();
    let mut p: usize = from;
    assert(box_models(out@) + boxes_of(buf@, p as int) =~= boxes_of(buf@, p as int));
    while buf.len() - p >= 8
        invariant_except_break
            p <= buf@.len(),
            boxes_of(buf@, from as int) == box_models(out@) + boxes_of(buf@, p as int),
        invariant
            forall|i: int|
                0 <= i < out@.len() ==> (#[trigger] out@[i]).start <= out@[i].end && out@[i].end
                    <= buf@.len(),
        ensures
            boxes_of(buf@, from as int) == box_models(out@),
        decreases buf@.len() - p,
    {
        let ghost had = box_models(out@);
        let size: u32 = read_u32(buf, p);
        let code = read_code(buf, p + 4);
        if size == 0 {
            let last = Child { code, start: p + 8, end: buf.len(), open: true };
            out.push(last);
            assert(box_models(out@) =~= had + seq![last@]);
            break;
        }
        if size < 8 || size as u64 > (buf.len() - p) as u64 {
            assert(had + Seq::<ChildModel>::empty() =~= had);
            break;
        }
        let end: usize = p + size as usize;
        let one = Child { code, start: p + 8, end, open: false };
        out.push(one);
        proof {
            assert(box_models(out@) =~= had + seq![one@]);
            let rest = boxes_of(buf@, end as int);
            assert(had + (seq![one@] + rest) =~= (had + seq![one@]) + rest);
            assert(box_models(out@) + Seq::<ChildModel>::empty() =~= box_models(out@));
        }
        p = end;
    }
    out
}

/// The last box with a code.
pub open spec fn last_box(boxes: Seq<ChildModel>, code: [u8; 4]) -> Option<ChildModel>
    decreases boxes.len(),
{
    if boxes.len() == 0 {
        None
    } else if boxes.last().code == code {
        Some(boxes.last())
    } else {
        last_box(boxes.drop_last(), code)
    }
}

fn find_last(boxes: &Vec<Child>, code: &[u8; 4]) -> (r: Option<usize>)
    ensures
        match last_box(box_models(boxes@), *code) {
            Some(b) => r is Some && r->Some_0 < boxes@.len() && boxes@[r->Some_0 as int]@ == b,
            None => r is None,
        },
{
    let ghost models = box_models(boxes@);
    let mut n: usize = boxes.len();
    assert(models.take(n as int) =~= models);
    while n > 0
        invariant
            n <= boxes@.len(),
            models == box_models(boxes@),
            last_box(models, *code) == last_box(models.take(n as int), *code),
        decreases n,
    {
        assert(models.take(n as int).drop_last() =~= models.take(n - 1));
        if same_code(&boxes[n - 1].code, code) {
            return Some(n - 1);
        }
        n = n - 1;
    }
    None
}

/// Some `btrt` box is too short.
pub open spec fn has_short_btrt(boxes: Seq<ChildModel>) -> bool {
    exists|i: int|
        0 <= i < boxes.len() && (#[trigger] boxes[i]).code == BTRT && boxes[i].end - boxes[i].start
            < 12
}

/// The bit rates in the last `btrt` box, if there is one; an error if any is too
/// short.
pub open spec fn bitrate_in(s: Seq<u8>, boxes: Seq<ChildModel>) -> Result<Option<BitRate>, Error> {
    if has_short_btrt(boxes) {
        Err(Error::Rule("MOV: btrt payload < 12 bytes"))
    } else {
        match last_box(boxes, BTRT) {
            Some(b) => Ok(Some(btrt_of(s.subrange(b.start, b.end)))),
            None => Ok(None),
        }
    }
}

fn bitrate_of(buf: &[u8], boxes: &Vec<Child>) -> (r: Result<Option<BitRate>, Error>)
    requires
        forall|i: int|
            0 <= i < boxes@.len() ==> (#[trigger] boxes@[i]).start <= boxes@[i].end && boxes@[i].end
                <= buf@.len(),
    ensures
        r == bitrate_in(buf@, box_models(boxes@)),
{
    let ghost models = box_models(boxes@);
    for i in 0..boxes.len()
        invariant
            models == box_models(boxes@),
            forall|i: int|
                0 <= i < boxes@.len() ==> (#[trigger] boxes@[i]).start <= boxes@[i].end
                    && boxes@[i].end <= buf@.len(),
            forall|j: int|
                0 <= j < i ==> !((#[trigger] models[j]).code == BTRT && models[j].end
                    - models[j].start < 12),
    {
        if same_code(&boxes[i].code, &BTRT) && boxes[i].end - boxes[i].start < 12 {
            assert(models[i as int].code == BTRT);
            return Err(Error::Rule("MOV: btrt payload < 12 bytes"));
        }
    }
    match find_last(boxes, &BTRT) {
        Some(k) => {
            assert(models[k as int].code == BTRT) by {
                lemma_last_box_code(models, BTRT);
            }
            assert(!has_short_btrt(models));
            let rate = parse_btrt(&buf[boxes[k].start..boxes[k].end])?;
            Ok(Some(rate))
        },
        None => Ok(None),
    }
}

proof fn lemma_last_box_code(boxes: Seq<ChildModel>, code: [u8; 4])
    ensures
        last_box(boxes, code) matches Some(b) ==> b.code == code,
    decreases boxes.len(),
{
    if boxes.len() > 0 {
        lemma_last_box_code(boxes.drop_last(), code);
    }
}

/// The text in a box: behind version and flags, up to the first zero byte, or
/// to the end. A box without room for version and flags holds no text.
pub open spec fn full_box_text(s: Seq<u8>) -> Seq<char> {
    if s.len() < 4 {
        Seq::empty()
    } else {
        text_of(s.subrange(4, text_end(s, 4)))
    }
}

fn parse_fullbox_string(payload: &[u8]) -> (r: String)
    ensures
        r@ == full_box_text(payload@),
{
    if payload.len() < 4 {
        return String::new();
    }
    let end: usize = find_text_end(payload, 4);
    decode_lossy(&payload[4..end])
}

/// The text in the last box with a code, if there is one.
pub open spec fn text_in(s: Seq<u8>, boxes: Seq<ChildModel>, code: [u8; 4]) -> Option<Seq<char>> {
    match last_box(boxes, code) {
        Some(b) => Some(full_box_text(s.subrange(b.start, b.end))),
        None => None,
    }
}

/// What an optional text holds.
pub open spec fn text_model(t: Option<String>) -> Option<Seq<char>> {
    match t {
        Some(s) => Some(s@),
        None => None,
    }
}

fn text_config_of(buf: &[u8], boxes: &Vec<Child>) -> (r: Option<String>)
    requires
        forall|i: int|
            0 <= i < boxes@.len() ==> (#[trigger] boxes@[i]).start <= boxes@[i].end && boxes@[i].end
                <= buf@.len(),
    ensures
        text_model(r) == text_in(buf@, box_models(boxes@), TXTC),
{
    match find_last(boxes, &TXTC) {
        Some(k) => Some(parse_fullbox_string(&buf[boxes[k].start..boxes[k].end])),
        None => None,
    }
}

/// Where the boxes start behind at most `limit` texts.
pub open spec fn boxes_start(s: Seq<u8>, limit: nat) -> int {
    text_start(s, text_count(s, limit))
}

/// The boxes behind at most `limit` texts.
pub open spec fn boxes_behind(s: Seq<u8>, limit: nat) -> Seq<ChildModel> {
    boxes_of(s, boxes_start(s, limit))
}

/// Text `k` if there are more than `k` texts, else the empty text.
pub open spec fn text_or_empty(s: Seq<u8>, limit: nat, k: nat) -> Seq<char> {
    if k < text_count(s, limit) {
        text_at(s, k)
    } else {
        Seq::empty()
    }
}

/// What a `metx` body holds: one text is the namespace, two are content encoding
/// and namespace, three are content encoding, namespace and schema location.
pub open spec fn is_metx(s: Seq<u8>, e: XmlMetadataSampleEntry) -> bool {
    let n = text_count(s, 3);
    &&& e.content_encoding@ == (if n >= 2 {
        text_at(s, 0)
    } else {
        Seq::empty()
    })
    &&& e.namespace@ == (if n >= 2 {
        text_at(s, 1)
    } else if n == 1 {
        text_at(s, 0)
    } else {
        Seq::empty()
    })
    &&& e.schema_location@ == (if n >= 3 {
        text_at(s, 2)
    } else {
        Seq::empty()
    })
    &&& bitrate_in(s, boxes_behind(s, 3)) == Ok::<Option<BitRate>, Error>(e.bitrate)
}

/// Parse the body of a `metx` entry.
pub fn parse_metx(body: &[u8]) -> (r: Result<XmlMetadataSampleEntry, Error>)
    ensures
        match bitrate_in(body@, boxes_behind(body@, 3)) {
            Ok(_) => r is Ok && is_metx(body@, r->Ok_0),
            Err(e) => r == Err::<XmlMetadataSampleEntry, Error>(e),
        },
{
    let (mut texts, p) = leading_texts(body, 3);
    let n: usize = texts.len();
    let mut content_encoding = String::new();
    let mut namespace = String::new();
    let mut schema_location = String::new();
    if n >= 3 {
        if let Some(t) = texts.pop() {
            schema_location = t;
        }
    }
    if n >= 1 {
        if let Some(t) = texts.pop() {
            namespace = t;
        }
    }
    if n >= 2 {
        if let Some(t) = texts.pop() {
            content_encoding = t;
        }
    }
    let boxes = walk_boxes(body, p);
    let bitrate = bitrate_of(body, &boxes)?;
    Ok(XmlMetadataSampleEntry { content_encoding, namespace, schema_location, bitrate })
}

/// What the texts and boxes of a text entry (`mett`, `sbtt`) hold: one text is
/// the MIME type, two are content encoding and MIME type.
pub open spec fn is_text_entry(
    s: Seq<u8>,
    content_encoding: Seq<char>,
    mime_format: Seq<char>,
    text_config: Option<Seq<char>>,
    bitrate: Option<BitRate>,
) -> bool {
    let n = text_count(s, 2);
    &&& content_encoding == (if n >= 2 {
        text_at(s, 0)
    } else {
        Seq::empty()
    })
    &&& mime_format == (if n >= 2 {
        text_at(s, 1)
    } else if n == 1 {
        text_at(s, 0)
    } else {
        Seq::empty()
    })
    &&& text_config == text_in(s, boxes_behind(s, 2), TXTC)
    &&& bitrate_in(s, boxes_behind(s, 2)) == Ok::<Option<BitRate>, Error>(bitrate)
}

/// Parse the body of a `mett` entry.
pub fn parse_mett(body: &[u8]) -> (r: Result<TextMetadataSampleEntry, Error>)
    ensures
        match bitrate_in(body@, boxes_behind(body@, 2)) {
            Ok(_) => r is Ok && is_text_entry(
                body@,
                r->Ok_0.content_encoding@,
                r->Ok_0.mime_format@,
                text_model(r->Ok_0.text_config),
                r->Ok_0.bitrate,
            ),
            Err(e) => r == Err::<TextMetadataSampleEntry, Error>(e),
        },
{
    let (mut texts, p) = leading_texts(body, 2);
    let n: usize = texts.len();
    let mut content_encoding = String::new();
    let mut mime_format = String::new();
    if n >= 1 {
        if let Some(t) = texts.pop() {
            mime_format = t;
        }
    }
    if n >= 2 {
        if let Some(t) = texts.pop() {
            content_encoding = t;
        }
    }
    let boxes = walk_boxes(body, p);
    let bitrate = bitrate_of(body, &boxes)?;
    let text_config = text_config_of(body, &boxes);
    Ok(TextMetadataSampleEntry { content_encoding, mime_format, text_config, bitrate })
}

/// What an optional byte sequence holds.
pub open spec fn bytes_model(b: Option<Vec<u8>>) -> Option<Seq<u8>> {
    match b {
        Some(v) => Some(v@),
        None => None,
    }
}

/// What a `urim` body holds: the text of the last `uri ` box, and behind version
/// and flags the bytes of the last `uriI` box.
pub open spec fn is_urim(s: Seq<u8>, e: UriMetadataSampleEntry) -> bool {
    let boxes = boxes_of(s, 0);
    &&& e.the_uri@ == (match text_in(s, boxes, URI) {
        Some(t) => t,
        None => Seq::empty(),
    })
    &&& bytes_model(e.init) == (match last_box(boxes, URI_INIT) {
        Some(b) => Some(
            if b.end - b.start >= 4 {
                s.subrange(b.start + 4, b.end)
            } else {
                Seq::empty()
            },
        ),
        None => None,
    })
    &&& bitrate_in(s, boxes) == Ok::<Option<BitRate>, Error>(e.bitrate)
}

/// Parse the body of a `urim` entry.
pub fn parse_urim(body: &[u8]) -> (r: Result<UriMetadataSampleEntry, Error>)
    ensures
        match bitrate_in(body@, boxes_of(body@, 0)) {
            Ok(_) => r is Ok && is_urim(body@, r->Ok_0),
            Err(e) => r == Err::<UriMetadataSampleEntry, Error>(e),
        },
{
    let boxes = walk_boxes(body, 0);
    let bitrate = bitrate_of(body, &boxes)?;
    let the_uri = match find_last(&boxes, &URI) {
        Some(k) => parse_fullbox_string(&body[boxes[k].start..boxes[k].end]),
        None => String::new(),
    };
    let init = match find_last(&boxes, &URI_INIT) {
        Some(k) => {
            if boxes[k].end - boxes[k].start >= 4 {
                Some(slice_to_vec(&body[boxes[k].start + 4..boxes[k].end]))
            } else {
                Some(Vec::new())
            }
        },
        None => None,
    };
    assert(bytes_model(init) == (match last_box(box_models(boxes@), URI_INIT) {
        Some(b) => Some(
            if b.end - b.start >= 4 {
                body@.subrange(b.start + 4, b.end)
            } else {
                Seq::empty()
            },
        ),
        None => None,
    }));
    Ok(UriMetadataSampleEntry { the_uri, init, bitrate })
}

/// What a metadata sample entry with a format holds.
pub open spec fn is_metadata_entry(
    format: [u8; 4],
    s: Seq<u8>,
    r: Result<Option<MetadataSampleEntry>, Error>,
) -> bool {
    if format == METX {
        match bitrate_in(s, boxes_behind(s, 3)) {
            Err(e) => r == Err::<Option<MetadataSampleEntry>, Error>(e),
            Ok(_) => r matches Ok(Some(MetadataSampleEntry::Xml(e))) && is_metx(s, e),
        }
    } else if format == METT {
        match bitrate_in(s, boxes_behind(s, 2)) {
            Err(e) => r == Err::<Option<MetadataSampleEntry>, Error>(e),
            Ok(_) => r matches Ok(Some(MetadataSampleEntry::Text(e))) && is_text_entry(
                s,
                e.content_encoding@,
                e.mime_format@,
                text_model(e.text_config),
                e.bitrate,
            ),
        }
    } else if format == URIM {
        match bitrate_in(s, boxes_of(s, 0)) {
            Err(e) => r == Err::<Option<MetadataSampleEntry>, Error>(e),
            Ok(_) => r matches Ok(Some(MetadataSampleEntry::Uri(e))) && is_urim(s, e),
        }
    } else {
        r == Ok::<Option<MetadataSampleEntry>, Error>(None)
    }
}

/// Parse the body of a metadata sample entry by its format; `None` for a format
/// that is not one of metadata.
pub fn parse_metadata_sample_entry(format: &[u8; 4], body: &[u8]) -> (r: Result<
    Option<MetadataSampleEntry>,
    Error,
>)
    ensures
        is_metadata_entry(*format, body@, r),
{
    if same_code(format, &METX) {
        Ok(Some(MetadataSampleEntry::Xml(parse_metx(body)?)))
    } else if same_code(format, &METT) {
        Ok(Some(MetadataSampleEntry::Text(parse_mett(body)?)))
    } else if same_code(format, &URIM) {
        Ok(Some(MetadataSampleEntry::Uri(parse_urim(body)?)))
    } else {
        Ok(None)
    }
}

/// What a `stpp` body holds: namespace, schema location and auxiliary MIME
/// types, as many as there are.
pub open spec fn is_stpp(s: Seq<u8>, e: XmlSubtitleSampleEntry) -> bool {
    &&& e.namespace@ == text_or_empty(s, 3, 0)
    &&& e.schema_location@ == text_or_empty(s, 3, 1)
    &&& e.auxiliary_mime_types@ == text_or_empty(s, 3, 2)
    &&& bitrate_in(s, boxes_behind(s, 3)) == Ok::<Option<BitRate>, Error>(e.bitrate)
}

/// Parse the body of a `stpp` entry.
pub fn parse_stpp(body: &[u8]) -> (r: Result<XmlSubtitleSampleEntry, Error>)
    ensures
        match bitrate_in(body@, boxes_behind(body@, 3)) {
            Ok(_) => r is Ok && is_stpp(body@, r->Ok_0),
            Err(e) => r == Err::<XmlSubtitleSampleEntry, Error>(e),
        },
{
    let (mut texts, p) = leading_texts(body, 3);
    let n: usize = texts.len();
    let mut namespace = String::new();
    let mut schema_location = String::new();
    let mut auxiliary_mime_types = String::new();
    if n >= 3 {
        if let Some(t) = texts.pop() {
            auxiliary_mime_types = t;
        }
    }
    if n >= 2 {
        if let Some(t) = texts.pop() {
            schema_location = t;
        }
    }
    if n >= 1 {
        if let Some(t) = texts.pop() {
            namespace = t;
        }
    }
    let boxes = walk_boxes(body, p);
    let bitrate = bitrate_of(body, &boxes)?;
    Ok(XmlSubtitleSampleEntry { namespace, schema_location, auxiliary_mime_types, bitrate })
}

/// Parse the body of a `sbtt` entry.
pub fn parse_sbtt(body: &[u8]) -> (r: Result<TextSubtitleSampleEntry, Error>)
    ensures
        match bitrate_in(body@, boxes_behind(body@, 2)) {
            Ok(_) => r is Ok && is_text_entry(
                body@,
                r->Ok_0.content_encoding@,
                r->Ok_0.mime_format@,
                text_model(r->Ok_0.text_config),
                r->Ok_0.bitrate,
            ),
            Err(e) => r == Err::<TextSubtitleSampleEntry, Error>(e),
        },
{
    let entry = parse_mett(body)?;
    Ok(
        TextSubtitleSampleEntry {
            content_encoding: entry.content_encoding,
            mime_format: entry.mime_format,
            text_config: entry.text_config,
            bitrate: entry.bitrate,
        },
    )
}

/// What a subtitle sample entry with a format holds.
pub open spec fn is_subtitle_entry(
    format: [u8; 4],
    s: Seq<u8>,
    r: Result<Option<SubtitleSampleEntry>, Error>,
) -> bool {
    if format == STPP {
        match bitrate_in(s, boxes_behind(s, 3)) {
            Err(e) => r == Err::<Option<SubtitleSampleEntry>, Error>(e),
            Ok(_) => r matches Ok(Some(SubtitleSampleEntry::Xml(e))) && is_stpp(s, e),
        }
    } else if format == SBTT {
        match bitrate_in(s, boxes_behind(s, 2)) {
            Err(e) => r == Err::<Option<SubtitleSampleEntry>, Error>(e),
            Ok(_) => r matches Ok(Some(SubtitleSampleEntry::Text(e))) && is_text_entry(
                s,
                e.content_encoding@,
                e.mime_format@,
                text_model(e.text_config),
                e.bitrate,
            ),
        }
    } else {
        r == Ok::<Option<SubtitleSampleEntry>, Error>(None)
    }
}

/// Parse the body of a subtitle sample entry by its format; `None` for a format
/// that is not one of subtitles.
pub fn parse_subtitle_sample_entry(format: &[u8; 4], body: &[u8]) -> (r: Result<
    Option<SubtitleSampleEntry>,
    Error,
>)
    ensures
        is_subtitle_entry(*format, body@, r),
{
    if same_code(format, &STPP) {
        Ok(Some(SubtitleSampleEntry::Xml(parse_stpp(body)?)))
    } else if same_code(format, &SBTT) {
        Ok(Some(SubtitleSampleEntry::Text(parse_sbtt(body)?)))
    } else {
        Ok(None)
    }
}

} // verus!
