//! Writing sample entries of timed metadata, subtitles and timed text.
use crate::atom::{atom, push_atom};
use crate::bytes::{empty_left, empty_right, put_bytes, put_u32, put_u8, u32_be};
use crate::fourcc::{BTRT, METT, METX, SBTT, STPP, TXTC, URI, URIM, URI_INIT};
use crate::metadata_sample::{
    BitRate, MetadataSampleEntry, SimpleTextSampleEntry, SubtitleSampleEntry,
};
use crate::text::utf8;
use vstd::prelude::*;

verus! {

/// A text and the zero byte that ends it.
pub open spec fn ended_text(t: Seq<char>) -> Seq<u8> {
    utf8(t) + seq![0u8]
}

/// Append a text and the zero byte that ends it.
pub fn put_ended_text(out: &mut Vec<u8>, t: &str)
    ensures
        final(out)@ == old(out)@ + ended_text(t@),
{
    put_bytes(out, t.as_bytes());
    put_u8(out, 0);
    assert(out@ =~= old(out)@ + ended_text(t@));
}

/// The `btrt` box of bit rates that may be there.
pub open spec fn btrt_atom(b: Option<BitRate>) -> Seq<u8> {
    match b {
        Some(b) => atom(
            BTRT,
            u32_be(b.buffer_size_db) + u32_be(b.max_bitrate) + u32_be(b.avg_bitrate),
        ),
        None => Seq::empty(),
    }
}

/// The `txtC` box of a text that may be there.
pub open spec fn txtc_atom(t: Option<String>) -> Seq<u8> {
    match t {
        Some(t) => atom(TXTC, u32_be(0) + ended_text(t@)),
        None => Seq::empty(),
    }
}

/// The `uriI` box of initialization data that may be there.
pub open spec fn uri_init_atom(init: Option<Vec<u8>>) -> Seq<u8> {
    match init {
        Some(b) => atom(URI_INIT, u32_be(0) + b@),
        None => Seq::empty(),
    }
}

/// The body of a text entry: both texts, then the boxes that are there.
pub open spec fn text_entry_body(
    content_encoding: Seq<char>,
    mime_format: Seq<char>,
    bitrate: Option<BitRate>,
    text_config: Option<String>,
) -> Seq<u8> {
    ended_text(content_encoding) + ended_text(mime_format) + btrt_atom(bitrate) + txtc_atom(
        text_config,
    )
}

/// The body of a metadata sample entry.
pub open spec fn metadata_entry_body(e: MetadataSampleEntry) -> Seq<u8> {
    match e {
        MetadataSampleEntry::Xml(x) => ended_text(x.content_encoding@) + ended_text(x.namespace@)
            + ended_text(x.schema_location@) + btrt_atom(x.bitrate),
        MetadataSampleEntry::Text(t) => text_entry_body(
            t.content_encoding@,
            t.mime_format@,
            t.bitrate,
            t.text_config,
        ),
        MetadataSampleEntry::Uri(u) => atom(URI, u32_be(0) + ended_text(u.the_uri@))
            + uri_init_atom(u.init) + btrt_atom(u.bitrate),
    }
}

/// The format of a metadata sample entry.
pub open spec fn metadata_entry_format(e: MetadataSampleEntry) -> [u8; 4] {
    match e {
        MetadataSampleEntry::Xml(_) => METX,
        MetadataSampleEntry::Text(_) => METT,
        MetadataSampleEntry::Uri(_) => URIM,
    }
}

/// The body of a subtitle sample entry.
pub open spec fn subtitle_entry_body(e: SubtitleSampleEntry) -> Seq<u8> {
    match e {
        SubtitleSampleEntry::Xml(x) => ended_text(x.namespace@) + ended_text(x.schema_location@)
            + ended_text(x.auxiliary_mime_types@) + btrt_atom(x.bitrate),
        SubtitleSampleEntry::Text(t) => text_entry_body(
            t.content_encoding@,
            t.mime_format@,
            t.bitrate,
            t.text_config,
        ),
    }
}

/// The format of a subtitle sample entry.
pub open spec fn subtitle_entry_format(e: SubtitleSampleEntry) -> [u8; 4] {
    match e {
        SubtitleSampleEntry::Xml(_) => STPP,
        SubtitleSampleEntry::Text(_) => SBTT,
    }
}

/// The body of a timed-text sample entry.
pub open spec fn simple_text_body(e: SimpleTextSampleEntry) -> Seq<u8> {
    text_entry_body(e.content_encoding@, e.mime_format@, e.bitrate, e.text_config)
}

fn put_btrt(out: &mut Vec<u8>, b: Option<BitRate>)
    ensures
        final(out)@ == old(out)@ + btrt_atom(b),
{
    broadcast use {empty_left, empty_right};

    if let Some(b) = b {
        let mut body: Vec<u8> = Vec::new();
        put_u32(&mut body, b.buffer_size_db);
        put_u32(&mut body, b.max_bitrate);
        put_u32(&mut body, b.avg_bitrate);
        push_atom(out, BTRT, body.as_slice());
    }
}

fn put_txtc(out: &mut Vec<u8>, t: &Option<String>)
    ensures
        final(out)@ == old(out)@ + txtc_atom(*t),
{
    broadcast use {empty_left, empty_right};

    if let Some(t) = t {
        let mut body: Vec<u8> = Vec::new();
        put_u32(&mut body, 0);
        put_ended_text(&mut body, t.as_str());
        push_atom(out, TXTC, body.as_slice());
    }
}

fn build_text_entry(
    content_encoding: &String,
    mime_format: &String,
    bitrate: Option<BitRate>,
    text_config: &Option<String>,
) -> (r: Vec<u8>)
    ensures
        r@ == text_entry_body(content_encoding@, mime_format@, bitrate, *text_config),
{
    broadcast use empty_left;

    let mut out: Vec<u8> = Vec::new();
    put_ended_text(&mut out, content_encoding.as_str());
    put_ended_text(&mut out, mime_format.as_str());
    put_btrt(&mut out, bitrate);
    put_txtc(&mut out, text_config);
    out
}

impl MetadataSampleEntry {
    /// The format of the entry.
    pub fn format(&self) -> (r: [u8; 4])
        ensures
            r == metadata_entry_format(*self),
    {
        match self {
            MetadataSampleEntry::Xml(_) => METX,
            MetadataSampleEntry::Text(_) => METT,
            MetadataSampleEntry::Uri(_) => URIM,
        }
    }

    /// Serialise the body of the entry.
    pub fn to_body_bytes(&self) -> (r: Vec<u8>)
        ensures
            r@ == metadata_entry_body(*self),
    {
        broadcast use {empty_left, empty_right};

        match self {
            MetadataSampleEntry::Xml(x) => {
                let mut out: Vec<u8> = Vec::new();
                put_ended_text(&mut out, x.content_encoding.as_str());
                put_ended_text(&mut out, x.namespace.as_str());
                put_ended_text(&mut out, x.schema_location.as_str());
                put_btrt(&mut out, x.bitrate);
                out
            },
            MetadataSampleEntry::Text(t) => build_text_entry(
                &t.content_encoding,
                &t.mime_format,
                t.bitrate,
                &t.text_config,
            ),
            MetadataSampleEntry::Uri(u) => {
                let mut out: Vec<u8> = Vec::new();
                let mut uri: Vec<u8> = Vec::new();
                put_u32(&mut uri, 0);
                put_ended_text(&mut uri, u.the_uri.as_str());
                push_atom(&mut out, URI, uri.as_slice());
                if let Some(b) = &u.init {
                    let mut init: Vec<u8> = Vec::new();
                    put_u32(&mut init, 0);
                    put_bytes(&mut init, b.as_slice());
                    push_atom(&mut out, URI_INIT, init.as_slice());
                }
                put_btrt(&mut out, u.bitrate);
                out
            },
        }
    }
}

impl SubtitleSampleEntry {
    /// The format of the entry.
    pub fn format(&self) -> (r: [u8; 4])
        ensures
            r == subtitle_entry_format(*self),
    {
        match self {
            SubtitleSampleEntry::Xml(_) => STPP,
            SubtitleSampleEntry::Text(_) => SBTT,
        }
    }

    /// Serialise the body of the entry.
    pub fn to_body_bytes(&self) -> (r: Vec<u8>)
        ensures
            r@ == subtitle_entry_body(*self),
    {
        broadcast use empty_left;

        match self {
            SubtitleSampleEntry::Xml(x) => {
                let mut out: Vec<u8> = Vec::new();
                put_ended_text(&mut out, x.namespace.as_str());
                put_ended_text(&mut out, x.schema_location.as_str());
                put_ended_text(&mut out, x.auxiliary_mime_types.as_str());
                put_btrt(&mut out, x.bitrate);
                out
            },
            SubtitleSampleEntry::Text(t) => build_text_entry(
                &t.content_encoding,
                &t.mime_format,
                t.bitrate,
                &t.text_config,
            ),
        }
    }
}

impl SimpleTextSampleEntry {
    /// Serialise the body of the entry.
    pub fn to_body_bytes(&self) -> (r: Vec<u8>)
        ensures
            r@ == simple_text_body(*self),
    {
        build_text_entry(
            &self.content_encoding,
            &self.mime_format,
            self.bitrate,
            &self.text_config,
        )
    }
}

} // verus!
