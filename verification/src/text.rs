//! Text in byte sequences.
use crate::search::{first_index, lemma_first_index_is};
use vstd::prelude::*;
use vstd::utf8::{decode_utf8, encode_utf8, valid_utf8};

verus! {

/// The text that `String::from_utf8_lossy` makes of bytes that are not valid
/// UTF-8.
pub uninterp spec fn lossy_text(bytes: Seq<u8>) -> Seq<char>;

/// The text that bytes are read as: what they decode to where they are valid
/// UTF-8, and a text with replacement characters where they are not.
pub open spec fn text_of(bytes: Seq<u8>) -> Seq<char> {
    if valid_utf8(bytes) {
        decode_utf8(bytes)
    } else {
        lossy_text(bytes)
    }
}

/// `String::from_utf8_lossy`: bytes that are valid UTF-8 are decoded as they
/// stand; of other bytes the text is a function of the bytes alone. Which text
/// that is, is not stated.
#[verifier::external_body]
pub(crate) fn decode_lossy(bytes: &[u8]) -> (r: String)
    ensures
        valid_utf8(bytes@) ==> r@ == decode_utf8(bytes@),
        !valid_utf8(bytes@) ==> r@ == lossy_text(bytes@),
{
    String::from_utf8_lossy(bytes).into_owned()
}

/// `std::str::from_utf8`: the text exists if and only if the bytes are valid
/// UTF-8, and is then what they decode to.
#[verifier::external_body]
pub(crate) fn decode_strict(bytes: &[u8]) -> (r: Option<&str>)
    ensures
        r is Some <==> valid_utf8(bytes@),
        r matches Some(s) ==> s@ == decode_utf8(bytes@),
{
    std::str::from_utf8(bytes).ok()
}

/// Where, from `from` on, zero bytes stand.
pub open spec fn zero_from(s: Seq<u8>, from: int) -> spec_fn(int) -> bool {
    |i: int| s[from + i] == 0
}

/// The place of the first zero byte at or behind `from`; the length if there is
/// none.
pub open spec fn text_end(s: Seq<u8>, from: int) -> int {
    from + first_index((s.len() - from) as nat, zero_from(s, from))
}

/// Where the text behind the one that starts at `from` starts.
pub open spec fn next_text(s: Seq<u8>, from: int) -> int {
    if text_end(s, from) < s.len() {
        text_end(s, from) + 1
    } else {
        s.len() as int
    }
}

/// A place at which a zero byte stands, with none between it and `from`, is the
/// first.
pub proof fn lemma_text_end_is(s: Seq<u8>, from: int, end: int)
    requires
        0 <= from <= end <= s.len(),
        end < s.len() ==> s[end] == 0,
        forall|i: int| from <= i < end ==> s[i] != 0,
    ensures
        text_end(s, from) == end,
{
    lemma_first_index_is((s.len() - from) as nat, zero_from(s, from), end - from);
}

/// The place of the first zero byte at or behind `from`.
pub fn find_text_end(s: &[u8], from: usize) -> (r: usize)
    requires
        from <= s@.len(),
    ensures
        r == text_end(s@, from as int),
        from <= r <= s@.len(),
{
    let mut end: usize = from;
    while end < s.len() && s[end] != 0
        invariant
            from <= end <= s@.len(),
            forall|i: int| from <= i < end ==> s@[i] != 0,
        decreases s@.len() - end,
    {
        end = end + 1;
    }
    proof {
        lemma_text_end_is(s@, from as int, end as int);
    }
    end
}

/// The UTF-8 bytes of a text.
pub open spec fn utf8(s: Seq<char>) -> Seq<u8> {
    encode_utf8(s)
}

/// The UTF-8 bytes of a text are read as that text.
pub proof fn lemma_text_of_utf8(s: Seq<char>)
    ensures
        text_of(utf8(s)) == s,
        valid_utf8(utf8(s)),
{
    vstd::utf8::encode_utf8_valid_utf8(s);
    vstd::utf8::encode_utf8_decode_utf8(s);
}

} // verus!
