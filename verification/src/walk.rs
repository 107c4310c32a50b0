//! Reading boxes as any reader does: from the front, each as long as its header says.
use crate::atom::{atom, lemma_atom_at, lemma_atom_len, lemma_mdat_header_len, mdat_header};
use crate::bytes::{
    cat, code_at, group_be_len, lemma_cat_piece, lemma_u32_at, lemma_u64_at, u32_at, u32_be, u64_at,
    u64_be,
};
use crate::fourcc::MDAT;
use vstd::prelude::*;

verus! {

/// The length of the header of the box in front: a length of 1 says that eight more
/// bytes hold the length.
pub open spec fn head_len(s: Seq<u8>) -> int {
    if u32_at(s, 0) == 1 {
        16
    } else {
        8
    }
}

/// The length of the box in front.
pub open spec fn box_len(s: Seq<u8>) -> int {
    if u32_at(s, 0) == 1 {
        u64_at(s, 8) as int
    } else {
        u32_at(s, 0) as int
    }
}

/// A whole box stands in front.
pub open spec fn has_box(s: Seq<u8>) -> bool {
    8 <= s.len() && head_len(s) <= s.len() && head_len(s) <= box_len(s) <= s.len()
}

/// The body of the box number `k`, counted from 0, among the boxes with a code.
pub open spec fn nth_box(s: Seq<u8>, code: [u8; 4], k: nat) -> Option<Seq<u8>>
    decreases s.len(),
{
    if !has_box(s) {
        None
    } else {
        let rest = s.subrange(box_len(s), s.len() as int);
        if code_at(s, 4) != code {
            nth_box(rest, code, k)
        } else if k == 0 {
            Some(s.subrange(head_len(s), box_len(s)))
        } else {
            nth_box(rest, code, (k - 1) as nat)
        }
    }
}

/// The body of the first box with a code.
pub open spec fn first_box(s: Seq<u8>, code: [u8; 4]) -> Option<Seq<u8>> {
    nth_box(s, code, 0)
}

/// The body of the first box with a code; empty where there is none.
pub open spec fn inside(s: Seq<u8>, code: [u8; 4]) -> Seq<u8> {
    match first_box(s, code) {
        Some(b) => b,
        None => Seq::empty(),
    }
}

/// The body of box number `k` with a code; empty where there is none.
pub open spec fn inside_nth(s: Seq<u8>, code: [u8; 4], k: int) -> Seq<u8> {
    match nth_box(s, code, k as nat) {
        Some(b) => b,
        None => Seq::empty(),
    }
}

/// A reader that looks for a code passes over these bytes.
#[verifier::opaque]
pub open spec fn passes(a: Seq<u8>, code: [u8; 4]) -> bool {
    forall|rest: Seq<u8>, k: nat| #[trigger] nth_box(a + rest, code, k) == nth_box(rest, code, k)
}

/// A reader that looks for a code finds one box in these bytes.
#[verifier::opaque]
pub open spec fn holds_one(a: Seq<u8>, code: [u8; 4], body: Seq<u8>) -> bool {
    forall|rest: Seq<u8>, k: nat| #[trigger]
        nth_box(a + rest, code, k) == (if k == 0 {
            Some(body)
        } else {
            nth_box(rest, code, (k - 1) as nat)
        })
}

pub proof fn lemma_passes_nothing(code: [u8; 4])
    ensures
        passes(Seq::<u8>::empty(), code),
{
    reveal(passes);
    assert forall|rest: Seq<u8>, k: nat| #[trigger]
        nth_box(Seq::<u8>::empty() + rest, code, k) == nth_box(rest, code, k) by {
        assert(Seq::<u8>::empty() + rest =~= rest);
    }
}

pub proof fn lemma_front(c: [u8; 4], body: Seq<u8>, rest: Seq<u8>)
    requires
        8 + body.len() <= 0xffff_ffff,
    ensures
        ({
            let s = atom(c, body) + rest;
            &&& has_box(s)
            &&& head_len(s) == 8
            &&& box_len(s) == 8 + body.len()
            &&& code_at(s, 4) == c
            &&& s.subrange(8, box_len(s)) == body
            &&& s.subrange(box_len(s), s.len() as int) == rest
        }),
{
    let s = atom(c, body) + rest;
    lemma_atom_len(c, body);
    assert(s.subrange(0, 8 + body.len() as int) =~= atom(c, body));
    lemma_atom_at(s, 0, c, body);
    assert(s.subrange(8 + body.len() as int, s.len() as int) =~= rest);
}

pub proof fn lemma_passes_atom(c: [u8; 4], body: Seq<u8>, code: [u8; 4])
    requires
        c != code,
        8 + body.len() <= 0xffff_ffff,
    ensures
        passes(atom(c, body), code),
{
    reveal(passes);
    assert forall|rest: Seq<u8>, k: nat| #[trigger]
        nth_box(atom(c, body) + rest, code, k) == nth_box(rest, code, k) by {
        lemma_front(c, body, rest);
    }
}

pub proof fn lemma_atom_is_one(code: [u8; 4], body: Seq<u8>)
    requires
        8 + body.len() <= 0xffff_ffff,
    ensures
        holds_one(atom(code, body), code, body),
{
    reveal(holds_one);
    assert forall|rest: Seq<u8>, k: nat| #[trigger]
        nth_box(atom(code, body) + rest, code, k) == (if k == 0 {
            Some(body)
        } else {
            nth_box(rest, code, (k - 1) as nat)
        }) by {
        lemma_front(code, body, rest);
    }
}

pub proof fn lemma_passes_both(a: Seq<u8>, b: Seq<u8>, code: [u8; 4])
    requires
        passes(a, code),
        passes(b, code),
    ensures
        passes(a + b, code),
{
    reveal(passes);
    assert forall|rest: Seq<u8>, k: nat| #[trigger]
        nth_box((a + b) + rest, code, k) == nth_box(rest, code, k) by {
        assert((a + b) + rest =~= a + (b + rest));
        assert(nth_box(a + (b + rest), code, k) == nth_box(b + rest, code, k));
    }
}

pub proof fn lemma_passes_then_one(a: Seq<u8>, b: Seq<u8>, code: [u8; 4], body: Seq<u8>)
    requires
        passes(a, code),
        holds_one(b, code, body),
    ensures
        holds_one(a + b, code, body),
{
    reveal(passes);
    reveal(holds_one);
    assert forall|rest: Seq<u8>, k: nat| #[trigger]
        nth_box((a + b) + rest, code, k) == (if k == 0 {
            Some(body)
        } else {
            nth_box(rest, code, (k - 1) as nat)
        }) by {
        assert((a + b) + rest =~= a + (b + rest));
        assert(nth_box(a + (b + rest), code, k) == nth_box(b + rest, code, k));
    }
}

pub proof fn lemma_one_then_passes(a: Seq<u8>, b: Seq<u8>, code: [u8; 4], body: Seq<u8>)
    requires
        holds_one(a, code, body),
        passes(b, code),
    ensures
        holds_one(a + b, code, body),
{
    reveal(passes);
    reveal(holds_one);
    assert forall|rest: Seq<u8>, k: nat| #[trigger]
        nth_box((a + b) + rest, code, k) == (if k == 0 {
            Some(body)
        } else {
            nth_box(rest, code, (k - 1) as nat)
        }) by {
        assert((a + b) + rest =~= a + (b + rest));
        assert(nth_box(a + (b + rest), code, k) == (if k == 0 {
            Some(body)
        } else {
            nth_box(b + rest, code, (k - 1) as nat)
        }));
    }
}

pub proof fn lemma_passes_cat(n: nat, f: spec_fn(int) -> Seq<u8>, code: [u8; 4])
    requires
        forall|i: int| 0 <= i < n ==> passes(#[trigger] f(i), code),
    ensures
        passes(cat(n, f), code),
    decreases n,
{
    if n == 0 {
        lemma_passes_nothing(code);
    } else {
        lemma_passes_cat((n - 1) as nat, f, code);
        assert(passes(f(n - 1), code));
        lemma_passes_both(cat((n - 1) as nat, f), f(n - 1), code);
    }
}

/// A box that was written is found, whatever stands behind it.
pub proof fn lemma_found(a: Seq<u8>, rest: Seq<u8>, code: [u8; 4], body: Seq<u8>)
    requires
        holds_one(a, code, body),
    ensures
        first_box(a + rest, code) == Some(body),
{
    reveal(holds_one);
}

/// A box that was written is found.
pub proof fn lemma_found_alone(a: Seq<u8>, code: [u8; 4], body: Seq<u8>)
    requires
        holds_one(a, code, body),
    ensures
        first_box(a, code) == Some(body),
{
    lemma_found(a, Seq::empty(), code, body);
    assert(a + Seq::<u8>::empty() =~= a);
}

/// Where there is no such box, none is found.
pub proof fn lemma_not_found(a: Seq<u8>, code: [u8; 4])
    requires
        passes(a, code),
    ensures
        first_box(a, code) is None,
{
    reveal(passes);
    assert(a + Seq::<u8>::empty() =~= a);
    assert(nth_box(a + Seq::<u8>::empty(), code, 0) == nth_box(Seq::<u8>::empty(), code, 0));
}

pub proof fn lemma_beyond_cat(
    n: nat,
    f: spec_fn(int) -> Seq<u8>,
    g: spec_fn(int) -> Seq<u8>,
    code: [u8; 4],
    rest: Seq<u8>,
    k: nat,
)
    requires
        forall|i: int| 0 <= i < n ==> holds_one(#[trigger] f(i), code, g(i)),
    ensures
        nth_box(cat(n, f) + rest, code, n + k) == nth_box(rest, code, k),
    decreases n,
{
    if n == 0 {
        assert(cat(n, f) + rest =~= rest);
    } else {
        let m = (n - 1) as nat;
        lemma_beyond_cat(m, f, g, code, f(n - 1) + rest, k + 1);
        assert(cat(n, f) + rest =~= cat(m, f) + (f(n - 1) + rest));
        assert(holds_one(f(n - 1), code, g(n - 1)));
        reveal(holds_one);
        assert(nth_box(f(n - 1) + rest, code, k + 1) == nth_box(rest, code, k));
    }
}

/// Boxes that were written one behind the other are found in that order.
pub proof fn lemma_nth_of_cat(
    n: nat,
    f: spec_fn(int) -> Seq<u8>,
    g: spec_fn(int) -> Seq<u8>,
    code: [u8; 4],
    rest: Seq<u8>,
    i: int,
)
    requires
        forall|i: int| 0 <= i < n ==> holds_one(#[trigger] f(i), code, g(i)),
        0 <= i < n,
    ensures
        nth_box(cat(n, f) + rest, code, i as nat) == Some(g(i)),
    decreases n,
{
    let m = (n - 1) as nat;
    let more = f(n - 1) + rest;
    assert(cat(n, f) + rest =~= cat(m, f) + more);
    if i == n - 1 {
        lemma_beyond_cat(m, f, g, code, more, 0);
        assert(holds_one(f(n - 1), code, g(n - 1)));
        reveal(holds_one);
        assert(nth_box(more, code, 0) == Some(g(n - 1)));
    } else {
        lemma_nth_of_cat(m, f, g, code, more, i);
    }
}

/// The same, behind bytes that the reader passes over.
pub proof fn lemma_nth_behind(
    a: Seq<u8>,
    n: nat,
    f: spec_fn(int) -> Seq<u8>,
    g: spec_fn(int) -> Seq<u8>,
    code: [u8; 4],
    rest: Seq<u8>,
    i: int,
)
    requires
        passes(a, code),
        forall|i: int| 0 <= i < n ==> holds_one(#[trigger] f(i), code, g(i)),
        0 <= i < n,
    ensures
        nth_box(a + cat(n, f) + rest, code, i as nat) == Some(g(i)),
{
    lemma_nth_of_cat(n, f, g, code, rest, i);
    assert(a + cat(n, f) + rest =~= a + (cat(n, f) + rest));
    reveal(passes);
    assert(nth_box(a + (cat(n, f) + rest), code, i as nat) == nth_box(
        cat(n, f) + rest,
        code,
        i as nat,
    ));
}

/// The media of a file are one box, also where their length needs 64 bits.
pub proof fn lemma_media_box(media: Seq<u8>, code: [u8; 4])
    requires
        16 + media.len() <= 0xffff_ffff_ffff_ffff,
    ensures
        code == MDAT ==> holds_one(mdat_header(media.len()) + media, code, media),
        code != MDAT ==> passes(mdat_header(media.len()) + media, code),
{
    broadcast use group_be_len;

    let n = media.len();
    let a = mdat_header(n) + media;
    lemma_mdat_header_len(n);
    reveal(passes);
    reveal(holds_one);
    assert forall|rest: Seq<u8>, k: nat| code != MDAT implies #[trigger] nth_box(a + rest, code, k)
        == nth_box(rest, code, k) by {
        lemma_media_front(media, rest);
    }
    assert forall|rest: Seq<u8>, k: nat| code == MDAT implies #[trigger] nth_box(a + rest, code, k)
        == (if k == 0 {
        Some(media)
    } else {
        nth_box(rest, code, (k - 1) as nat)
    }) by {
        lemma_media_front(media, rest);
    }
}

proof fn lemma_media_front(media: Seq<u8>, rest: Seq<u8>)
    requires
        16 + media.len() <= 0xffff_ffff_ffff_ffff,
    ensures
        ({
            let s = mdat_header(media.len()) + media + rest;
            &&& has_box(s)
            &&& box_len(s) == mdat_header(media.len()).len() + media.len()
            &&& code_at(s, 4) == MDAT
            &&& s.subrange(head_len(s), box_len(s)) == media
            &&& s.subrange(box_len(s), s.len() as int) == rest
        }),
{
    broadcast use group_be_len;

    let n = media.len();
    let head = mdat_header(n);
    let s = head + media + rest;
    lemma_mdat_header_len(n);
    let h = head.len() as int;
    assert(code_at(s, 4) =~= MDAT);
    if 8 + n > 0xffff_ffff {
        assert(s.subrange(0, 4) =~= u32_be(1));
        lemma_u32_at(s, 0, 1);
        assert(s.subrange(8, 16) =~= u64_be((16 + n) as u64));
        lemma_u64_at(s, 8, (16 + n) as u64);
    } else {
        assert(s.subrange(0, 4) =~= u32_be((8 + n) as u32));
        lemma_u32_at(s, 0, (8 + n) as u32);
    }
    assert(s.subrange(h, h + n) =~= media);
    assert(s.subrange(h + n, s.len() as int) =~= rest);
}

pub proof fn lemma_optional(wanted: bool, c: [u8; 4], body: Seq<u8>, code: [u8; 4])
    requires
        wanted ==> 8 + body.len() <= 0xffff_ffff,
    ensures
        ({
            let a = if wanted {
                atom(c, body)
            } else {
                Seq::empty()
            };
            &&& c != code || !wanted ==> passes(a, code)
            &&& c == code && wanted ==> holds_one(a, code, body)
        }),
{
    if !wanted {
        lemma_passes_nothing(code);
    } else if c == code {
        lemma_atom_is_one(code, body);
    } else {
        lemma_passes_atom(c, body, code);
    }
}

pub proof fn lemma_join(a: Seq<u8>, b: Seq<u8>, code: [u8; 4], body: Seq<u8>)
    requires
        passes(a, code) || holds_one(a, code, body),
        passes(b, code) || holds_one(b, code, body),
        passes(a, code) || passes(b, code),
    ensures
        passes(a, code) && passes(b, code) ==> passes(a + b, code),
        holds_one(a, code, body) && passes(b, code) ==> holds_one(a + b, code, body),
        passes(a, code) && holds_one(b, code, body) ==> holds_one(a + b, code, body),
{
    if passes(a, code) && passes(b, code) {
        lemma_passes_both(a, b, code);
    }
    if holds_one(a, code, body) && passes(b, code) {
        lemma_one_then_passes(a, b, code, body);
    }
    if passes(a, code) && holds_one(b, code, body) {
        lemma_passes_then_one(a, b, code, body);
    }
}

/// Boxes one behind the other. One without a body is left out.
pub open spec fn boxes(l: Seq<([u8; 4], Option<Seq<u8>>)>) -> Seq<u8>
    decreases l.len(),
{
    if l.len() == 0 {
        Seq::empty()
    } else {
        boxes(l.drop_last()) + box_if(l.last())
    }
}

/// A box, or nothing.
pub open spec fn box_if(b: ([u8; 4], Option<Seq<u8>>)) -> Seq<u8> {
    match b.1 {
        Some(body) => atom(b.0, body),
        None => Seq::empty(),
    }
}

/// No box from place `i` on has the code.
pub open spec fn none_with(l: Seq<([u8; 4], Option<Seq<u8>>)>, code: [u8; 4]) -> bool {
    forall|j: int| 0 <= j < l.len() ==> (#[trigger] l[j]).0 != code
}

pub proof fn lemma_boxes_pass(l: Seq<([u8; 4], Option<Seq<u8>>)>, code: [u8; 4])
    requires
        boxes(l).len() <= 0xffff_ffff,
        none_with(l, code),
    ensures
        passes(boxes(l), code),
    decreases l.len(),
{
    if l.len() == 0 {
        lemma_passes_nothing(code);
    } else {
        let before = l.drop_last();
        let last = l.last();
        assert(last == l[l.len() - 1]);
        assert forall|j: int| 0 <= j < before.len() implies (#[trigger] before[j]).0 != code by {
            assert(before[j] == l[j]);
        }
        lemma_boxes_pass(before, code);
        match last.1 {
            Some(body) => {
                lemma_atom_len(last.0, body);
                lemma_passes_atom(last.0, body, code);
            },
            None => {
                lemma_passes_nothing(code);
            },
        }
        lemma_passes_both(boxes(before), box_if(last), code);
    }
}

/// In a list of boxes with different codes, each box is found, and one that was left
/// out is not.
pub proof fn lemma_boxes_hold(l: Seq<([u8; 4], Option<Seq<u8>>)>, i: int)
    requires
        boxes(l).len() <= 0xffff_ffff,
        0 <= i < l.len(),
        forall|j: int| 0 <= j < l.len() && j != i ==> (#[trigger] l[j]).0 != l[i].0,
    ensures
        l[i].1 matches Some(body) ==> holds_one(boxes(l), l[i].0, body),
        l[i].1 is None ==> passes(boxes(l), l[i].0),
    decreases l.len(),
{
    let code = l[i].0;
    let before = l.drop_last();
    let last = l.last();
    assert(last == l[l.len() - 1]);
    if i == l.len() - 1 {
        assert forall|j: int| 0 <= j < before.len() implies (#[trigger] before[j]).0 != code by {
            assert(before[j] == l[j]);
        }
        lemma_boxes_pass(before, code);
        match last.1 {
            Some(body) => {
                lemma_atom_len(code, body);
                lemma_atom_is_one(code, body);
                lemma_passes_then_one(boxes(before), box_if(last), code, body);
            },
            None => {
                lemma_passes_nothing(code);
                lemma_passes_both(boxes(before), box_if(last), code);
            },
        }
    } else {
        assert(before[i] == l[i]);
        assert forall|j: int| 0 <= j < before.len() && j != i implies (#[trigger] before[j]).0
            != before[i].0 by {
            assert(before[j] == l[j]);
        }
        lemma_boxes_hold(before, i);
        match last.1 {
            Some(body) => {
                lemma_atom_len(last.0, body);
                lemma_passes_atom(last.0, body, code);
            },
            None => {
                lemma_passes_nothing(code);
            },
        }
        match l[i].1 {
            Some(body) => {
                lemma_one_then_passes(boxes(before), box_if(last), code, body);
            },
            None => {
                lemma_passes_both(boxes(before), box_if(last), code);
            },
        }
    }
}

/// What a reader finds of a list of boxes with different codes, where nothing behind
/// them has the code.
pub proof fn lemma_boxes_found(l: Seq<([u8; 4], Option<Seq<u8>>)>, rest: Seq<u8>, i: int)
    requires
        boxes(l).len() <= 0xffff_ffff,
        0 <= i < l.len(),
        forall|j: int| 0 <= j < l.len() && j != i ==> (#[trigger] l[j]).0 != l[i].0,
        passes(rest, l[i].0),
    ensures
        first_box(boxes(l) + rest, l[i].0) == l[i].1,
{
    lemma_boxes_hold(l, i);
    match l[i].1 {
        Some(body) => {
            lemma_found(boxes(l), rest, l[i].0, body);
        },
        None => {
            lemma_passes_both(boxes(l), rest, l[i].0);
            lemma_not_found(boxes(l) + rest, l[i].0);
        },
    }
}

/// Two lists of boxes, one behind the other.
pub proof fn lemma_boxes_append(
    a: Seq<([u8; 4], Option<Seq<u8>>)>,
    b: Seq<([u8; 4], Option<Seq<u8>>)>,
)
    ensures
        boxes(a + b) == boxes(a) + boxes(b),
    decreases b.len(),
{
    if b.len() == 0 {
        assert(a + b =~= a);
        assert(boxes(a) + boxes(b) =~= boxes(a));
    } else {
        lemma_boxes_append(a, b.drop_last());
        assert((a + b).drop_last() =~= a + b.drop_last());
        assert((a + b).last() == b.last());
        assert(boxes(a + b) =~= boxes(a) + boxes(b));
    }
}

/// A list of one box.
pub proof fn lemma_boxes_1(
    a: ([u8; 4], Option<Seq<u8>>),
)
    ensures
        boxes(seq![a]) == box_if(a),
{
    let l = seq![a];
    assert(l.drop_last() =~= Seq::empty());
    assert(boxes(l.drop_last()) =~= Seq::empty());
    assert(boxes(l) =~= box_if(a));
}

/// Two boxes, one behind the other.
pub proof fn lemma_boxes_2(
    a: ([u8; 4], Option<Seq<u8>>),
    b: ([u8; 4], Option<Seq<u8>>),
)
    ensures
        boxes(seq![a, b]) == box_if(a) + box_if(b),
{
    let l = seq![a, b];
    assert(l.drop_last() =~= seq![a]);
    lemma_boxes_1(a);
}

/// Three boxes, one behind the other.
pub proof fn lemma_boxes_3(
    a: ([u8; 4], Option<Seq<u8>>),
    b: ([u8; 4], Option<Seq<u8>>),
    c: ([u8; 4], Option<Seq<u8>>),
)
    ensures
        boxes(seq![a, b, c]) == box_if(a) + box_if(b) + box_if(c),
{
    let l = seq![a, b, c];
    assert(l.drop_last() =~= seq![a, b]);
    lemma_boxes_2(a, b);
}

/// Four boxes, one behind the other.
pub proof fn lemma_boxes_4(
    a: ([u8; 4], Option<Seq<u8>>),
    b: ([u8; 4], Option<Seq<u8>>),
    c: ([u8; 4], Option<Seq<u8>>),
    d: ([u8; 4], Option<Seq<u8>>),
)
    ensures
        boxes(seq![a, b, c, d]) == box_if(a) + box_if(b) + box_if(c) + box_if(d),
{
    let l = seq![a, b, c, d];
    assert(l.drop_last() =~= seq![a, b, c]);
    lemma_boxes_3(a, b, c);
}

/// Five boxes, one behind the other.
pub proof fn lemma_boxes_5(
    a: ([u8; 4], Option<Seq<u8>>),
    b: ([u8; 4], Option<Seq<u8>>),
    c: ([u8; 4], Option<Seq<u8>>),
    d: ([u8; 4], Option<Seq<u8>>),
    e: ([u8; 4], Option<Seq<u8>>),
)
    ensures
        boxes(seq![a, b, c, d, e]) == box_if(a) + box_if(b) + box_if(c) + box_if(d) + box_if(e),
{
    let l = seq![a, b, c, d, e];
    assert(l.drop_last() =~= seq![a, b, c, d]);
    lemma_boxes_4(a, b, c, d);
}

/// Six boxes, one behind the other.
pub proof fn lemma_boxes_6(
    a: ([u8; 4], Option<Seq<u8>>),
    b: ([u8; 4], Option<Seq<u8>>),
    c: ([u8; 4], Option<Seq<u8>>),
    d: ([u8; 4], Option<Seq<u8>>),
    e: ([u8; 4], Option<Seq<u8>>),
    f: ([u8; 4], Option<Seq<u8>>),
)
    ensures
        boxes(seq![a, b, c, d, e, f]) == box_if(a) + box_if(b) + box_if(c) + box_if(d) + box_if(e) + box_if(f),
{
    let l = seq![a, b, c, d, e, f];
    assert(l.drop_last() =~= seq![a, b, c, d, e]);
    lemma_boxes_5(a, b, c, d, e);
}

/// Seven boxes, one behind the other.
pub proof fn lemma_boxes_7(
    a: ([u8; 4], Option<Seq<u8>>),
    b: ([u8; 4], Option<Seq<u8>>),
    c: ([u8; 4], Option<Seq<u8>>),
    d: ([u8; 4], Option<Seq<u8>>),
    e: ([u8; 4], Option<Seq<u8>>),
    f: ([u8; 4], Option<Seq<u8>>),
    g: ([u8; 4], Option<Seq<u8>>),
)
    ensures
        boxes(seq![a, b, c, d, e, f, g]) == box_if(a) + box_if(b) + box_if(c) + box_if(d) + box_if(e) + box_if(f) + box_if(g),
{
    let l = seq![a, b, c, d, e, f, g];
    assert(l.drop_last() =~= seq![a, b, c, d, e, f]);
    lemma_boxes_6(a, b, c, d, e, f);
}

/// What a reader finds in three boxes with different codes.
pub proof fn lemma_three_found(
    a: [u8; 4],
    x: Seq<u8>,
    b: [u8; 4],
    y: Seq<u8>,
    c: [u8; 4],
    z: Seq<u8>,
)
    requires
        (atom(a, x) + atom(b, y) + atom(c, z)).len() <= 0xffff_ffff,
        a != b,
        a != c,
        b != c,
    ensures
        ({
            let s = atom(a, x) + atom(b, y) + atom(c, z);
            &&& first_box(s, a) == Some(x)
            &&& first_box(s, b) == Some(y)
            &&& first_box(s, c) == Some(z)
        }),
{
    let s = atom(a, x) + atom(b, y) + atom(c, z);
    lemma_atom_len(a, x);
    lemma_atom_len(b, y);
    lemma_atom_len(c, z);
    lemma_atom_is_one(a, x);
    lemma_atom_is_one(b, y);
    lemma_atom_is_one(c, z);
    assert(s =~= atom(a, x) + (atom(b, y) + atom(c, z)));
    lemma_found(atom(a, x), atom(b, y) + atom(c, z), a, x);
    lemma_passes_atom(a, x, b);
    lemma_passes_then_one(atom(a, x), atom(b, y), b, y);
    lemma_found(atom(a, x) + atom(b, y), atom(c, z), b, y);
    lemma_passes_atom(a, x, c);
    lemma_passes_atom(b, y, c);
    lemma_passes_both(atom(a, x), atom(b, y), c);
    lemma_passes_then_one(atom(a, x) + atom(b, y), atom(c, z), c, z);
    lemma_found_alone(s, c, z);
}

/// What a reader finds in a file of three boxes: its type, its media and its movie.
pub proof fn lemma_file_found(c: [u8; 4], x: Seq<u8>, media: Seq<u8>, code: [u8; 4], y: Seq<u8>)
    requires
        8 + x.len() <= 0xffff_ffff,
        8 + y.len() <= 0xffff_ffff,
        16 + media.len() <= 0xffff_ffff_ffff_ffff,
        c != code,
        c != MDAT,
        code != MDAT,
    ensures
        ({
            let s = atom(c, x) + mdat_header(media.len()) + media + atom(code, y);
            &&& first_box(s, c) == Some(x)
            &&& first_box(s, MDAT) == Some(media)
            &&& first_box(s, code) == Some(y)
        }),
{
    let s = atom(c, x) + mdat_header(media.len()) + media + atom(code, y);
    let a = atom(c, x);
    let b = mdat_header(media.len()) + media;
    let d = atom(code, y);
    assert(s =~= a + b + d);
    assert(s =~= a + (b + d));
    lemma_atom_is_one(c, x);
    lemma_found(a, b + d, c, x);
    lemma_passes_atom(c, x, MDAT);
    lemma_media_box(media, MDAT);
    lemma_passes_then_one(a, b, MDAT, media);
    lemma_found(a + b, d, MDAT, media);
    lemma_passes_atom(c, x, code);
    lemma_media_box(media, code);
    lemma_passes_both(a, b, code);
    lemma_atom_is_one(code, y);
    lemma_passes_then_one(a + b, d, code, y);
    lemma_found_alone(a + b + d, code, y);
}

/// What a reader finds in a box, then boxes with one code, then more.
pub proof fn lemma_list_found(
    c: [u8; 4],
    x: Seq<u8>,
    n: nat,
    f: spec_fn(int) -> Seq<u8>,
    g: spec_fn(int) -> Seq<u8>,
    code: [u8; 4],
    rest: Seq<u8>,
    i: int,
)
    requires
        (atom(c, x) + cat(n, f) + rest).len() <= 0xffff_ffff,
        c != code,
        forall|k: int| 0 <= k < n ==> #[trigger] f(k) == atom(code, g(k)),
        0 <= i < n,
    ensures
        ({
            let s = atom(c, x) + cat(n, f) + rest;
            &&& first_box(s, c) == Some(x)
            &&& nth_box(s, code, i as nat) == Some(g(i))
            &&& 8 + g(i).len() <= cat(n, f).len()
        }),
{
    let s = atom(c, x) + cat(n, f) + rest;
    let a = atom(c, x);
    lemma_atom_len(c, x);
    assert forall|k: int| 0 <= k < n implies holds_one(#[trigger] f(k), code, g(k)) by {
        lemma_cat_piece(n, f, k);
        lemma_atom_len(code, g(k));
        lemma_atom_is_one(code, g(k));
    }
    lemma_cat_piece(n, f, i);
    lemma_atom_len(code, g(i));
    lemma_passes_atom(c, x, code);
    lemma_nth_behind(a, n, f, g, code, rest, i);
    lemma_atom_is_one(c, x);
    assert(s =~= a + (cat(n, f) + rest));
    lemma_found(a, cat(n, f) + rest, c, x);
}

} // verus!
