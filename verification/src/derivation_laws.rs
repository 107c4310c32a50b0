//! What the data of derived image items say, read number by number.
use crate::bytes::{
    cat, group_be_len, i16_at, i16_be, i32_at, i32_be, lemma_cat_len, lemma_cat_piece, lemma_i16_at,
    lemma_i32_at, lemma_part, lemma_u16_at, lemma_u32_at, u16_at, u16_be, u32_at, u32_be,
};
use crate::heif_item::{
    all_narrow, derivation_body, narrow, narrow_offsets, wide_offsets, HeifDerivation,
};
use vstd::prelude::*;

verus! {

/// Flag 1 says that numbers have 32 bits, else they have sixteen.
pub open spec fn is_large(s: Seq<u8>) -> bool {
    s[1] % 2 == 1
}

/// An overlay: the colour of the canvas, its size, and where each layer stands.
pub struct OverlayModel {
    pub fill: Seq<u16>,
    pub width: int,
    pub height: int,
    /// Horizontal and vertical offset of each layer.
    pub offsets: Seq<(int, int)>,
}

/// The overlay that the data of an item describe: a version, the flag, four numbers of
/// colour, width and height, then a horizontal and a vertical offset for each layer.
pub open spec fn overlay_of(s: Seq<u8>) -> OverlayModel {
    let fill = seq![u16_at(s, 2), u16_at(s, 4), u16_at(s, 6), u16_at(s, 8)];
    if is_large(s) {
        OverlayModel {
            fill,
            width: u32_at(s, 10) as int,
            height: u32_at(s, 14) as int,
            offsets: Seq::new(
                ((s.len() - 18) / 8) as nat,
                |i: int| (i32_at(s, 18 + 8 * i) as int, i32_at(s, 22 + 8 * i) as int),
            ),
        }
    } else {
        OverlayModel {
            fill,
            width: u16_at(s, 10) as int,
            height: u16_at(s, 12) as int,
            offsets: Seq::new(
                ((s.len() - 14) / 4) as nat,
                |i: int| (i16_at(s, 14 + 4 * i) as int, i16_at(s, 16 + 4 * i) as int),
            ),
        }
    }
}

/// A grid: rows, columns and the size of the picture.
pub struct GridModel {
    pub rows: int,
    pub columns: int,
    pub width: int,
    pub height: int,
}

/// The grid that the data of an item describe: a version, the flag, one less than the
/// number of rows and of columns, width and height.
pub open spec fn grid_of(s: Seq<u8>) -> GridModel {
    GridModel {
        rows: s[2] + 1,
        columns: s[3] + 1,
        width: if is_large(s) {
            u32_at(s, 4) as int
        } else {
            u16_at(s, 4) as int
        },
        height: if is_large(s) {
            u32_at(s, 8) as int
        } else {
            u16_at(s, 6) as int
        },
    }
}

proof fn lemma_pair_at(s: Seq<u8>, head: int, n: nat, f: spec_fn(int) -> Seq<u8>, k: nat, i: int)
    requires
        0 <= head,
        s.len() == head + cat(n, f).len(),
        s.subrange(head, s.len() as int) == cat(n, f),
        forall|j: int| 0 <= j < n ==> (#[trigger] f(j)).len() == k,
        0 <= i < n,
    ensures
        0 <= k * i,
        head + k * i + k <= s.len(),
        s.subrange(head + k * i, head + k * i + k) == f(i),
{
    lemma_cat_len(i as nat, f, k);
    lemma_cat_piece(n, f, i);
    let p = cat(i as nat, f).len() as int;
    assert(p == k * i) by (nonlinear_arith)
        requires
            p == i * k,
    ;
    assert(f(i).len() == k);
    lemma_part(s, head, s.len() as int, p, p + k);
}

proof fn lemma_wide_pair(s: Seq<u8>, p: int, x: i32, y: i32)
    requires
        0 <= p,
        p + 8 <= s.len(),
        s.subrange(p, p + 8) == i32_be(x) + i32_be(y),
    ensures
        i32_at(s, p) == x,
        i32_at(s, p + 4) == y,
{
    broadcast use group_be_len;

    let row = s.subrange(p, p + 8);
    lemma_part(s, p, p + 8, 0, 4);
    lemma_part(s, p, p + 8, 4, 8);
    assert(row.subrange(0, 4) =~= i32_be(x));
    assert(row.subrange(4, 8) =~= i32_be(y));
    lemma_i32_at(s, p, x);
    lemma_i32_at(s, p + 4, y);
}

proof fn lemma_narrow_pair(s: Seq<u8>, p: int, x: i16, y: i16)
    requires
        0 <= p,
        p + 4 <= s.len(),
        s.subrange(p, p + 4) == i16_be(x) + i16_be(y),
    ensures
        i16_at(s, p) == x,
        i16_at(s, p + 2) == y,
{
    broadcast use group_be_len;

    let row = s.subrange(p, p + 4);
    lemma_part(s, p, p + 4, 0, 2);
    lemma_part(s, p, p + 4, 2, 4);
    assert(row.subrange(0, 2) =~= i16_be(x));
    assert(row.subrange(2, 4) =~= i16_be(y));
    lemma_i16_at(s, p, x);
    lemma_i16_at(s, p + 2, y);
}

proof fn lemma_overlay_head(flag: u8, c: [u16; 4], size: Seq<u8>, rows: Seq<u8>)
    ensures
        ({
            let fill = u16_be(c@[0]) + u16_be(c@[1]) + u16_be(c@[2]) + u16_be(c@[3]);
            let s = seq![0u8, flag] + fill + size + rows;
            &&& s[0] == 0
            &&& s[1] == flag
            &&& s.len() == 10 + size.len() + rows.len()
            &&& u16_at(s, 2) == c@[0]
            &&& u16_at(s, 4) == c@[1]
            &&& u16_at(s, 6) == c@[2]
            &&& u16_at(s, 8) == c@[3]
            &&& s.subrange(10, 10 + size.len() as int) == size
            &&& s.subrange(10 + size.len() as int, s.len() as int) == rows
        }),
{
    broadcast use group_be_len;

    let fill = u16_be(c@[0]) + u16_be(c@[1]) + u16_be(c@[2]) + u16_be(c@[3]);
    let s = seq![0u8, flag] + fill + size + rows;
    assert(s.subrange(2, 4) =~= u16_be(c@[0]));
    assert(s.subrange(4, 6) =~= u16_be(c@[1]));
    assert(s.subrange(6, 8) =~= u16_be(c@[2]));
    assert(s.subrange(8, 10) =~= u16_be(c@[3]));
    lemma_u16_at(s, 2, c@[0]);
    lemma_u16_at(s, 4, c@[1]);
    lemma_u16_at(s, 6, c@[2]);
    lemma_u16_at(s, 8, c@[3]);
    assert(s.subrange(10, 10 + size.len() as int) =~= size);
    assert(s.subrange(10 + size.len() as int, s.len() as int) =~= rows);
}

proof fn lemma_two(s: Seq<u8>, p: int, size: Seq<u8>, a: Seq<u8>, b: Seq<u8>)
    requires
        0 <= p,
        p + size.len() <= s.len(),
        size == a + b,
        s.subrange(p, p + size.len()) == size,
    ensures
        s.subrange(p, p + a.len()) == a,
        s.subrange(p + a.len(), p + a.len() + b.len()) == b,
{
    lemma_part(s, p, p + size.len(), 0, a.len() as int);
    lemma_part(s, p, p + size.len(), a.len() as int, size.len() as int);
    assert(size.subrange(0, a.len() as int) =~= a);
    assert(size.subrange(a.len() as int, size.len() as int) =~= b);
}

proof fn lemma_fits_sixteen(o: Seq<(i32, i32)>)
    ensures
        all_narrow(o) <==> forall|i: int|
            0 <= i < o.len() ==> (#[trigger] o[i]).0 as i16 == o[i].0 && o[i].1 as i16 == o[i].1,
{
    assert forall|x: i32| #[trigger] narrow(x) <==> x as i16 == x by {
        if !narrow(x) {
            assert(x as i16 != x);
        }
    }
    if all_narrow(o) {
        assert forall|i: int| 0 <= i < o.len() implies (#[trigger] o[i]).0 as i16 == o[i].0
            && o[i].1 as i16 == o[i].1 by {
            assert(narrow(o[i].0) && narrow(o[i].1));
        }
    }
}

/// The data of an overlay say what was asked for: the colour of the canvas, its size,
/// and the horizontal and the vertical offset of every layer. Numbers have 32 bits if and
/// only if some number needs more than sixteen.
pub proof fn law_overlay_says_what_was_asked(d: HeifDerivation)
    requires
        d is Overlay,
    ensures
        ({
            let m = overlay_of(derivation_body(d));
            let want = d->offsets@;
            &&& derivation_body(d)[0] == 0
            &&& is_large(derivation_body(d)) <==> (d->Overlay_output_width > 0xffff
                || d->Overlay_output_height > 0xffff || exists|i: int|
                0 <= i < want.len() && !((#[trigger] want[i]).0 as i16 == want[i].0 && want[i].1 as i16
                    == want[i].1))
            &&& m.fill == d->canvas_fill_color@
            &&& m.width == d->Overlay_output_width
            &&& m.height == d->Overlay_output_height
            &&& m.offsets == Seq::new(
                want.len(),
                |i: int| (want[i].0 as int, want[i].1 as int),
            )
        }),
{
    broadcast use group_be_len;

    let s = derivation_body(d);
    let c = d->canvas_fill_color;
    let w = d->Overlay_output_width;
    let h = d->Overlay_output_height;
    let o = d->offsets@;
    let n = o.len();
    let m = overlay_of(s);
    assert(all_narrow(o) <==> forall|i: int|
        0 <= i < n ==> (#[trigger] o[i]).0 as i16 == o[i].0 && o[i].1 as i16 == o[i].1) by {
        lemma_fits_sixteen(o);
    }
    if w > 0xffff || h > 0xffff || !all_narrow(o) {
        let f = wide_offsets(o);
        let size = u32_be(w) + u32_be(h);
        lemma_overlay_head(1, c, size, cat(n, f));
        let fill = u16_be(c@[0]) + u16_be(c@[1]) + u16_be(c@[2]) + u16_be(c@[3]);
        assert(s =~= seq![0u8, 1u8] + fill + size + cat(n, f));
        lemma_two(s, 10, size, u32_be(w), u32_be(h));
        lemma_u32_at(s, 10, w);
        lemma_u32_at(s, 14, h);
        lemma_cat_len(n, f, 8);
        assert forall|i: int| 0 <= i < n implies #[trigger] m.offsets[i] == (
            o[i].0 as int,
            o[i].1 as int,
        ) by {
            lemma_pair_at(s, 18, n, f, 8, i);
            lemma_wide_pair(s, 18 + 8 * i, o[i].0, o[i].1);
        }
    } else {
        let f = narrow_offsets(o);
        let size = u16_be(w as u16) + u16_be(h as u16);
        lemma_overlay_head(0, c, size, cat(n, f));
        let fill = u16_be(c@[0]) + u16_be(c@[1]) + u16_be(c@[2]) + u16_be(c@[3]);
        assert(s =~= seq![0u8, 0u8] + fill + size + cat(n, f));
        lemma_two(s, 10, size, u16_be(w as u16), u16_be(h as u16));
        lemma_u16_at(s, 10, w as u16);
        lemma_u16_at(s, 12, h as u16);
        lemma_cat_len(n, f, 4);
        assert forall|i: int| 0 <= i < n implies #[trigger] m.offsets[i] == (
            o[i].0 as int,
            o[i].1 as int,
        ) by {
            assert(narrow(o[i].0) && narrow(o[i].1));
            lemma_pair_at(s, 14, n, f, 4, i);
            lemma_narrow_pair(s, 14 + 4 * i, o[i].0 as i16, o[i].1 as i16);
        }
    }
    assert(m.fill =~= c@);
    assert(m.offsets =~= Seq::new(n, |i: int| (o[i].0 as int, o[i].1 as int)));
}

/// The data of a grid say what was asked for: rows, columns and the size of the
/// picture. Numbers have 32 bits if and only if some number needs more than sixteen.
pub proof fn law_grid_says_what_was_asked(d: HeifDerivation)
    requires
        d is Grid,
        1 <= d->rows <= 256,
        1 <= d->cols <= 256,
    ensures
        derivation_body(d)[0] == 0,
        is_large(derivation_body(d)) <==> d->Grid_output_width > 0xffff || d->Grid_output_height
            > 0xffff,
        grid_of(derivation_body(d)) == (GridModel {
            rows: d->rows as int,
            columns: d->cols as int,
            width: d->Grid_output_width as int,
            height: d->Grid_output_height as int,
        }),
{
    broadcast use group_be_len;

    let s = derivation_body(d);
    let w = d->Grid_output_width;
    let h = d->Grid_output_height;
    if w > 0xffff || h > 0xffff {
        assert(s.subrange(4, 8) =~= u32_be(w));
        assert(s.subrange(8, 12) =~= u32_be(h));
        lemma_u32_at(s, 4, w);
        lemma_u32_at(s, 8, h);
    } else {
        assert(s.subrange(4, 6) =~= u16_be(w as u16));
        assert(s.subrange(6, 8) =~= u16_be(h as u16));
        lemma_u16_at(s, 4, w as u16);
        lemma_u16_at(s, 6, h as u16);
    }
}

/// An identity has no data of its own, and the data of a tone map are those that were
/// given.
pub proof fn law_other_derivations_add_nothing(d: HeifDerivation)
    ensures
        d is Identity ==> derivation_body(d).len() == 0,
        d is ToneMap ==> derivation_body(d) == d->ToneMap_payload@,
{
}

} // verus!
