//! Big-endian integers in byte sequences: what they are, how they are read
//! and how they are written.
//!
//! The encodings `u16_be`, `u32_be` and `u64_be` are opaque to keep proofs about
//! long layouts small. Their lengths are known through `group_be_len`;
//! [`lemma_be_bytes`] shows the bytes.
use vstd::prelude::*;

verus! {

/// The two bytes of `x`, most significant first.
#[verifier::opaque]
pub open spec fn u16_be(x: u16) -> Seq<u8> {
    seq![(x / 0x100) as u8, (x % 0x100) as u8]
}

/// The four bytes of `x`, most significant first.
#[verifier::opaque]
pub open spec fn u32_be(x: u32) -> Seq<u8> {
    seq![
        (x / 0x100_0000) as u8,
        ((x / 0x1_0000) % 0x100) as u8,
        ((x / 0x100) % 0x100) as u8,
        (x % 0x100) as u8,
    ]
}

/// The eight bytes of `x`, most significant first.
#[verifier::opaque]
pub open spec fn u64_be(x: u64) -> Seq<u8> {
    u32_be((x / 0x1_0000_0000) as u32) + u32_be((x % 0x1_0000_0000) as u32)
}

/// The unsigned number with the same sixteen bits as `x` in two's complement.
pub open spec fn twos16(x: i16) -> u16 {
    if x < 0 {
        (x + 0x1_0000) as u16
    } else {
        x as u16
    }
}

/// The unsigned number with the same thirty-two bits as `x` in two's complement.
pub open spec fn twos32(x: i32) -> u32 {
    if x < 0 {
        (x + 0x1_0000_0000) as u32
    } else {
        x as u32
    }
}

/// The unsigned number with the same sixty-four bits as `x` in two's complement.
pub open spec fn twos64(x: i64) -> u64 {
    if x < 0 {
        (x + 0x1_0000_0000_0000_0000) as u64
    } else {
        x as u64
    }
}

/// The signed number whose two's complement is `x`.
pub open spec fn signed16(x: u16) -> i16 {
    if x < 0x8000 {
        x as i16
    } else {
        (x - 0x1_0000) as i16
    }
}

/// The signed number whose two's complement is `x`.
pub open spec fn signed32(x: u32) -> i32 {
    if x < 0x8000_0000 {
        x as i32
    } else {
        (x - 0x1_0000_0000) as i32
    }
}

/// The signed number whose two's complement is `x`.
pub open spec fn signed64(x: u64) -> i64 {
    if x < 0x8000_0000_0000_0000 {
        x as i64
    } else {
        (x - 0x1_0000_0000_0000_0000) as i64
    }
}

/// The two's complement bytes of `x`, most significant first.
pub open spec fn i16_be(x: i16) -> Seq<u8> {
    u16_be(twos16(x))
}

/// The two's complement bytes of `x`, most significant first.
pub open spec fn i32_be(x: i32) -> Seq<u8> {
    u32_be(twos32(x))
}

/// The two's complement bytes of `x`, most significant first.
pub open spec fn i64_be(x: i64) -> Seq<u8> {
    u64_be(twos64(x))
}

/// The big-endian `u16` that starts at `i`.
pub open spec fn u16_at(s: Seq<u8>, i: int) -> u16 {
    (s[i] * 0x100 + s[i + 1]) as u16
}

/// The big-endian `u32` that starts at `i`.
pub open spec fn u32_at(s: Seq<u8>, i: int) -> u32 {
    (s[i] * 0x100_0000 + s[i + 1] * 0x1_0000 + s[i + 2] * 0x100 + s[i + 3]) as u32
}

/// The big-endian `u64` that starts at `i`.
pub open spec fn u64_at(s: Seq<u8>, i: int) -> u64 {
    (u32_at(s, i) * 0x1_0000_0000 + u32_at(s, i + 4)) as u64
}

/// The big-endian `i16` that starts at `i`.
pub open spec fn i16_at(s: Seq<u8>, i: int) -> i16 {
    signed16(u16_at(s, i))
}

/// The big-endian `i32` that starts at `i`.
pub open spec fn i32_at(s: Seq<u8>, i: int) -> i32 {
    signed32(u32_at(s, i))
}

/// The big-endian `i64` that starts at `i`.
pub open spec fn i64_at(s: Seq<u8>, i: int) -> i64 {
    signed64(u64_at(s, i))
}

/// The four-byte code that starts at `i`.
pub open spec fn code_at(s: Seq<u8>, i: int) -> [u8; 4] {
    [s[i], s[i + 1], s[i + 2], s[i + 3]]
}

/// The bytes of `s` from `i` on.
pub open spec fn tail(s: Seq<u8>, i: int) -> Seq<u8> {
    s.subrange(i, s.len() as int)
}

/// `n` zero bytes.
pub open spec fn zeros(n: nat) -> Seq<u8> {
    Seq::new(n, |i: int| 0u8)
}

/// The low eight bits of a number.
pub open spec fn low8(n: int) -> u8 {
    (n % 0x100) as u8
}

/// The low sixteen bits of a number.
pub open spec fn low16(n: int) -> u16 {
    (n % 0x1_0000) as u16
}

/// The low thirty-two bits of a number.
pub open spec fn low32(n: int) -> u32 {
    (n % 0x1_0000_0000) as u32
}

/// The low sixty-four bits of a number.
pub open spec fn low64(n: int) -> u64 {
    (n % 0x1_0000_0000_0000_0000) as u64
}

/// `f(0)`, `f(1)`, ... `f(n - 1)`, one behind the other.
pub open spec fn cat(n: nat, f: spec_fn(int) -> Seq<u8>) -> Seq<u8>
    decreases n,
{
    if n == 0 {
        Seq::empty()
    } else {
        cat((n - 1) as nat, f) + f(n - 1)
    }
}

pub broadcast proof fn u16_be_len(x: u16)
    ensures
        (#[trigger] u16_be(x)).len() == 2,
{
    reveal(u16_be);
}

pub broadcast proof fn u32_be_len(x: u32)
    ensures
        (#[trigger] u32_be(x)).len() == 4,
{
    reveal(u32_be);
}

pub broadcast proof fn u64_be_len(x: u64)
    ensures
        (#[trigger] u64_be(x)).len() == 8,
{
    reveal(u64_be);
    reveal(u32_be);
}

pub broadcast group group_be_len {
    u16_be_len,
    u32_be_len,
    u64_be_len,
}

/// The bytes of the encodings.
pub proof fn lemma_be_bytes(a: u16, b: u32, c: u64)
    ensures
        u16_be(a) == seq![(a / 0x100) as u8, (a % 0x100) as u8],
        u32_be(b) == seq![
            (b / 0x100_0000) as u8,
            ((b / 0x1_0000) % 0x100) as u8,
            ((b / 0x100) % 0x100) as u8,
            (b % 0x100) as u8,
        ],
        u64_be(c) == u32_be((c / 0x1_0000_0000) as u32) + u32_be((c % 0x1_0000_0000) as u32),
{
    reveal(u16_be);
    reveal(u32_be);
    reveal(u64_be);
}

pub broadcast proof fn empty_left(s: Seq<u8>)
    ensures
        #[trigger] (Seq::<u8>::empty() + s) == s,
{
    assert(Seq::<u8>::empty() + s =~= s);
}

pub broadcast proof fn empty_right(s: Seq<u8>)
    ensures
        #[trigger] (s + Seq::<u8>::empty()) == s,
{
    assert(s + Seq::<u8>::empty() =~= s);
}

/// What was written as a big-endian `u16` is read back.
pub proof fn lemma_u16_at(s: Seq<u8>, i: int, x: u16)
    requires
        0 <= i,
        i + 2 <= s.len(),
        s.subrange(i, i + 2) == u16_be(x),
    ensures
        u16_at(s, i) == x,
{
    reveal(u16_be);
    assert(s[i] == s.subrange(i, i + 2)[0]);
    assert(s[i + 1] == s.subrange(i, i + 2)[1]);
}

/// What was written as a big-endian `u32` is read back.
pub proof fn lemma_u32_at(s: Seq<u8>, i: int, x: u32)
    requires
        0 <= i,
        i + 4 <= s.len(),
        s.subrange(i, i + 4) == u32_be(x),
    ensures
        u32_at(s, i) == x,
{
    reveal(u32_be);
    assert(s[i] == s.subrange(i, i + 4)[0]);
    assert(s[i + 1] == s.subrange(i, i + 4)[1]);
    assert(s[i + 2] == s.subrange(i, i + 4)[2]);
    assert(s[i + 3] == s.subrange(i, i + 4)[3]);
}

/// What was written as a big-endian `u64` is read back.
pub proof fn lemma_u64_at(s: Seq<u8>, i: int, x: u64)
    requires
        0 <= i,
        i + 8 <= s.len(),
        s.subrange(i, i + 8) == u64_be(x),
    ensures
        u64_at(s, i) == x,
{
    reveal(u64_be);
    broadcast use group_be_len;

    let high = (x / 0x1_0000_0000) as u32;
    let low = (x % 0x1_0000_0000) as u32;
    assert(s.subrange(i, i + 4) =~= s.subrange(i, i + 8).subrange(0, 4));
    assert(u64_be(x).subrange(0, 4) =~= u32_be(high));
    assert(s.subrange(i + 4, i + 8) =~= s.subrange(i, i + 8).subrange(4, 8));
    assert(u64_be(x).subrange(4, 8) =~= u32_be(low));
    lemma_u32_at(s, i, high);
    lemma_u32_at(s, i + 4, low);
}

/// What was written as a big-endian `i16` is read back.
pub proof fn lemma_i16_at(s: Seq<u8>, i: int, x: i16)
    requires
        0 <= i,
        i + 2 <= s.len(),
        s.subrange(i, i + 2) == i16_be(x),
    ensures
        i16_at(s, i) == x,
{
    lemma_u16_at(s, i, twos16(x));
}

/// What was written as a big-endian `i32` is read back.
pub proof fn lemma_i32_at(s: Seq<u8>, i: int, x: i32)
    requires
        0 <= i,
        i + 4 <= s.len(),
        s.subrange(i, i + 4) == i32_be(x),
    ensures
        i32_at(s, i) == x,
{
    lemma_u32_at(s, i, twos32(x));
}

/// What was written as a big-endian `i64` is read back.
pub proof fn lemma_i64_at(s: Seq<u8>, i: int, x: i64)
    requires
        0 <= i,
        i + 8 <= s.len(),
        s.subrange(i, i + 8) == i64_be(x),
    ensures
        i64_at(s, i) == x,
{
    lemma_u64_at(s, i, twos64(x));
}

/// A sum may be cut to sixty-four bits at each step.
pub proof fn lemma_low64_sum(a: int, b: int)
    ensures
        low64(low64(a) + b) == low64(a + b),
        low64(a + low64(b)) == low64(a + b),
{
    let m = 0x1_0000_0000_0000_0000int;
    vstd::arithmetic::div_mod::lemma_add_mod_noop(a, b, m);
    vstd::arithmetic::div_mod::lemma_add_mod_noop(a % m, b, m);
    vstd::arithmetic::div_mod::lemma_add_mod_noop(a, b % m, m);
    vstd::arithmetic::div_mod::lemma_mod_twice(a, m);
    vstd::arithmetic::div_mod::lemma_mod_twice(b, m);
}

/// The low bits of a sum are those of the sum of the low bits.
pub proof fn lemma_low64_two(a: int, b: int)
    ensures
        low64(low64(a) + low64(b)) == low64(a + b),
{
    lemma_low64_sum(a, b);
    lemma_low64_sum(low64(a) as int, b);
}

/// A part of a part is a part of the whole.
pub proof fn lemma_part(s: Seq<u8>, a: int, b: int, c: int, d: int)
    requires
        0 <= a <= b <= s.len(),
        0 <= c <= d <= b - a,
    ensures
        s.subrange(a, b).subrange(c, d) == s.subrange(a + c, a + d),
{
    assert(s.subrange(a, b).subrange(c, d) =~= s.subrange(a + c, a + d));
}

/// Appending one more piece.
pub proof fn lemma_cat_push(before: Seq<u8>, n: nat, f: spec_fn(int) -> Seq<u8>)
    ensures
        (before + cat(n, f)) + f(n as int) == before + cat(n + 1, f),
{
    assert((before + cat(n, f)) + f(n as int) =~= before + cat(n + 1, f));
}

/// The length of a concatenation of pieces that all have the same length.
pub proof fn lemma_cat_len(n: nat, f: spec_fn(int) -> Seq<u8>, k: nat)
    requires
        forall|i: int| 0 <= i < n ==> (#[trigger] f(i)).len() == k,
    ensures
        cat(n, f).len() == n * k,
    decreases n,
{
    if n > 0 {
        lemma_cat_len((n - 1) as nat, f, k);
        assert(f(n - 1).len() == k);
        assert(n * k == (n - 1) * k + k) by (nonlinear_arith)
            requires
                n > 0,
        ;
    } else {
        assert(0 * k == 0) by (nonlinear_arith);
    }
}

/// Piece `i` of a concatenation stands behind the pieces before it.
pub proof fn lemma_cat_piece(n: nat, f: spec_fn(int) -> Seq<u8>, i: int)
    requires
        0 <= i < n,
    ensures
        cat(i as nat, f).len() + f(i).len() <= cat(n, f).len(),
        cat(n, f).subrange(
            cat(i as nat, f).len() as int,
            (cat(i as nat, f).len() + f(i).len()) as int,
        ) == f(i),
    decreases n,
{
    let before = cat((n - 1) as nat, f);
    let at = cat(i as nat, f).len() as int;
    if i == n - 1 {
        assert(cat(n, f).subrange(at, at + f(i).len()) =~= f(i));
    } else {
        lemma_cat_piece((n - 1) as nat, f, i);
        assert(cat(n, f).subrange(at, at + f(i).len()) =~= before.subrange(at, at + f(i).len()));
    }
}

/// A part of the last of four sequences, found in the four together.
pub proof fn lemma_part_of_last(a: Seq<u8>, b: Seq<u8>, c: Seq<u8>, d: Seq<u8>, lo: int, hi: int)
    requires
        0 <= lo <= hi <= d.len(),
    ensures
        (a + b + c + d).len() == a.len() + b.len() + c.len() + d.len(),
        (a + b + c + d).subrange(
            a.len() + b.len() + c.len() + lo,
            a.len() + b.len() + c.len() + hi,
        ) == d.subrange(lo, hi),
{
    assert((a + b + c + d).subrange(
        a.len() + b.len() + c.len() + lo,
        a.len() + b.len() + c.len() + hi,
    ) =~= d.subrange(lo, hi));
}

/// Where a concatenation stands in a sequence, its pieces stand one behind the other.
pub proof fn lemma_piece_at(s: Seq<u8>, p: int, n: nat, f: spec_fn(int) -> Seq<u8>, j: int)
    requires
        0 <= p,
        p + cat(n, f).len() <= s.len(),
        s.subrange(p, p + cat(n, f).len()) == cat(n, f),
        0 <= j < n,
    ensures
        p + cat(j as nat, f).len() + f(j).len() <= s.len(),
        s.subrange(
            p + cat(j as nat, f).len(),
            p + cat(j as nat, f).len() + f(j).len(),
        ) == f(j),
{
    lemma_cat_piece(n, f, j);
    let k = cat(j as nat, f).len() as int;
    lemma_part(s, p, p + cat(n, f).len(), k, k + f(j).len());
}

/// Read the big-endian `u16` that starts at `i`.
pub fn read_u16(s: &[u8], i: usize) -> (r: u16)
    requires
        i + 2 <= s@.len(),
    ensures
        r == u16_at(s@, i as int),
{
    (s[i] as u16) * 0x100 + (s[i + 1] as u16)
}

/// Read the big-endian `u32` that starts at `i`.
pub fn read_u32(s: &[u8], i: usize) -> (r: u32)
    requires
        i + 4 <= s@.len(),
    ensures
        r == u32_at(s@, i as int),
{
    (s[i] as u32) * 0x100_0000 + (s[i + 1] as u32) * 0x1_0000 + (s[i + 2] as u32) * 0x100 + (s[i
        + 3] as u32)
}

/// Read the big-endian `u64` that starts at `i`.
pub fn read_u64(s: &[u8], i: usize) -> (r: u64)
    requires
        i + 8 <= s@.len(),
    ensures
        r == u64_at(s@, i as int),
{
    assert(s.len() == s@.len());
    (read_u32(s, i) as u64) * 0x1_0000_0000 + (read_u32(s, i + 4) as u64)
}

/// Read the big-endian `i16` that starts at `i`.
pub fn read_i16(s: &[u8], i: usize) -> (r: i16)
    requires
        i + 2 <= s@.len(),
    ensures
        r == i16_at(s@, i as int),
{
    let x: u16 = read_u16(s, i);
    if x < 0x8000 {
        x as i16
    } else {
        (x as i32 - 0x1_0000) as i16
    }
}

/// Read the big-endian `i32` that starts at `i`.
pub fn read_i32(s: &[u8], i: usize) -> (r: i32)
    requires
        i + 4 <= s@.len(),
    ensures
        r == i32_at(s@, i as int),
{
    let x: u32 = read_u32(s, i);
    if x < 0x8000_0000 {
        x as i32
    } else {
        (x as i64 - 0x1_0000_0000) as i32
    }
}

/// Read the big-endian `i64` that starts at `i`.
pub fn read_i64(s: &[u8], i: usize) -> (r: i64)
    requires
        i + 8 <= s@.len(),
    ensures
        r == i64_at(s@, i as int),
{
    let x: u64 = read_u64(s, i);
    if x < 0x8000_0000_0000_0000 {
        x as i64
    } else {
        (x as i128 - 0x1_0000_0000_0000_0000) as i64
    }
}

/// Read the four-byte code that starts at `i`.
pub fn read_code(s: &[u8], i: usize) -> (r: [u8; 4])
    requires
        i + 4 <= s@.len(),
    ensures
        r == code_at(s@, i as int),
        r@ == s@.subrange(i as int, i + 4),
{
    let r = [s[i], s[i + 1], s[i + 2], s[i + 3]];
    assert(r@ =~= s@.subrange(i as int, i + 4));
    r
}

/// Whether two four-byte codes are the same.
pub fn same_code(x: &[u8; 4], y: &[u8; 4]) -> (r: bool)
    ensures
        r == (x == y),
        r == (x@ == y@),
{
    let r = x[0] == y[0] && x[1] == y[1] && x[2] == y[2] && x[3] == y[3];
    assert(r ==> x =~= y);
    r
}

/// Append a byte.
pub fn put_u8(out: &mut Vec<u8>, x: u8)
    ensures
        final(out)@ == old(out)@ + seq![x],
{
    out.push(x);
    assert(out@ =~= old(out)@ + seq![x]);
}

/// Append a big-endian `u16`.
pub fn put_u16(out: &mut Vec<u8>, x: u16)
    ensures
        final(out)@ == old(out)@ + u16_be(x),
{
    proof {
        reveal(u16_be);
    }
    out.push((x / 0x100) as u8);
    out.push((x % 0x100) as u8);
    assert(out@ =~= old(out)@ + u16_be(x));
}

/// Append a big-endian `u32`.
pub fn put_u32(out: &mut Vec<u8>, x: u32)
    ensures
        final(out)@ == old(out)@ + u32_be(x),
{
    proof {
        reveal(u32_be);
    }
    out.push((x / 0x100_0000) as u8);
    out.push(((x / 0x1_0000) % 0x100) as u8);
    out.push(((x / 0x100) % 0x100) as u8);
    out.push((x % 0x100) as u8);
    assert(out@ =~= old(out)@ + u32_be(x));
}

/// Append a big-endian `u64`.
pub fn put_u64(out: &mut Vec<u8>, x: u64)
    ensures
        final(out)@ == old(out)@ + u64_be(x),
{
    proof {
        reveal(u64_be);
    }
    put_u32(out, (x / 0x1_0000_0000) as u32);
    put_u32(out, (x % 0x1_0000_0000) as u32);
    assert(out@ =~= old(out)@ + u64_be(x));
}

/// Append a big-endian `i16`.
pub fn put_i16(out: &mut Vec<u8>, x: i16)
    ensures
        final(out)@ == old(out)@ + i16_be(x),
{
    if x < 0 {
        put_u16(out, (x as i32 + 0x1_0000) as u16);
    } else {
        put_u16(out, x as u16);
    }
}

/// Append a big-endian `i32`.
pub fn put_i32(out: &mut Vec<u8>, x: i32)
    ensures
        final(out)@ == old(out)@ + i32_be(x),
{
    if x < 0 {
        put_u32(out, (x as i64 + 0x1_0000_0000) as u32);
    } else {
        put_u32(out, x as u32);
    }
}

/// Append a big-endian `i64`.
pub fn put_i64(out: &mut Vec<u8>, x: i64)
    ensures
        final(out)@ == old(out)@ + i64_be(x),
{
    if x < 0 {
        put_u64(out, (x as i128 + 0x1_0000_0000_0000_0000) as u64);
    } else {
        put_u64(out, x as u64);
    }
}

/// Append a four-byte code.
pub fn put_code(out: &mut Vec<u8>, x: [u8; 4])
    ensures
        final(out)@ == old(out)@ + x@,
{
    out.extend_from_slice(&x);
    assert(out@ =~= old(out)@ + x@);
}

/// Append bytes.
pub fn put_bytes(out: &mut Vec<u8>, x: &[u8])
    ensures
        final(out)@ == old(out)@ + x@,
{
    out.extend_from_slice(x);
    assert(out@ =~= old(out)@ + x@);
}

/// Append `n` zero bytes.
pub fn put_zeros(out: &mut Vec<u8>, n: usize)
    ensures
        final(out)@ == old(out)@ + zeros(n as nat),
{
    for i in 0..n
        invariant
            out@ =~= old(out)@ + zeros(i as nat),
    {
        out.push(0);
    }
}

/// The low sixty-four bits of a sum.
pub fn plus64(a: u64, b: u64) -> (r: u64)
    ensures
        r == low64(a + b),
{
    ((a as u128 + b as u128) % 0x1_0000_0000_0000_0000) as u64
}

/// The low sixteen bits of a length.
pub fn low16_of(n: usize) -> (r: u16)
    ensures
        r == low16(n as int),
{
    (n % 0x1_0000) as u16
}

/// The low eight bits of a length.
pub fn low8_of(n: usize) -> (r: u8)
    ensures
        r == low8(n as int),
{
    (n % 0x100) as u8
}

/// Whether two byte sequences are the same.
pub fn same_bytes(a: &[u8], b: &[u8]) -> (r: bool)
    ensures
        r == (a@ == b@),
{
    if a.len() != b.len() {
        return false;
    }
    for i in 0..a.len()
        invariant
            a@.len() == b@.len(),
            forall|j: int| 0 <= j < i ==> a@[j] == b@[j],
    {
        if a[i] != b[i] {
            return false;
        }
    }
    assert(a@ =~= b@);
    true
}

/// The low thirty-two bits of a length.
pub fn low32_of(n: usize) -> (r: u32)
    ensures
        r == low32(n as int),
{
    (n as u64 % 0x1_0000_0000) as u32
}

/// The low thirty-two bits of a length plus a small number.
pub fn low32_plus(n: usize, k: u32) -> (r: u32)
    ensures
        r == low32(n + k),
{
    ((n as u64 % 0x1_0000_0000 + k as u64) % 0x1_0000_0000) as u32
}

} // verus!
