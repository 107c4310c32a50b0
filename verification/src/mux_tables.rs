//! The sample tables of a track: durations, composition offsets, sync samples,
//! sizes and the place of the samples in the file.
use crate::atom::{atom, push_atom};
use crate::bytes::{
    cat, empty_left, group_be_len, i32_be, i64_be, lemma_be_bytes, lemma_cat_push, lemma_i32_at,
    lemma_i64_at, low32, low32_of, low32_plus, low64, put_i32, put_i64, put_u32, put_u64, put_u8,
    signed64, twos32, u32_be, u64_be,
};
use crate::error::Error;
use crate::fourcc::{STSZ, STZ2};
use crate::media_meta::{cslg_of, Cslg};
use crate::mux_types::{CslgWrite, MuxSample, TrackWrite};
use crate::runs::{put_run_table, run_lengths, run_table, runs};
use vstd::prelude::*;

verus! {

/// The durations of samples.
pub open spec fn durations(s: Seq<MuxSample>) -> Seq<u32> {
    Seq::new(s.len(), |i: int| s[i].duration)
}

/// The composition offsets of samples, in two's complement.
pub open spec fn offsets(s: Seq<MuxSample>) -> Seq<u32> {
    Seq::new(s.len(), |i: int| twos32(s[i].composition_offset))
}

/// The body of the `stts` box: runs of equal durations.
pub open spec fn stts_body(s: Seq<MuxSample>) -> Seq<u8> {
    u32_be(0) + run_table(runs(durations(s)))
}

/// Serialise the body of the `stts` box.
pub fn build_stts(t: &TrackWrite) -> (r: Vec<u8>)
    ensures
        r@ == stts_body(t.samples@),
{
    broadcast use empty_left;

    let mut values: Vec<u32> = Vec::new();
    for i in 0..t.samples.len()
        invariant
            values@ =~= durations(t.samples@).take(i as int),
    {
        values.push(t.samples[i].duration);
    }
    assert(values@ =~= durations(t.samples@));
    let mut p: Vec<u8> = Vec::new();
    put_u32(&mut p, 0);
    put_run_table(&mut p, &run_lengths(&values));
    p
}

/// Some sample has a composition offset.
pub open spec fn has_offset(s: Seq<MuxSample>) -> bool {
    exists|i: int| 0 <= i < s.len() && (#[trigger] s[i]).composition_offset != 0
}

/// Some sample has a negative composition offset.
pub open spec fn has_negative_offset(s: Seq<MuxSample>) -> bool {
    exists|i: int| 0 <= i < s.len() && (#[trigger] s[i]).composition_offset < 0
}

/// The body of the `ctts` box: runs of equal offsets, in version 1 where one is
/// negative.
pub open spec fn ctts_body(s: Seq<MuxSample>) -> Seq<u8> {
    u32_be(
        if has_negative_offset(s) {
            0x0100_0000u32
        } else {
            0u32
        },
    ) + run_table(runs(offsets(s)))
}

/// Serialise the body of the `ctts` box; `None` where all offsets are 0.
pub fn build_ctts(t: &TrackWrite) -> (r: Option<Vec<u8>>)
    ensures
        r is Some <==> has_offset(t.samples@),
        r matches Some(b) ==> b@ == ctts_body(t.samples@),
{
    broadcast use empty_left;

    let mut values: Vec<u32> = Vec::new();
    let mut any = false;
    let mut negative = false;
    for i in 0..t.samples.len()
        invariant
            values@ =~= offsets(t.samples@).take(i as int),
            any == exists|k: int| 0 <= k < i && (#[trigger] t.samples@[k]).composition_offset != 0,
            negative == exists|k: int|
                0 <= k < i && (#[trigger] t.samples@[k]).composition_offset < 0,
    {
        let off: i32 = t.samples[i].composition_offset;
        if off != 0 {
            assert(t.samples@[i as int].composition_offset != 0);
            any = true;
        }
        if off < 0 {
            assert(t.samples@[i as int].composition_offset < 0);
            negative = true;
        }
        values.push(if off < 0 {
            (off as i64 + 0x1_0000_0000) as u32
        } else {
            off as u32
        });
    }
    assert(values@ =~= offsets(t.samples@));
    if !any {
        return None;
    }
    let mut p: Vec<u8> = Vec::new();
    put_u32(&mut p, if negative {
        0x0100_0000
    } else {
        0
    });
    put_run_table(&mut p, &run_lengths(&values));
    Some(p)
}

/// When sample `n` is decoded: the sum of the durations before it.
pub open spec fn decode_time(s: Seq<MuxSample>, n: nat) -> int
    decreases n,
{
    if n == 0 {
        0
    } else {
        decode_time(s, (n - 1) as nat) + s[n - 1].duration
    }
}

/// When sample `i` is presented.
pub open spec fn composition_time(s: Seq<MuxSample>, i: int) -> int {
    decode_time(s, i as nat) + s[i].composition_offset
}

/// The lesser of two numbers.
pub open spec fn lesser(a: int, b: int) -> int {
    if a <= b {
        a
    } else {
        b
    }
}

/// The greater of two numbers.
pub open spec fn greater(a: int, b: int) -> int {
    if a >= b {
        a
    } else {
        b
    }
}

/// The least composition offset of the first `n` samples.
pub open spec fn least_offset(s: Seq<MuxSample>, n: nat) -> int
    decreases n,
{
    if n <= 1 {
        s[0].composition_offset as int
    } else {
        lesser(least_offset(s, (n - 1) as nat), s[n - 1].composition_offset as int)
    }
}

/// The greatest composition offset of the first `n` samples.
pub open spec fn greatest_offset(s: Seq<MuxSample>, n: nat) -> int
    decreases n,
{
    if n <= 1 {
        s[0].composition_offset as int
    } else {
        greater(greatest_offset(s, (n - 1) as nat), s[n - 1].composition_offset as int)
    }
}

/// The earliest composition time of the first `n` samples.
pub open spec fn earliest(s: Seq<MuxSample>, n: nat) -> int
    decreases n,
{
    if n <= 1 {
        composition_time(s, 0)
    } else {
        lesser(earliest(s, (n - 1) as nat), composition_time(s, n - 1))
    }
}

/// The latest end in composition time of the first `n` samples.
pub open spec fn latest(s: Seq<MuxSample>, n: nat) -> int
    decreases n,
{
    if n <= 1 {
        composition_time(s, 0) + s[0].duration
    } else {
        greater(latest(s, (n - 1) as nat), composition_time(s, n - 1) + s[n - 1].duration)
    }
}

/// A time in 64 bits.
pub open spec fn cut(x: int) -> i64 {
    signed64(low64(x))
}

/// The bounds of the composition time line of samples.
pub open spec fn derived_cslg(s: Seq<MuxSample>) -> Cslg {
    let n = s.len();
    if n == 0 {
        Cslg {
            composition_to_dts_shift: 0,
            least_decode_to_display_delta: 0,
            greatest_decode_to_display_delta: 0,
            composition_start_time: 0,
            composition_end_time: 0,
        }
    } else {
        Cslg {
            composition_to_dts_shift: greater(-least_offset(s, n), 0) as i64,
            least_decode_to_display_delta: least_offset(s, n) as i64,
            greatest_decode_to_display_delta: greatest_offset(s, n) as i64,
            composition_start_time: cut(earliest(s, n)),
            composition_end_time: cut(latest(s, n)),
        }
    }
}

fn to_i64(x: i128) -> (r: i64)
    ensures
        r == cut(x as int),
{
    let m: u128 = 0x1_0000_0000_0000_0000;
    let low: u64 = if x >= 0 {
        (x as u128 % m) as u64
    } else {
        let k: u128 = (-(x + 1)) as u128;
        proof {
            let q = k as int / m as int;
            vstd::arithmetic::div_mod::lemma_fundamental_div_mod(k as int, m as int);
            vstd::arithmetic::div_mod::lemma_fundamental_div_mod_converse(
                x as int,
                m as int,
                -q - 1,
                m - 1 - k as int % m as int,
            );
        }
        (m - 1 - k % m) as u64
    };
    if low < 0x8000_0000_0000_0000 {
        low as i64
    } else {
        (low as i128 - 0x1_0000_0000_0000_0000) as i64
    }
}

/// The bounds of the composition time line of a track.
pub fn derive_cslg(t: &TrackWrite) -> (r: Cslg)
    ensures
        r == derived_cslg(t.samples@),
{
    let n: usize = t.samples.len();
    if n == 0 {
        return Cslg::default();
    }
    let ghost s = t.samples@;
    let mut dts: i128 = 0;
    let mut least: i64 = 0;
    let mut greatest: i64 = 0;
    let mut start: i128 = 0;
    let mut end: i128 = 0;
    for i in 0..n
        invariant
            n == t.samples@.len(),
            s == t.samples@,
            dts == decode_time(s, i as nat),
            0 <= dts <= i * 0xffff_ffff,
            i > 0 ==> least == least_offset(s, i as nat),
            i > 0 ==> greatest == greatest_offset(s, i as nat),
            i > 0 ==> start == earliest(s, i as nat),
            i > 0 ==> end == latest(s, i as nat),
            -0x8000_0000 <= least <= 0x7fff_ffff,
    {
        let offset: i64 = t.samples[i].composition_offset as i64;
        let duration: i128 = t.samples[i].duration as i128;
        let ct: i128 = dts + offset as i128;
        if i == 0 || offset < least {
            least = offset;
        }
        if i == 0 || offset > greatest {
            greatest = offset;
        }
        if i == 0 || ct < start {
            start = ct;
        }
        if i == 0 || ct + duration > end {
            end = ct + duration;
        }
        dts = dts + duration;
    }
    let shift: i64 = if least < 0 {
        -least
    } else {
        0
    };
    Cslg {
        composition_to_dts_shift: shift,
        least_decode_to_display_delta: least,
        greatest_decode_to_display_delta: greatest,
        composition_start_time: to_i64(start),
        composition_end_time: to_i64(end),
    }
}

/// The number fits in 32 bits.
pub open spec fn narrow64(x: i64) -> bool {
    -0x8000_0000 <= x <= 0x7fff_ffff
}

/// All bounds fit in 32 bits.
pub open spec fn narrow_cslg(c: Cslg) -> bool {
    narrow64(c.composition_to_dts_shift) && narrow64(c.least_decode_to_display_delta) && narrow64(
        c.greatest_decode_to_display_delta,
    ) && narrow64(c.composition_start_time) && narrow64(c.composition_end_time)
}

/// The body of the `cslg` box: five 32-bit numbers, or in version 1 five 64-bit
/// numbers where one needs them.
pub open spec fn cslg_body(c: Cslg) -> Seq<u8> {
    if narrow_cslg(c) {
        u32_be(0) + i32_be(c.composition_to_dts_shift as i32) + i32_be(
            c.least_decode_to_display_delta as i32,
        ) + i32_be(c.greatest_decode_to_display_delta as i32) + i32_be(
            c.composition_start_time as i32,
        ) + i32_be(c.composition_end_time as i32)
    } else {
        u32_be(0x0100_0000) + i64_be(c.composition_to_dts_shift) + i64_be(
            c.least_decode_to_display_delta,
        ) + i64_be(c.greatest_decode_to_display_delta) + i64_be(c.composition_start_time) + i64_be(
            c.composition_end_time,
        )
    }
}

/// The bounds that a track asks for.
pub open spec fn wanted_cslg(t: TrackWrite) -> Option<Cslg> {
    match t.cslg {
        None => None,
        Some(CslgWrite::Auto) => Some(derived_cslg(t.samples@)),
        Some(CslgWrite::Explicit(c)) => Some(c),
    }
}

fn is_narrow(x: i64) -> (r: bool)
    ensures
        r == narrow64(x),
{
    -0x8000_0000 <= x && x <= 0x7fff_ffff
}

/// Serialise the body of the `cslg` box; `None` where the track asks for none.
pub fn build_cslg(t: &TrackWrite) -> (r: Option<Vec<u8>>)
    ensures
        match wanted_cslg(*t) {
            Some(c) => r is Some && r->Some_0@ == cslg_body(c),
            None => r is None,
        },
{
    broadcast use empty_left;

    let c = match t.cslg {
        None => {
            return None;
        },
        Some(CslgWrite::Auto) => derive_cslg(t),
        Some(CslgWrite::Explicit(c)) => c,
    };
    let narrow = is_narrow(c.composition_to_dts_shift) && is_narrow(c.least_decode_to_display_delta)
        && is_narrow(c.greatest_decode_to_display_delta) && is_narrow(c.composition_start_time)
        && is_narrow(c.composition_end_time);
    let mut p: Vec<u8> = Vec::new();
    if narrow {
        put_u32(&mut p, 0);
        put_i32(&mut p, c.composition_to_dts_shift as i32);
        put_i32(&mut p, c.least_decode_to_display_delta as i32);
        put_i32(&mut p, c.greatest_decode_to_display_delta as i32);
        put_i32(&mut p, c.composition_start_time as i32);
        put_i32(&mut p, c.composition_end_time as i32);
    } else {
        put_u32(&mut p, 0x0100_0000);
        put_i64(&mut p, c.composition_to_dts_shift);
        put_i64(&mut p, c.least_decode_to_display_delta);
        put_i64(&mut p, c.greatest_decode_to_display_delta);
        put_i64(&mut p, c.composition_start_time);
        put_i64(&mut p, c.composition_end_time);
    }
    Some(p)
}

/// The numbers, counted from 1, of the sync samples among the first `n`.
pub open spec fn sync_numbers(s: Seq<MuxSample>, n: nat) -> Seq<u32>
    decreases n,
{
    if n == 0 {
        Seq::empty()
    } else {
        let before = sync_numbers(s, (n - 1) as nat);
        if s[n - 1].keyframe {
            before.push(low32(n as int))
        } else {
            before
        }
    }
}

/// Some sample is not a sync sample.
pub open spec fn has_other_than_sync(s: Seq<MuxSample>) -> bool {
    exists|i: int| 0 <= i < s.len() && !(#[trigger] s[i]).keyframe
}

/// The bytes of a list of numbers.
pub open spec fn number_rows(v: Seq<u32>) -> spec_fn(int) -> Seq<u8> {
    |i: int| u32_be(v[i])
}

/// The body of the `stss` box.
pub open spec fn stss_body(s: Seq<MuxSample>) -> Seq<u8> {
    let v = sync_numbers(s, s.len());
    u32_be(0) + u32_be(low32(v.len() as int)) + cat(v.len(), number_rows(v))
}

/// Append the bytes of a list of numbers.
pub fn put_numbers(out: &mut Vec<u8>, v: &Vec<u32>)
    ensures
        final(out)@ == old(out)@ + cat(v@.len(), number_rows(v@)),
{
    let ghost f = number_rows(v@);
    assert(out@ =~= old(out)@ + cat(0, f));
    for i in 0..v.len()
        invariant
            f == number_rows(v@),
            out@ == old(out)@ + cat(i as nat, f),
    {
        put_u32(out, v[i]);
        proof {
            lemma_cat_push(old(out)@, i as nat, f);
        }
    }
}

/// Serialise the body of the `stss` box; `None` where all samples are sync
/// samples.
pub fn build_stss(t: &TrackWrite) -> (r: Option<Vec<u8>>)
    ensures
        r is Some <==> has_other_than_sync(t.samples@),
        r matches Some(b) ==> b@ == stss_body(t.samples@),
{
    broadcast use empty_left;

    let mut numbers: Vec<u32> = Vec::new();
    let mut other = false;
    for i in 0..t.samples.len()
        invariant
            numbers@ == sync_numbers(t.samples@, i as nat),
            other == exists|k: int| 0 <= k < i && !(#[trigger] t.samples@[k]).keyframe,
    {
        if t.samples[i].keyframe {
            numbers.push(low32_plus(i, 1));
        } else {
            assert(!t.samples@[i as int].keyframe);
            other = true;
        }
    }
    if !other {
        return None;
    }
    let mut p: Vec<u8> = Vec::new();
    put_u32(&mut p, 0);
    put_u32(&mut p, low32_of(numbers.len()));
    put_numbers(&mut p, &numbers);
    Some(p)
}

/// The body of the `stsc` box: one chunk with all samples.
pub open spec fn stsc_body(s: Seq<MuxSample>) -> Seq<u8> {
    u32_be(0) + u32_be(1) + u32_be(1) + u32_be(low32(s.len() as int)) + u32_be(1)
}

/// Serialise the body of the `stsc` box.
pub fn build_stsc(t: &TrackWrite) -> (r: Vec<u8>)
    ensures
        r@ == stsc_body(t.samples@),
{
    broadcast use empty_left;

    let mut p: Vec<u8> = Vec::new();
    put_u32(&mut p, 0);
    put_u32(&mut p, 1);
    put_u32(&mut p, 1);
    put_u32(&mut p, low32_of(t.samples.len()));
    put_u32(&mut p, 1);
    p
}

/// The size of a sample in 32 bits.
pub open spec fn size32(s: MuxSample) -> u32 {
    low32(s.data@.len() as int)
}

/// All samples have the same size in 32 bits.
pub open spec fn same_sizes(s: Seq<MuxSample>) -> bool {
    forall|i: int| 0 <= i < s.len() ==> size32(#[trigger] s[i]) == size32(s[0])
}

/// The sizes of samples.
pub open spec fn size_rows(s: Seq<MuxSample>) -> spec_fn(int) -> Seq<u8> {
    |i: int| u32_be(size32(s[i]))
}

/// The body of the `stsz` box: one size for all samples, or 0 and a table.
pub open spec fn stsz_body(s: Seq<MuxSample>) -> Seq<u8> {
    if same_sizes(s) {
        u32_be(0) + u32_be(size32(s[0])) + u32_be(low32(s.len() as int))
    } else {
        u32_be(0) + u32_be(0) + u32_be(low32(s.len() as int)) + cat(s.len(), size_rows(s))
    }
}

/// Serialise the body of the `stsz` box.
pub fn build_stsz(t: &TrackWrite) -> (r: Vec<u8>)
    requires
        t.samples@.len() > 0,
    ensures
        r@ == stsz_body(t.samples@),
{
    broadcast use empty_left;

    let first: u32 = low32_of(t.samples[0].data.len());
    let mut uniform = true;
    for i in 0..t.samples.len()
        invariant
            t.samples@.len() > 0,
            first == size32(t.samples@[0]),
            uniform == forall|k: int|
                0 <= k < i ==> size32(#[trigger] t.samples@[k]) == size32(t.samples@[0]),
    {
        if low32_of(t.samples[i].data.len()) != first {
            assert(size32(t.samples@[i as int]) != size32(t.samples@[0]));
            uniform = false;
        }
    }
    let mut p: Vec<u8> = Vec::new();
    put_u32(&mut p, 0);
    if uniform {
        put_u32(&mut p, first);
        put_u32(&mut p, low32_of(t.samples.len()));
        return p;
    }
    put_u32(&mut p, 0);
    put_u32(&mut p, low32_of(t.samples.len()));
    let ghost before = p@;
    let ghost f = size_rows(t.samples@);
    assert(p@ =~= before + cat(0, f));
    for i in 0..t.samples.len()
        invariant
            f == size_rows(t.samples@),
            p@ == before + cat(i as nat, f),
    {
        put_u32(&mut p, low32_of(t.samples[i].data.len()));
        proof {
            lemma_cat_push(before, i as nat, f);
        }
    }
    p
}

/// All samples have the same length.
pub open spec fn same_lengths(s: Seq<MuxSample>) -> bool {
    forall|i: int| 0 <= i < s.len() ==> (#[trigger] s[i]).data@.len() == s[0].data@.len()
}

/// No sample is longer than `n`.
pub open spec fn within(s: Seq<MuxSample>, n: nat) -> bool {
    forall|i: int| 0 <= i < s.len() ==> (#[trigger] s[i]).data@.len() <= n
}

/// Two sizes of four bits in a byte, the first in the top bits.
pub open spec fn size_pairs(s: Seq<MuxSample>) -> spec_fn(int) -> Seq<u8> {
    |k: int|
        seq![
            (s[2 * k].data@.len() * 16 + (if 2 * k + 1 < s.len() {
                s[2 * k + 1].data@.len()
            } else {
                0
            })) as u8,
        ]
}

/// Sizes of eight bits.
pub open spec fn size_bytes(s: Seq<MuxSample>) -> spec_fn(int) -> Seq<u8> {
    |i: int| seq![s[i].data@.len() as u8]
}

/// The compact box is wanted and pays: sizes differ and fit in eight bits.
pub open spec fn compact_sizes(t: TrackWrite) -> bool {
    t.compact_sample_size && !same_lengths(t.samples@) && within(t.samples@, 0xff)
}

/// The body of the `stz2` box: sizes in four or eight bits.
pub open spec fn stz2_body(s: Seq<MuxSample>) -> Seq<u8> {
    if within(s, 0xf) {
        u32_be(0) + u32_be(4) + u32_be(low32(s.len() as int)) + cat(
            (s.len() + 1) / 2,
            size_pairs(s),
        )
    } else {
        u32_be(0) + u32_be(8) + u32_be(low32(s.len() as int)) + cat(s.len(), size_bytes(s))
    }
}

/// Serialise the body of the `stz2` box; `None` where it is not wanted or does
/// not pay.
pub fn build_stz2(t: &TrackWrite) -> (r: Option<Vec<u8>>)
    requires
        t.compact_sample_size ==> t.samples@.len() > 0,
    ensures
        r is Some <==> compact_sizes(*t),
        r matches Some(b) ==> b@ == stz2_body(t.samples@),
{
    broadcast use empty_left;

    if !t.compact_sample_size {
        return None;
    }
    let first: usize = t.samples[0].data.len();
    let n: usize = t.samples.len();
    let mut same = true;
    let mut max: usize = 0;
    for i in 0..n
        invariant
            n == t.samples@.len(),
            n > 0,
            first == t.samples@[0].data@.len(),
            same == forall|k: int|
                0 <= k < i ==> (#[trigger] t.samples@[k]).data@.len() == t.samples@[0].data@.len(),
            forall|k: int| 0 <= k < i ==> (#[trigger] t.samples@[k]).data@.len() <= max,
            max == 0 || exists|k: int| 0 <= k < i && (#[trigger] t.samples@[k]).data@.len() == max,
    {
        let len: usize = t.samples[i].data.len();
        if len != first {
            assert(t.samples@[i as int].data@.len() != t.samples@[0].data@.len());
            same = false;
        }
        if len > max {
            assert(t.samples@[i as int].data@.len() == len);
            max = len;
        }
    }
    if same || max > 0xff {
        return None;
    }
    let mut p: Vec<u8> = Vec::new();
    put_u32(&mut p, 0);
    if max <= 0xf {
        put_u32(&mut p, 4);
        put_u32(&mut p, low32_of(n));
        let ghost before = p@;
        let ghost f = size_pairs(t.samples@);
        assert(p@ =~= before + cat(0, f));
        let half: usize = n / 2 + n % 2;
        for k in 0..half
            invariant
                n == t.samples@.len(),
                half == (n + 1) / 2,
                within(t.samples@, 0xf),
                f == size_pairs(t.samples@),
                p@ == before + cat(k as nat, f),
        {
            assert(2 * k < n);
            let hi: u8 = t.samples[2 * k].data.len() as u8;
            let lo: u8 = if 2 * k < n - 1 {
                t.samples[2 * k + 1].data.len() as u8
            } else {
                0
            };
            assert(t.samples@[2 * k].data@.len() <= 0xf);
            put_u8(&mut p, hi * 16 + lo);
            proof {
                lemma_cat_push(before, k as nat, f);
            }
        }
    } else {
        put_u32(&mut p, 8);
        put_u32(&mut p, low32_of(n));
        let ghost before = p@;
        let ghost f = size_bytes(t.samples@);
        assert(p@ =~= before + cat(0, f));
        for i in 0..n
            invariant
                n == t.samples@.len(),
                within(t.samples@, 0xff),
                f == size_bytes(t.samples@),
                p@ == before + cat(i as nat, f),
        {
            put_u8(&mut p, t.samples[i].data.len() as u8);
            proof {
                lemma_cat_push(before, i as nat, f);
            }
        }
    }
    Some(p)
}

/// The box of the sample sizes.
pub open spec fn size_atom(t: TrackWrite) -> Seq<u8> {
    if compact_sizes(t) {
        atom(STZ2, stz2_body(t.samples@))
    } else {
        atom(STSZ, stsz_body(t.samples@))
    }
}

/// Append the box of the sample sizes: `stz2` where it is wanted and pays, else
/// `stsz`.
pub fn push_sample_size_atom(stbl: &mut Vec<u8>, t: &TrackWrite)
    requires
        t.samples@.len() > 0,
    ensures
        final(stbl)@ == old(stbl)@ + size_atom(*t),
{
    match build_stz2(t) {
        Some(body) => push_atom(stbl, STZ2, body.as_slice()),
        None => {
            let body = build_stsz(t);
            push_atom(stbl, STSZ, body.as_slice());
        },
    }
}

/// The body of the `stco` box: one chunk.
pub open spec fn stco_body(chunk_offset: u32) -> Seq<u8> {
    u32_be(0) + u32_be(1) + u32_be(chunk_offset)
}

/// Serialise the body of the `stco` box.
pub fn build_stco(chunk_offset: u32) -> (r: Vec<u8>)
    ensures
        r@ == stco_body(chunk_offset),
{
    broadcast use empty_left;

    let mut p: Vec<u8> = Vec::new();
    put_u32(&mut p, 0);
    put_u32(&mut p, 1);
    put_u32(&mut p, chunk_offset);
    p
}

/// The body of the `co64` box: one chunk.
pub open spec fn co64_body(chunk_offset: u64) -> Seq<u8> {
    u32_be(0) + u32_be(1) + u64_be(chunk_offset)
}

/// Serialise the body of the `co64` box.
pub fn build_co64(chunk_offset: u64) -> (r: Vec<u8>)
    ensures
        r@ == co64_body(chunk_offset),
{
    broadcast use empty_left;

    let mut p: Vec<u8> = Vec::new();
    put_u32(&mut p, 0);
    put_u32(&mut p, 1);
    put_u64(&mut p, chunk_offset);
    p
}

proof fn lemma_bounds(s: Seq<MuxSample>, n: nat, i: int)
    requires
        0 <= i < n <= s.len(),
    ensures
        least_offset(s, n) <= s[i].composition_offset <= greatest_offset(s, n),
        earliest(s, n) <= composition_time(s, i),
        composition_time(s, i) + s[i].duration <= latest(s, n),
    decreases n,
{
    if n > 1 && i < n - 1 {
        lemma_bounds(s, (n - 1) as nat, i);
    }
}

/// The derived bounds hold for every sample, as long as the times fit in 64
/// bits: its offset is within the least and the greatest, its time in the
/// composition is within start and end, and the shift brings no composition
/// time before its decode time.
pub proof fn law_derived_bounds_hold(s: Seq<MuxSample>, i: int)
    requires
        0 <= i < s.len(),
        i64::MIN <= earliest(s, s.len()),
        latest(s, s.len()) <= i64::MAX,
    ensures
        ({
            let c = derived_cslg(s);
            let time = composition_time(s, i);
            &&& c.least_decode_to_display_delta <= s[i].composition_offset
            &&& s[i].composition_offset <= c.greatest_decode_to_display_delta
            &&& c.composition_start_time <= time
            &&& time + s[i].duration <= c.composition_end_time
            &&& time + c.composition_to_dts_shift >= decode_time(s, i as nat)
        }),
{
    let n = s.len();
    lemma_bounds(s, n, i);
    lemma_least_is_an_offset(s, n);
}

proof fn lemma_least_is_an_offset(s: Seq<MuxSample>, n: nat)
    requires
        0 < n <= s.len(),
    ensures
        i32::MIN <= least_offset(s, n) <= i32::MAX,
        i32::MIN <= greatest_offset(s, n) <= i32::MAX,
    decreases n,
{
    if n > 1 {
        lemma_least_is_an_offset(s, (n - 1) as nat);
    }
}

/// Bounds that were written are read back.
pub proof fn law_cslg_is_read_back(c: Cslg)
    ensures
        cslg_of(cslg_body(c)) == Ok::<Cslg, Error>(c),
{
    broadcast use group_be_len;

    let s = cslg_body(c);
    let (a, b, d) = (
        c.composition_to_dts_shift,
        c.least_decode_to_display_delta,
        c.greatest_decode_to_display_delta,
    );
    let (e, f) = (c.composition_start_time, c.composition_end_time);
    if narrow_cslg(c) {
        lemma_be_bytes(0, 0, 0);
        assert(s[0] == u32_be(0)[0]);
        assert(s.subrange(4, 8) =~= i32_be(a as i32));
        assert(s.subrange(8, 12) =~= i32_be(b as i32));
        assert(s.subrange(12, 16) =~= i32_be(d as i32));
        assert(s.subrange(16, 20) =~= i32_be(e as i32));
        assert(s.subrange(20, 24) =~= i32_be(f as i32));
        lemma_i32_at(s, 4, a as i32);
        lemma_i32_at(s, 8, b as i32);
        lemma_i32_at(s, 12, d as i32);
        lemma_i32_at(s, 16, e as i32);
        lemma_i32_at(s, 20, f as i32);
    } else {
        lemma_be_bytes(0, 0x0100_0000, 0);
        assert(s[0] == u32_be(0x0100_0000)[0]);
        assert(s.subrange(4, 12) =~= i64_be(a));
        assert(s.subrange(12, 20) =~= i64_be(b));
        assert(s.subrange(20, 28) =~= i64_be(d));
        assert(s.subrange(28, 36) =~= i64_be(e));
        assert(s.subrange(36, 44) =~= i64_be(f));
        lemma_i64_at(s, 4, a);
        lemma_i64_at(s, 12, b);
        lemma_i64_at(s, 20, d);
        lemma_i64_at(s, 28, e);
        lemma_i64_at(s, 36, f);
    }
}

} // verus!
