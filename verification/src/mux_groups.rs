//! Tables that say more about samples: dependencies, priorities, padding, parts,
//! auxiliary information and groups.
use crate::bitstream::{bits_of, law_bits_stand_for_the_number, pack, value_of, BitWriter};
use crate::bytes::{
    cat, empty_left, lemma_cat_push, low16, low16_of, low32, low32_of, put_bytes, put_code, put_u16,
    put_u32, put_u64, put_u8, u16_be, u32_be, u64_be,
};
use crate::mux_types::{SampleAuxStream, SampleGroupDescriptionWrite, SampleToGroupWrite};
use crate::parts::{dependency_byte, SdtpEntry, StshEntry, SubSample, SubSampleInfo};
use crate::runs::{expand, law_runs_stand_for_the_list, put_run_table, run_lengths, run_table, runs};
use vstd::arithmetic::power2::{lemma2_to64, pow2};
use vstd::prelude::*;

verus! {

/// The dependency bytes of samples.
pub open spec fn sdtp_rows(e: Seq<SdtpEntry>) -> spec_fn(int) -> Seq<u8> {
    |i: int| seq![dependency_byte(e[i])]
}

/// The body of the `sdtp` box.
pub open spec fn sdtp_body(e: Seq<SdtpEntry>) -> Seq<u8> {
    u32_be(0) + cat(e.len(), sdtp_rows(e))
}

/// Serialise the body of the `sdtp` box.
pub fn build_sdtp(entries: &Vec<SdtpEntry>) -> (r: Vec<u8>)
    ensures
        r@ == sdtp_body(entries@),
{
    broadcast use empty_left;

    let mut p: Vec<u8> = Vec::new();
    put_u32(&mut p, 0);
    let ghost before = p@;
    let ghost f = sdtp_rows(entries@);
    assert(p@ =~= before + cat(0, f));
    for i in 0..entries.len()
        invariant
            f == sdtp_rows(entries@),
            p@ == before + cat(i as nat, f),
    {
        put_u8(&mut p, entries[i].to_byte());
        proof {
            lemma_cat_push(before, i as nat, f);
        }
    }
    p
}

/// The priorities of samples.
pub open spec fn stdp_rows(v: Seq<u16>) -> spec_fn(int) -> Seq<u8> {
    |i: int| u16_be(v[i])
}

/// The body of the `stdp` box.
pub open spec fn stdp_body(v: Seq<u16>) -> Seq<u8> {
    u32_be(0) + cat(v.len(), stdp_rows(v))
}

/// Serialise the body of the `stdp` box.
pub fn build_stdp(priorities: &Vec<u16>) -> (r: Vec<u8>)
    ensures
        r@ == stdp_body(priorities@),
{
    broadcast use empty_left;

    let mut p: Vec<u8> = Vec::new();
    put_u32(&mut p, 0);
    let ghost before = p@;
    let ghost f = stdp_rows(priorities@);
    assert(p@ =~= before + cat(0, f));
    for i in 0..priorities.len()
        invariant
            f == stdp_rows(priorities@),
            p@ == before + cat(i as nat, f),
    {
        put_u16(&mut p, priorities[i]);
        proof {
            lemma_cat_push(before, i as nat, f);
        }
    }
    p
}

/// The paddings of two samples in a byte, the first in the upper half.
pub open spec fn padb_rows(v: Seq<u8>) -> spec_fn(int) -> Seq<u8> {
    |k: int|
        seq![
            ((v[2 * k] % 8) * 16 + (if 2 * k + 1 < v.len() {
                v[2 * k + 1] as int % 8
            } else {
                0
            })) as u8,
        ]
}

/// The body of the `padb` box.
pub open spec fn padb_body(v: Seq<u8>) -> Seq<u8> {
    u32_be(0) + u32_be(low32(v.len() as int)) + cat((v.len() + 1) / 2, padb_rows(v))
}

/// Serialise the body of the `padb` box.
pub fn build_padb(pads: &Vec<u8>) -> (r: Vec<u8>)
    ensures
        r@ == padb_body(pads@),
{
    broadcast use empty_left;

    let n: usize = pads.len();
    let mut p: Vec<u8> = Vec::new();
    put_u32(&mut p, 0);
    put_u32(&mut p, low32_of(n));
    let ghost before = p@;
    let ghost f = padb_rows(pads@);
    assert(p@ =~= before + cat(0, f));
    let half: usize = n / 2 + n % 2;
    for k in 0..half
        invariant
            n == pads@.len(),
            half == (n + 1) / 2,
            f == padb_rows(pads@),
            p@ == before + cat(k as nat, f),
    {
        assert(2 * k < n);
        let pad1: u8 = pads[2 * k] % 8;
        let pad2: u8 = if 2 * k < n - 1 {
            pads[2 * k + 1] % 8
        } else {
            0
        };
        put_u8(&mut p, pad1 * 16 + pad2);
        proof {
            lemma_cat_push(before, k as nat, f);
        }
    }
    p
}

/// The rows of the `stsh` box.
pub open spec fn stsh_rows(e: Seq<StshEntry>) -> spec_fn(int) -> Seq<u8> {
    |i: int| u32_be(e[i].shadowed_sample_number) + u32_be(e[i].sync_sample_number)
}

/// The body of the `stsh` box.
pub open spec fn stsh_body(e: Seq<StshEntry>) -> Seq<u8> {
    u32_be(0) + u32_be(low32(e.len() as int)) + cat(e.len(), stsh_rows(e))
}

/// Serialise the body of the `stsh` box.
pub fn build_stsh(entries: &Vec<StshEntry>) -> (r: Vec<u8>)
    ensures
        r@ == stsh_body(entries@),
{
    broadcast use empty_left;

    let mut p: Vec<u8> = Vec::new();
    put_u32(&mut p, 0);
    put_u32(&mut p, low32_of(entries.len()));
    let ghost before = p@;
    let ghost f = stsh_rows(entries@);
    assert(p@ =~= before + cat(0, f));
    for i in 0..entries.len()
        invariant
            f == stsh_rows(entries@),
            p@ == before + cat(i as nat, f),
    {
        let ghost had = p@;
        put_u32(&mut p, entries[i].shadowed_sample_number);
        put_u32(&mut p, entries[i].sync_sample_number);
        proof {
            assert(p@ =~= had + f(i as int));
            lemma_cat_push(before, i as nat, f);
        }
    }
    p
}

/// Some part of a sample is longer than sixteen bits can say.
pub open spec fn has_wide_part(rows: Seq<SubSampleInfo>) -> bool {
    exists|i: int, k: int|
        0 <= i < rows.len() && 0 <= k < rows[i].subsamples@.len() && (
        #[trigger] rows[i].subsamples@[k]).subsample_size > 0xffff
}

/// The bytes of a part of a sample.
pub open spec fn part_bytes(s: SubSample, wide: bool) -> Seq<u8> {
    (if wide {
        u32_be(s.subsample_size)
    } else {
        u16_be(low16(s.subsample_size as int))
    }) + seq![s.subsample_priority] + seq![s.discardable] + u32_be(s.codec_specific_parameters)
}

/// The parts of a sample.
pub open spec fn parts_bytes(v: Seq<SubSample>, wide: bool) -> spec_fn(int) -> Seq<u8> {
    |k: int| part_bytes(v[k], wide)
}

/// How far the sample of row `i` is from that of the row before.
pub open spec fn sample_delta(rows: Seq<SubSampleInfo>, i: int) -> u32 {
    low32(
        rows[i].sample_number - (if i == 0 {
            0
        } else {
            rows[i - 1].sample_number as int
        }),
    )
}

/// The rows of the `subs` box.
pub open spec fn subs_rows(rows: Seq<SubSampleInfo>, wide: bool) -> spec_fn(int) -> Seq<u8> {
    |i: int|
        u32_be(sample_delta(rows, i)) + u16_be(low16(rows[i].subsamples@.len() as int)) + cat(
            rows[i].subsamples@.len(),
            parts_bytes(rows[i].subsamples@, wide),
        )
}

/// The body of the `subs` box, in version 1 where a part needs 32 bits for its
/// size.
pub open spec fn subs_body(rows: Seq<SubSampleInfo>) -> Seq<u8> {
    let wide = has_wide_part(rows);
    u32_be(
        if wide {
            0x0100_0000u32
        } else {
            0u32
        },
    ) + u32_be(low32(rows.len() as int)) + cat(rows.len(), subs_rows(rows, wide))
}

fn any_wide_part(rows: &Vec<SubSampleInfo>) -> (r: bool)
    ensures
        r == has_wide_part(rows@),
{
    for i in 0..rows.len()
        invariant
            forall|a: int, k: int|
                0 <= a < i && 0 <= k < rows@[a].subsamples@.len() ==> (
                #[trigger] rows@[a].subsamples@[k]).subsample_size <= 0xffff,
    {
        let n: usize = rows[i].subsamples.len();
        for k in 0..n
            invariant
                i < rows@.len(),
                n == rows@[i as int].subsamples@.len(),
                forall|b: int|
                    0 <= b < k ==> (#[trigger] rows@[i as int].subsamples@[b]).subsample_size
                        <= 0xffff,
        {
            if rows[i].subsamples[k].subsample_size > 0xffff {
                assert(rows@[i as int].subsamples@[k as int].subsample_size > 0xffff);
                return true;
            }
        }
    }
    false
}

fn put_part(out: &mut Vec<u8>, s: &SubSample, wide: bool)
    ensures
        final(out)@ == old(out)@ + part_bytes(*s, wide),
{
    broadcast use empty_left;

    let mut p: Vec<u8> = Vec::new();
    if wide {
        put_u32(&mut p, s.subsample_size);
    } else {
        put_u16(&mut p, (s.subsample_size % 0x1_0000) as u16);
    }
    put_u8(&mut p, s.subsample_priority);
    put_u8(&mut p, s.discardable);
    put_u32(&mut p, s.codec_specific_parameters);
    put_bytes(out, p.as_slice());
}

fn put_parts(out: &mut Vec<u8>, v: &Vec<SubSample>, wide: bool)
    ensures
        final(out)@ == old(out)@ + cat(v@.len(), parts_bytes(v@, wide)),
{
    let ghost f = parts_bytes(v@, wide);
    assert(out@ =~= old(out)@ + cat(0, f));
    for k in 0..v.len()
        invariant
            f == parts_bytes(v@, wide),
            out@ == old(out)@ + cat(k as nat, f),
    {
        put_part(out, &v[k], wide);
        proof {
            lemma_cat_push(old(out)@, k as nat, f);
        }
    }
}

/// Serialise the body of the `subs` box.
pub fn build_subs(rows: &Vec<SubSampleInfo>) -> (r: Vec<u8>)
    ensures
        r@ == subs_body(rows@),
{
    broadcast use empty_left;

    let wide = any_wide_part(rows);
    let mut p: Vec<u8> = Vec::new();
    put_u32(&mut p, if wide {
        0x0100_0000
    } else {
        0
    });
    put_u32(&mut p, low32_of(rows.len()));
    let ghost before = p@;
    let ghost f = subs_rows(rows@, wide);
    assert(p@ =~= before + cat(0, f));
    let mut previous: u32 = 0;
    for i in 0..rows.len()
        invariant
            f == subs_rows(rows@, wide),
            i == 0 ==> previous == 0,
            i > 0 ==> previous == rows@[i - 1].sample_number,
            p@ == before + cat(i as nat, f),
    {
        let number: u32 = rows[i].sample_number;
        let delta: u32 = ((number as u64 + 0x1_0000_0000 - previous as u64) % 0x1_0000_0000) as u32;
        assert(delta == sample_delta(rows@, i as int));
        previous = number;
        let mut row: Vec<u8> = Vec::new();
        put_u32(&mut row, delta);
        put_u16(&mut row, low16_of(rows[i].subsamples.len()));
        put_parts(&mut row, &rows[i].subsamples, wide);
        assert(row@ == f(i as int));
        put_bytes(&mut p, row.as_slice());
        proof {
            lemma_cat_push(before, i as nat, f);
        }
    }
    p
}

/// The size of auxiliary information in a byte.
pub open spec fn blob_size(b: Vec<u8>) -> u8 {
    if b@.len() > 255 {
        255
    } else {
        b@.len() as u8
    }
}

/// All auxiliary information has one size, and that is not 0.
pub open spec fn one_size(blobs: Seq<Vec<u8>>) -> bool {
    &&& blobs.len() > 0
    &&& blob_size(blobs[0]) != 0
    &&& forall|i: int| 0 <= i < blobs.len() ==> blob_size(#[trigger] blobs[i]) == blob_size(blobs[0])
}

/// The sizes of auxiliary information.
pub open spec fn blob_sizes(blobs: Seq<Vec<u8>>) -> spec_fn(int) -> Seq<u8> {
    |i: int| seq![blob_size(blobs[i])]
}

/// The type of auxiliary information with its parameter, if it is said.
pub open spec fn aux_type_bytes(aux_type: Option<[u8; 4]>, parameter: u32) -> Seq<u8> {
    match aux_type {
        Some(t) => t@ + u32_be(parameter),
        None => Seq::empty(),
    }
}

/// Flag 1 says that a type follows.
pub open spec fn aux_flags(aux_type: Option<[u8; 4]>) -> u32 {
    if aux_type is Some {
        1
    } else {
        0
    }
}

/// The body of the `saiz` box: one size for all samples, or 0 and a table.
pub open spec fn saiz_body(
    aux_type: Option<[u8; 4]>,
    parameter: u32,
    blobs: Seq<Vec<u8>>,
) -> Seq<u8> {
    u32_be(aux_flags(aux_type)) + aux_type_bytes(aux_type, parameter) + (if one_size(blobs) {
        seq![blob_size(blobs[0])] + u32_be(low32(blobs.len() as int))
    } else {
        seq![0u8] + u32_be(low32(blobs.len() as int)) + cat(blobs.len(), blob_sizes(blobs))
    })
}

fn to_blob_size(b: &Vec<u8>) -> (r: u8)
    ensures
        r == blob_size(*b),
{
    if b.len() > 255 {
        255
    } else {
        b.len() as u8
    }
}

fn put_aux_type(out: &mut Vec<u8>, aux_type: Option<[u8; 4]>, parameter: u32)
    ensures
        final(out)@ == old(out)@ + aux_type_bytes(aux_type, parameter),
{
    if let Some(t) = aux_type {
        put_code(out, t);
        put_u32(out, parameter);
    }
    assert(out@ =~= old(out)@ + aux_type_bytes(aux_type, parameter));
}

/// Serialise the body of a `saiz` box for a list of auxiliary information.
pub fn build_saiz_blobs(
    aux_info_type: Option<[u8; 4]>,
    aux_info_type_parameter: u32,
    blobs: &[Vec<u8>],
) -> (r: Vec<u8>)
    ensures
        r@ == saiz_body(aux_info_type, aux_info_type_parameter, blobs@),
{
    broadcast use empty_left;

    let n: usize = blobs.len();
    let first: u8 = if n > 0 {
        to_blob_size(&blobs[0])
    } else {
        0
    };
    let mut same = true;
    for i in 0..n
        invariant
            n == blobs@.len(),
            n > 0 ==> first == blob_size(blobs@[0]),
            same == forall|k: int|
                0 <= k < i ==> blob_size(#[trigger] blobs@[k]) == blob_size(blobs@[0]),
    {
        if to_blob_size(&blobs[i]) != first {
            assert(blob_size(blobs@[i as int]) != blob_size(blobs@[0]));
            same = false;
        }
    }
    let mut p: Vec<u8> = Vec::new();
    put_u32(&mut p, if aux_info_type.is_some() {
        1
    } else {
        0
    });
    put_aux_type(&mut p, aux_info_type, aux_info_type_parameter);
    let mut sizes: Vec<u8> = Vec::new();
    if n > 0 && first != 0 && same {
        put_u8(&mut sizes, first);
        put_u32(&mut sizes, low32_of(n));
    } else {
        put_u8(&mut sizes, 0);
        put_u32(&mut sizes, low32_of(n));
        let ghost before = sizes@;
        let ghost f = blob_sizes(blobs@);
        assert(sizes@ =~= before + cat(0, f));
        for i in 0..n
            invariant
                n == blobs@.len(),
                f == blob_sizes(blobs@),
                sizes@ == before + cat(i as nat, f),
        {
            put_u8(&mut sizes, to_blob_size(&blobs[i]));
            proof {
                lemma_cat_push(before, i as nat, f);
            }
        }
    }
    put_bytes(&mut p, sizes.as_slice());
    p
}

/// Serialise the body of the `saiz` box of a track.
pub fn build_saiz(aux: &SampleAuxStream) -> (r: Vec<u8>)
    ensures
        r@ == saiz_body(aux.aux_info_type, aux.aux_info_type_parameter, aux.per_sample@),
{
    build_saiz_blobs(aux.aux_info_type, aux.aux_info_type_parameter, aux.per_sample.as_slice())
}

/// The body of a `saio` box with one offset, in version 1 where it needs 64 bits.
pub open spec fn saio_body(aux_type: Option<[u8; 4]>, parameter: u32, offset: u64) -> Seq<u8> {
    if offset > 0xffff_ffff {
        u32_be((0x0100_0000 + aux_flags(aux_type)) as u32) + aux_type_bytes(aux_type, parameter)
            + u32_be(1) + u64_be(offset)
    } else {
        u32_be(aux_flags(aux_type)) + aux_type_bytes(aux_type, parameter) + u32_be(1) + u32_be(
            offset as u32,
        )
    }
}

/// Serialise the body of a `saio` box with one offset.
pub fn build_saio_offset(
    aux_info_type: Option<[u8; 4]>,
    aux_info_type_parameter: u32,
    aux_offset: u64,
) -> (r: Vec<u8>)
    ensures
        r@ == saio_body(aux_info_type, aux_info_type_parameter, aux_offset),
{
    broadcast use empty_left;

    let flags: u32 = if aux_info_type.is_some() {
        1
    } else {
        0
    };
    let mut p: Vec<u8> = Vec::new();
    if aux_offset > 0xffff_ffff {
        put_u32(&mut p, 0x0100_0000 + flags);
        put_aux_type(&mut p, aux_info_type, aux_info_type_parameter);
        put_u32(&mut p, 1);
        put_u64(&mut p, aux_offset);
    } else {
        put_u32(&mut p, flags);
        put_aux_type(&mut p, aux_info_type, aux_info_type_parameter);
        put_u32(&mut p, 1);
        put_u32(&mut p, aux_offset as u32);
    }
    p
}

/// Serialise the body of the `saio` box of a track.
pub fn build_saio(aux: &SampleAuxStream, aux_offset: u64) -> (r: Vec<u8>)
    ensures
        r@ == saio_body(aux.aux_info_type, aux.aux_info_type_parameter, aux_offset),
{
    build_saio_offset(aux.aux_info_type, aux.aux_info_type_parameter, aux_offset)
}

/// The length that all descriptions have; 0 where they differ.
pub open spec fn common_len(entries: Seq<Vec<u8>>) -> nat {
    if entries.len() > 0 && forall|i: int|
        0 <= i < entries.len() ==> (#[trigger] entries[i])@.len() == entries[0]@.len() {
        entries[0]@.len()
    } else {
        0
    }
}

/// The descriptions of groups. Where they have no common length, the length of
/// each stands in front of it.
pub open spec fn sgpd_rows(entries: Seq<Vec<u8>>, default_length: u32) -> spec_fn(int) -> Seq<u8> {
    |i: int|
        if default_length == 0 {
            u32_be(low32(entries[i]@.len() as int)) + entries[i]@
        } else {
            entries[i]@
        }
}

/// The body of the `sgpd` box, version 1.
pub open spec fn sgpd_body(d: SampleGroupDescriptionWrite) -> Seq<u8> {
    let default_length = low32(common_len(d.entries@) as int);
    u32_be(0x0100_0000) + d.grouping_type@ + u32_be(default_length) + u32_be(
        low32(d.entries@.len() as int),
    ) + cat(d.entries@.len(), sgpd_rows(d.entries@, default_length))
}

/// Serialise the body of the `sgpd` box.
pub fn build_sgpd(d: &SampleGroupDescriptionWrite) -> (r: Vec<u8>)
    ensures
        r@ == sgpd_body(*d),
{
    broadcast use empty_left;

    let n: usize = d.entries.len();
    let first: usize = if n > 0 {
        d.entries[0].len()
    } else {
        0
    };
    let mut same = n > 0;
    for i in 0..n
        invariant
            n == d.entries@.len(),
            n > 0 ==> first == d.entries@[0]@.len(),
            same == (n > 0 && forall|k: int|
                0 <= k < i ==> (#[trigger] d.entries@[k])@.len() == d.entries@[0]@.len()),
    {
        if d.entries[i].len() != first {
            assert(d.entries@[i as int]@.len() != d.entries@[0]@.len());
            same = false;
        }
    }
    let default_length: u32 = if same {
        low32_of(first)
    } else {
        0
    };
    assert(default_length == low32(common_len(d.entries@) as int));
    let mut p: Vec<u8> = Vec::new();
    put_u32(&mut p, 0x0100_0000);
    put_code(&mut p, d.grouping_type);
    put_u32(&mut p, default_length);
    put_u32(&mut p, low32_of(n));
    let ghost before = p@;
    let ghost f = sgpd_rows(d.entries@, default_length);
    assert(p@ =~= before + cat(0, f));
    for i in 0..n
        invariant
            n == d.entries@.len(),
            f == sgpd_rows(d.entries@, default_length),
            p@ == before + cat(i as nat, f),
    {
        let ghost had = p@;
        if default_length == 0 {
            put_u32(&mut p, low32_of(d.entries[i].len()));
        }
        put_bytes(&mut p, d.entries[i].as_slice());
        proof {
            assert(p@ =~= had + f(i as int));
            lemma_cat_push(before, i as nat, f);
        }
    }
    p
}

/// The least width code whose width holds a number: 4, 8, 16 or 32 bits.
pub open spec fn size_code(max: u32) -> u32 {
    if max < 0x10 {
        0
    } else if max < 0x100 {
        1
    } else if max < 0x1_0000 {
        2
    } else {
        3
    }
}

/// The width of a width code.
pub open spec fn code_width(code: u32) -> nat {
    if code == 0 {
        4
    } else if code == 1 {
        8
    } else if code == 2 {
        16
    } else {
        32
    }
}

/// The least width code whose width holds a number, and that width.
pub fn csgp_min_size_code(max_val: u32) -> (r: (u32, u32))
    ensures
        r.0 == size_code(max_val),
        r.1 == code_width(size_code(max_val)),
{
    if max_val < 0x10 {
        (0, 4)
    } else if max_val < 0x100 {
        (1, 8)
    } else if max_val < 0x1_0000 {
        (2, 16)
    } else {
        (3, 32)
    }
}

/// The greatest length of a run.
pub open spec fn max_count(r: Seq<(u32, u32)>) -> u32
    decreases r.len(),
{
    if r.len() == 0 {
        0
    } else if max_count(r.drop_last()) >= r.last().0 {
        max_count(r.drop_last())
    } else {
        r.last().0
    }
}

/// The greatest number of a run.
pub open spec fn max_number(r: Seq<(u32, u32)>) -> u32
    decreases r.len(),
{
    if r.len() == 0 {
        0
    } else if max_number(r.drop_last()) >= r.last().1 {
        max_number(r.drop_last())
    } else {
        r.last().1
    }
}

/// The patterns of a `csgp` box: for each run a pattern of one sample and how
/// many samples it covers.
pub open spec fn pattern_bits(r: Seq<(u32, u32)>, n: nat, width: nat) -> Seq<bool>
    decreases n,
{
    if n == 0 {
        Seq::empty()
    } else {
        pattern_bits(r, (n - 1) as nat, width) + bits_of(1, 4) + bits_of(r[n - 1].0, width)
    }
}

/// The group numbers of the patterns.
pub open spec fn number_bits(r: Seq<(u32, u32)>, n: nat, width: nat) -> Seq<bool>
    decreases n,
{
    if n == 0 {
        Seq::empty()
    } else {
        number_bits(r, (n - 1) as nat, width) + bits_of(r[n - 1].1, width)
    }
}

/// The bits of a `csgp` box: all patterns, then all numbers, each in as few bits
/// as the greatest of its kind needs.
pub open spec fn csgp_bits(r: Seq<(u32, u32)>) -> Seq<bool> {
    pattern_bits(r, r.len(), code_width(size_code(max_count(r)))) + number_bits(
        r,
        r.len(),
        code_width(size_code(max_number(r))),
    )
}

/// A number that may be there.
pub open spec fn parameter_bytes(p: Option<u32>) -> Seq<u8> {
    match p {
        Some(x) => u32_be(x),
        None => Seq::empty(),
    }
}

/// The flags of a `csgp` box: the width codes, and whether a parameter follows.
pub open spec fn csgp_flags(r: Seq<(u32, u32)>, parameter: Option<u32>) -> u32 {
    (size_code(max_number(r)) + size_code(max_count(r)) * 4 + (if parameter is Some {
        64int
    } else {
        0
    })) as u32
}

/// The body of a `csgp` box.
pub open spec fn csgp_body(g: SampleToGroupWrite) -> Seq<u8> {
    let r = runs(g.indices@);
    u32_be(csgp_flags(r, g.grouping_type_parameter)) + g.grouping_type@ + parameter_bytes(
        g.grouping_type_parameter,
    ) + u32_be(low32(r.len() as int)) + pack(csgp_bits(r))
}

fn maxima(r: &Vec<(u32, u32)>) -> (m: (u32, u32))
    ensures
        m.0 == max_count(r@),
        m.1 == max_number(r@),
{
    let mut count: u32 = 0;
    let mut number: u32 = 0;
    for i in 0..r.len()
        invariant
            count == max_count(r@.take(i as int)),
            number == max_number(r@.take(i as int)),
    {
        assert(r@.take(i + 1).drop_last() =~= r@.take(i as int));
        if r[i].0 > count {
            count = r[i].0;
        }
        if r[i].1 > number {
            number = r[i].1;
        }
    }
    assert(r@.take(r@.len() as int) =~= r@);
    (count, number)
}

fn put_parameter(out: &mut Vec<u8>, p: Option<u32>)
    ensures
        final(out)@ == old(out)@ + parameter_bytes(p),
{
    if let Some(x) = p {
        put_u32(out, x);
    }
    assert(out@ =~= old(out)@ + parameter_bytes(p));
}

/// Serialise the body of a `csgp` box.
pub fn build_csgp(g: &SampleToGroupWrite) -> (r: Vec<u8>)
    ensures
        r@ == csgp_body(*g),
{
    broadcast use empty_left;

    let all = run_lengths(&g.indices);
    let (count, number) = maxima(&all);
    let (count_code, count_width) = csgp_min_size_code(count);
    let (number_code, number_width) = csgp_min_size_code(number);
    let flags: u32 = number_code + count_code * 4 + (if g.grouping_type_parameter.is_some() {
        64
    } else {
        0
    });
    let mut p: Vec<u8> = Vec::new();
    put_u32(&mut p, flags);
    put_code(&mut p, g.grouping_type);
    put_parameter(&mut p, g.grouping_type_parameter);
    put_u32(&mut p, low32_of(all.len()));
    let mut bits = BitWriter::new();
    for i in 0..all.len()
        invariant
            count_width <= 32,
            bits.wf(),
            bits.bits() == pattern_bits(all@, i as nat, count_width as nat),
    {
        bits.put(1, 4);
        bits.put(all[i].0, count_width);
    }
    let ghost patterns = bits.bits();
    assert(bits.bits() =~= patterns + number_bits(all@, 0, number_width as nat));
    for i in 0..all.len()
        invariant
            number_width <= 32,
            bits.wf(),
            bits.bits() == patterns + number_bits(all@, i as nat, number_width as nat),
    {
        bits.put(all[i].1, number_width);
        assert(bits.bits() =~= patterns + number_bits(all@, (i + 1) as nat, number_width as nat));
    }
    let bytes = bits.finish();
    put_bytes(&mut p, bytes.as_slice());
    p
}

/// The body of an `sbgp` box, in version 1 where there is a parameter.
pub open spec fn sbgp_body(g: SampleToGroupWrite) -> Seq<u8> {
    u32_be(
        if g.grouping_type_parameter is Some {
            0x0100_0000u32
        } else {
            0u32
        },
    ) + g.grouping_type@ + parameter_bytes(g.grouping_type_parameter) + run_table(runs(g.indices@))
}

/// Serialise the body of an `sbgp` box.
pub fn build_sbgp(g: &SampleToGroupWrite) -> (r: Vec<u8>)
    ensures
        r@ == sbgp_body(*g),
{
    broadcast use empty_left;

    let mut p: Vec<u8> = Vec::new();
    put_u32(&mut p, if g.grouping_type_parameter.is_some() {
        0x0100_0000
    } else {
        0
    });
    put_code(&mut p, g.grouping_type);
    put_parameter(&mut p, g.grouping_type_parameter);
    put_run_table(&mut p, &run_lengths(&g.indices));
    p
}

proof fn lemma_max(r: Seq<(u32, u32)>, i: int)
    requires
        0 <= i < r.len(),
    ensures
        r[i].0 <= max_count(r),
        r[i].1 <= max_number(r),
    decreases r.len(),
{
    if i < r.len() - 1 {
        lemma_max(r.drop_last(), i);
    }
}

/// A number that is not above the greatest fits in the width of the greatest.
proof fn lemma_fits(x: u32, max: u32)
    requires
        x <= max,
    ensures
        x < pow2(code_width(size_code(max))),
{
    lemma2_to64();
}

pub proof fn lemma_pattern_bits(r: Seq<(u32, u32)>, n: nat, width: nat, i: int)
    requires
        n <= r.len(),
    ensures
        pattern_bits(r, n, width).len() == n * (4 + width),
        0 <= i < n ==> i * (4 + width) + 4 + width <= n * (4 + width),
        0 <= i < n ==> pattern_bits(r, n, width).subrange(i * (4 + width), i * (4 + width) + 4)
            == bits_of(1, 4),
        0 <= i < n ==> pattern_bits(r, n, width).subrange(
            i * (4 + width) + 4,
            i * (4 + width) + 4 + width,
        ) == bits_of(r[i].0, width),
    decreases n,
{
    let w = 4 + width;
    if n > 0 {
        let before = pattern_bits(r, (n - 1) as nat, width);
        let all = pattern_bits(r, n, width);
        lemma_pattern_bits(r, (n - 1) as nat, width, i);
        assert(n * w == (n - 1) * w + w) by (nonlinear_arith);
        if i == n - 1 {
            assert(all.subrange(i * w, i * w + 4) =~= bits_of(1, 4));
            assert(all.subrange(i * w + 4, i * w + w) =~= bits_of(r[i].0, width));
        } else if 0 <= i < n - 1 {
            assert(0 <= i * w) by (nonlinear_arith)
                requires
                    0 <= i,
                    w >= 0,
            ;
            assert(all.subrange(i * w, i * w + 4) =~= before.subrange(i * w, i * w + 4));
            assert(all.subrange(i * w + 4, i * w + w) =~= before.subrange(i * w + 4, i * w + w));
        }
    } else {
        assert(0 * w == 0) by (nonlinear_arith);
    }
}

pub proof fn lemma_number_bits(r: Seq<(u32, u32)>, n: nat, width: nat, i: int)
    requires
        n <= r.len(),
    ensures
        number_bits(r, n, width).len() == n * width,
        0 <= i < n ==> i * width + width <= n * width,
        0 <= i < n ==> number_bits(r, n, width).subrange(i * width, i * width + width) == bits_of(
            r[i].1,
            width,
        ),
    decreases n,
{
    if n > 0 {
        let before = number_bits(r, (n - 1) as nat, width);
        let all = number_bits(r, n, width);
        lemma_number_bits(r, (n - 1) as nat, width, i);
        assert(n * width == (n - 1) * width + width) by (nonlinear_arith);
        if i == n - 1 {
            assert(all.subrange(i * width, i * width + width) =~= bits_of(r[i].1, width));
        } else if 0 <= i < n - 1 {
            assert(0 <= i * width) by (nonlinear_arith)
                requires
                    0 <= i,
                    width >= 0,
            ;
            assert(all.subrange(i * width, i * width + width) =~= before.subrange(
                i * width,
                i * width + width,
            ));
        }
    } else {
        assert(0 * width == 0) by (nonlinear_arith);
    }
}

proof fn lemma_in_first(a: Seq<bool>, b: Seq<bool>, lo: int, hi: int)
    requires
        0 <= lo <= hi <= a.len(),
    ensures
        (a + b).subrange(lo, hi) == a.subrange(lo, hi),
{
    assert((a + b).subrange(lo, hi) =~= a.subrange(lo, hi));
}

proof fn lemma_in_second(a: Seq<bool>, b: Seq<bool>, lo: int, hi: int)
    requires
        0 <= lo <= hi <= b.len(),
    ensures
        (a + b).subrange(a.len() + lo, a.len() + hi) == b.subrange(lo, hi),
{
    assert((a + b).subrange(a.len() + lo, a.len() + hi) =~= b.subrange(lo, hi));
}

proof fn lemma_fields(r: Seq<(u32, u32)>, i: int, cw: nat, nw: nat)
    requires
        0 <= i < r.len(),
        r[i].0 < pow2(cw),
        r[i].1 < pow2(nw),
    ensures
        ({
            let bits = pattern_bits(r, r.len(), cw) + number_bits(r, r.len(), nw);
            let at = i * (4 + cw);
            let number_at = r.len() * (4 + cw) + i * nw;
            &&& value_of(bits.subrange(at, at + 4)) == 1
            &&& value_of(bits.subrange(at + 4, at + 4 + cw)) == r[i].0
            &&& value_of(bits.subrange(number_at, number_at + nw)) == r[i].1
        }),
{
    let n = r.len();
    let patterns = pattern_bits(r, n, cw);
    let numbers = number_bits(r, n, nw);
    let bits = patterns + numbers;
    lemma2_to64();
    law_bits_stand_for_the_number(1, 4);
    law_bits_stand_for_the_number(r[i].0, cw);
    law_bits_stand_for_the_number(r[i].1, nw);
    lemma_pattern_bits(r, n, cw, i);
    lemma_number_bits(r, n, nw, i);
    let at = i * (4 + cw);
    let number_at = n * (4 + cw) + i * nw;
    assert(0 <= at && 0 <= i * nw) by (nonlinear_arith)
        requires
            0 <= i,
            at == i * (4 + cw),
            cw >= 0,
            nw >= 0,
    ;
    lemma_in_first(patterns, numbers, at, at + 4);
    lemma_in_first(patterns, numbers, at + 4, at + 4 + cw);
    lemma_in_second(patterns, numbers, i * nw, i * nw + nw);
}

/// The fields of the `csgp` bits are the runs: pattern `i` has the length 1 and
/// covers as many samples as run `i` is long, and group number `i` is that of
/// run `i`.
pub proof fn law_csgp_fields_are_the_runs(r: Seq<(u32, u32)>, i: int)
    requires
        0 <= i < r.len(),
    ensures
        ({
            let bits = csgp_bits(r);
            let count_width = code_width(size_code(max_count(r))) as int;
            let number_width = code_width(size_code(max_number(r))) as int;
            let at = i * (4 + count_width);
            let number_at = r.len() * (4 + count_width) + i * number_width;
            &&& value_of(bits.subrange(at, at + 4)) == 1
            &&& value_of(bits.subrange(at + 4, at + 4 + count_width)) == r[i].0
            &&& value_of(bits.subrange(number_at, number_at + number_width)) == r[i].1
        }),
{
    lemma_max(r, i);
    lemma_fits(r[i].0, max_count(r));
    lemma_fits(r[i].1, max_number(r));
    lemma_fields(
        r,
        i,
        code_width(size_code(max_count(r))),
        code_width(size_code(max_number(r))),
    );
}

/// The runs that both group boxes are written from give back the group number
/// of every sample.
pub proof fn law_group_numbers_are_kept(g: SampleToGroupWrite)
    requires
        g.indices@.len() <= u32::MAX,
    ensures
        expand(runs(g.indices@)) == g.indices@,
{
    law_runs_stand_for_the_list(g.indices@);
}

} // verus!
