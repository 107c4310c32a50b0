//! What the tables that say more about samples say, read number by number.
use crate::bitstream::{bit_at, law_packed_bits_are_read_back, pack, value_of};
use crate::bytes::{
    cat, code_at, group_be_len, lemma_part, lemma_u16_at, lemma_u32_at, lemma_u64_at, low32, tail,
    u16_at, u16_be, u32_at, u32_be, u64_at, u64_be,
};
use crate::movie_laws::{lemma_runs_are_few, lemma_table, run_total, run_value};
use crate::mux_groups::{
    aux_flags, aux_type_bytes, blob_size, blob_sizes, code_width, common_len, csgp_bits, csgp_body,
    csgp_flags, has_wide_part, law_csgp_fields_are_the_runs, max_count, max_number, one_size,
    padb_body, padb_rows, parameter_bytes, part_bytes, parts_bytes, saio_body, saiz_body,
    sample_delta, sbgp_body, sdtp_body, sdtp_rows, sgpd_body, sgpd_rows, size_code, stdp_body,
    stdp_rows, stsh_body, stsh_rows, subs_body, subs_rows,
};
use crate::mux_types::{SampleGroupDescriptionWrite, SampleToGroupWrite};
use crate::parts::{SdtpEntry, StshEntry, SubSample, SubSampleInfo};
use crate::parts::dependency_byte;
use crate::runs::{run_table, runs};
use crate::table_laws::lemma_row_at;
use vstd::prelude::*;

verus! {

/// The `sdtp` box says of every sample how it depends on others, in two bits each, the
/// first field in the top bits.
pub proof fn law_sdtp_says_the_dependencies(e: Seq<SdtpEntry>, i: int)
    requires
        0 <= i < e.len(),
    ensures
        ({
            let b = sdtp_body(e)[4 + i];
            &&& sdtp_body(e).len() == 4 + e.len()
            &&& b / 64 == e[i].is_leading % 4
            &&& (b / 16) % 4 == e[i].sample_depends_on % 4
            &&& (b / 4) % 4 == e[i].sample_is_depended_on % 4
            &&& b % 4 == e[i].sample_has_redundancy % 4
        }),
{
    lemma_sdtp_row(e, i);
    lemma_dependency_byte(e[i]);
}

proof fn lemma_four_fields(a: int, b: int, c: int, d: int)
    requires
        0 <= a < 4,
        0 <= b < 4,
        0 <= c < 4,
        0 <= d < 4,
    ensures
        0 <= a * 64 + b * 16 + c * 4 + d < 256,
        (a * 64 + b * 16 + c * 4 + d) / 64 == a,
        ((a * 64 + b * 16 + c * 4 + d) / 16) % 4 == b,
        ((a * 64 + b * 16 + c * 4 + d) / 4) % 4 == c,
        (a * 64 + b * 16 + c * 4 + d) % 4 == d,
{
    let x = a * 64 + b * 16 + c * 4 + d;
    assert(x / 4 == a * 16 + b * 4 + c);
    assert(x / 16 == a * 4 + b);
}

#[verifier::rlimit(40)]
#[verifier::spinoff_prover]
proof fn lemma_dependency_byte(e: SdtpEntry)
    ensures
        dependency_byte(e) / 64 == e.is_leading % 4,
        (dependency_byte(e) / 16) % 4 == e.sample_depends_on % 4,
        (dependency_byte(e) / 4) % 4 == e.sample_is_depended_on % 4,
        dependency_byte(e) % 4 == e.sample_has_redundancy % 4,
{
    lemma_four_fields(
        e.is_leading as int % 4,
        e.sample_depends_on as int % 4,
        e.sample_is_depended_on as int % 4,
        e.sample_has_redundancy as int % 4,
    );
}

proof fn lemma_sdtp_row(e: Seq<SdtpEntry>, i: int)
    requires
        0 <= i < e.len(),
    ensures
        sdtp_body(e).len() == 4 + e.len(),
        sdtp_body(e)[4 + i] == dependency_byte(e[i]),
{
    broadcast use group_be_len;

    let s = sdtp_body(e);
    let f = sdtp_rows(e);
    assert(s.subrange(4, s.len() as int) =~= cat(e.len(), f));
    crate::bytes::lemma_cat_len(e.len(), f, 1);
    lemma_row_at(s, 4, e.len(), f, 1, i);
    assert(s[4 + i] == s.subrange(4 + 1 * i, 4 + 1 * i + 1)[0]);
}

/// The `stdp` box says the priority of every sample.
pub proof fn law_stdp_says_the_priorities(v: Seq<u16>, i: int)
    requires
        0 <= i < v.len(),
    ensures
        stdp_body(v).len() == 4 + 2 * v.len(),
        u16_at(stdp_body(v), 4 + 2 * i) == v[i],
{
    broadcast use group_be_len;

    let s = stdp_body(v);
    let f = stdp_rows(v);
    assert(s.subrange(4, s.len() as int) =~= cat(v.len(), f));
    crate::bytes::lemma_cat_len(v.len(), f, 2);
    lemma_row_at(s, 4, v.len(), f, 2, i);
    lemma_u16_at(s, 4 + 2 * i, v[i]);
}

/// The padding bits of sample `i` that a `padb` body says: three bits in each half of a
/// byte, the first sample in the upper half.
pub open spec fn padding_at(s: Seq<u8>, i: int) -> int {
    if i % 2 == 0 {
        (s[8 + i / 2] as int / 16) % 8
    } else {
        s[8 + i / 2] as int % 8
    }
}

/// The `padb` box counts the samples and says the padding of every one.
pub proof fn law_padb_says_the_padding(v: Seq<u8>, i: int)
    requires
        0 <= i < v.len() <= 0xffff_ffff,
    ensures
        u32_at(padb_body(v), 4) == v.len(),
        padding_at(padb_body(v), i) == v[i] % 8,
{
    broadcast use group_be_len;

    let s = padb_body(v);
    let f = padb_rows(v);
    let k = i / 2;
    let n = ((v.len() + 1) / 2) as nat;
    assert(s.subrange(4, 8) =~= u32_be(v.len() as u32));
    lemma_u32_at(s, 4, v.len() as u32);
    assert(s.subrange(8, s.len() as int) =~= cat(n, f));
    lemma_row_at(s, 8, n, f, 1, k);
    assert(s[8 + k] == s.subrange(8 + 1 * k, 8 + 1 * k + 1)[0]);
}

/// The `stsh` box counts the rows and says of each which sample is shadowed and by which
/// sync sample.
pub proof fn law_stsh_says_the_shadows(e: Seq<StshEntry>, i: int)
    requires
        0 <= i < e.len() <= 0xffff_ffff,
    ensures
        u32_at(stsh_body(e), 4) == e.len(),
        u32_at(stsh_body(e), 8 + 8 * i) == e[i].shadowed_sample_number,
        u32_at(stsh_body(e), 12 + 8 * i) == e[i].sync_sample_number,
{
    broadcast use group_be_len;

    let s = stsh_body(e);
    let f = stsh_rows(e);
    assert(s.subrange(4, 8) =~= u32_be(e.len() as u32));
    lemma_u32_at(s, 4, e.len() as u32);
    assert(s.subrange(8, s.len() as int) =~= cat(e.len(), f));
    lemma_row_at(s, 8, e.len(), f, 8, i);
    let p = 8 + 8 * i;
    lemma_part(s, p, p + 8, 0, 4);
    lemma_part(s, p, p + 8, 4, 8);
    assert(f(i).subrange(0, 4) =~= u32_be(e[i].shadowed_sample_number));
    assert(f(i).subrange(4, 8) =~= u32_be(e[i].sync_sample_number));
    lemma_u32_at(s, p, e[i].shadowed_sample_number);
    lemma_u32_at(s, p + 4, e[i].sync_sample_number);
}

/// How long a part of a sample is in a `subs` body: ten bytes in version 1, else eight.
pub open spec fn part_len(s: Seq<u8>) -> int {
    if s[0] == 1 {
        10
    } else {
        8
    }
}

/// Where row `i` of a `subs` body starts.
pub open spec fn subs_row(s: Seq<u8>, i: nat) -> int
    decreases i,
{
    if i == 0 {
        8
    } else {
        let p = subs_row(s, (i - 1) as nat);
        p + 6 + part_len(s) * u16_at(s, p + 4)
    }
}

/// The number of the sample of row `i`: the differences of the rows up to it, added up.
pub open spec fn subs_sample(s: Seq<u8>, i: nat) -> int
    decreases i,
{
    u32_at(s, subs_row(s, i)) + (if i == 0 {
        0
    } else {
        subs_sample(s, (i - 1) as nat)
    })
}

/// Part `k` of the sample of row `i`: size, priority, whether it can be left out, and
/// what the codec says.
pub open spec fn subs_part(s: Seq<u8>, i: nat, k: int) -> SubSample {
    let p = subs_row(s, i) + 6 + part_len(s) * k;
    let q = p + (if s[0] == 1 {
        4int
    } else {
        2
    });
    SubSample {
        subsample_size: if s[0] == 1 {
            u32_at(s, p)
        } else {
            u16_at(s, p) as u32
        },
        subsample_priority: s[q],
        discardable: s[q + 1],
        codec_specific_parameters: u32_at(s, q + 2),
    }
}

proof fn lemma_part_read(s: Seq<u8>, p: int, x: SubSample, wide: bool)
    requires
        0 <= p,
        p + part_bytes(x, wide).len() <= s.len(),
        s.subrange(p, p + part_bytes(x, wide).len()) == part_bytes(x, wide),
        wide || x.subsample_size <= 0xffff,
    ensures
        part_bytes(x, wide).len() == (if wide {
            10int
        } else {
            8
        }),
        wide ==> u32_at(s, p) == x.subsample_size && s[p + 4] == x.subsample_priority && s[p + 5]
            == x.discardable && u32_at(s, p + 6) == x.codec_specific_parameters,
        !wide ==> u16_at(s, p) == x.subsample_size && s[p + 2] == x.subsample_priority && s[p + 3]
            == x.discardable && u32_at(s, p + 4) == x.codec_specific_parameters,
{
    broadcast use group_be_len;

    let b = part_bytes(x, wide);
    let n = b.len() as int;
    if wide {
        lemma_part(s, p, p + n, 0, 4);
        lemma_part(s, p, p + n, 6, 10);
        assert(b.subrange(0, 4) =~= u32_be(x.subsample_size));
        assert(b.subrange(6, 10) =~= u32_be(x.codec_specific_parameters));
        assert(s[p + 4] == s.subrange(p, p + n)[4]);
        assert(s[p + 5] == s.subrange(p, p + n)[5]);
        lemma_u32_at(s, p, x.subsample_size);
        lemma_u32_at(s, p + 6, x.codec_specific_parameters);
    } else {
        lemma_part(s, p, p + n, 0, 2);
        lemma_part(s, p, p + n, 4, 8);
        assert(b.subrange(0, 2) =~= u16_be(x.subsample_size as u16));
        assert(b.subrange(4, 8) =~= u32_be(x.codec_specific_parameters));
        assert(s[p + 2] == s.subrange(p, p + n)[2]);
        assert(s[p + 3] == s.subrange(p, p + n)[3]);
        lemma_u16_at(s, p, x.subsample_size as u16);
        lemma_u32_at(s, p + 4, x.codec_specific_parameters);
    }
}

/// The parts of every sample can be counted in sixteen bits.
pub open spec fn few_parts(rows: Seq<SubSampleInfo>) -> bool {
    rows.len() <= 0xffff_ffff && forall|i: int|
        0 <= i < rows.len() ==> (#[trigger] rows[i]).subsamples@.len() <= 0xffff
}

proof fn lemma_subs_row(rows: Seq<SubSampleInfo>, i: nat)
    requires
        few_parts(rows),
        i < rows.len(),
    ensures
        ({
            let s = subs_body(rows);
            let wide = has_wide_part(rows);
            let f = subs_rows(rows, wide);
            let p = 8 + cat(i, f).len();
            &&& s[0] == (if wide {
                1u8
            } else {
                0u8
            })
            &&& u32_at(s, 4) == rows.len()
            &&& p + f(i as int).len() <= s.len()
            &&& s.subrange(p as int, p as int + f(i as int).len()) == f(i as int)
            &&& u32_at(s, p as int) == sample_delta(rows, i as int)
            &&& u16_at(s, p as int + 4) == rows[i as int].subsamples@.len()
            &&& f(i as int).len() == 6 + part_len(s) * rows[i as int].subsamples@.len()
        }),
{
    broadcast use group_be_len;

    let s = subs_body(rows);
    let wide = has_wide_part(rows);
    let f = subs_rows(rows, wide);
    let version = if wide {
        0x0100_0000u32
    } else {
        0u32
    };
    crate::bytes::lemma_be_bytes(0, version, 0);
    assert(s[0] == u32_be(version)[0]);
    assert(s.subrange(4, 8) =~= u32_be(rows.len() as u32));
    lemma_u32_at(s, 4, rows.len() as u32);
    assert(s.subrange(8, s.len() as int) =~= cat(rows.len(), f));
    crate::bytes::lemma_piece_at(s, 8, rows.len(), f, i as int);
    let p = 8 + cat(i, f).len();
    let row = f(i as int);
    let v = rows[i as int].subsamples@;
    let g = parts_bytes(v, wide);
    let k: nat = if wide {
        10
    } else {
        8
    };
    crate::bytes::lemma_cat_len(v.len(), g, k);
    assert(v.len() * k == k * v.len()) by (nonlinear_arith);
    let n = row.len() as int;
    lemma_part(s, p as int, p + n, 0, 4);
    lemma_part(s, p as int, p + n, 4, 6);
    assert(row.subrange(0, 4) =~= u32_be(sample_delta(rows, i as int)));
    assert(row.subrange(4, 6) =~= u16_be(v.len() as u16));
    lemma_u32_at(s, p as int, sample_delta(rows, i as int));
    lemma_u16_at(s, p as int + 4, v.len() as u16);
}

proof fn lemma_subs_start(rows: Seq<SubSampleInfo>, i: nat)
    requires
        few_parts(rows),
        i < rows.len(),
    ensures
        subs_row(subs_body(rows), i) == 8 + cat(
            i,
            subs_rows(rows, has_wide_part(rows)),
        ).len(),
    decreases i,
{
    if i > 0 {
        lemma_subs_start(rows, (i - 1) as nat);
        lemma_subs_row(rows, (i - 1) as nat);
    }
}

/// The `subs` box counts its rows and says of every row how far its sample is from that
/// of the row before, how many parts the sample has, and of every part its size, its
/// priority, whether it can be left out and what the codec says.
#[verifier::rlimit(40)]
pub proof fn law_subs_says_the_parts(rows: Seq<SubSampleInfo>, i: nat, k: int)
    requires
        few_parts(rows),
        i < rows.len(),
        0 <= k < rows[i as int].subsamples@.len(),
    ensures
        ({
            let s = subs_body(rows);
            &&& u32_at(s, 4) == rows.len()
            &&& u32_at(s, subs_row(s, i)) == sample_delta(rows, i as int)
            &&& u16_at(s, subs_row(s, i) + 4) == rows[i as int].subsamples@.len()
            &&& subs_part(s, i, k) == rows[i as int].subsamples@[k]
        }),
{
    broadcast use group_be_len;

    let s = subs_body(rows);
    let wide = has_wide_part(rows);
    let f = subs_rows(rows, wide);
    let v = rows[i as int].subsamples@;
    let g = parts_bytes(v, wide);
    let w: nat = if wide {
        10
    } else {
        8
    };
    lemma_subs_row(rows, i);
    lemma_subs_start(rows, i);
    let p = subs_row(s, i);
    let row = f(i as int);
    assert(row.subrange(6, row.len() as int) =~= cat(v.len(), g));
    lemma_row_at(row, 6, v.len(), g, w, k);
    let q = 6 + w * k;
    lemma_part(s, p, p + row.len(), q, q + w);
    assert(wide || v[k].subsample_size <= 0xffff) by {
        if !wide {
            assert(!(rows[i as int].subsamples@[k].subsample_size > 0xffff));
        }
    }
    lemma_part_read(s, p + q, v[k], wide);
}

/// Where the sizes of a `saiz` body, or the count of a `saio` body, start: behind the type
/// of the information, where flag 1 says that there is one.
pub open spec fn behind_type(s: Seq<u8>) -> int {
    if s[3] % 2 == 1 {
        12
    } else {
        4
    }
}

/// How long the information of sample `j` is: the size for all, or where that is 0 the
/// one in the table.
pub open spec fn aux_size(s: Seq<u8>, j: int) -> int {
    let p = behind_type(s);
    if s[p] != 0 {
        s[p] as int
    } else {
        s[p + 5 + j] as int
    }
}

proof fn lemma_aux_head(version: u32, t: Option<[u8; 4]>, parameter: u32, rest: Seq<u8>)
    requires
        version == 0 || version == 0x0100_0000,
    ensures
        ({
            let s = u32_be((version + aux_flags(t)) as u32) + aux_type_bytes(t, parameter) + rest;
            let p = behind_type(s);
            &&& s[0] == version / 0x0100_0000
            &&& p == (if t is Some {
                12int
            } else {
                4
            })
            &&& t matches Some(c) ==> code_at(s, 4) == c && u32_at(s, 8) == parameter
            &&& s.len() == p + rest.len()
            &&& s.subrange(p, s.len() as int) == rest
        }),
{
    broadcast use group_be_len;

    let flags = (version + aux_flags(t)) as u32;
    let s = u32_be(flags) + aux_type_bytes(t, parameter) + rest;
    crate::bytes::lemma_be_bytes(0, flags, 0);
    assert(s[0] == u32_be(flags)[0]);
    assert(s[3] == u32_be(flags)[3]);
    let p = behind_type(s);
    if let Some(c) = t {
        assert(code_at(s, 4) =~= c);
        assert(s.subrange(8, 12) =~= u32_be(parameter));
        lemma_u32_at(s, 8, parameter);
    }
    assert(s.subrange(p, s.len() as int) =~= rest);
}

/// The `saiz` box says the type of the auxiliary information, counts the samples, and
/// says how long the information of every sample is.
#[verifier::rlimit(40)]
pub proof fn law_saiz_says_the_sizes(
    t: Option<[u8; 4]>,
    parameter: u32,
    blobs: Seq<Vec<u8>>,
    j: int,
)
    requires
        blobs.len() <= 0xffff_ffff,
        0 <= j < blobs.len(),
        blobs[j]@.len() <= 255,
    ensures
        ({
            let s = saiz_body(t, parameter, blobs);
            &&& s[0] == 0
            &&& t matches Some(c) ==> code_at(s, 4) == c && u32_at(s, 8) == parameter
            &&& behind_type(s) == (if t is Some {
                12int
            } else {
                4
            })
            &&& u32_at(s, behind_type(s) + 1) == blobs.len()
            &&& aux_size(s, j) == blobs[j]@.len()
        }),
{
    broadcast use group_be_len;

    let s = saiz_body(t, parameter, blobs);
    let n = blobs.len();
    if one_size(blobs) {
        let rest = seq![blob_size(blobs[0])] + u32_be(low32(n as int));
        lemma_aux_head(0, t, parameter, rest);
        let p = behind_type(s);
        assert(s[p] == s.subrange(p, s.len() as int)[0]);
        lemma_part(s, p, s.len() as int, 1, 5);
        assert(rest.subrange(1, 5) =~= u32_be(n as u32));
        lemma_u32_at(s, p + 1, n as u32);
        assert(blob_size(blobs[j]) == blob_size(blobs[0]));
    } else {
        let f = blob_sizes(blobs);
        let rest = seq![0u8] + u32_be(low32(n as int)) + cat(n, f);
        lemma_aux_head(0, t, parameter, rest);
        let p = behind_type(s);
        assert(s[p] == s.subrange(p, s.len() as int)[0]);
        lemma_part(s, p, s.len() as int, 1, 5);
        assert(rest.subrange(1, 5) =~= u32_be(n as u32));
        lemma_u32_at(s, p + 1, n as u32);
        assert(rest.subrange(5, rest.len() as int) =~= cat(n, f));
        lemma_row_at(rest, 5, n, f, 1, j);
        assert(rest[5 + j] == rest.subrange(5 + 1 * j, 5 + 1 * j + 1)[0]);
        assert(s[p + 5 + j] == s.subrange(p, s.len() as int)[5 + j]);
    }
}

/// The offset that a `saio` body says: 64 bits in version 1, else 32.
pub open spec fn aux_offset_at(s: Seq<u8>) -> int {
    if s[0] == 1 {
        u64_at(s, behind_type(s) + 4) as int
    } else {
        u32_at(s, behind_type(s) + 4) as int
    }
}

/// The `saio` box says the type of the auxiliary information, and one offset: the one
/// that was asked for.
pub proof fn law_saio_says_the_offset(t: Option<[u8; 4]>, parameter: u32, offset: u64)
    ensures
        ({
            let s = saio_body(t, parameter, offset);
            &&& t matches Some(c) ==> code_at(s, 4) == c && u32_at(s, 8) == parameter
            &&& behind_type(s) == (if t is Some {
                12int
            } else {
                4
            })
            &&& u32_at(s, behind_type(s)) == 1
            &&& aux_offset_at(s) == offset
        }),
{
    broadcast use group_be_len;

    let s = saio_body(t, parameter, offset);
    let wide = offset > 0xffff_ffff;
    if wide {
        let rest = u32_be(1) + u64_be(offset);
        lemma_aux_head(0x0100_0000, t, parameter, rest);
        assert(s =~= u32_be((0x0100_0000 + aux_flags(t)) as u32) + aux_type_bytes(t, parameter)
            + rest);
        let p = behind_type(s);
        lemma_part(s, p, s.len() as int, 0, 4);
        lemma_part(s, p, s.len() as int, 4, 12);
        assert(rest.subrange(0, 4) =~= u32_be(1));
        assert(rest.subrange(4, 12) =~= u64_be(offset));
        lemma_u32_at(s, p, 1);
        lemma_u64_at(s, p + 4, offset);
    } else {
        let rest = u32_be(1) + u32_be(offset as u32);
        lemma_aux_head(0, t, parameter, rest);
        assert(s =~= u32_be((0 + aux_flags(t)) as u32) + aux_type_bytes(t, parameter) + rest);
        let p = behind_type(s);
        lemma_part(s, p, s.len() as int, 0, 4);
        lemma_part(s, p, s.len() as int, 4, 8);
        assert(rest.subrange(0, 4) =~= u32_be(1));
        assert(rest.subrange(4, 8) =~= u32_be(offset as u32));
        lemma_u32_at(s, p, 1);
        lemma_u32_at(s, p + 4, offset as u32);
    }
}

/// Where description `i` of an `sgpd` body starts. Without a length for all, the length of
/// each stands in front of it.
pub open spec fn description_start(s: Seq<u8>, i: nat) -> int
    decreases i,
{
    if i == 0 {
        16
    } else {
        let p = description_start(s, (i - 1) as nat);
        if u32_at(s, 8) == 0 {
            p + 4 + u32_at(s, p)
        } else {
            p + u32_at(s, 8)
        }
    }
}

/// Description `i` of an `sgpd` body.
pub open spec fn description_in(s: Seq<u8>, i: nat) -> Seq<u8> {
    let p = description_start(s, i);
    if u32_at(s, 8) == 0 {
        s.subrange(p + 4, p + 4 + u32_at(s, p))
    } else {
        s.subrange(p, p + u32_at(s, 8))
    }
}

/// The descriptions and their lengths can be counted in 32 bits.
pub open spec fn fit_descriptions(d: SampleGroupDescriptionWrite) -> bool {
    d.entries@.len() <= 0xffff_ffff && forall|i: int|
        0 <= i < d.entries@.len() ==> (#[trigger] d.entries@[i])@.len() <= 0xffff_ffff
}

proof fn lemma_sgpd_head(d: SampleGroupDescriptionWrite)
    requires
        fit_descriptions(d),
    ensures
        ({
            let s = sgpd_body(d);
            let n = d.entries@.len();
            let len = low32(common_len(d.entries@) as int);
            &&& s[0] == 1
            &&& code_at(s, 4) == d.grouping_type
            &&& u32_at(s, 8) == len
            &&& len == common_len(d.entries@)
            &&& u32_at(s, 12) == n
            &&& s.len() == 16 + cat(n, sgpd_rows(d.entries@, len)).len()
            &&& s.subrange(16, s.len() as int) == cat(n, sgpd_rows(d.entries@, len))
        }),
{
    broadcast use group_be_len;

    let s = sgpd_body(d);
    let n = d.entries@.len();
    let len = low32(common_len(d.entries@) as int);
    if n > 0 {
        assert(d.entries@[0]@.len() <= 0xffff_ffff);
    }
    crate::bytes::lemma_be_bytes(0, 0x0100_0000, 0);
    assert(s[0] == u32_be(0x0100_0000)[0]);
    assert(code_at(s, 4) =~= d.grouping_type);
    assert(s.subrange(8, 12) =~= u32_be(len));
    assert(s.subrange(12, 16) =~= u32_be(n as u32));
    lemma_u32_at(s, 8, len);
    lemma_u32_at(s, 12, n as u32);
    assert(s.subrange(16, s.len() as int) =~= cat(n, sgpd_rows(d.entries@, len)));
}

proof fn lemma_description_row(d: SampleGroupDescriptionWrite, i: nat)
    requires
        fit_descriptions(d),
        i < d.entries@.len(),
    ensures
        ({
            let s = sgpd_body(d);
            let len = u32_at(s, 8);
            let f = sgpd_rows(d.entries@, len);
            let p = 16 + cat(i, f).len();
            let e = d.entries@[i as int]@;
            &&& p + f(i as int).len() <= s.len()
            &&& len == 0 ==> u32_at(s, p as int) == e.len() && s.subrange(
                p as int + 4,
                p as int + 4 + e.len(),
            ) == e && f(i as int).len() == 4 + e.len()
            &&& len != 0 ==> e.len() == len && s.subrange(p as int, p as int + e.len()) == e && f(
                i as int,
            ).len() == len
        }),
{
    broadcast use group_be_len;

    lemma_sgpd_head(d);
    let s = sgpd_body(d);
    let len = u32_at(s, 8);
    let f = sgpd_rows(d.entries@, len);
    let e = d.entries@[i as int]@;
    let p = (16 + cat(i, f).len()) as int;
    crate::bytes::lemma_piece_at(s, 16, d.entries@.len(), f, i as int);
    let row = f(i as int);
    assert(d.entries@[i as int]@.len() <= 0xffff_ffff);
    if len == 0 {
        lemma_part(s, p, p + row.len(), 0, 4);
        lemma_part(s, p, p + row.len(), 4, row.len() as int);
        assert(row.subrange(0, 4) =~= u32_be(e.len() as u32));
        assert(row.subrange(4, row.len() as int) =~= e);
        lemma_u32_at(s, p, e.len() as u32);
    }
}

proof fn lemma_description_start(d: SampleGroupDescriptionWrite, i: nat)
    requires
        fit_descriptions(d),
        i < d.entries@.len(),
    ensures
        description_start(sgpd_body(d), i) == 16 + cat(
            i,
            sgpd_rows(d.entries@, u32_at(sgpd_body(d), 8)),
        ).len(),
    decreases i,
{
    if i > 0 {
        lemma_description_start(d, (i - 1) as nat);
        lemma_description_row(d, (i - 1) as nat);
    }
}

/// The `sgpd` box says the type of the grouping, counts the descriptions and holds every
/// one of them.
pub proof fn law_sgpd_holds_the_descriptions(d: SampleGroupDescriptionWrite, i: nat)
    requires
        fit_descriptions(d),
        i < d.entries@.len(),
    ensures
        ({
            let s = sgpd_body(d);
            &&& s[0] == 1
            &&& code_at(s, 4) == d.grouping_type
            &&& u32_at(s, 12) == d.entries@.len()
            &&& description_in(s, i) == d.entries@[i as int]@
        }),
{
    lemma_sgpd_head(d);
    lemma_description_start(d, i);
    lemma_description_row(d, i);
}

/// Where the runs of an `sbgp` body start: behind the type, and in version 1 a parameter.
pub open spec fn sbgp_runs(s: Seq<u8>) -> int {
    if s[0] == 1 {
        12
    } else {
        8
    }
}

/// The group of sample `j` that an `sbgp` body says.
pub open spec fn sbgp_group(s: Seq<u8>, j: int) -> Option<u32> {
    let p = sbgp_runs(s);
    run_value(s, p + 4, u32_at(s, p) as nat, j)
}

proof fn lemma_shifted(a: Seq<u8>, b: Seq<u8>, p: int, n: nat, j: int)
    requires
        0 <= p,
        p + 8 * n <= b.len(),
    ensures
        run_total(a + b, a.len() + p, n) == run_total(b, p, n),
        run_value(a + b, a.len() + p, n, j) == run_value(b, p, n, j),
    decreases n,
{
    if n > 0 {
        let m = (n - 1) as nat;
        lemma_shifted(a, b, p, m, j);
        let s = a + b;
        let x = p + 8 * (n - 1);
        assert(u32_at(s, a.len() + x) == u32_at(b, x));
        assert(u32_at(s, a.len() + x + 4) == u32_at(b, x + 4));
    }
}

/// The `sbgp` box says the type of the grouping, its parameter, if it has one, and the
/// group of every sample.
#[verifier::rlimit(40)]
pub proof fn law_sbgp_says_the_groups(g: SampleToGroupWrite, j: int)
    requires
        g.indices@.len() <= 0xffff_ffff,
        0 <= j < g.indices@.len(),
    ensures
        ({
            let s = sbgp_body(g);
            let p = sbgp_runs(s);
            &&& code_at(s, 4) == g.grouping_type
            &&& p == (if g.grouping_type_parameter is Some {
                12int
            } else {
                8
            })
            &&& g.grouping_type_parameter matches Some(x) ==> u32_at(s, 8) == x
            &&& run_total(s, p + 4, u32_at(s, p) as nat) == g.indices@.len()
            &&& sbgp_group(s, j) == Some(g.indices@[j])
        }),
{
    broadcast use group_be_len;

    let s = sbgp_body(g);
    let v = g.indices@;
    let version = if g.grouping_type_parameter is Some {
        0x0100_0000u32
    } else {
        0u32
    };
    let head = u32_be(version) + g.grouping_type@ + parameter_bytes(g.grouping_type_parameter);
    let table = run_table(runs(v));
    assert(s =~= head + table);
    crate::bytes::lemma_be_bytes(0, version, 0);
    assert(s[0] == u32_be(version)[0]);
    assert(code_at(s, 4) =~= g.grouping_type);
    if let Some(x) = g.grouping_type_parameter {
        assert(s.subrange(8, 12) =~= u32_be(x));
        lemma_u32_at(s, 8, x);
    }
    lemma_runs_are_few(v);
    let four = u32_be(0);
    lemma_table(four, v, j);
    let t = four + table;
    let n = runs(v).len();
    crate::runs::law_runs_stand_for_the_list(v);
    assert(n > 0) by {
        if n == 0 {
            assert(crate::runs::expand(runs(v)).len() == 0);
        }
    }
    crate::runs::law_run_table_is_read_back(runs(v), 0);
    lemma_shifted(four, table, 4, n, j);
    lemma_shifted(head, table, 4, n, j);
    let p = head.len() as int;
    assert(u32_at(s, p) == u32_at(table, 0));
    assert(u32_at(t, 4) == u32_at(table, 0));
}

/// `n` bits of bytes from bit `from` on.
pub open spec fn bits_at(s: Seq<u8>, from: int, n: int) -> Seq<bool> {
    Seq::new(n as nat, |k: int| bit_at(s, from + k))
}

/// The width that a two-bit code stands for: 4, 8, 16 or 32 bits.
pub open spec fn width_of(code: int) -> int {
    if code == 0 {
        4
    } else if code == 1 {
        8
    } else if code == 2 {
        16
    } else {
        32
    }
}

/// Where the patterns of a `csgp` body are counted: behind the type, and the parameter,
/// where flag 64 says that there is one.
pub open spec fn csgp_count(s: Seq<u8>) -> int {
    if (u32_at(s, 0) / 64) % 2 == 1 {
        12
    } else {
        8
    }
}

/// The width of the number of samples that a pattern covers.
pub open spec fn csgp_count_width(s: Seq<u8>) -> int {
    width_of((u32_at(s, 0) as int / 4) % 4)
}

/// The width of a group number.
pub open spec fn csgp_number_width(s: Seq<u8>) -> int {
    width_of(u32_at(s, 0) as int % 4)
}

proof fn lemma_bits_at(bits: Seq<bool>, from: int, n: int)
    requires
        0 <= from,
        0 <= n,
        from + n <= bits.len(),
    ensures
        bits_at(pack(bits), from, n) == bits.subrange(from, from + n),
{
    assert forall|k: int| 0 <= k < n implies #[trigger] bits_at(pack(bits), from, n)[k]
        == bits.subrange(from, from + n)[k] by {
        law_packed_bits_are_read_back(bits, from + k);
    }
    assert(bits_at(pack(bits), from, n) =~= bits.subrange(from, from + n));
}

/// The `csgp` box says the type of the grouping, its parameter, if it has one, and the
/// runs of equal group numbers: pattern `i` has the length 1 and covers as many samples
/// as run `i` is long, and its group number is that of run `i`. All widths are those that
/// the flags say.
pub proof fn law_csgp_says_the_runs(g: SampleToGroupWrite, i: int)
    requires
        runs(g.indices@).len() <= 0xffff_ffff,
        0 <= i < runs(g.indices@).len(),
    ensures
        ({
            let s = csgp_body(g);
            let r = runs(g.indices@);
            let p = csgp_count(s);
            let bytes = tail(s, p + 4);
            let w = csgp_count_width(s);
            let x = csgp_number_width(s);
            &&& code_at(s, 4) == g.grouping_type
            &&& p == (if g.grouping_type_parameter is Some {
                12int
            } else {
                8
            })
            &&& g.grouping_type_parameter matches Some(x) ==> u32_at(s, 8) == x
            &&& (u32_at(s, 0) / 16) % 4 == 0
            &&& u32_at(s, p) == r.len()
            &&& value_of(bits_at(bytes, i * (4 + w), 4)) == 1
            &&& value_of(bits_at(bytes, i * (4 + w) + 4, w)) == r[i].0
            &&& value_of(bits_at(bytes, r.len() * (4 + w) + i * x, x)) == r[i].1
        }),
{
    let r = runs(g.indices@);
    lemma_csgp_head(g);
    lemma_csgp_row(r, i);
}

#[verifier::rlimit(40)]
proof fn lemma_csgp_flags(r: Seq<(u32, u32)>, parameter: Option<u32>)
    ensures
        ({
            let flags = csgp_flags(r, parameter);
            &&& ((flags / 64) % 2 == 1) == (parameter is Some)
            &&& (flags / 16) % 4 == 0
            &&& width_of((flags as int / 4) % 4) == code_width(size_code(max_count(r)))
            &&& width_of(flags as int % 4) == code_width(size_code(max_number(r)))
        }),
{
}

#[verifier::spinoff_prover]
proof fn lemma_csgp_head(g: SampleToGroupWrite)
    requires
        runs(g.indices@).len() <= 0xffff_ffff,
    ensures
        ({
            let s = csgp_body(g);
            let r = runs(g.indices@);
            let p = csgp_count(s);
            &&& code_at(s, 4) == g.grouping_type
            &&& p == (if g.grouping_type_parameter is Some {
                12int
            } else {
                8
            })
            &&& g.grouping_type_parameter matches Some(x) ==> u32_at(s, 8) == x
            &&& (u32_at(s, 0) / 16) % 4 == 0
            &&& u32_at(s, p) == r.len()
            &&& tail(s, p + 4) == pack(csgp_bits(r))
            &&& csgp_count_width(s) == code_width(size_code(max_count(r)))
            &&& csgp_number_width(s) == code_width(size_code(max_number(r)))
        }),
{
    let r = runs(g.indices@);
    let flags = csgp_flags(r, g.grouping_type_parameter);
    lemma_csgp_flags(r, g.grouping_type_parameter);
    lemma_head_parts(
        csgp_body(g),
        flags,
        g.grouping_type,
        g.grouping_type_parameter,
        r.len() as u32,
        pack(csgp_bits(r)),
    );
}

proof fn lemma_head_parts(
    s: Seq<u8>,
    flags: u32,
    code: [u8; 4],
    parameter: Option<u32>,
    count: u32,
    rest: Seq<u8>,
)
    requires
        s == u32_be(flags) + code@ + parameter_bytes(parameter) + u32_be(count) + rest,
    ensures
        u32_at(s, 0) == flags,
        code_at(s, 4) == code,
        parameter matches Some(x) ==> u32_at(s, 8) == x && u32_at(s, 12) == count && tail(s, 16)
            == rest,
        parameter is None ==> u32_at(s, 8) == count && tail(s, 12) == rest,
{
    broadcast use group_be_len;

    assert(s.subrange(0, 4) =~= u32_be(flags));
    lemma_u32_at(s, 0, flags);
    assert(code_at(s, 4) =~= code);
    let p = if parameter is Some {
        12int
    } else {
        8int
    };
    if let Some(x) = parameter {
        assert(s.subrange(8, 12) =~= u32_be(x));
        lemma_u32_at(s, 8, x);
    }
    assert(s.subrange(p, p + 4) =~= u32_be(count));
    lemma_u32_at(s, p, count);
    assert(tail(s, p + 4) =~= rest);
}

#[verifier::spinoff_prover]
proof fn lemma_csgp_row(r: Seq<(u32, u32)>, i: int)
    requires
        0 <= i < r.len(),
    ensures
        ({
            let bytes = pack(csgp_bits(r));
            let w = code_width(size_code(max_count(r))) as int;
            let x = code_width(size_code(max_number(r))) as int;
            &&& value_of(bits_at(bytes, i * (4 + w), 4)) == 1
            &&& value_of(bits_at(bytes, i * (4 + w) + 4, w)) == r[i].0
            &&& value_of(bits_at(bytes, r.len() * (4 + w) + i * x, x)) == r[i].1
        }),
{
    let bits = csgp_bits(r);
    let w = code_width(size_code(max_count(r))) as int;
    let x = code_width(size_code(max_number(r))) as int;
    law_csgp_fields_are_the_runs(r, i);
    lemma_csgp_bounds(r, i, w, x);
    lemma_bits_at(bits, i * (4 + w), 4);
    lemma_bits_at(bits, i * (4 + w) + 4, w);
    lemma_bits_at(bits, r.len() * (4 + w) + i * x, x);
}

proof fn lemma_csgp_bounds(r: Seq<(u32, u32)>, i: int, w: int, x: int)
    requires
        0 <= i < r.len(),
        w == code_width(size_code(max_count(r))),
        x == code_width(size_code(max_number(r))),
    ensures
        0 <= i * (4 + w),
        i * (4 + w) + 4 + w <= csgp_bits(r).len(),
        0 <= r.len() * (4 + w) + i * x,
        r.len() * (4 + w) + i * x + x <= csgp_bits(r).len(),
{
    crate::mux_groups::lemma_pattern_bits(r, r.len(), w as nat, i);
    crate::mux_groups::lemma_number_bits(r, r.len(), x as nat, i);
    assert(0 <= i * (4 + w) && 0 <= i * x && 0 <= r.len() * (4 + w)) by (nonlinear_arith)
        requires
            0 <= i < r.len(),
            0 <= w,
            0 <= x,
    ;
}

} // verus!
