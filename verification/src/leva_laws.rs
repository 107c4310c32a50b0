//! Levels that were written as a `leva` body are read back.
use crate::bytes::{
    cat, code_at, group_be_len, lemma_cat_piece, lemma_part, lemma_u32_at, u32_at, u32_be,
};
use crate::leva::{
    leva_error, leva_levels, pinned_code, row_code, row_error, row_level, row_start, rows_error,
    AssignmentType, LevaLevel,
};
use vstd::prelude::*;

verus! {

/// The number that stands for a way to assign samples.
pub open spec fn assignment_number(a: AssignmentType) -> u8 {
    match a {
        AssignmentType::SampleGroup { .. } => 0,
        AssignmentType::ParameterizedSampleGroup { .. } => 1,
        AssignmentType::Track => 2,
        AssignmentType::TrackAlternate => 3,
        AssignmentType::SubTrack { .. } => 4,
        AssignmentType::Reserved { raw } => raw,
    }
}

/// What follows the number: a code, a code and a parameter, a sub-track, or nothing.
pub open spec fn assignment_bytes(a: AssignmentType) -> Seq<u8> {
    match a {
        AssignmentType::SampleGroup { grouping_type } => grouping_type@,
        AssignmentType::ParameterizedSampleGroup { grouping_type, grouping_type_parameter } =>
            grouping_type@ + u32_be(grouping_type_parameter),
        AssignmentType::SubTrack { sub_track_id } => u32_be(sub_track_id),
        _ => Seq::empty(),
    }
}

/// The row of a level: its track, the padding flag in the top bit of the byte with the
/// number of the assignment, and what follows.
pub open spec fn level_bytes(l: LevaLevel) -> Seq<u8> {
    u32_be(l.track_id) + seq![
        (assignment_number(l.assignment_type) + (if l.padding_flag {
            128int
        } else {
            0
        })) as u8,
    ] + assignment_bytes(l.assignment_type)
}

/// The rows of levels.
pub open spec fn level_rows(v: Seq<LevaLevel>) -> spec_fn(int) -> Seq<u8> {
    |i: int| level_bytes(v[i])
}

/// A `leva` body that says these levels.
pub open spec fn leva_bytes(v: Seq<LevaLevel>) -> Seq<u8> {
    u32_be(0) + seq![v.len() as u8] + cat(v.len(), level_rows(v))
}

/// The level is assigned by track.
pub open spec fn is_by_track(l: LevaLevel) -> bool {
    l.assignment_type is Track || l.assignment_type is TrackAlternate
}

/// Between two and 255 levels; levels by track come first, and all others have one and the
/// same way of assignment; a reserved number is none that has a meaning.
pub open spec fn in_order(v: Seq<LevaLevel>) -> bool {
    &&& 2 <= v.len() <= 255
    &&& forall|i: int|
        0 <= i < v.len() ==> ((#[trigger] v[i]).assignment_type matches AssignmentType::Reserved {
            raw,
        } ==> 5 <= raw <= 127)
    &&& forall|i: int, j: int|
        0 <= i < j < v.len() && !is_by_track(#[trigger] v[i]) ==> !is_by_track(#[trigger] v[j])
            && assignment_number(v[j].assignment_type) == assignment_number(v[i].assignment_type)
}

spec fn start(v: Seq<LevaLevel>, j: int) -> int {
    5 + cat(j as nat, level_rows(v)).len() as int
}

proof fn lemma_head(v: Seq<LevaLevel>)
    requires
        v.len() <= 255,
    ensures
        leva_bytes(v)[0] == 0,
        leva_bytes(v)[4] == v.len(),
        leva_bytes(v).len() == start(v, v.len() as int),
        leva_bytes(v).subrange(5, leva_bytes(v).len() as int) == cat(v.len(), level_rows(v)),
{
    broadcast use group_be_len;

    let s = leva_bytes(v);
    crate::bytes::lemma_be_bytes(0, 0, 0);
    assert(s[0] == u32_be(0)[0]);
    assert(s.subrange(5, s.len() as int) =~= cat(v.len(), level_rows(v)));
}

proof fn lemma_level_piece(v: Seq<LevaLevel>, j: int)
    requires
        v.len() <= 255,
        0 <= j < v.len(),
    ensures
        start(v, j) + level_bytes(v[j]).len() <= leva_bytes(v).len(),
        start(v, j + 1) == start(v, j) + level_bytes(v[j]).len(),
        leva_bytes(v).subrange(start(v, j), start(v, j) + level_bytes(v[j]).len()) == level_bytes(
            v[j],
        ),
{
    let s = leva_bytes(v);
    let f = level_rows(v);
    lemma_head(v);
    lemma_cat_piece(v.len(), f, j);
    let p = cat(j as nat, f).len() as int;
    lemma_part(s, 5, s.len() as int, p, p + f(j).len());
}

proof fn lemma_level_fields(s: Seq<u8>, p: int, l: LevaLevel)
    requires
        0 <= p,
        p + level_bytes(l).len() <= s.len(),
        s.subrange(p, p + level_bytes(l).len()) == level_bytes(l),
        assignment_number(l.assignment_type) <= 127,
    ensures
        u32_at(s, p) == l.track_id,
        s[p + 4] % 0x80 == assignment_number(l.assignment_type),
        (s[p + 4] >= 0x80) == l.padding_flag,
        level_bytes(l).len() == 5 + assignment_bytes(l.assignment_type).len(),
        s.subrange(p + 5, p + level_bytes(l).len()) == assignment_bytes(l.assignment_type),
{
    broadcast use group_be_len;

    let b = level_bytes(l);
    let n = b.len() as int;
    lemma_part(s, p, p + n, 0, 4);
    lemma_part(s, p, p + n, 5, n);
    assert(b.subrange(0, 4) =~= u32_be(l.track_id));
    assert(b.subrange(5, n) =~= assignment_bytes(l.assignment_type));
    lemma_u32_at(s, p, l.track_id);
    assert(s[p + 4] == s.subrange(p, p + n)[4]);
}

proof fn lemma_assignment(s: Seq<u8>, p: int, a: AssignmentType)
    requires
        0 <= p,
        p + assignment_bytes(a).len() <= s.len(),
        s.subrange(p, p + assignment_bytes(a).len()) == assignment_bytes(a),
        a matches AssignmentType::Reserved { raw } ==> 5 <= raw <= 127,
    ensures
        crate::leva::assignment_at(s, assignment_number(a), p) == a,
        crate::leva::trailer_len(assignment_number(a)) == assignment_bytes(a).len(),
{
    broadcast use group_be_len;

    let b = assignment_bytes(a);
    let n = b.len() as int;
    match a {
        AssignmentType::SampleGroup { grouping_type } => {
            let part = s.subrange(p, p + n);
            assert(part[0] == s[p] && part[1] == s[p + 1] && part[2] == s[p + 2] && part[3] == s[p
                + 3]);
            assert(code_at(s, p) =~= grouping_type);
        },
        AssignmentType::ParameterizedSampleGroup { grouping_type, grouping_type_parameter } => {
            let part = s.subrange(p, p + n);
            assert(part[0] == s[p] && part[1] == s[p + 1] && part[2] == s[p + 2] && part[3] == s[p
                + 3]);
            assert(code_at(s, p) =~= grouping_type);
            lemma_part(s, p, p + n, 4, 8);
            assert(b.subrange(4, 8) =~= u32_be(grouping_type_parameter));
            lemma_u32_at(s, p + 4, grouping_type_parameter);
        },
        AssignmentType::SubTrack { sub_track_id } => {
            lemma_u32_at(s, p, sub_track_id);
        },
        _ => {},
    }
}

proof fn lemma_row(v: Seq<LevaLevel>, j: nat)
    requires
        in_order(v),
        j <= v.len(),
    ensures
        row_start(leva_bytes(v), j) == start(v, j as int),
        j < v.len() ==> row_code(leva_bytes(v), j) == assignment_number(
            v[j as int].assignment_type,
        ) && row_level(leva_bytes(v), j) == v[j as int] && start(v, j as int) + 5
            + crate::leva::trailer_len(assignment_number(v[j as int].assignment_type))
            <= leva_bytes(v).len(),
    decreases j,
{
    let s = leva_bytes(v);
    if j > 0 {
        let m = (j - 1) as nat;
        lemma_row(v, m);
        lemma_level_piece(v, m as int);
        lemma_level_fields(s, start(v, m as int), v[m as int]);
        lemma_assignment(s, start(v, m as int) + 5, v[m as int].assignment_type);
    }
    if j < v.len() {
        let l = v[j as int];
        let p = start(v, j as int);
        lemma_level_piece(v, j as int);
        lemma_level_fields(s, p, l);
        lemma_assignment(s, p + 5, l.assignment_type);
    }
}

proof fn lemma_pinned(v: Seq<LevaLevel>, j: nat)
    requires
        in_order(v),
        j <= v.len(),
    ensures
        pinned_code(leva_bytes(v), j) is None ==> forall|i: int|
            0 <= i < j ==> is_by_track(#[trigger] v[i]),
        pinned_code(leva_bytes(v), j) matches Some(c) ==> exists|i: int|
            0 <= i < j && !is_by_track(#[trigger] v[i]) && assignment_number(v[i].assignment_type)
                == c,
    decreases j,
{
    if j > 0 {
        let m = (j - 1) as nat;
        lemma_pinned(v, m);
        lemma_row(v, m);
    }
}

proof fn lemma_no_error(v: Seq<LevaLevel>, j: nat)
    requires
        in_order(v),
        j <= v.len(),
    ensures
        rows_error(leva_bytes(v), j) is None,
    decreases j,
{
    if j > 0 {
        let m = (j - 1) as nat;
        lemma_no_error(v, m);
        lemma_row(v, m);
        lemma_pinned(v, m);
        assert(row_error(leva_bytes(v), m) is None);
    }
}

proof fn lemma_rows_are_long(v: Seq<LevaLevel>, j: nat)
    requires
        j <= v.len(),
    ensures
        cat(j, level_rows(v)).len() >= 5 * j,
    decreases j,
{
    broadcast use group_be_len;

    if j > 0 {
        lemma_rows_are_long(v, (j - 1) as nat);
        assert(level_bytes(v[j - 1]).len() >= 5);
    }
}

/// Levels in order that were written as a body are read back, each with its track, its
/// padding and its assignment.
pub proof fn law_levels_are_read_back(v: Seq<LevaLevel>)
    requires
        in_order(v),
    ensures
        leva_error(leva_bytes(v)) is None,
        leva_levels(leva_bytes(v)) == v,
{
    let s = leva_bytes(v);
    lemma_head(v);
    lemma_rows_are_long(v, v.len());
    lemma_no_error(v, v.len());
    lemma_row(v, v.len());
    assert forall|j: int| 0 <= j < v.len() implies #[trigger] leva_levels(s)[j] == v[j] by {
        lemma_row(v, j as nat);
    }
    assert(leva_levels(s) =~= v);
}

} // verus!
