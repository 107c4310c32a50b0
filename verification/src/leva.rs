//! Level Assignment box (`leva`).
//!
//! A box inside `moov/mvex` that names the levels which fragmented data is
//! grouped into. After the four bytes of version and flags comes a one-byte
//! `level_count` and then one row per level: a `track_id`, a byte that holds
//! the padding flag (top bit) and the assignment type (low seven bits), and a
//! trailer whose length the assignment type fixes.
use crate::bytes::{code_at, read_code, read_u32, u32_at};
use crate::error::{Error, Name};
use crate::search::{first_index, lemma_first_index, lemma_first_index_is};
use vstd::prelude::*;

verus! {

/// How the samples of a track are assigned to a level.
#[derive(Clone, Copy, Debug, PartialEq, Eq)]
pub enum AssignmentType {
    /// Type 0: sample groups specify levels.
    SampleGroup {
        /// FourCC of the sample grouping.
        grouping_type: [u8; 4],
    },
    /// Type 1: as type 0, by a parameterized sample group.
    ParameterizedSampleGroup {
        /// FourCC of the sample grouping.
        grouping_type: [u8; 4],
        /// Selects one of the groupings that share `grouping_type`.
        grouping_type_parameter: u32,
    },
    /// Type 2: level assignment is by track.
    Track,
    /// Type 3: level assignment is by track.
    TrackAlternate,
    /// Type 4: the level holds the samples of a sub-track.
    SubTrack {
        /// The sub-track.
        sub_track_id: u32,
    },
    /// A type that has no meaning yet. Its row has no trailer.
    Reserved {
        /// The seven-bit type on disk (`5..=127`).
        raw: u8,
    },
}

/// One level.
#[derive(Clone, Copy, Debug, PartialEq, Eq)]
pub struct LevaLevel {
    /// The track assigned to this level.
    pub track_id: u32,
    /// Whether the level may be padded with zero bytes.
    pub padding_flag: bool,
    /// How the samples are assigned.
    pub assignment_type: AssignmentType,
}

/// The levels of a Level Assignment box, in the order of the file.
#[derive(Clone, Debug, PartialEq, Eq)]
pub struct Leva {
    /// Level rows. Level `j`, counted from 1, is at index `j - 1`.
    pub levels: Vec<LevaLevel>,
}

/// The seven-bit type in the byte that also holds the padding flag.
pub open spec fn type_code(flag_type: u8) -> u8 {
    (flag_type % 0x80) as u8
}

/// Level assignment is by track.
pub open spec fn by_track(code: u8) -> bool {
    code == 2 || code == 3
}

/// Length of what follows the five fixed bytes of a row.
pub open spec fn trailer_len(code: u8) -> int {
    if code == 0 || code == 4 {
        4
    } else if code == 1 {
        8
    } else {
        0
    }
}

/// Where row `j` starts, counted from 0.
pub open spec fn row_start(s: Seq<u8>, j: nat) -> int
    decreases j, 0int,
{
    if j == 0 {
        5
    } else {
        row_start(s, (j - 1) as nat) + 5 + trailer_len(row_code(s, (j - 1) as nat))
    }
}

/// The assignment type of row `j`.
pub open spec fn row_code(s: Seq<u8>, j: nat) -> u8
    decreases j, 1int,
{
    type_code(s[row_start(s, j) + 4])
}

/// The assignment of type `code` whose trailer starts at `i`.
pub open spec fn assignment_at(s: Seq<u8>, code: u8, i: int) -> AssignmentType {
    if code == 0 {
        AssignmentType::SampleGroup { grouping_type: code_at(s, i) }
    } else if code == 1 {
        AssignmentType::ParameterizedSampleGroup {
            grouping_type: code_at(s, i),
            grouping_type_parameter: u32_at(s, i + 4),
        }
    } else if code == 2 {
        AssignmentType::Track
    } else if code == 3 {
        AssignmentType::TrackAlternate
    } else if code == 4 {
        AssignmentType::SubTrack { sub_track_id: u32_at(s, i) }
    } else {
        AssignmentType::Reserved { raw: code }
    }
}

/// The level that row `j` describes.
pub open spec fn row_level(s: Seq<u8>, j: nat) -> LevaLevel {
    let i = row_start(s, j);
    LevaLevel {
        track_id: u32_at(s, i),
        padding_flag: s[i + 4] >= 0x80,
        assignment_type: assignment_at(s, row_code(s, j), i + 5),
    }
}

/// The type of the first row before row `j` that is not by track.
pub open spec fn pinned_code(s: Seq<u8>, j: nat) -> Option<u8>
    decreases j,
{
    if j == 0 {
        None
    } else {
        match pinned_code(s, (j - 1) as nat) {
            Some(p) => Some(p),
            None => if by_track(row_code(s, (j - 1) as nat)) {
                None
            } else {
                Some(row_code(s, (j - 1) as nat))
            },
        }
    }
}

/// The name of an assignment type in a message.
pub open spec fn kind_name(code: u8) -> Name {
    if code == 0 {
        Name::Word("SampleGroup")
    } else if code == 1 {
        Name::Word("ParameterizedSampleGroup")
    } else if code == 2 {
        Name::Word("Track")
    } else if code == 3 {
        Name::Word("TrackAlternate")
    } else if code == 4 {
        Name::Word("SubTrack")
    } else {
        Name::Numbered("Reserved { raw: ", code as i128, " }")
    }
}

fn name_of(code: u8) -> (r: Name)
    ensures
        r == kind_name(code),
{
    match code {
        0 => Name::Word("SampleGroup"),
        1 => Name::Word("ParameterizedSampleGroup"),
        2 => Name::Word("Track"),
        3 => Name::Word("TrackAlternate"),
        4 => Name::Word("SubTrack"),
        _ => Name::Numbered("Reserved { raw: ", code as i128, " }"),
    }
}

/// What is wrong with row `j`, given that the rows before it are in order.
pub open spec fn row_error(s: Seq<u8>, j: nat) -> Option<Error> {
    let i = row_start(s, j);
    let code = row_code(s, j);
    let n = (j + 1) as i128;
    if i + 5 > s.len() {
        Some(Error::Number("MOV: leva row ", n, " truncated reading track_id+flag/type"))
    } else if code == 0 && i + 9 > s.len() {
        Some(Error::Number("MOV: leva row ", n, " type=0 truncated reading grouping_type"))
    } else if code == 1 && i + 13 > s.len() {
        Some(
            Error::Number(
                "MOV: leva row ",
                n,
                " type=1 truncated reading grouping_type / grouping_type_parameter",
            ),
        )
    } else if code == 4 && i + 9 > s.len() {
        Some(Error::Number("MOV: leva row ", n, " type=4 truncated reading sub_track_id"))
    } else {
        match pinned_code(s, j) {
            None => None,
            Some(p) => if by_track(code) {
                Some(Error::Number("MOV: leva row ", n, " type=2/3 follows a pinned non-2/3 tail (§8.8.13.3 sequence rule)"))
            } else if code == p {
                None
            } else {
                Some(
                    Error::Names(
                        "MOV: leva row ",
                        n,
                        " assignment_type kind ",
                        kind_name(code),
                        " contradicts pinned kind ",
                        kind_name(p),
                        " (§8.8.13.3 sequence rule)",
                    ),
                )
            },
        }
    }
}

/// What is wrong with the first faulty row among the first `n`.
pub open spec fn rows_error(s: Seq<u8>, n: nat) -> Option<Error>
    decreases n,
{
    if n == 0 {
        None
    } else {
        match rows_error(s, (n - 1) as nat) {
            Some(e) => Some(e),
            None => row_error(s, (n - 1) as nat),
        }
    }
}

/// Why a `leva` body is refused; `None` where it is well formed.
pub open spec fn leva_error(s: Seq<u8>) -> Option<Error> {
    if s.len() < 5 {
        Some(
            Error::Number(
                "MOV: leva payload ",
                s.len() as i128,
                " < 5-byte FullBox header + level_count",
            ),
        )
    } else if s[0] != 0 {
        Some(Error::Number("MOV: leva unknown version ", s[0] as i128, " (spec fixes at 0)"))
    } else if s[4] < 2 {
        Some(Error::Number("MOV: leva level_count ", s[4] as i128, " < 2 (§8.8.13.3)"))
    } else if s[4] * 5 > s.len() - 5 {
        Some(
            Error::Triple(
                "MOV: leva level_count ",
                s[4] as i128,
                " needs ≥ ",
                (s[4] * 5) as i128,
                " body bytes but only ",
                (s.len() - 5) as i128,
                " remain",
            ),
        )
    } else {
        match rows_error(s, s[4] as nat) {
            Some(e) => Some(e),
            None => if row_start(s, s[4] as nat) != s.len() {
                Some(
                    Error::Numbers(
                        "MOV: leva has ",
                        (s.len() - row_start(s, s[4] as nat)) as i128,
                        " bytes of unconsumed trailing data after ",
                        s[4] as i128,
                        " levels",
                    ),
                )
            } else {
                None
            },
        }
    }
}

/// The levels of a well-formed `leva` body.
pub open spec fn leva_levels(s: Seq<u8>) -> Seq<LevaLevel> {
    Seq::new(s[4] as nat, |j: int| row_level(s, j as nat))
}

/// The first error among the first `j` rows is an error of any longer list.
proof fn lemma_rows_error_stays(s: Seq<u8>, j: nat, n: nat)
    requires
        j <= n,
        rows_error(s, j) is Some,
    ensures
        rows_error(s, n) == rows_error(s, j),
    decreases n,
{
    if j < n {
        lemma_rows_error_stays(s, j, (n - 1) as nat);
    }
}

/// Parse the body of a `leva` box.
///
/// Refused are: a body too short for the fixed fields or for a row, a version
/// other than 0, fewer than two levels, assignment types out of order, and
/// bytes behind the last row. The order is: any number of rows by track (types
/// 2 and 3), then any number of rows of exactly one other type.
pub fn parse_leva(payload: &[u8]) -> (r: Result<Leva, Error>)
    ensures
        leva_error(payload@) matches Some(e) ==> r == Err::<Leva, Error>(e),
        leva_error(payload@) is None ==> r is Ok && r->Ok_0.levels@ == leva_levels(payload@),
{
    if payload.len() < 5 {
        return Err(
            Error::Number(
                "MOV: leva payload ",
                payload.len() as i128,
                " < 5-byte FullBox header + level_count",
            ),
        );
    }
    let version: u8 = payload[0];
    if version != 0 {
        return Err(Error::Number("MOV: leva unknown version ", version as i128, " (spec fixes at 0)"));
    }
    let level_count: u8 = payload[4];
    if level_count < 2 {
        return Err(Error::Number("MOV: leva level_count ", level_count as i128, " < 2 (§8.8.13.3)"));
    }
    let mut pos: usize = 5;
    let remaining: usize = payload.len() - pos;
    let min_rows_bytes: u64 = (level_count as u64) * 5;
    if min_rows_bytes > remaining as u64 {
        return Err(
            Error::Triple(
                "MOV: leva level_count ",
                level_count as i128,
                " needs ≥ ",
                min_rows_bytes as i128,
                " body bytes but only ",
                remaining as i128,
                " remain",
            ),
        );
    }
    let mut levels: Vec<LevaLevel> = Vec::new();
    let mut pinned: Option<u8> = None;
    let mut j: u8 = 0;
    while j < level_count
        invariant
            payload@.len() >= 5,
            level_count == payload@[4],
            j <= level_count,
            pos == row_start(payload@, j as nat),
            pos <= payload@.len(),
            pinned == pinned_code(payload@, j as nat),
            rows_error(payload@, j as nat) is None,
            levels@ == Seq::new(j as nat, |k: int| row_level(payload@, k as nat)),
            rows_error(payload@, level_count as nat) is Some ==> leva_error(payload@)
                == rows_error(payload@, level_count as nat),
        decreases level_count - j,
    {
        let n: i128 = j as i128 + 1;
        proof {
            if row_error(payload@, j as nat) is Some {
                lemma_rows_error_stays(payload@, (j + 1) as nat, level_count as nat);
            }
        }
        if payload.len() - pos < 5 {
            return Err(
                Error::Number("MOV: leva row ", n, " truncated reading track_id+flag/type"),
            );
        }
        let track_id: u32 = read_u32(payload, pos);
        let flag_type: u8 = payload[pos + 4];
        let code: u8 = flag_type % 0x80;
        pos = pos + 5;
        let left: usize = payload.len() - pos;
        let assignment_type = match code {
            0 => {
                if left < 4 {
                    return Err(
                        Error::Number(
                            "MOV: leva row ",
                            n,
                            " type=0 truncated reading grouping_type",
                        ),
                    );
                }
                AssignmentType::SampleGroup { grouping_type: read_code(payload, pos) }
            },
            1 => {
                if left < 8 {
                    return Err(
                        Error::Number(
                            "MOV: leva row ",
                            n,
                            " type=1 truncated reading grouping_type / grouping_type_parameter",
                        ),
                    );
                }
                AssignmentType::ParameterizedSampleGroup {
                    grouping_type: read_code(payload, pos),
                    grouping_type_parameter: read_u32(payload, pos + 4),
                }
            },
            2 => AssignmentType::Track,
            3 => AssignmentType::TrackAlternate,
            4 => {
                if left < 4 {
                    return Err(
                        Error::Number(
                            "MOV: leva row ",
                            n,
                            " type=4 truncated reading sub_track_id",
                        ),
                    );
                }
                AssignmentType::SubTrack { sub_track_id: read_u32(payload, pos) }
            },
            _ => AssignmentType::Reserved { raw: code },
        };
        if code == 0 || code == 4 {
            pos = pos + 4;
        } else if code == 1 {
            pos = pos + 8;
        }
        if code != 2 && code != 3 {
            match pinned {
                None => {
                    pinned = Some(code);
                },
                Some(p) => {
                    if p != code {
                        return Err(
                            Error::Names(
                                "MOV: leva row ",
                                n,
                                " assignment_type kind ",
                                name_of(code),
                                " contradicts pinned kind ",
                                name_of(p),
                                " (§8.8.13.3 sequence rule)",
                            ),
                        );
                    }
                },
            }
        } else if pinned.is_some() {
            return Err(
                Error::Number("MOV: leva row ", n, " type=2/3 follows a pinned non-2/3 tail (§8.8.13.3 sequence rule)"),
            );
        }
        let level = LevaLevel { track_id, padding_flag: flag_type >= 0x80, assignment_type };
        assert(level == row_level(payload@, j as nat));
        levels.push(level);
        j = j + 1;
        assert(levels@ =~= Seq::new(j as nat, |k: int| row_level(payload@, k as nat)));
    }
    if pos != payload.len() {
        return Err(
            Error::Numbers(
                "MOV: leva has ",
                (payload.len() - pos) as i128,
                " bytes of unconsumed trailing data after ",
                level_count as i128,
                " levels",
            ),
        );
    }
    Ok(Leva { levels })
}

fn contains(ids: &Vec<u32>, id: u32) -> (r: bool)
    ensures
        r == ids@.contains(id),
{
    for k in 0..ids.len()
        invariant
            forall|i: int| 0 <= i < k ==> ids@[i] != id,
    {
        if ids[k] == id {
            assert(ids@[k as int] == id);
            return true;
        }
    }
    false
}

impl Leva {
    /// Number of levels, in one byte as on disk.
    pub fn level_count(&self) -> (r: u8)
        ensures
            r == crate::bytes::low8(self.levels@.len() as int),
            self.levels@.len() <= 255 ==> r == self.levels@.len(),
    {
        (self.levels.len() % 0x100) as u8
    }

    /// The row of a level, counted from 1; `None` for level 0 and behind the
    /// last level.
    pub fn level(&self, level: u8) -> (r: Option<&LevaLevel>)
        ensures
            r == (if 1 <= level <= self.levels@.len() {
                Some(&self.levels@[level - 1])
            } else {
                None
            }),
    {
        if level == 0 || (level - 1) as usize >= self.levels.len() {
            return None;
        }
        Some(&self.levels[(level - 1) as usize])
    }

    /// Every track that the box names, each once, at its first occurrence.
    pub fn track_ids(&self) -> (r: Vec<u32>)
        ensures
            r@ == first_track_ids(self.levels@),
    {
        let mut out: Vec<u32> = Vec::new();
        assert(self.levels@.take(0) =~= Seq::<LevaLevel>::empty());
        for i in 0..self.levels.len()
            invariant
                out@ == first_track_ids(self.levels@.take(i as int)),
        {
            let id: u32 = self.levels[i].track_id;
            let seen = contains(&out, id);
            assert(self.levels@.take(i + 1).drop_last() =~= self.levels@.take(i as int));
            if !seen {
                out.push(id);
            }
        }
        assert(self.levels@.take(self.levels@.len() as int) =~= self.levels@);
        out
    }
}

/// The track ids of `levels`, each at its first occurrence.
pub open spec fn first_track_ids(levels: Seq<LevaLevel>) -> Seq<u32>
    decreases levels.len(),
{
    if levels.len() == 0 {
        Seq::empty()
    } else {
        let before = first_track_ids(levels.drop_last());
        let id = levels.last().track_id;
        if before.contains(id) {
            before
        } else {
            before.push(id)
        }
    }
}

/// Every track that a level names is listed, none is listed twice, and nothing
/// else is.
pub proof fn law_track_ids_are_a_set(levels: Seq<LevaLevel>)
    ensures
        first_track_ids(levels).no_duplicates(),
        forall|id: u32|
            first_track_ids(levels).contains(id) <==> exists|i: int|
                0 <= i < levels.len() && #[trigger] levels[i].track_id == id,
    decreases levels.len(),
{
    if levels.len() > 0 {
        let before = first_track_ids(levels.drop_last());
        let all = first_track_ids(levels);
        let last = levels.last().track_id;
        law_track_ids_are_a_set(levels.drop_last());
        assert forall|id: u32| all.contains(id) <==> exists|i: int|
            0 <= i < levels.len() && #[trigger] levels[i].track_id == id by {
            if all.contains(id) {
                if before.contains(id) {
                    let i = choose|i: int|
                        0 <= i < levels.drop_last().len() && #[trigger] levels.drop_last()[i].track_id
                            == id;
                    assert(levels[i].track_id == id);
                } else {
                    assert(levels[levels.len() - 1].track_id == id);
                }
            }
            if exists|i: int| 0 <= i < levels.len() && #[trigger] levels[i].track_id == id {
                let i = choose|i: int| 0 <= i < levels.len() && #[trigger] levels[i].track_id == id;
                if i < levels.len() - 1 {
                    assert(levels.drop_last()[i].track_id == id);
                    assert(before.contains(id));
                    let k = choose|k: int| 0 <= k < before.len() && before[k] == id;
                    assert(all[k] == id);
                } else if !before.contains(id) {
                    assert(all[before.len() as int] == id);
                }
            }
        }
    }
}

/// Where levels name a track.
pub open spec fn names_track(levels: Seq<LevaLevel>, id: u32) -> spec_fn(int) -> bool {
    |i: int| levels[i].track_id == id
}

/// Where a track is named first; the number of levels where it is not named.
pub open spec fn first_named(levels: Seq<LevaLevel>, id: u32) -> int {
    first_index(levels.len(), names_track(levels, id))
}

proof fn lemma_first_named(levels: Seq<LevaLevel>, id: u32)
    requires
        levels.len() > 0,
    ensures
        first_named(levels.drop_last(), id) < levels.len() - 1 ==> first_named(levels, id)
            == first_named(levels.drop_last(), id),
        first_named(levels.drop_last(), id) == levels.len() - 1 && levels.last().track_id == id
            ==> first_named(levels, id) == levels.len() - 1,
        0 <= first_named(levels.drop_last(), id) <= levels.len() - 1,
{
    let before = levels.drop_last();
    let f = names_track(before, id);
    let g = names_track(levels, id);
    let k = first_named(before, id);
    lemma_first_index(before.len(), f);
    assert forall|j: int| 0 <= j < k implies !#[trigger] g(j) by {
        assert(!f(j));
    }
    if k < before.len() {
        assert(f(k));
        assert(g(k));
        lemma_first_index_is(levels.len(), g, k);
    } else if levels.last().track_id == id {
        assert(g(k));
        lemma_first_index_is(levels.len(), g, k);
    }
}

/// The tracks are listed in the order in which levels name them first.
pub proof fn law_track_ids_keep_the_order(levels: Seq<LevaLevel>)
    ensures
        ({
            let ids = first_track_ids(levels);
            &&& forall|a: int|
                0 <= a < ids.len() ==> 0 <= first_named(levels, #[trigger] ids[a]) < levels.len()
            &&& forall|a: int, b: int|
                0 <= a < b < ids.len() ==> first_named(levels, #[trigger] ids[a]) < first_named(
                    levels,
                    #[trigger] ids[b],
                )
        }),
    decreases levels.len(),
{
    if levels.len() > 0 {
        let before = levels.drop_last();
        let old_ids = first_track_ids(before);
        let ids = first_track_ids(levels);
        let last = levels.last().track_id;
        law_track_ids_keep_the_order(before);
        law_track_ids_are_a_set(before);
        assert forall|a: int| 0 <= a < old_ids.len() implies first_named(
            levels,
            #[trigger] old_ids[a],
        ) == first_named(before, old_ids[a]) by {
            lemma_first_named(levels, old_ids[a]);
        }
        if !old_ids.contains(last) {
            lemma_first_named(levels, last);
            lemma_first_index(before.len(), names_track(before, last));
            let k = first_named(before, last);
            if k < before.len() {
                assert(names_track(before, last)(k));
                assert(before[k].track_id == last);
            }
        }
        assert forall|a: int| 0 <= a < ids.len() implies 0 <= first_named(
            levels,
            #[trigger] ids[a],
        ) < levels.len() by {
            if a < old_ids.len() {
                assert(ids[a] == old_ids[a]);
            }
        }
        assert forall|a: int, b: int| 0 <= a < b < ids.len() implies first_named(
            levels,
            #[trigger] ids[a],
        ) < first_named(levels, #[trigger] ids[b]) by {
            assert(ids[a] == old_ids[a]);
            if b < old_ids.len() {
                assert(ids[b] == old_ids[b]);
            }
        }
    }
}

/// The assignment type of a level, as on disk.
pub open spec fn level_code(level: LevaLevel) -> u8 {
    match level.assignment_type {
        AssignmentType::SampleGroup { .. } => 0,
        AssignmentType::ParameterizedSampleGroup { .. } => 1,
        AssignmentType::Track => 2,
        AssignmentType::TrackAlternate => 3,
        AssignmentType::SubTrack { .. } => 4,
        AssignmentType::Reserved { raw } => raw,
    }
}

proof fn lemma_order(s: Seq<u8>, n: nat) -> (k: nat)
    requires
        rows_error(s, n) is None,
    ensures
        k <= n,
        forall|j: nat| j < k ==> by_track(#[trigger] row_code(s, j)),
        k == n ==> pinned_code(s, n) is None,
        k < n ==> pinned_code(s, n) == Some(row_code(s, k)) && !by_track(row_code(s, k)),
        forall|j: nat| k <= j < n ==> #[trigger] row_code(s, j) == row_code(s, k),
    decreases n,
{
    if n == 0 {
        0
    } else {
        let k = lemma_order(s, (n - 1) as nat);
        let last = row_code(s, (n - 1) as nat);
        if k == n - 1 && by_track(last) {
            n
        } else {
            k
        }
    }
}

/// In a box that is accepted, the levels by track come first and all levels
/// behind them have one and the same assignment type.
pub proof fn law_levels_by_track_come_first(s: Seq<u8>)
    requires
        leva_error(s) is None,
    ensures
        s[4] >= 2,
        leva_levels(s).len() == s[4],
        exists|k: int|
            #![trigger leva_levels(s).take(k)]
            {
                &&& 0 <= k <= leva_levels(s).len()
                &&& forall|j: int| 0 <= j < k ==> by_track(level_code(#[trigger] leva_levels(s)[j]))
                &&& forall|i: int, j: int|
                    k <= i < leva_levels(s).len() && k <= j < leva_levels(s).len() ==> level_code(
                        #[trigger] leva_levels(s)[i],
                    ) == level_code(#[trigger] leva_levels(s)[j]) && !by_track(
                        level_code(leva_levels(s)[i]),
                    )
            },
{
    let n = s[4] as nat;
    let k = lemma_order(s, n);
    let levels = leva_levels(s);
    assert forall|j: int| 0 <= j < n implies level_code(#[trigger] levels[j]) == row_code(
        s,
        j as nat,
    ) by {}
    let w = levels.take(k as int);
    assert forall|j: int| 0 <= j < k implies by_track(level_code(#[trigger] levels[j])) by {
        assert(by_track(row_code(s, j as nat)));
    }
    assert forall|i: int, j: int| k <= i < n && k <= j < n implies level_code(#[trigger] levels[i])
        == level_code(#[trigger] levels[j]) && !by_track(level_code(levels[i])) by {
        assert(row_code(s, i as nat) == row_code(s, k));
        assert(row_code(s, j as nat) == row_code(s, k));
    }
}

} // verus!
