//! How the samples of tracks are sliced into fragments.
use crate::mux_tables::decode_time;
use crate::mux_types::{FragmentationMode, MuxSample, TrackWrite};
use crate::search::{first_index, lemma_first_index, lemma_first_index_is};
use vstd::prelude::*;

verus! {

/// The samples of one track that go into one fragment: from `lo` up to, not
/// including, `hi`.
#[derive(Clone, Copy, Debug, PartialEq, Eq)]
pub struct FragmentRun {
    pub track_idx: usize,
    pub lo: usize,
    pub hi: usize,
}

/// A run of samples, with its bounds as numbers.
pub struct RunModel {
    pub track_idx: int,
    pub lo: int,
    pub hi: int,
}

impl View for FragmentRun {
    type V = RunModel;

    open spec fn view(&self) -> RunModel {
        RunModel { track_idx: self.track_idx as int, lo: self.lo as int, hi: self.hi as int }
    }
}

/// The runs of one fragment.
pub open spec fn run_models(v: Seq<FragmentRun>) -> Seq<RunModel> {
    Seq::new(v.len(), |i: int| v[i]@)
}

/// The runs of all fragments.
pub open spec fn fragment_models(v: Seq<Vec<FragmentRun>>) -> Seq<Seq<RunModel>> {
    Seq::new(v.len(), |k: int| run_models(v[k]@))
}

/// Where the samples from `start` on have lasted for `threshold`, counted in
/// samples behind `start`.
pub open spec fn lasts(s: Seq<MuxSample>, start: int, threshold: int) -> spec_fn(int) -> bool {
    |k: int| decode_time(s, (start + k + 1) as nat) - decode_time(s, start as nat) >= threshold
}

/// Where the fragment that starts with sample `start` ends: with the sample that
/// reaches the threshold, or with the last one.
pub open spec fn fragment_end(s: Seq<MuxSample>, mode: FragmentationMode, start: int) -> int {
    let end = match mode {
        FragmentationMode::ByDuration(threshold) => start + 1 + first_index(
            (s.len() - start) as nat,
            lasts(s, start, threshold as int),
        ),
        FragmentationMode::ByFrameCount(n) => start + n,
    };
    if end < s.len() {
        end
    } else {
        s.len() as int
    }
}

/// The fragments of a list of samples, from sample `start` on.
pub open spec fn windows(s: Seq<MuxSample>, mode: FragmentationMode, start: int) -> Seq<
    (int, int),
>
    decreases s.len() - start,
{
    let end = fragment_end(s, mode, start);
    if 0 <= start < end <= s.len() {
        seq![(start, end)] + windows(s, mode, end)
    } else {
        Seq::empty()
    }
}

/// The time in 64 bits; what is later counts as the latest.
pub open spec fn capped(t: int) -> int {
    if t > 0xffff_ffff_ffff_ffff {
        0xffff_ffff_ffff_ffff
    } else {
        t
    }
}

/// Units per second, at least one.
pub open spec fn scale(t: TrackWrite) -> int {
    if t.media_timescale == 0 {
        1
    } else {
        t.media_timescale as int
    }
}

/// When sample `i` of a track starts, in units of `to` per second, rounded to
/// the nearest.
pub open spec fn start_in(t: TrackWrite, to: int, i: int) -> int {
    (capped(decode_time(t.samples@, i as nat)) * to + scale(t) / 2) / scale(t)
}

/// The samples of a track that start at `time` or later.
pub open spec fn starts_from(t: TrackWrite, to: int, time: int) -> spec_fn(int) -> bool {
    |i: int| start_in(t, to, i) >= time
}

/// The first sample of a track that starts at `time` or later.
pub open spec fn first_from(t: TrackWrite, to: int, time: int) -> int {
    first_index(t.samples@.len(), starts_from(t, to, time))
}

/// The run of track `i` in fragment `k`. The first track goes by its samples;
/// the others by the time at which the fragment of the first track starts and
/// ends. The last fragment takes all that is left.
pub open spec fn run_of(tracks: Seq<TrackWrite>, w: Seq<(int, int)>, k: int, i: int) -> RunModel {
    let first = tracks[0].samples@;
    let to = scale(tracks[0]);
    if i == 0 {
        RunModel { track_idx: i, lo: w[k].0, hi: w[k].1 }
    } else {
        RunModel {
            track_idx: i,
            lo: first_from(tracks[i], to, capped(decode_time(first, w[k].0 as nat))),
            hi: if k + 1 == w.len() {
                tracks[i].samples@.len() as int
            } else {
                first_from(tracks[i], to, capped(decode_time(first, w[k].1 as nat)))
            },
        }
    }
}

/// The runs of fragment `k`, one for each track.
pub open spec fn fragment_of(tracks: Seq<TrackWrite>, w: Seq<(int, int)>, k: int) -> Seq<RunModel> {
    Seq::new(tracks.len(), |i: int| run_of(tracks, w, k, i))
}

/// The fragments of tracks. The first track says where they end.
pub open spec fn fragments_of(tracks: Seq<TrackWrite>, mode: FragmentationMode) -> Seq<
    Seq<RunModel>,
> {
    let w = windows(tracks[0].samples@, mode, 0);
    if tracks.len() == 0 {
        Seq::empty()
    } else {
        Seq::new(w.len(), |k: int| fragment_of(tracks, w, k))
    }
}

/// What the windows hold: bounds inside the list, one behind the other, none of
/// them empty.
pub open spec fn chained(w: Seq<(int, int)>, start: int, end: int) -> bool {
    &&& w.len() > 0 ==> w[0].0 == start && w.last().1 == end
    &&& w.len() == 0 ==> start == end
    &&& forall|k: int| 0 <= k < w.len() ==> start <= (#[trigger] w[k]).0 < w[k].1 <= end
    &&& forall|k: int| 0 <= k < w.len() - 1 ==> (#[trigger] w[k]).1 == w[k + 1].0
}

proof fn lemma_fragment_end(s: Seq<MuxSample>, mode: FragmentationMode, start: int)
    requires
        0 <= start < s.len(),
        mode != FragmentationMode::ByFrameCount(0),
    ensures
        start < fragment_end(s, mode, start) <= s.len(),
{
    if let FragmentationMode::ByDuration(threshold) = mode {
        lemma_first_index((s.len() - start) as nat, lasts(s, start, threshold as int));
    }
}

/// The windows of a list of samples cover it from `start` on.
pub proof fn lemma_windows(s: Seq<MuxSample>, mode: FragmentationMode, start: int)
    requires
        0 <= start <= s.len(),
        mode != FragmentationMode::ByFrameCount(0),
    ensures
        chained(windows(s, mode, start), start, s.len() as int),
    decreases s.len() - start,
{
    let w = windows(s, mode, start);
    if start < s.len() {
        lemma_fragment_end(s, mode, start);
        let end = fragment_end(s, mode, start);
        lemma_windows(s, mode, end);
        let rest = windows(s, mode, end);
        assert(w == seq![(start, end)] + rest);
        assert forall|k: int| 0 <= k < w.len() implies start <= (#[trigger] w[k]).0 < w[k].1
            <= s.len() by {
            if k > 0 {
                assert(w[k] == rest[k - 1]);
            }
        }
        assert forall|k: int| 0 <= k < w.len() - 1 implies (#[trigger] w[k]).1 == w[k + 1].0 by {
            assert(w[k + 1] == rest[k]);
            if k > 0 {
                assert(w[k] == rest[k - 1]);
            }
        }
        if rest.len() > 0 {
            assert(w.last() == rest.last());
        }
    } else {
        let end = fragment_end(s, mode, start);
        assert(end == s.len());
        assert(w.len() == 0);
    }
}

/// Decoding times do not fall.
pub proof fn lemma_decode_time_rises(s: Seq<MuxSample>, i: nat, j: nat)
    requires
        i <= j <= s.len(),
    ensures
        0 <= decode_time(s, i) <= decode_time(s, j),
    decreases j,
{
    if j == 0 {
    } else if i == j {
        lemma_decode_time_rises(s, (i - 1) as nat, (j - 1) as nat);
    } else {
        lemma_decode_time_rises(s, i, (j - 1) as nat);
    }
}

proof fn lemma_first_from_rises(t: TrackWrite, to: int, a: int, b: int)
    requires
        a <= b,
    ensures
        0 <= first_from(t, to, a) <= first_from(t, to, b) <= t.samples@.len(),
{
    let n = t.samples@.len();
    lemma_first_index(n, starts_from(t, to, a));
    lemma_first_index(n, starts_from(t, to, b));
    let q = first_from(t, to, b);
    if q < first_from(t, to, a) {
        assert(starts_from(t, to, b)(q));
        assert(starts_from(t, to, a)(q));
    }
}

proof fn lemma_first_from_zero(t: TrackWrite, to: int)
    requires
        to >= 0,
    ensures
        first_from(t, to, 0) == 0,
{
    let f = starts_from(t, to, 0);
    if t.samples@.len() > 0 {
        assert(start_in(t, to, 0) >= 0) by {
            assert(capped(decode_time(t.samples@, 0)) == 0);
            assert(0 * to == 0);
            vstd::arithmetic::div_mod::lemma_div_pos_is_pos(scale(t) / 2, scale(t));
        }
    }
    lemma_first_index_is(t.samples@.len(), f, 0);
}

/// The runs of a track: the first starts with its first sample, each goes on
/// where the one before ended, and the last ends with its last sample.
pub proof fn law_runs_follow_each_other(tracks: Seq<TrackWrite>, mode: FragmentationMode, i: int)
    requires
        0 <= i < tracks.len(),
        tracks[0].samples@.len() > 0,
        mode != FragmentationMode::ByFrameCount(0),
    ensures
        ({
            let w = fragments_of(tracks, mode);
            let n = tracks[i].samples@.len();
            &&& w.len() > 0
            &&& w[0][i].lo == 0
            &&& w.last()[i].hi == n
            &&& forall|k: int|
                0 <= k < w.len() ==> 0 <= (#[trigger] w[k])[i].lo <= w[k][i].hi <= n
                    && w[k][i].track_idx == i && w[k].len() == tracks.len() && w[k][0].lo
                    < w[k][0].hi
            &&& forall|k: int|
                0 <= k < w.len() - 1 ==> (#[trigger] w[k])[i].hi == w[k + 1][i].lo
        }),
{
    let first = tracks[0].samples@;
    let w = windows(first, mode, 0);
    let to = scale(tracks[0]);
    let t = tracks[i];
    let n = t.samples@.len();
    let fr = fragments_of(tracks, mode);
    lemma_windows(first, mode, 0);
    lemma_first_from_zero(t, to);
    assert(capped(decode_time(first, 0)) == 0);
    assert forall|k: int| 0 <= k < fr.len() implies 0 <= (#[trigger] fr[k])[i].lo <= fr[k][i].hi
        <= n && fr[k][i].track_idx == i && fr[k].len() == tracks.len() && fr[k][0].lo
        < fr[k][0].hi by {
        assert(fr[k] == fragment_of(tracks, w, k));
        assert(fr[k][i] == run_of(tracks, w, k, i));
        assert(fr[k][0] == run_of(tracks, w, k, 0));
        assert(w[k].0 < w[k].1);
        if i > 0 {
            let a = capped(decode_time(first, w[k].0 as nat));
            let b = capped(decode_time(first, w[k].1 as nat));
            lemma_decode_time_rises(first, w[k].0 as nat, w[k].1 as nat);
            lemma_first_from_rises(t, to, a, b);
        }
    }
    assert forall|k: int| 0 <= k < fr.len() - 1 implies (#[trigger] fr[k])[i].hi == fr[k
        + 1][i].lo by {
        assert(fr[k] == fragment_of(tracks, w, k));
        assert(fr[k + 1] == fragment_of(tracks, w, k + 1));
        assert(w[k].1 == w[k + 1].0);
    }
    assert(fr[0] == fragment_of(tracks, w, 0));
    assert(fr.last() == fragment_of(tracks, w, w.len() - 1));
}

/// The samples of track `i` in the first `n` fragments.
pub open spec fn samples_in(
    tracks: Seq<TrackWrite>,
    fragments: Seq<Seq<RunModel>>,
    i: int,
    n: nat,
) -> Seq<MuxSample>
    decreases n,
{
    if n == 0 {
        Seq::empty()
    } else {
        let run = fragments[n - 1][i];
        samples_in(tracks, fragments, i, (n - 1) as nat) + tracks[i].samples@.subrange(
            run.lo,
            run.hi,
        )
    }
}

proof fn lemma_samples_in(tracks: Seq<TrackWrite>, fr: Seq<Seq<RunModel>>, i: int, n: nat)
    requires
        0 < n <= fr.len(),
        fr[0][i].lo == 0,
        forall|k: int|
            0 <= k < fr.len() ==> 0 <= (#[trigger] fr[k])[i].lo <= fr[k][i].hi
                <= tracks[i].samples@.len(),
        forall|k: int| 0 <= k < fr.len() - 1 ==> (#[trigger] fr[k])[i].hi == fr[k + 1][i].lo,
    ensures
        samples_in(tracks, fr, i, n) == tracks[i].samples@.subrange(0, fr[n - 1][i].hi),
    decreases n,
{
    let s = tracks[i].samples@;
    let run = fr[n - 1][i];
    if n == 1 {
        assert(samples_in(tracks, fr, i, 0) == Seq::<MuxSample>::empty());
        assert(samples_in(tracks, fr, i, n) =~= s.subrange(0, run.hi));
    } else {
        let m = (n - 1) as nat;
        lemma_samples_in(tracks, fr, i, m);
        assert(fr[n - 2][i].hi == run.lo);
        assert(s.subrange(0, run.lo) + s.subrange(run.lo, run.hi) =~= s.subrange(0, run.hi));
    }
}

/// The fragments hold the samples of every track, each once and in order.
#[verifier::spinoff_prover]
#[verifier::rlimit(40)]
pub proof fn law_fragments_hold_every_sample(
    tracks: Seq<TrackWrite>,
    mode: FragmentationMode,
    i: int,
)
    requires
        0 <= i < tracks.len(),
        tracks[0].samples@.len() > 0,
        mode != FragmentationMode::ByFrameCount(0),
    ensures
        samples_in(
            tracks,
            fragments_of(tracks, mode),
            i,
            fragments_of(tracks, mode).len(),
        ) == tracks[i].samples@,
{
    let fr = fragments_of(tracks, mode);
    let s = tracks[i].samples@;
    law_runs_follow_each_other(tracks, mode, i);
    assert(fr[fr.len() - 1][i].hi == s.len());
    lemma_samples_in(tracks, fr, i, fr.len());
    assert(s.subrange(0, s.len() as int) =~= s);
}

proof fn lemma_window_ends(s: Seq<MuxSample>, mode: FragmentationMode, start: int, k: int)
    requires
        0 <= start <= s.len(),
        mode != FragmentationMode::ByFrameCount(0),
        0 <= k < windows(s, mode, start).len(),
    ensures
        windows(s, mode, start)[k].1 == fragment_end(s, mode, windows(s, mode, start)[k].0),
    decreases s.len() - start,
{
    let end = fragment_end(s, mode, start);
    if k > 0 {
        lemma_fragment_end(s, mode, start);
        let rest = windows(s, mode, end);
        assert(windows(s, mode, start)[k] == rest[k - 1]);
        lemma_window_ends(s, mode, end, k - 1);
    }
}

/// The runs of the first track are cut where the mode says. By count, each but the last
/// holds so many samples. By duration, each but the last lasts for the threshold, and
/// would not without its last sample.
pub proof fn law_fragments_reach_the_threshold(
    tracks: Seq<TrackWrite>,
    mode: FragmentationMode,
    k: int,
)
    requires
        tracks.len() > 0,
        mode != FragmentationMode::ByFrameCount(0),
        0 <= k < fragments_of(tracks, mode).len() - 1,
    ensures
        ({
            let s = tracks[0].samples@;
            let run = fragments_of(tracks, mode)[k][0];
            match mode {
                FragmentationMode::ByFrameCount(n) => run.hi - run.lo == n,
                FragmentationMode::ByDuration(threshold) => decode_time(s, run.hi as nat)
                    - decode_time(s, run.lo as nat) >= threshold && (run.hi - 1 > run.lo
                    ==> decode_time(s, (run.hi - 1) as nat) - decode_time(s, run.lo as nat)
                    < threshold),
            }
        }),
{
    let s = tracks[0].samples@;
    let w = windows(s, mode, 0);
    lemma_windows(s, mode, 0);
    lemma_window_ends(s, mode, 0, k);
    assert(fragments_of(tracks, mode)[k] == fragment_of(tracks, w, k));
    assert(w[k].1 == w[k + 1].0);
    assert(w[k + 1].0 < w[k + 1].1);
    if let FragmentationMode::ByDuration(threshold) = mode {
        let f = lasts(s, w[k].0, threshold as int);
        let n = (s.len() - w[k].0) as nat;
        lemma_first_index(n, f);
        let last = first_index(n, f);
        assert(f(last));
        if last > 0 {
            assert(!f(last - 1));
        }
    }
}

proof fn lemma_start_in_rises(t: TrackWrite, to: int, i: int, j: int)
    requires
        0 <= i <= j <= t.samples@.len(),
        to >= 0,
    ensures
        start_in(t, to, i) <= start_in(t, to, j),
{
    lemma_decode_time_rises(t.samples@, i as nat, j as nat);
    let a = capped(decode_time(t.samples@, i as nat));
    let b = capped(decode_time(t.samples@, j as nat));
    assert(a * to <= b * to) by (nonlinear_arith)
        requires
            a <= b,
            to >= 0,
    ;
    vstd::arithmetic::div_mod::lemma_div_is_ordered(
        a * to + scale(t) / 2,
        b * to + scale(t) / 2,
        scale(t),
    );
}

/// A sample of another track than the first goes into the fragment of the first track
/// during which it starts; what starts later goes into the last one.
pub proof fn law_runs_start_in_their_fragment(
    tracks: Seq<TrackWrite>,
    mode: FragmentationMode,
    k: int,
    i: int,
    j: int,
)
    requires
        0 < i < tracks.len(),
        tracks[0].samples@.len() > 0,
        mode != FragmentationMode::ByFrameCount(0),
        0 <= k < fragments_of(tracks, mode).len(),
        fragments_of(tracks, mode)[k][i].lo <= j < fragments_of(tracks, mode)[k][i].hi,
    ensures
        ({
            let s = tracks[0].samples@;
            let fr = fragments_of(tracks, mode);
            let at = start_in(tracks[i], scale(tracks[0]), j);
            &&& capped(decode_time(s, fr[k][0].lo as nat)) <= at
            &&& k < fr.len() - 1 ==> at < capped(decode_time(s, fr[k][0].hi as nat))
        }),
{
    let s = tracks[0].samples@;
    let w = windows(s, mode, 0);
    let fr = fragments_of(tracks, mode);
    let t = tracks[i];
    let to = scale(tracks[0]);
    law_runs_follow_each_other(tracks, mode, i);
    lemma_windows(s, mode, 0);
    assert(fr[k] == fragment_of(tracks, w, k));
    assert(fr[k][i] == run_of(tracks, w, k, i));
    assert(fr[k][0] == run_of(tracks, w, k, 0));
    let a = capped(decode_time(s, w[k].0 as nat));
    let f = starts_from(t, to, a);
    let lo = first_from(t, to, a);
    lemma_first_index(t.samples@.len(), f);
    assert(f(lo));
    lemma_start_in_rises(t, to, lo, j);
    if k < fr.len() - 1 {
        let b = capped(decode_time(s, w[k].1 as nat));
        let g = starts_from(t, to, b);
        lemma_first_index(t.samples@.len(), g);
        assert(!g(j));
    }
}

fn capped_sum(a: u64, b: u32) -> (r: u64)
    ensures
        r == capped(a + b),
{
    if a > u64::MAX - b as u64 {
        u64::MAX
    } else {
        a + b as u64
    }
}

/// When each sample starts, and when the last one ends.
fn start_times(samples: &Vec<MuxSample>) -> (r: Vec<u64>)
    ensures
        r@.len() == samples@.len() + 1,
        forall|i: int|
            0 <= i <= samples@.len() ==> #[trigger] r@[i] == capped(
                decode_time(samples@, i as nat),
            ),
{
    let mut times: Vec<u64> = Vec::new();
    let mut dts: u64 = 0;
    for i in 0..samples.len()
        invariant
            dts == capped(decode_time(samples@, i as nat)),
            times@.len() == i,
            forall|k: int|
                0 <= k < i ==> #[trigger] times@[k] == capped(decode_time(samples@, k as nat)),
    {
        times.push(dts);
        dts = capped_sum(dts, samples[i].duration);
    }
    times.push(dts);
    times
}

spec fn as_window(r: (usize, usize)) -> (int, int) {
    (r.0 as int, r.1 as int)
}

spec fn as_windows(v: Seq<(usize, usize)>) -> Seq<(int, int)> {
    Seq::new(v.len(), |k: int| as_window(v[k]))
}

proof fn lemma_window_push(
    v: Seq<(usize, usize)>,
    s: Seq<MuxSample>,
    mode: FragmentationMode,
    start: int,
    r: (usize, usize),
)
    requires
        0 <= start < s.len(),
        mode != FragmentationMode::ByFrameCount(0),
        as_windows(v) + windows(s, mode, start) == windows(s, mode, 0),
        as_window(r) == (start, fragment_end(s, mode, start)),
    ensures
        as_windows(v.push(r)) + windows(s, mode, fragment_end(s, mode, start)) == windows(
            s,
            mode,
            0,
        ),
{
    lemma_fragment_end(s, mode, start);
    let end = fragment_end(s, mode, start);
    assert(windows(s, mode, start) == seq![(start, end)] + windows(s, mode, end));
    assert(as_windows(v.push(r)) =~= as_windows(v) + seq![(start, end)]);
    assert(as_windows(v.push(r)) + windows(s, mode, end) =~= as_windows(v) + windows(
        s,
        mode,
        start,
    ));
}

fn windows_by_duration(samples: &Vec<MuxSample>, threshold: u64) -> (r: Vec<(usize, usize)>)
    ensures
        as_windows(r@) == windows(samples@, FragmentationMode::ByDuration(threshold), 0),
{
    let ghost s = samples@;
    let ghost mode = FragmentationMode::ByDuration(threshold);
    let mut ranges: Vec<(usize, usize)> = Vec::new();
    let mut start: usize = 0;
    let mut acc: u64 = 0;
    assert(as_windows(ranges@) + windows(s, mode, 0) =~= windows(s, mode, 0));
    for i in 0..samples.len()
        invariant
            s == samples@,
            mode == FragmentationMode::ByDuration(threshold),
            start <= i,
            acc == capped(decode_time(s, i as nat) - decode_time(s, start as nat)),
            start < i ==> acc < threshold,
            forall|k: int|
                0 <= k < i - start ==> !#[trigger] lasts(s, start as int, threshold as int)(k),
            as_windows(ranges@) + windows(s, mode, start as int) == windows(s, mode, 0),
    {
        let ghost f = lasts(s, start as int, threshold as int);
        acc = capped_sum(acc, samples[i].duration);
        let ghost lasted = decode_time(s, (i + 1) as nat) - decode_time(s, start as nat);
        proof {
            lemma_decode_time_rises(s, start as nat, i as nat);
            assert(decode_time(s, (i + 1) as nat) == decode_time(s, i as nat) + s[i as int].duration);
            assert(acc == capped(lasted));
            assert(f(i - start) == (lasted >= threshold));
        }
        if acc >= threshold {
            proof {
                lemma_first_index_is((s.len() - start) as nat, f, i - start);
                assert(fragment_end(s, mode, start as int) == i + 1);
                lemma_window_push(ranges@, s, mode, start as int, (start, (i + 1) as usize));
            }
            ranges.push((start, i + 1));
            start = i + 1;
            acc = 0;
        }
    }
    if start < samples.len() {
        proof {
            let f = lasts(s, start as int, threshold as int);
            lemma_first_index_is((s.len() - start) as nat, f, s.len() - start);
            assert(fragment_end(s, mode, start as int) == s.len());
            lemma_window_push(ranges@, s, mode, start as int, (start, samples.len()));
        }
        ranges.push((start, samples.len()));
    }
    proof {
        lemma_windows(s, mode, s.len() as int);
        assert(as_windows(ranges@) + windows(s, mode, s.len() as int) =~= as_windows(ranges@));
    }
    ranges
}

fn windows_by_count(samples: &Vec<MuxSample>, n: u32) -> (r: Vec<(usize, usize)>)
    requires
        n > 0,
    ensures
        as_windows(r@) == windows(samples@, FragmentationMode::ByFrameCount(n), 0),
{
    let ghost s = samples@;
    let ghost mode = FragmentationMode::ByFrameCount(n);
    let mut ranges: Vec<(usize, usize)> = Vec::new();
    let mut start: usize = 0;
    assert(as_windows(ranges@) + windows(s, mode, 0) =~= windows(s, mode, 0));
    while start < samples.len()
        invariant
            s == samples@,
            n > 0,
            mode == FragmentationMode::ByFrameCount(n),
            start <= s.len(),
            as_windows(ranges@) + windows(s, mode, start as int) == windows(s, mode, 0),
        decreases samples.len() - start,
    {
        let end: usize = if samples.len() - start <= n as usize {
            samples.len()
        } else {
            start + n as usize
        };
        proof {
            assert(fragment_end(s, mode, start as int) == end);
            lemma_window_push(ranges@, s, mode, start as int, (start, end));
        }
        ranges.push((start, end));
        start = end;
    }
    proof {
        lemma_windows(s, mode, s.len() as int);
        assert(as_windows(ranges@) + windows(s, mode, s.len() as int) =~= as_windows(ranges@));
    }
    ranges
}

fn scale_of(t: &TrackWrite) -> (r: u32)
    ensures
        r == scale(*t),
        r > 0,
{
    if t.media_timescale == 0 {
        1
    } else {
        t.media_timescale
    }
}

/// The first sample of a track that starts at `time`, in units of `to` per
/// second, or later.
fn find_from(t: &TrackWrite, to: u32, time: u64) -> (r: usize)
    ensures
        r == first_from(*t, to as int, time as int),
{
    let ghost f = starts_from(*t, to as int, time as int);
    let sec: u128 = scale_of(t) as u128;
    let mut acc: u64 = 0;
    for i in 0..t.samples.len()
        invariant
            f == starts_from(*t, to as int, time as int),
            sec == scale(*t),
            0 < sec <= 0xffff_ffff,
            acc == capped(decode_time(t.samples@, i as nat)),
            forall|j: int| 0 <= j < i ==> !#[trigger] f(j),
    {
        assert(acc * to <= 0xffff_ffff_ffff_ffff * 0xffff_ffff) by (nonlinear_arith)
            requires
                acc <= 0xffff_ffff_ffff_ffff,
                to <= 0xffff_ffff,
        ;
        let start: u128 = (acc as u128 * to as u128 + sec / 2) / sec;
        assert(start == start_in(*t, to as int, i as int));
        if start >= time as u128 {
            proof {
                lemma_first_index_is(t.samples@.len(), f, i as int);
            }
            return i;
        }
        acc = capped_sum(acc, t.samples[i].duration);
    }
    proof {
        lemma_first_index_is(t.samples@.len(), f, t.samples@.len() as int);
    }
    t.samples.len()
}

/// Slice the samples of all tracks into fragments.
pub fn slice_fragments(tracks: &Vec<TrackWrite>, mode: FragmentationMode) -> (r: Vec<
    Vec<FragmentRun>,
>)
    requires
        mode != FragmentationMode::ByFrameCount(0),
    ensures
        fragment_models(r@) == fragments_of(tracks@, mode),
{
    let mut fragments: Vec<Vec<FragmentRun>> = Vec::new();
    if tracks.len() == 0 {
        assert(fragment_models(fragments@) =~= fragments_of(tracks@, mode));
        return fragments;
    }
    let first = &tracks[0];
    let to: u32 = scale_of(first);
    let times = start_times(&first.samples);
    let ranges = match mode {
        FragmentationMode::ByDuration(threshold) => windows_by_duration(&first.samples, threshold),
        FragmentationMode::ByFrameCount(n) => windows_by_count(&first.samples, n),
    };
    let ghost w = windows(first.samples@, mode, 0);
    proof {
        lemma_windows(first.samples@, mode, 0);
    }
    for k in 0..ranges.len()
        invariant
            tracks@.len() > 0,
            *first == tracks@[0],
            to == scale(*first),
            w == as_windows(ranges@),
            chained(w, 0, first.samples@.len() as int),
            times@.len() == first.samples@.len() + 1,
            forall|i: int|
                0 <= i <= first.samples@.len() ==> #[trigger] times@[i] == capped(
                    decode_time(first.samples@, i as nat),
                ),
            fragments@.len() == k,
            forall|j: int|
                0 <= j < k ==> run_models((#[trigger] fragments@[j])@) == fragment_of(tracks@, w, j),
    {
        let lo: usize = ranges[k].0;
        let hi: usize = ranges[k].1;
        assert(w[k as int] == (lo as int, hi as int));
        let mut runs: Vec<FragmentRun> = Vec::new();
        for i in 0..tracks.len()
            invariant
                tracks@.len() > 0,
                *first == tracks@[0],
                to == scale(*first),
                k < ranges@.len(),
                w == as_windows(ranges@),
                w[k as int] == (lo as int, hi as int),
                lo < hi <= first.samples@.len(),
                times@.len() == first.samples@.len() + 1,
                forall|j: int|
                    0 <= j <= first.samples@.len() ==> #[trigger] times@[j] == capped(
                        decode_time(first.samples@, j as nat),
                    ),
                runs@.len() == i,
                forall|j: int| 0 <= j < i ==> (#[trigger] runs@[j])@ == run_of(tracks@, w, k as int, j),
        {
            if i == 0 {
                runs.push(FragmentRun { track_idx: i, lo, hi });
            } else {
                let t = &tracks[i];
                let from: usize = find_from(t, to, times[lo]);
                let until: usize = if k == ranges.len() - 1 {
                    t.samples.len()
                } else {
                    find_from(t, to, times[hi])
                };
                runs.push(FragmentRun { track_idx: i, lo: from, hi: until });
            }
        }
        assert(run_models(runs@) =~= fragment_of(tracks@, w, k as int));
        fragments.push(runs);
    }
    assert(fragment_models(fragments@) =~= fragments_of(tracks@, mode));
    fragments
}

} // verus!
