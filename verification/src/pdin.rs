//! Progressive download information (`pdin`): how long to wait before playback
//! starts, for a number of download rates.
use crate::bytes::{read_u32, u32_at};
use crate::error::Error;
use vstd::prelude::*;

verus! {

/// The delay that goes with a rate.
#[derive(Clone, Copy, Debug, Default, PartialEq, Eq)]
pub struct PdinEntry {
    /// Download rate in bytes per second.
    pub rate: u32,
    /// Delay in milliseconds.
    pub initial_delay: u32,
}

/// The table, in the order of the file, which need not be by rate.
#[derive(Clone, Debug, Default, PartialEq, Eq)]
pub struct Pdin {
    pub entries: Vec<PdinEntry>,
}

/// Among the first `n` entries, the first one with the lowest rate.
pub open spec fn lowest(e: Seq<PdinEntry>, n: nat) -> int
    decreases n,
{
    if n <= 1 {
        0
    } else {
        let k = lowest(e, (n - 1) as nat);
        if e[n - 1].rate < e[k].rate {
            n - 1
        } else {
            k
        }
    }
}

/// Among the first `n` entries, the last one with the greatest rate that is not
/// above `rate`.
pub open spec fn below(e: Seq<PdinEntry>, n: nat, rate: u32) -> Option<int>
    decreases n,
{
    if n == 0 {
        None
    } else {
        let last = e[n - 1];
        match below(e, (n - 1) as nat, rate) {
            None => if last.rate <= rate {
                Some(n - 1)
            } else {
                None
            },
            Some(k) => if last.rate <= rate && e[k].rate <= last.rate {
                Some(n - 1)
            } else {
                Some(k)
            },
        }
    }
}

/// Among the first `n` entries, the first one with the lowest rate that is above
/// `rate`.
pub open spec fn above(e: Seq<PdinEntry>, n: nat, rate: u32) -> Option<int>
    decreases n,
{
    if n == 0 {
        None
    } else {
        let last = e[n - 1];
        match above(e, (n - 1) as nat, rate) {
            None => if last.rate > rate {
                Some(n - 1)
            } else {
                None
            },
            Some(k) => if last.rate > rate && last.rate < e[k].rate {
                Some(n - 1)
            } else {
                Some(k)
            },
        }
    }
}

/// The delay at `rate` on the straight line between two entries. The part that
/// is added to the delay of the first is rounded towards 0.
pub open spec fn interpolated(lo: PdinEntry, hi: PdinEntry, rate: u32) -> int {
    let span = hi.rate - lo.rate;
    let pos = rate - lo.rate;
    if hi.initial_delay >= lo.initial_delay {
        lo.initial_delay + ((hi.initial_delay - lo.initial_delay) * pos) / span
    } else {
        lo.initial_delay - ((lo.initial_delay - hi.initial_delay) * pos) / span
    }
}

/// The delay for a rate: that of the nearest entry outside the table, and
/// between the entries on both sides of the rate inside it.
pub open spec fn delay_for(e: Seq<PdinEntry>, rate: u32) -> Option<int> {
    let n = e.len();
    if n == 0 {
        None
    } else if rate <= e[lowest(e, n)].rate {
        Some(e[lowest(e, n)].initial_delay as int)
    } else {
        match (below(e, n, rate), above(e, n, rate)) {
            (Some(lo), Some(hi)) => Some(interpolated(e[lo], e[hi], rate)),
            (Some(lo), None) => Some(e[lo].initial_delay as int),
            _ => None,
        }
    }
}

proof fn lemma_lowest(e: Seq<PdinEntry>, n: nat)
    requires
        0 < n <= e.len(),
    ensures
        0 <= lowest(e, n) < n,
        forall|i: int| 0 <= i < n ==> e[lowest(e, n)].rate <= (#[trigger] e[i]).rate,
        forall|i: int| 0 <= i < lowest(e, n) ==> e[lowest(e, n)].rate < (#[trigger] e[i]).rate,
    decreases n,
{
    if n > 1 {
        lemma_lowest(e, (n - 1) as nat);
    }
}

proof fn lemma_below(e: Seq<PdinEntry>, n: nat, rate: u32)
    requires
        n <= e.len(),
    ensures
        match below(e, n, rate) {
            None => forall|i: int| 0 <= i < n ==> (#[trigger] e[i]).rate > rate,
            Some(k) => 0 <= k < n && e[k].rate <= rate && forall|i: int|
                0 <= i < n && (#[trigger] e[i]).rate <= rate ==> e[i].rate <= e[k].rate,
        },
    decreases n,
{
    if n > 0 {
        lemma_below(e, (n - 1) as nat, rate);
    }
}

proof fn lemma_above(e: Seq<PdinEntry>, n: nat, rate: u32)
    requires
        n <= e.len(),
    ensures
        match above(e, n, rate) {
            None => forall|i: int| 0 <= i < n ==> (#[trigger] e[i]).rate <= rate,
            Some(k) => 0 <= k < n && e[k].rate > rate && forall|i: int|
                0 <= i < n && (#[trigger] e[i]).rate > rate ==> e[i].rate >= e[k].rate,
        },
    decreases n,
{
    if n > 0 {
        lemma_above(e, (n - 1) as nat, rate);
    }
}

/// `d * pos / span` is at most `d`.
proof fn lemma_part(d: int, pos: int, span: int)
    requires
        0 <= d,
        0 <= pos <= span,
        0 < span,
    ensures
        0 <= (d * pos) / span <= d,
{
    assert(0 <= d * pos <= d * span) by (nonlinear_arith)
        requires
            0 <= d,
            0 <= pos <= span,
    ;
    vstd::arithmetic::div_mod::lemma_div_is_ordered(d * pos, d * span, span);
    vstd::arithmetic::div_mod::lemma_div_multiples_vanish(d, span);
    vstd::arithmetic::div_mod::lemma_div_pos_is_pos(d * pos, span);
    assert(d * span == span * d) by (nonlinear_arith);
}

fn interpolate(lo: PdinEntry, hi: PdinEntry, rate: u32) -> (r: u32)
    requires
        lo.rate <= rate < hi.rate,
    ensures
        r == interpolated(lo, hi, rate),
{
    let span: u64 = (hi.rate - lo.rate) as u64;
    let pos: u64 = (rate - lo.rate) as u64;
    if hi.initial_delay >= lo.initial_delay {
        let d: u64 = (hi.initial_delay - lo.initial_delay) as u64;
        proof {
            lemma_part(d as int, pos as int, span as int);
            assert(d * pos <= u64::MAX) by (nonlinear_arith)
                requires
                    d <= 0xffff_ffff,
                    pos <= 0xffff_ffff,
            ;
        }
        lo.initial_delay + ((d * pos) / span) as u32
    } else {
        let d: u64 = (lo.initial_delay - hi.initial_delay) as u64;
        proof {
            lemma_part(d as int, pos as int, span as int);
            assert(d * pos <= u64::MAX) by (nonlinear_arith)
                requires
                    d <= 0xffff_ffff,
                    pos <= 0xffff_ffff,
            ;
        }
        lo.initial_delay - ((d * pos) / span) as u32
    }
}

impl Pdin {
    /// The delay for a download rate, by linear interpolation; `None` where the
    /// table is empty.
    pub fn initial_delay_for(&self, download_rate: u32) -> (r: Option<u32>)
        ensures
            match delay_for(self.entries@, download_rate) {
                Some(d) => r is Some && r->Some_0 == d,
                None => r is None,
            },
            r is None <==> self.entries@.len() == 0,
    {
        let n: usize = self.entries.len();
        if n == 0 {
            return None;
        }
        let ghost e = self.entries@;
        let mut low: usize = 0;
        let mut lo: Option<usize> = None;
        let mut hi: Option<usize> = None;
        for i in 0..n
            invariant
                n == self.entries@.len(),
                e == self.entries@,
                n > 0,
                low < n,
                low == lowest(e, i as nat),
                match below(e, i as nat, download_rate) {
                    Some(k) => lo is Some && lo->Some_0 == k && 0 <= k < n,
                    None => lo is None,
                },
                match above(e, i as nat, download_rate) {
                    Some(k) => hi is Some && hi->Some_0 == k && 0 <= k < n,
                    None => hi is None,
                },
        {
            let rate: u32 = self.entries[i].rate;
            if i > 0 && rate < self.entries[low].rate {
                low = i;
            }
            if rate <= download_rate {
                match lo {
                    None => {
                        lo = Some(i);
                    },
                    Some(k) => {
                        if self.entries[k].rate <= rate {
                            lo = Some(i);
                        }
                    },
                }
            } else {
                match hi {
                    None => {
                        hi = Some(i);
                    },
                    Some(k) => {
                        if rate < self.entries[k].rate {
                            hi = Some(i);
                        }
                    },
                }
            }
        }
        proof {
            lemma_lowest(e, e.len());
            lemma_below(e, e.len(), download_rate);
            lemma_above(e, e.len(), download_rate);
        }
        if download_rate <= self.entries[low].rate {
            return Some(self.entries[low].initial_delay);
        }
        match (lo, hi) {
            (Some(a), Some(b)) => Some(
                interpolate(self.entries[a], self.entries[b], download_rate),
            ),
            (Some(a), None) => Some(self.entries[a].initial_delay),
            _ => None,
        }
    }
}

/// The rows of a `pdin` body.
pub open spec fn pdin_rows(s: Seq<u8>) -> Seq<PdinEntry> {
    Seq::new(
        ((s.len() - 4) / 8) as nat,
        |i: int|
            PdinEntry { rate: u32_at(s, 4 + 8 * i), initial_delay: u32_at(s, 8 + 8 * i) },
    )
}

/// Parse the body of a `pdin` box: version and flags, then entries to the end.
pub fn parse_pdin(payload: &[u8]) -> (r: Result<Pdin, Error>)
    ensures
        payload@.len() < 4 ==> r == Err::<Pdin, Error>(
            Error::Number(
                "MOV: pdin payload ",
                payload@.len() as i128,
                " < 4-byte FullBox header",
            ),
        ),
        payload@.len() >= 4 && payload@[0] != 0 ==> r == Err::<Pdin, Error>(
            Error::Number(
                "MOV: pdin unknown version ",
                payload@[0] as i128,
                " (spec defines only v0)",
            ),
        ),
        payload@.len() >= 4 && payload@[0] == 0 && (payload@.len() - 4) % 8 != 0 ==> r == Err::<
            Pdin,
            Error,
        >(
            Error::Number(
                "MOV: pdin body ",
                (payload@.len() - 4) as i128,
                " bytes is not a multiple of 8",
            ),
        ),
        payload@.len() >= 4 && payload@[0] == 0 && (payload@.len() - 4) % 8 == 0 ==> r is Ok
            && r->Ok_0.entries@ == pdin_rows(payload@),
{
    if payload.len() < 4 {
        return Err(
            Error::Number(
                "MOV: pdin payload ",
                payload.len() as i128,
                " < 4-byte FullBox header",
            ),
        );
    }
    let version: u8 = payload[0];
    if version != 0 {
        return Err(Error::Number(
                "MOV: pdin unknown version ",
                version as i128,
                " (spec defines only v0)",
            ));
    }
    let len: usize = payload.len() - 4;
    if len % 8 != 0 {
        return Err(
            Error::Number("MOV: pdin body ", len as i128, " bytes is not a multiple of 8"),
        );
    }
    let n: usize = len / 8;
    let mut entries: Vec<PdinEntry> = Vec::new();
    for i in 0..n
        invariant
            4 + 8 * n <= payload@.len(),
            entries@ =~= Seq::new(
                i as nat,
                |i: int|
                    PdinEntry {
                        rate: u32_at(payload@, 4 + 8 * i),
                        initial_delay: u32_at(payload@, 8 + 8 * i),
                    },
            ),
    {
        assert(payload.len() == payload@.len());
        entries.push(
            PdinEntry {
                rate: read_u32(payload, 4 + 8 * i),
                initial_delay: read_u32(payload, 8 + 8 * i),
            },
        );
    }
    Ok(Pdin { entries })
}

/// A delay is never outside the delays of the table: some entry has a delay that
/// is not greater, and some entry one that is not less.
pub proof fn law_delay_is_within_the_table(e: Seq<PdinEntry>, rate: u32)
    requires
        e.len() > 0,
    ensures
        delay_for(e, rate) is Some,
        exists|i: int|
            0 <= i < e.len() && (#[trigger] e[i]).initial_delay <= delay_for(e, rate)->Some_0,
        exists|i: int|
            0 <= i < e.len() && delay_for(e, rate)->Some_0 <= (#[trigger] e[i]).initial_delay,
{
    let n = e.len();
    lemma_lowest(e, n);
    lemma_below(e, n, rate);
    lemma_above(e, n, rate);
    if rate <= e[lowest(e, n)].rate {
        assert(e[lowest(e, n)].initial_delay == delay_for(e, rate)->Some_0);
    } else {
        match (below(e, n, rate), above(e, n, rate)) {
            (Some(lo), Some(hi)) => {
                let (a, b) = (e[lo], e[hi]);
                let d = delay_for(e, rate)->Some_0;
                if b.initial_delay >= a.initial_delay {
                    lemma_part(
                        b.initial_delay - a.initial_delay,
                        rate - a.rate,
                        b.rate - a.rate,
                    );
                    assert(e[lo].initial_delay <= d <= e[hi].initial_delay);
                } else {
                    lemma_part(
                        a.initial_delay - b.initial_delay,
                        rate - a.rate,
                        b.rate - a.rate,
                    );
                    assert(e[hi].initial_delay <= d <= e[lo].initial_delay);
                }
            },
            (Some(lo), None) => {
                assert(e[lo].initial_delay == delay_for(e, rate)->Some_0);
            },
            _ => {},
        }
    }
}

/// No two entries have the same rate.
pub open spec fn distinct_rates(e: Seq<PdinEntry>) -> bool {
    forall|i: int, j: int|
        0 <= i < e.len() && 0 <= j < e.len() && (#[trigger] e[i]).rate == (#[trigger] e[j]).rate
            ==> i == j
}

/// A rate that stands in the table gets the delay that stands beside it, if no
/// other entry has that rate.
pub proof fn law_rate_of_the_table_gets_its_delay(e: Seq<PdinEntry>, i: int)
    requires
        distinct_rates(e),
        0 <= i < e.len(),
    ensures
        delay_for(e, e[i].rate) == Some(e[i].initial_delay as int),
{
    let n = e.len();
    let rate = e[i].rate;
    lemma_lowest(e, n);
    lemma_below(e, n, rate);
    lemma_above(e, n, rate);
    if rate > e[lowest(e, n)].rate {
        let lo = below(e, n, rate)->Some_0;
        assert(e[i].rate <= e[lo].rate);
        assert(lo == i);
        if let Some(hi) = above(e, n, rate) {
            let span = e[hi].rate - e[lo].rate;
            assert((e[hi].initial_delay - e[lo].initial_delay) * 0 == 0) by (nonlinear_arith);
            assert((e[lo].initial_delay - e[hi].initial_delay) * 0 == 0) by (nonlinear_arith);
            assert(0int / span == 0) by (nonlinear_arith)
                requires
                    span > 0,
            ;
        }
    }
}

/// Two tables hold the same entries.
pub open spec fn same_entries(a: Seq<PdinEntry>, b: Seq<PdinEntry>) -> bool {
    &&& forall|i: int| 0 <= i < a.len() ==> b.contains(#[trigger] a[i])
    &&& forall|i: int| 0 <= i < b.len() ==> a.contains(#[trigger] b[i])
}

/// The order of the entries does not matter, if no two have the same rate.
pub proof fn law_order_does_not_matter(a: Seq<PdinEntry>, b: Seq<PdinEntry>, rate: u32)
    requires
        distinct_rates(a),
        distinct_rates(b),
        same_entries(a, b),
    ensures
        delay_for(a, rate) == delay_for(b, rate),
{
    if a.len() == 0 || b.len() == 0 {
        if a.len() > 0 {
            assert(b.contains(a[0]));
        }
        if b.len() > 0 {
            assert(a.contains(b[0]));
        }
    } else {
        lemma_lowest(a, a.len());
        lemma_lowest(b, b.len());
        let (p, q) = (lowest(a, a.len()), lowest(b, b.len()));
        assert(a[p] == b[q]) by {
            assert(b.contains(a[p]));
            assert(a.contains(b[q]));
            let p2 = choose|k: int| 0 <= k < b.len() && b[k] == a[p];
            let q2 = choose|k: int| 0 <= k < a.len() && a[k] == b[q];
            assert(b[q].rate <= b[p2].rate);
            assert(a[p].rate <= a[q2].rate);
        }
        lemma_below(a, a.len(), rate);
        lemma_below(b, b.len(), rate);
        lemma_above(a, a.len(), rate);
        lemma_above(b, b.len(), rate);
        if rate > a[p].rate {
            let lo_a = below(a, a.len(), rate)->Some_0;
            let lo_b = below(b, b.len(), rate)->Some_0;
            assert(a[lo_a] == b[lo_b]) by {
                assert(b.contains(a[lo_a]));
                assert(a.contains(b[lo_b]));
                let x = choose|k: int| 0 <= k < b.len() && b[k] == a[lo_a];
                let y = choose|k: int| 0 <= k < a.len() && a[k] == b[lo_b];
                assert(b[x].rate <= b[lo_b].rate);
                assert(a[y].rate <= a[lo_a].rate);
            }
            if let Some(hi_a) = above(a, a.len(), rate) {
                assert(b.contains(a[hi_a]));
                let x = choose|k: int| 0 <= k < b.len() && b[k] == a[hi_a];
                assert(b[x].rate > rate);
                let hi_b = above(b, b.len(), rate)->Some_0;
                assert(a.contains(b[hi_b]));
                let y = choose|k: int| 0 <= k < a.len() && a[k] == b[hi_b];
                assert(b[x].rate >= b[hi_b].rate);
                assert(a[y].rate >= a[hi_a].rate);
                assert(a[hi_a] == b[hi_b]);
            } else if let Some(hi_b) = above(b, b.len(), rate) {
                assert(a.contains(b[hi_b]));
                let y = choose|k: int| 0 <= k < a.len() && a[k] == b[hi_b];
                assert(a[y].rate <= rate);
            }
        }
    }
}

} // verus!
