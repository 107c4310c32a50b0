//! Numbers packed into a stream of bits, most significant bit first.
use vstd::arithmetic::power2::{lemma2_to64, lemma_pow2_pos, lemma_pow2_unfold, pow2};
use vstd::prelude::*;

verus! {

/// The low `width` bits of a number, most significant first.
pub open spec fn bits_of(value: u32, width: nat) -> Seq<bool> {
    Seq::new(width, |i: int| (value as nat / pow2((width - 1 - i) as nat)) % 2 == 1)
}

/// The number that bits stand for.
pub open spec fn value_of(bits: Seq<bool>) -> nat
    decreases bits.len(),
{
    if bits.len() == 0 {
        0
    } else {
        2 * value_of(bits.drop_last()) + (if bits.last() {
            1nat
        } else {
            0
        })
    }
}

/// `worth` if bit `i` is there and set, else 0.
pub open spec fn share(bits: Seq<bool>, i: int, worth: nat) -> nat {
    if i < bits.len() && bits[i] {
        worth
    } else {
        0
    }
}

/// The byte made of the eight bits from `at` on. Bits behind the end are 0.
pub open spec fn octet(bits: Seq<bool>, at: int) -> nat {
    share(bits, at, 128) + share(bits, at + 1, 64) + share(bits, at + 2, 32) + share(
        bits,
        at + 3,
        16,
    ) + share(bits, at + 4, 8) + share(bits, at + 5, 4) + share(bits, at + 6, 2) + share(
        bits,
        at + 7,
        1,
    )
}

/// Bits in bytes, with zeros behind the last bit.
pub open spec fn pack(bits: Seq<bool>) -> Seq<u8> {
    Seq::new((bits.len() + 7) / 8, |k: int| octet(bits, 8 * k) as u8)
}

/// What the bit at place `j` of a byte is worth.
pub open spec fn worth(j: int) -> nat {
    if j == 0 {
        128
    } else if j == 1 {
        64
    } else if j == 2 {
        32
    } else if j == 3 {
        16
    } else if j == 4 {
        8
    } else if j == 5 {
        4
    } else if j == 6 {
        2
    } else {
        1
    }
}

proof fn lemma_octet_push(bits: Seq<bool>, b: bool, at: int)
    requires
        at >= 0,
        at % 8 == 0,
    ensures
        octet(bits.push(b), at) == octet(bits, at) + (if at <= bits.len() < at + 8 && b {
            worth(bits.len() - at)
        } else {
            0
        }),
        octet(bits, at) <= 255,
{
    let now = bits.push(b);
    assert forall|i: int, w: nat| 0 <= i && i != bits.len() implies #[trigger] share(now, i, w) == share(
        bits,
        i,
        w,
    ) by {}
}

/// A stream of bits under construction.
pub struct BitWriter {
    bytes: Vec<u8>,
    bit_len: usize,
    bits: Ghost<Seq<bool>>,
}

impl BitWriter {
    /// The bits so far.
    pub closed spec fn bits(&self) -> Seq<bool> {
        self.bits@
    }

    /// The bytes hold the bits.
    pub closed spec fn wf(&self) -> bool {
        self.bytes@ == pack(self.bits@) && self.bit_len == self.bits@.len() % 8
    }

    /// An empty stream.
    pub fn new() -> (r: Self)
        ensures
            r.wf(),
            r.bits() == Seq::<bool>::empty(),
    {
        let r = BitWriter { bytes: Vec::new(), bit_len: 0, bits: Ghost(Seq::empty()) };
        assert(r.bytes@ =~= pack(r.bits@));
        r
    }

    /// Append a bit.
    fn push(&mut self, b: bool)
        requires
            old(self).wf(),
        ensures
            final(self).wf(),
            final(self).bits() == old(self).bits().push(b),
    {
        let ghost had = self.bits@;
        let ghost now = had.push(b);
        proof {
            assert forall|k: int| 0 <= k implies octet(now, 8 * k) == #[trigger] octet(had, 8 * k)
                + (if 8 * k <= had.len() < 8 * k + 8 && b {
                worth(had.len() - 8 * k)
            } else {
                0
            }) && octet(had, 8 * k) <= 255 by {
                lemma_octet_push(had, b, 8 * k);
            }
            let last = (had.len() / 8) as int;
            lemma_octet_push(had, b, 8 * last);
            lemma_octet_push(now, b, 8 * last);
            assert(octet(had, 8 * last) <= 255);
        }
        if self.bit_len == 0 {
            proof {
                let last = (had.len() / 8) as int;
                assert(had.len() == 8 * last);
                assert(octet(had, 8 * last) == 0);
            }
            self.bytes.push(0);
        }
        let worth: u8 = match self.bit_len {
            0 => 128,
            1 => 64,
            2 => 32,
            3 => 16,
            4 => 8,
            5 => 4,
            6 => 2,
            _ => 1,
        };
        let n: usize = self.bytes.len();
        proof {
            let last = (had.len() / 8) as int;
            assert(n == last + 1);
            assert(self.bytes@[last] == octet(had, 8 * last));
        }
        if b {
            let byte: u8 = self.bytes[n - 1];
            self.bytes[n - 1] = byte + worth;
        }
        self.bit_len = if self.bit_len == 7 {
            0
        } else {
            self.bit_len + 1
        };
        self.bits = Ghost(now);
        assert(self.bytes@ =~= pack(now));
    }

    /// Append the low `width` bits of a number.
    pub fn put(&mut self, value: u32, width: u32)
        requires
            old(self).wf(),
            width <= 32,
        ensures
            final(self).wf(),
            final(self).bits() == old(self).bits() + bits_of(value, width as nat),
    {
        let ghost before = self.bits();
        let ghost all = bits_of(value, width as nat);
        let mut left: u32 = width;
        let mut p: u64 = 1;
        let mut k: u32 = 0;
        proof {
            lemma2_to64();
        }
        while k < width
            invariant
                k <= width <= 32,
                p == pow2(k as nat),
                p <= 0x1_0000_0000,
            decreases width - k,
        {
            proof {
                lemma_pow2_unfold((k + 1) as nat);
                lemma2_to64();
                vstd::arithmetic::power2::lemma_pow2_strictly_increases(k as nat, 32);
            }
            p = p * 2;
            k = k + 1;
        }
        assert(self.bits() =~= before + all.take(0));
        while left > 0
            invariant
                self.wf(),
                left <= width <= 32,
                p == pow2(left as nat),
                all == bits_of(value, width as nat),
                self.bits() == before + all.take(width - left),
            decreases left,
        {
            proof {
                lemma_pow2_unfold(left as nat);
                lemma_pow2_pos((left - 1) as nat);
            }
            p = p / 2;
            let bit: bool = (value as u64 / p) % 2 == 1;
            assert(bit == all[width - left]);
            let ghost had = self.bits();
            self.push(bit);
            assert(had.push(bit) =~= before + all.take(width - left + 1));
            left = left - 1;
        }
        assert(all.take(width as int) =~= all);
    }

    /// The bytes of the stream.
    pub fn finish(self) -> (r: Vec<u8>)
        requires
            self.wf(),
        ensures
            r@ == pack(self.bits()),
    {
        self.bytes
    }
}

/// The bits of a number that fits stand for that number.
pub proof fn law_bits_stand_for_the_number(value: u32, width: nat)
    requires
        value < pow2(width),
    ensures
        value_of(bits_of(value, width)) == value,
    decreases width,
{
    if width == 0 {
        lemma2_to64();
    } else {
        let half = (value / 2) as u32;
        let all = bits_of(value, width);
        let w = (width - 1) as nat;
        lemma_pow2_unfold(width);
        law_bits_stand_for_the_number(half, w);
        assert(all.drop_last() =~= bits_of(half, w)) by {
            assert forall|i: int| 0 <= i < w implies all[i] == bits_of(half, w)[i] by {
                let e = (width - 1 - i) as nat;
                lemma_pow2_unfold(e);
                lemma_pow2_pos((e - 1) as nat);
                vstd::arithmetic::div_mod::lemma_div_denominator(
                    value as int,
                    2,
                    pow2((e - 1) as nat) as int,
                );
            }
        }
        lemma2_to64();
        assert(all.last() == ((value as nat / pow2(0)) % 2 == 1));
        assert(value as nat / 1 == value as nat);
        assert(all.last() == (value % 2 == 1));
    }
}

/// Bit `k` of bytes, most significant bit first.
pub open spec fn bit_at(s: Seq<u8>, k: int) -> bool {
    (s[k / 8] as nat / worth(k % 8)) % 2 == 1
}

/// Packed bits are read back.
pub proof fn law_packed_bits_are_read_back(bits: Seq<bool>, k: int)
    requires
        0 <= k < bits.len(),
    ensures
        k / 8 < pack(bits).len(),
        bit_at(pack(bits), k) == bits[k],
{
    let at = 8 * (k / 8);
    let j = k % 8;
    assert(k == at + j);
    let whole = octet(bits, at);
    assert(whole <= 255);
    assert(pack(bits)[k / 8] == whole);
    if j == 0 {
        assert((whole / 128) % 2 == 1 <==> bits[at]);
    } else if j == 1 {
        assert((whole / 64) % 2 == 1 <==> bits[at + 1]);
    } else if j == 2 {
        assert((whole / 32) % 2 == 1 <==> bits[at + 2]);
    } else if j == 3 {
        assert((whole / 16) % 2 == 1 <==> bits[at + 3]);
    } else if j == 4 {
        assert((whole / 8) % 2 == 1 <==> bits[at + 4]);
    } else if j == 5 {
        assert((whole / 4) % 2 == 1 <==> bits[at + 5]);
    } else if j == 6 {
        assert((whole / 2) % 2 == 1 <==> bits[at + 6]);
    } else {
        assert(whole / 1 == whole);
        assert(whole % 2 == 1 <==> bits[at + 7]);
    }
}

} // verus!
