//! Bit packing of entropy-coded data: codes accumulate into whole bytes,
//! each 0xFF is stuffed with a 0x00, and marker segments go out as they are.
use vstd::prelude::*;
use vstd::arithmetic::power2::{pow2, lemma_pow2_pos, lemma_pow2_unfold, lemma_pow2_adds};
use vstd::arithmetic::div_mod::{
    lemma_fundamental_div_mod_converse, lemma_mod_breakdown, lemma_fundamental_div_mod,
};
use vstd::arithmetic::mul::{lemma_mul_inequality, lemma_mul_is_associative};
use vstd::bits::{lemma_u32_shl_is_mul, lemma_u32_shr_is_div, lemma_u32_pow2_no_overflow};

verus! {

/// The `n` low-order bits of `v`, most significant first.
pub open spec fn bits_msb(v: nat, n: nat) -> Seq<bool>
    decreases n,
{
    if n == 0 {
        Seq::empty()
    } else {
        bits_msb(v / 2, (n - 1) as nat).push(v % 2 == 1)
    }
}

/// The number whose binary digits, most significant first, are `s`.
pub open spec fn bits_value(s: Seq<bool>) -> nat
    decreases s.len(),
{
    if s.len() == 0 {
        0
    } else {
        2 * bits_value(s.drop_last()) + if s.last() { 1nat } else { 0nat }
    }
}

/// The whole bytes that a bit string fills, eight bits to a byte; a partial tail is left out.
pub open spec fn pack_bytes(s: Seq<bool>) -> Seq<u8>
    decreases s.len(),
{
    if s.len() < 8 {
        Seq::empty()
    } else {
        seq![bits_value(s.take(8)) as u8] + pack_bytes(s.skip(8))
    }
}

/// One byte of entropy-coded data: 0xFF is escaped by a following 0x00.
pub open spec fn stuff_byte(b: u8) -> Seq<u8> {
    if b == 0xFF {
        seq![0xFFu8, 0x00u8]
    } else {
        seq![b]
    }
}

/// Byte stuffing of a whole byte string.
pub open spec fn stuff(b: Seq<u8>) -> Seq<u8>
    decreases b.len(),
{
    if b.len() == 0 {
        Seq::empty()
    } else {
        stuff_byte(b[0]) + stuff(b.skip(1))
    }
}

/// The bytes that the entropy coder emits for the bit string `s`.
pub open spec fn entropy_bytes(s: Seq<bool>) -> Seq<u8> {
    stuff(pack_bytes(s))
}

/// Every 0xFF in `b` is followed by a 0x00 stuffing byte.
pub open spec fn is_escaped(b: Seq<u8>) -> bool {
    forall|i: int| 0 <= i < b.len() && #[trigger] b[i] == 0xFF ==> i + 1 < b.len() && b[i + 1] == 0x00
}

pub proof fn lemma_bits_msb_len(v: nat, n: nat)
    ensures
        bits_msb(v, n).len() == n,
    decreases n,
{
    if n > 0 {
        lemma_bits_msb_len(v / 2, (n - 1) as nat);
    }
}

pub proof fn lemma_bits_value_of_msb(v: nat, n: nat)
    ensures
        bits_value(bits_msb(v, n)) == v % pow2(n),
    decreases n,
{
    lemma_pow2_pos(n);
    if n == 0 {
        assert(pow2(0) == 1) by {
            vstd::arithmetic::power2::lemma2_to64();
        };
    } else {
        let s = bits_msb(v, n);
        lemma_bits_value_of_msb(v / 2, (n - 1) as nat);
        assert(s.drop_last() == bits_msb(v / 2, (n - 1) as nat));
        lemma_pow2_unfold(n);
        lemma_pow2_pos((n - 1) as nat);
        lemma_mod_breakdown(v as int, 2, pow2((n - 1) as nat) as int);
    }
}

/// Splitting the binary digits of `a * 2^m + b`.
pub proof fn lemma_bits_msb_split(a: nat, b: nat, n: nat, m: nat)
    requires
        b < pow2(m),
    ensures
        bits_msb(a * pow2(m) + b, n + m) == bits_msb(a, n) + bits_msb(b, m),
    decreases m,
{
    if m == 0 {
        vstd::arithmetic::power2::lemma2_to64();
        assert(bits_msb(b, m) == Seq::<bool>::empty());
        assert(bits_msb(a, n) + bits_msb(b, m) == bits_msb(a, n));
    } else {
        let p = pow2((m - 1) as nat);
        lemma_pow2_unfold(m);
        lemma_pow2_pos((m - 1) as nat);
        let v = a * pow2(m) + b;
        assert(a * pow2(m) == (a * p) * 2) by {
            lemma_mul_is_associative(a as int, p as int, 2);
        };
        lemma_fundamental_div_mod(b as int, 2);
        let q = a * p + b / 2;
        assert(v == q * 2 + b % 2);
        lemma_fundamental_div_mod_converse(v as int, 2, q as int, (b % 2) as int);
        assert(b / 2 < p);
        lemma_bits_msb_split(a, b / 2, n, (m - 1) as nat);
        assert((n + m - 1) as nat == n + (m - 1) as nat);
        assert(bits_msb(v, n + m) == bits_msb(q, (n + m - 1) as nat).push(v % 2 == 1));
        assert(bits_msb(b, m) == bits_msb(b / 2, (m - 1) as nat).push(b % 2 == 1));
        assert(bits_msb(v, n + m) =~= bits_msb(a, n) + bits_msb(b, m));
    }
}

pub proof fn lemma_stuff_append(a: Seq<u8>, b: Seq<u8>)
    ensures
        stuff(a + b) == stuff(a) + stuff(b),
    decreases a.len(),
{
    if a.len() == 0 {
        assert(a + b =~= b);
        assert(stuff(a) + stuff(b) =~= stuff(b));
    } else {
        assert((a + b).skip(1) =~= a.skip(1) + b);
        lemma_stuff_append(a.skip(1), b);
        assert(stuff(a + b) =~= stuff(a) + stuff(b));
    }
}

pub proof fn lemma_stuff_escaped(b: Seq<u8>)
    ensures
        is_escaped(stuff(b)),
    decreases b.len(),
{
    if b.len() > 0 {
        lemma_stuff_escaped(b.skip(1));
        let h = stuff_byte(b[0]);
        let t = stuff(b.skip(1));
        assert(stuff(b) == h + t);
        let ht = h + t;
        assert forall|i: int| 0 <= i < ht.len() && #[trigger] ht[i] == 0xFF implies i + 1
            < ht.len() && ht[i + 1] == 0x00 by {
            if i >= h.len() {
                assert(ht[i] == t[i - h.len()]);
                assert(ht[i + 1] == t[i + 1 - h.len()]);
            }
        };
    }
}

pub proof fn lemma_pack_append(a: Seq<bool>, b: Seq<bool>)
    requires
        a.len() % 8 == 0,
    ensures
        pack_bytes(a + b) == pack_bytes(a) + pack_bytes(b),
    decreases a.len(),
{
    if a.len() == 0 {
        assert(a + b =~= b);
        assert(pack_bytes(a) + pack_bytes(b) =~= pack_bytes(b));
    } else {
        assert((a + b).take(8) =~= a.take(8));
        assert((a + b).skip(8) =~= a.skip(8) + b);
        lemma_pack_append(a.skip(8), b);
        assert(pack_bytes(a + b) =~= pack_bytes(a) + pack_bytes(b));
    }
}

pub proof fn lemma_entropy_append(a: Seq<bool>, b: Seq<bool>)
    requires
        a.len() % 8 == 0,
    ensures
        entropy_bytes(a + b) == entropy_bytes(a) + entropy_bytes(b),
{
    lemma_pack_append(a, b);
    lemma_stuff_append(pack_bytes(a), pack_bytes(b));
}

/// The first eight bits of a bit string become one byte.
pub proof fn lemma_entropy_first_byte(byte: nat, rest: Seq<bool>)
    requires
        byte < 256,
    ensures
        entropy_bytes(bits_msb(byte, 8) + rest) == stuff_byte(byte as u8) + entropy_bytes(rest),
{
    let s = bits_msb(byte, 8) + rest;
    lemma_bits_msb_len(byte, 8);
    assert(s.take(8) =~= bits_msb(byte, 8));
    assert(s.skip(8) =~= rest);
    lemma_bits_value_of_msb(byte, 8);
    assert(pow2(8) == 256) by {
        vstd::arithmetic::power2::lemma2_to64();
    };
    assert(pack_bytes(s) == seq![byte as u8] + pack_bytes(rest));
    lemma_stuff_append(seq![byte as u8], pack_bytes(rest));
    let one = seq![byte as u8];
    assert(one.skip(1) =~= Seq::<u8>::empty());
    assert(stuff(one) == stuff_byte(one[0]) + stuff(one.skip(1)));
    assert(stuff(Seq::<u8>::empty()) == Seq::<u8>::empty());
    assert(stuff(one) =~= stuff_byte(byte as u8));
}

pub proof fn lemma_entropy_short(s: Seq<bool>)
    requires
        s.len() < 8,
    ensures
        entropy_bytes(s) == Seq::<u8>::empty(),
{
}

/// Writing the bit string `bits` takes a writer from output `o1` with pending
/// bits `p1` to output `o2` with pending bits `p2`: every whole byte of
/// `p1 + bits` is emitted (stuffed), and the partial tail stays pending.
pub open spec fn emits(o1: Seq<u8>, p1: Seq<bool>, o2: Seq<u8>, p2: Seq<bool>, bits: Seq<bool>) -> bool {
    let all = p1 + bits;
    &&& o2 == o1 + entropy_bytes(all.take(8 * (all.len() as int / 8)))
    &&& p2 == all.skip(8 * (all.len() as int / 8))
}

pub proof fn lemma_emits_empty(o: Seq<u8>, p: Seq<bool>)
    requires
        p.len() < 8,
    ensures
        emits(o, p, o, p, Seq::empty()),
{
    let all = p + Seq::<bool>::empty();
    assert(all =~= p);
    assert(all.take(0) =~= Seq::<bool>::empty());
    assert(all.skip(0) =~= p);
    lemma_entropy_short(Seq::<bool>::empty());
    assert(o + Seq::<u8>::empty() =~= o);
}

pub proof fn lemma_emits_trans(
    o1: Seq<u8>,
    p1: Seq<bool>,
    o2: Seq<u8>,
    p2: Seq<bool>,
    o3: Seq<u8>,
    p3: Seq<bool>,
    x: Seq<bool>,
    y: Seq<bool>,
)
    requires
        emits(o1, p1, o2, p2, x),
        emits(o2, p2, o3, p3, y),
    ensures
        emits(o1, p1, o3, p3, x + y),
        p3.len() < 8,
{
    let a1 = p1 + x;
    let f1 = a1.take(8 * (a1.len() as int / 8));
    let a2 = p2 + y;
    let f2 = a2.take(8 * (a2.len() as int / 8));
    assert(a1 =~= f1 + p2);
    assert(a2 =~= f2 + p3);
    let all = p1 + (x + y);
    assert(all =~= (f1 + f2) + p3);
    assert((f1 + f2).len() % 8 == 0);
    assert(all.take(8 * (all.len() as int / 8)) =~= f1 + f2);
    assert(all.skip(8 * (all.len() as int / 8)) =~= p3);
    lemma_entropy_append(f1, f2);
    assert(o3 =~= o1 + entropy_bytes(f1 + f2));
}

/// Accumulates variable-length codes into whole bytes, stuffing each 0xFF.
pub struct BitWriter<'a> {
    pub(crate) w: &'a mut Vec<u8>,
    pub(crate) accumulator: u32,
    pub(crate) nbits: u8,
}

impl<'a> BitWriter<'a> {
    /// The bits not yet emitted as a whole byte.
    pub closed spec fn pending(&self) -> Seq<bool> {
        bits_msb(self.accumulator as nat, self.nbits as nat)
    }

    /// The bytes written so far.
    pub closed spec fn out(&self) -> Seq<u8> {
        self.w@
    }

    pub proof fn lemma_pending_short(&self)
        requires
            self.wf(),
        ensures
            self.pending().len() < 8,
    {
        lemma_bits_msb_len(self.accumulator as nat, self.nbits as nat);
    }

    pub closed spec fn wf(&self) -> bool {
        &&& self.nbits < 8
        &&& self.accumulator < pow2(self.nbits as nat)
    }

    pub(crate) fn new(w: &'a mut Vec<u8>) -> (r: BitWriter<'a>)
        ensures
            r.wf(),
            r.out() == old(w)@,
            r.pending() == Seq::<bool>::empty(),
            *final(w) == *final(r.w),
    {
        proof {
            vstd::arithmetic::power2::lemma2_to64();
        }
        BitWriter { w, accumulator: 0, nbits: 0 }
    }

    /// Drops the bits not yet emitted.
    pub(crate) fn reset(&mut self)
        ensures
            final(self).wf(),
            final(self).out() == old(self).out(),
            final(self).pending() == Seq::<bool>::empty(),
    {
        proof {
            vstd::arithmetic::power2::lemma2_to64();
        }
        self.accumulator = 0;
        self.nbits = 0;
    }

    /// Appends the `size` low-order bits of `bits`, most significant first.
    pub(crate) fn write_bits(&mut self, bits: u16, size: u8)
        requires
            old(self).wf(),
            size <= 16,
        ensures
            final(self).wf(),
            emits(
                old(self).out(),
                old(self).pending(),
                final(self).out(),
                final(self).pending(),
                bits_msb(bits as nat, size as nat),
            ),
    {
        let ghost all = old(self).pending() + bits_msb(bits as nat, size as nat);
        proof {
            lemma_bits_msb_len(self.accumulator as nat, self.nbits as nat);
            lemma_bits_msb_len(bits as nat, size as nat);
        }
        if size == 0 {
            proof {
                assert(all =~= old(self).pending());
                assert(all.take(0) =~= Seq::<bool>::empty());
                assert(all.skip(0) =~= all);
            }
            return ;
        }
        proof {
            lemma_u32_pow2_no_overflow(size as nat);
            lemma_u32_shl_is_mul(1, size as u32);
        }
        let p: u32 = 1u32 << size;
        let masked: u32 = (bits as u32) % p;
        proof {
            lemma_pow2_adds(self.nbits as nat, size as nat);
            lemma_pow2_pos(size as nat);
            lemma_mul_inequality(
                self.accumulator as int,
                pow2(self.nbits as nat) as int - 1,
                pow2(size as nat) as int,
            );
            vstd::arithmetic::mul::lemma_mul_is_distributive_sub_other_way(
                pow2(size as nat) as int,
                pow2(self.nbits as nat) as int,
                1,
            );
            assert(p == pow2(size as nat));
            assert(masked < p);
            assert(self.accumulator * p + masked < pow2((self.nbits + size) as nat));
            lemma_u32_pow2_no_overflow((self.nbits + size) as nat);
            lemma_bits_msb_split(
                self.accumulator as nat,
                masked as nat,
                self.nbits as nat,
                size as nat,
            );
            assert(bits_msb(masked as nat, size as nat) == bits_msb(bits as nat, size as nat)) by {
                lemma_bits_msb_mod(bits as nat, size as nat);
            };
        }
        self.accumulator = self.accumulator * p + masked;
        self.nbits = self.nbits + size;
        let ghost consumed: Seq<bool> = Seq::empty();
        proof {
            assert(all == consumed + self.pending());
            assert(entropy_bytes(consumed) =~= Seq::<u8>::empty()) by {
                lemma_entropy_short(consumed);
            };
            assert(old(self).out() + entropy_bytes(consumed) =~= self.out());
        }
        while self.nbits >= 8
            invariant
                self.nbits <= 23,
                self.accumulator < pow2(self.nbits as nat),
                all == consumed + self.pending(),
                consumed.len() % 8 == 0,
                self.out() == old(self).out() + entropy_bytes(consumed),
            decreases self.nbits,
        {
            let shift: u8 = self.nbits - 8;
            proof {
                lemma_u32_shr_is_div(self.accumulator, shift as u32);
                lemma_u32_pow2_no_overflow(shift as nat);
                lemma_u32_shl_is_mul(1, shift as u32);
                lemma_pow2_pos(shift as nat);
            }
            let byte: u32 = self.accumulator >> shift;
            let q: u32 = 1u32 << shift;
            let rest: u32 = self.accumulator % q;
            proof {
                lemma_pow2_adds(8, shift as nat);
                assert(pow2(8) == 256) by {
                    vstd::arithmetic::power2::lemma2_to64();
                };
                lemma_fundamental_div_mod(self.accumulator as int, q as int);
                assert(byte < 256) by {
                    vstd::arithmetic::div_mod::lemma_div_by_multiple_is_strongly_ordered(
                        self.accumulator as int,
                        pow2(self.nbits as nat) as int,
                        256,
                        q as int,
                    );
                    assert(pow2(self.nbits as nat) == 256 * q);
                    vstd::arithmetic::div_mod::lemma_div_by_multiple(256, q as int);
                };
                lemma_bits_msb_split(byte as nat, rest as nat, 8, shift as nat);
                assert(self.accumulator == byte * q + rest);
                lemma_entropy_first_byte(byte as nat, bits_msb(rest as nat, shift as nat));
                lemma_bits_msb_len(byte as nat, 8);
                lemma_entropy_append(consumed, bits_msb(byte as nat, 8));
                lemma_entropy_first_byte(byte as nat, Seq::empty());
                assert(bits_msb(byte as nat, 8) + Seq::<bool>::empty() =~= bits_msb(
                    byte as nat,
                    8,
                ));
            }
            self.w.push(byte as u8);
            if byte == 0xFF {
                self.w.push(0x00);
            }
            let ghost prev = consumed;
            proof {
                consumed = consumed + bits_msb(byte as nat, 8);
                assert(all =~= consumed + bits_msb(rest as nat, shift as nat));
                assert(self.out() =~= old(self).out() + entropy_bytes(consumed));
            }
            self.accumulator = rest;
            self.nbits = shift;
        }
        proof {
            lemma_bits_msb_len(self.accumulator as nat, self.nbits as nat);
            assert(all.len() / 8 == consumed.len() / 8);
            assert(all.take(8 * (all.len() as int / 8)) =~= consumed);
            assert(all.skip(8 * (all.len() as int / 8)) =~= self.pending());
        }
    }

    /// Seven one bits, which complete a partial last byte.
    pub(crate) fn pad_byte(&mut self)
        requires
            old(self).wf(),
        ensures
            final(self).wf(),
            emits(
                old(self).out(),
                old(self).pending(),
                final(self).out(),
                final(self).pending(),
                bits_msb(0x7F, 7),
            ),
    {
        self.write_bits(0x7F, 7);
    }

    /// A marker, and a segment with its big-endian length where `data` is given.
    pub(crate) fn write_segment(&mut self, marker: u8, data: Option<&[u8]>)
        requires
            old(self).wf(),
            data matches Some(d) ==> d@.len() + 2 <= 0xFFFF,
        ensures
            final(self).wf(),
            final(self).pending() == old(self).pending(),
            final(self).out() == old(self).out() + segment_bytes(
                marker,
                match data {
                    Some(d) => Some(d@),
                    None => None,
                },
            ),
    {
        self.w.push(0xFF);
        self.w.push(marker);
        match data {
            Some(b) => {
                let len: u16 = b.len() as u16 + 2;
                self.w.push((len / 256) as u8);
                self.w.push((len % 256) as u8);
                let mut i: usize = 0;
                let ghost start = self.w@;
                while i < b.len()
                    invariant
                        i <= b@.len(),
                        self.w@ == start + b@.take(i as int),
                        self.nbits == old(self).nbits,
                        self.accumulator == old(self).accumulator,
                    decreases b@.len() - i,
                {
                    self.w.push(b[i]);
                    i += 1;
                    proof {
                        assert(b@.take(i as int) =~= b@.take(i - 1).push(b@[i - 1]));
                    }
                }
                proof {
                    assert(b@.take(b@.len() as int) =~= b@);
                    assert(self.w@ =~= old(self).out() + segment_bytes(marker, Some(b@)));
                }
            },
            None => {
                proof {
                    assert(self.w@ =~= old(self).out() + segment_bytes(marker, None));
                }
            },
        }
    }
}

pub proof fn lemma_bits_msb_mod(v: nat, n: nat)
    ensures
        bits_msb(v % pow2(n), n) == bits_msb(v, n),
    decreases n,
{
    lemma_pow2_pos(n);
    if n == 0 {
    } else {
        lemma_pow2_unfold(n);
        lemma_pow2_pos((n - 1) as nat);
        let p = pow2((n - 1) as nat);
        lemma_mod_breakdown(v as int, 2, p as int);
        let r = v % pow2(n);
        // r == 2 * ((v / 2) % p) + v % 2
        lemma_fundamental_div_mod_converse(r as int, 2, ((v / 2) % p) as int, (v % 2) as int);
        lemma_bits_msb_mod(v / 2, (n - 1) as nat);
    }
}

/// A marker segment: 0xFF, the marker, and where a payload is given its
/// length (payload plus the two length bytes, big-endian) and the payload.
pub open spec fn segment_bytes(marker: u8, data: Option<Seq<u8>>) -> Seq<u8> {
    match data {
        Some(d) => seq![0xFFu8, marker, ((d.len() + 2) / 256) as u8, ((d.len() + 2) % 256) as u8]
            + d,
        None => seq![0xFFu8, marker],
    }
}

} // verus!
