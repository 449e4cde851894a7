//! Huffman coding of quantized 8x8 blocks: magnitude categories, the
//! differential DC code and the run-length AC codes (ITU-T T.81, F.1.2).
use vstd::prelude::*;
use vstd::arithmetic::power2::{pow2, lemma_pow2_pos, lemma_pow2_unfold, lemma_pow2_adds};
use vstd::bits::{lemma_u32_shl_is_mul, lemma_u32_pow2_no_overflow};
use crate::bitstream::{BitWriter, bits_msb, emits, lemma_emits_trans, lemma_emits_empty};
use crate::tables::{unzigzag, unzigzag_order};

verus! {

/// Why an encode did not complete.
#[derive(Debug, Clone, Copy, PartialEq, Eq)]
pub enum EncodeError {
    /// A symbol has no code of at most 16 bits in its Huffman table.
    BadHuffmanValue,
    /// The pixel buffer is shorter than width * height * bytes per pixel.
    ImageTooSmall,
    /// Width or height does not fit the 16-bit fields of the frame header.
    DimensionTooLarge,
}

/// The number of binary digits of `m`.
pub open spec fn bit_length(m: nat) -> nat
    decreases m,
{
    if m == 0 {
        0
    } else {
        1 + bit_length(m / 2)
    }
}

pub open spec fn abs(c: int) -> nat {
    if c < 0 {
        (-c) as nat
    } else {
        c as nat
    }
}

/// The magnitude category of a coefficient: the bits needed for `|c|`.
pub open spec fn coef_size(c: int) -> nat {
    bit_length(abs(c))
}

/// The extra bits that follow a category: `c`, or `c - 1` where `c` is
/// negative, reduced to `coef_size(c)` bits.
pub open spec fn coef_bits(c: int) -> nat {
    if c < 0 {
        ((c - 1) % (pow2(coef_size(c)) as int)) as nat
    } else {
        (c % (pow2(coef_size(c)) as int)) as nat
    }
}

/// The extra bits of a coefficient, most significant first.
pub open spec fn coef_code(c: int) -> Seq<bool> {
    bits_msb(coef_bits(c), coef_size(c))
}

/// The code of `sym` in a lookup table; none where its length exceeds 16.
pub open spec fn huff_code(lut: Seq<(u8, u16)>, sym: u8) -> Option<Seq<bool>> {
    let e = lut[sym as int];
    if e.0 <= 16 {
        Some(bits_msb(e.1 as nat, e.0 as nat))
    } else {
        None
    }
}

/// Concatenation where both parts exist.
pub open spec fn cat(a: Option<Seq<bool>>, b: Option<Seq<bool>>) -> Option<Seq<bool>> {
    match (a, b) {
        (Some(x), Some(y)) => Some(x + y),
        _ => None,
    }
}

/// `n` zero-run (ZRL, symbol 0xF0) codes.
pub open spec fn zrl_code(lut: Seq<(u8, u16)>, n: nat) -> Option<Seq<bool>>
    decreases n,
{
    if n == 0 {
        Some(Seq::empty())
    } else {
        cat(huff_code(lut, 0xF0), zrl_code(lut, (n - 1) as nat))
    }
}

/// The AC symbol of a nonzero coefficient after `run` zeros (`run < 16`).
pub open spec fn ac_symbol(run: nat, c: int) -> u8 {
    (run * 16 + coef_size(c)) as u8
}

/// Coding of the AC coefficients at zig-zag indices `k..=63`, with `run`
/// zeros pending before index `k` (ITU-T T.81, Figure F.2).
pub open spec fn ac_code(blk: Seq<i32>, lut: Seq<(u8, u16)>, k: nat, run: nat) -> Option<Seq<bool>>
    decreases 64 - k,
{
    if k > 63 {
        Some(Seq::empty())
    } else {
        let c = blk[unzigzag_order()[k as int] as int] as int;
        if c == 0 {
            if k == 63 {
                huff_code(lut, 0x00)
            } else {
                ac_code(blk, lut, k + 1, run + 1)
            }
        } else {
            cat(
                cat(
                    cat(zrl_code(lut, run / 16), huff_code(lut, ac_symbol(run % 16, c))),
                    Some(coef_code(c)),
                ),
                ac_code(blk, lut, k + 1, 0),
            )
        }
    }
}

/// The code of one block: the DC difference to `prev_dc`, then the AC run-lengths.
#[verifier::opaque]
pub open spec fn block_code(
    blk: Seq<i32>,
    prev_dc: int,
    dc_lut: Seq<(u8, u16)>,
    ac_lut: Seq<(u8, u16)>,
) -> Option<Seq<bool>> {
    let diff = blk[0] as int - prev_dc;
    cat(
        cat(huff_code(dc_lut, coef_size(diff) as u8), Some(coef_code(diff))),
        ac_code(blk, ac_lut, 1, 0),
    )
}

/// The coefficients of a block that the coder accepts.
pub open spec fn block_in_range(blk: Seq<i32>) -> bool {
    &&& blk.len() == 64
    &&& forall|i: int| 0 <= i < 64 ==> -32768 < #[trigger] blk[i] < 32768
}

pub proof fn lemma_bit_length_bound(m: nat, n: nat)
    requires
        m < pow2(n),
    ensures
        bit_length(m) <= n,
    decreases n,
{
    if n == 0 {
        vstd::arithmetic::power2::lemma2_to64();
    } else if m > 0 {
        lemma_pow2_unfold(n);
        lemma_bit_length_bound(m / 2, (n - 1) as nat);
    }
}

proof fn lemma_cat_assoc(a: Option<Seq<bool>>, b: Option<Seq<bool>>, c: Option<Seq<bool>>)
    ensures
        cat(cat(a, b), c) == cat(a, cat(b, c)),
{
    match (a, b, c) {
        (Some(x), Some(y), Some(z)) => {
            assert((x + y) + z =~= x + (y + z));
        },
        _ => {},
    }
}

/// The magnitude category and extra bits of a coefficient.
fn encode_coefficient(coefficient: i32) -> (r: (u8, u16))
    requires
        -65536 < coefficient < 65536,
    ensures
        r.0 as nat == coef_size(coefficient as int),
        r.1 as nat == coef_bits(coefficient as int),
        r.0 <= 16,
{
    let c = coefficient;
    let mut magnitude: u32 = if c < 0 {
        (-c) as u32
    } else {
        c as u32
    };
    let mut num_bits: u8 = 0;
    proof {
        vstd::arithmetic::power2::lemma2_to64();
        lemma_bit_length_bound(abs(c as int), 16);
    }
    while magnitude > 0
        invariant
            bit_length(abs(c as int)) == num_bits + bit_length(magnitude as nat),
            bit_length(abs(c as int)) <= 16,
        decreases magnitude,
    {
        magnitude = magnitude / 2;
        num_bits = num_bits + 1;
    }
    proof {
        lemma_u32_pow2_no_overflow(num_bits as nat);
        lemma_u32_shl_is_mul(1, num_bits as u32);
        lemma_pow2_pos(num_bits as nat);
    }
    let p: u32 = 1u32 << num_bits;
    let val: u32 = if c < 0 {
        let shifted: u32 = (c as i64 - 1 + 65536) as u32;
        proof {
            lemma_pow2_adds(num_bits as nat, (16 - num_bits) as nat);
            vstd::arithmetic::div_mod::lemma_mod_multiples_vanish(
                pow2((16 - num_bits) as nat) as int,
                c as int - 1,
                p as int,
            );
            assert(shifted as int == p * pow2((16 - num_bits) as nat) + (c as int - 1));
        }
        shifted % p
    } else {
        (c as u32) % p
    };
    (num_bits, val as u16)
}

impl<'a> BitWriter<'a> {
    /// Writes the Huffman code of `val`; refuses a symbol without a code of
    /// at most 16 bits.
    pub(crate) fn huffman_encode(&mut self, val: u8, table: &[(u8, u16)]) -> (r: Result<
        (),
        EncodeError,
    >)
        requires
            old(self).wf(),
            table@.len() == 256,
        ensures
            final(self).wf(),
            match huff_code(table@, val) {
                Some(b) => r is Ok && emits(
                    old(self).out(),
                    old(self).pending(),
                    final(self).out(),
                    final(self).pending(),
                    b,
                ),
                None => r is Err && final(self).out() == old(self).out() && final(self).pending()
                    == old(self).pending(),
            },
    {
        let (size, code) = table[val as usize];
        if size > 16 {
            return Err(EncodeError::BadHuffmanValue);
        }
        self.write_bits(code, size);
        Ok(())
    }

    /// Writes `run / 16` zero-run codes; returns the run left over.
    fn write_zero_runs(&mut self, run: u8, actable: &[(u8, u16)]) -> (r: Result<u8, EncodeError>)
        requires
            old(self).wf(),
            actable@.len() == 256,
        ensures
            final(self).wf(),
            match zrl_code(actable@, run as nat / 16) {
                Some(b) => r == Ok::<u8, EncodeError>(run % 16) && emits(
                    old(self).out(),
                    old(self).pending(),
                    final(self).out(),
                    final(self).pending(),
                    b,
                ),
                None => r is Err,
            },
    {
        let ghost o0 = self.out();
        let ghost p0 = self.pending();
        let ghost done: Seq<bool> = Seq::empty();
        proof {
            self.lemma_pending_short();
            lemma_emits_empty(o0, p0);
            assert(Some(done) == cat(Some(done), Some(Seq::<bool>::empty())));
        }
        let mut zero_run = run;
        while zero_run > 15
            invariant
                self.wf(),
                zero_run <= run,
                zero_run % 16 == run % 16,
                actable@.len() == 256,
                zrl_code(actable@, run as nat / 16) == cat(
                    Some(done),
                    zrl_code(actable@, zero_run as nat / 16),
                ),
                emits(o0, p0, self.out(), self.pending(), done),
            decreases zero_run,
        {
            let ghost o2 = self.out();
            let ghost p2 = self.pending();
            proof {
                assert(zrl_code(actable@, zero_run as nat / 16) == cat(
                    huff_code(actable@, 0xF0),
                    zrl_code(actable@, (zero_run as nat / 16 - 1) as nat),
                ));
                lemma_cat_assoc(
                    Some(done),
                    huff_code(actable@, 0xF0),
                    zrl_code(actable@, (zero_run as nat / 16 - 1) as nat),
                );
            }
            match self.huffman_encode(0xF0, actable) {
                Ok(()) => {},
                Err(e) => {
                    return Err(e);
                },
            }
            proof {
                let z = huff_code(actable@, 0xF0).unwrap();
                lemma_emits_trans(o0, p0, o2, p2, self.out(), self.pending(), done, z);
                done = done + z;
                assert((zero_run - 16) as nat / 16 == (zero_run as nat / 16 - 1) as nat);
            }
            zero_run = zero_run - 16;
        }
        proof {
            assert(zrl_code(actable@, 0) == Some(Seq::<bool>::empty()));
            assert(done + Seq::<bool>::empty() =~= done);
        }
        Ok(zero_run)
    }

    /// Writes a nonzero AC coefficient that follows `run` zeros.
    fn write_ac_coefficient(&mut self, run: u8, c: i32, actable: &[(u8, u16)]) -> (r: Result<
        (),
        EncodeError,
    >)
        requires
            old(self).wf(),
            actable@.len() == 256,
            -32768 < c < 32768,
            c != 0,
        ensures
            final(self).wf(),
            match cat(
                cat(
                    zrl_code(actable@, run as nat / 16),
                    huff_code(actable@, ac_symbol(run as nat % 16, c as int)),
                ),
                Some(coef_code(c as int)),
            ) {
                Some(b) => r is Ok && emits(
                    old(self).out(),
                    old(self).pending(),
                    final(self).out(),
                    final(self).pending(),
                    b,
                ),
                None => r is Err,
            },
    {
        let ghost o0 = self.out();
        let ghost p0 = self.pending();
        let zero_run = match self.write_zero_runs(run, actable) {
            Ok(z) => z,
            Err(e) => {
                return Err(e);
            },
        };
        let ghost o1 = self.out();
        let ghost p1 = self.pending();
        let ghost zb = zrl_code(actable@, run as nat / 16).unwrap();
        let (size, value) = encode_coefficient(c);
        proof {
            vstd::arithmetic::power2::lemma2_to64();
            lemma_bit_length_bound(abs(c as int), 15);
            assert((zero_run << 4u8) | size == (zero_run * 16 + size) as u8) by (bit_vector)
                requires
                    zero_run < 16,
                    size < 16,
            ;
        }
        let symbol: u8 = (zero_run << 4u8) | size;
        match self.huffman_encode(symbol, actable) {
            Ok(()) => {},
            Err(e) => {
                return Err(e);
            },
        }
        let ghost o2 = self.out();
        let ghost p2 = self.pending();
        self.write_bits(value, size);
        proof {
            let sb = huff_code(actable@, symbol).unwrap();
            lemma_emits_trans(o0, p0, o1, p1, o2, p2, zb, sb);
            lemma_emits_trans(o0, p0, o2, p2, self.out(), self.pending(), zb + sb, coef_code(c as int));
        }
        Ok(())
    }

    /// Codes one block of quantized coefficients (natural order) against the
    /// previous DC value; returns the block's DC value.
    pub(crate) fn write_block(
        &mut self,
        block: &[i32; 64],
        prevdc: i32,
        dctable: &[(u8, u16)],
        actable: &[(u8, u16)],
    ) -> (r: Result<i32, EncodeError>)
        requires
            old(self).wf(),
            block_in_range(block@),
            -32768 < prevdc < 32768,
            dctable@.len() == 256,
            actable@.len() == 256,
        ensures
            final(self).wf(),
            match block_code(block@, prevdc as int, dctable@, actable@) {
                Some(b) => r == Ok::<i32, EncodeError>(block@[0]) && emits(
                    old(self).out(),
                    old(self).pending(),
                    final(self).out(),
                    final(self).pending(),
                    b,
                ),
                None => r is Err,
            },
    {
        proof {
            reveal(block_code);
        }
        let ghost o0 = self.out();
        let ghost p0 = self.pending();
        let ghost total = block_code(block@, prevdc as int, dctable@, actable@);
        let dcval = block[0];
        let diff = dcval - prevdc;
        let (size, value) = encode_coefficient(diff);
        proof {
            self.lemma_pending_short();
            lemma_emits_empty(o0, p0);
        }
        let ghost dc_sym = huff_code(dctable@, size);
        match self.huffman_encode(size, dctable) {
            Ok(()) => {},
            Err(e) => {
                return Err(e);
            },
        }
        let ghost o1 = self.out();
        let ghost p1 = self.pending();
        self.write_bits(value, size);
        let ghost done: Seq<bool> = dc_sym.unwrap() + coef_code(diff as int);
        proof {
            lemma_emits_trans(
                o0,
                p0,
                o1,
                p1,
                self.out(),
                self.pending(),
                dc_sym.unwrap(),
                coef_code(diff as int),
            );
        }
        let zz = unzigzag();
        let mut zero_run: u8 = 0;
        let mut k: usize = 1;
        while k < 64
            invariant
                self.wf(),
                1 <= k <= 64,
                zero_run < k,
                zero_run <= 62,
                zz@ == unzigzag_order(),
                block_in_range(block@),
                dctable@.len() == 256,
                actable@.len() == 256,
                total == block_code(block@, prevdc as int, dctable@, actable@),
                total == cat(Some(done), ac_code(block@, actable@, k as nat, zero_run as nat)),
                emits(o0, p0, self.out(), self.pending(), done),
            decreases 64 - k,
        {
            let pos = zz[k] as usize;
            proof {
                crate::tables::lemma_unzigzag_range(k as int);
            }
            let c = block[pos];
            let ghost o2 = self.out();
            let ghost p2 = self.pending();
            proof {
                assert(block@[unzigzag_order()[k as int] as int] == c);
            }
            if c == 0 {
                if k == 63 {
                    proof {
                        assert(ac_code(block@, actable@, k as nat, zero_run as nat) == huff_code(
                            actable@,
                            0x00,
                        ));
                    }
                    match self.huffman_encode(0x00, actable) {
                        Ok(()) => {},
                        Err(e) => {
                            proof {
                                assert(huff_code(actable@, 0x00) is None);
                                assert(total is None);
                            }
                            return Err(e);
                        },
                    }
                    proof {
                        let eob = huff_code(actable@, 0x00).unwrap();
                        lemma_emits_trans(o0, p0, o2, p2, self.out(), self.pending(), done, eob);
                        done = done + eob;
                        assert(done + Seq::<bool>::empty() =~= done);
                    }
                } else {
                    proof {
                        assert(ac_code(block@, actable@, k as nat, zero_run as nat) == ac_code(
                            block@,
                            actable@,
                            (k + 1) as nat,
                            (zero_run + 1) as nat,
                        ));
                    }
                    zero_run = zero_run + 1;
                }
            } else {
                proof {
                    assert(-32768 < block@[pos as int] < 32768);
                }
                let ghost head = cat(
                    cat(
                        zrl_code(actable@, zero_run as nat / 16),
                        huff_code(actable@, ac_symbol(zero_run as nat % 16, c as int)),
                    ),
                    Some(coef_code(c as int)),
                );
                proof {
                    assert(ac_code(block@, actable@, k as nat, zero_run as nat) == cat(
                        head,
                        ac_code(block@, actable@, (k + 1) as nat, 0),
                    ));
                    lemma_cat_assoc(Some(done), head, ac_code(block@, actable@, (k + 1) as nat, 0));
                }
                match self.write_ac_coefficient(zero_run, c, actable) {
                    Ok(()) => {},
                    Err(e) => {
                        proof {
                            assert(head is None);
                            assert(total is None);
                        }
                        return Err(e);
                    },
                }
                proof {
                    let hb = head.unwrap();
                    lemma_emits_trans(o0, p0, o2, p2, self.out(), self.pending(), done, hb);
                    done = done + hb;
                }
                zero_run = 0;
            }
            k = k + 1;
        }
        proof {
            assert(done + Seq::<bool>::empty() =~= done);
        }
        Ok(dcval)
    }
}

} // verus!
