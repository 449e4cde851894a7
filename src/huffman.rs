//! Canonical Huffman code tables built from code-length counts and
//! values (ITU-T T.81, Annex C).
use vstd::prelude::*;
use vstd::arithmetic::power2::{pow2, lemma_pow2_pos, lemma_pow2_unfold, lemma_pow2_strictly_increases};
use vstd::bits::{lemma_u64_shl_is_mul, lemma_u64_pow2_no_overflow};

verus! {

/// Canonical code assignment (ITU-T T.81, Annex C): from a state
/// `(len, used, code)`, skip the code lengths whose codes are all given out;
/// each skipped length doubles the next code.
pub open spec fn advance(counts: Seq<u8>, len: nat, used: nat, code: nat) -> (nat, nat, nat)
    decreases 17 - len,
{
    if 1 <= len <= 16 && used >= counts[len - 1] {
        advance(counts, len + 1, 0, code * 2)
    } else {
        (len, used, code)
    }
}

/// The code length, the number of codes of that length already given out,
/// and the code, at which the `k`-th value of a table is coded.
pub open spec fn code_state(counts: Seq<u8>, k: nat) -> (nat, nat, nat)
    decreases k,
{
    if k == 0 {
        advance(counts, 1, 0, 0)
    } else {
        let s = code_state(counts, (k - 1) as nat);
        advance(counts, s.0, s.1 + 1, s.2 + 1)
    }
}

/// The `(length, code)` pair of the `k`-th value; a value without a code of at
/// most 16 bits gets the length 17, which the coder refuses.
pub open spec fn code_entry(counts: Seq<u8>, k: nat) -> (u8, u16) {
    let s = code_state(counts, k);
    if s.0 <= 16 && s.2 < pow2(s.0) {
        (s.0 as u8, s.2 as u16)
    } else {
        (17u8, 0u16)
    }
}

/// The lookup table, by symbol, after the first `k` values have their codes.
pub open spec fn huff_lut(counts: Seq<u8>, values: Seq<u8>, k: nat) -> Seq<(u8, u16)>
    decreases k,
{
    if k == 0 {
        Seq::new(256, |i: int| (17u8, 0u16))
    } else {
        huff_lut(counts, values, (k - 1) as nat).update(
            values[k - 1] as int,
            code_entry(counts, (k - 1) as nat),
        )
    }
}

/// The lookup table of a whole table specification.
pub open spec fn lut_of(counts: Seq<u8>, values: Seq<u8>) -> Seq<(u8, u16)> {
    huff_lut(counts, values, values.len())
}

/// The number of codes that 16 code-length counts declare.
pub open spec fn sum_counts(c: Seq<u8>) -> nat {
    (c[0] + c[1] + c[2] + c[3] + c[4] + c[5] + c[6] + c[7] + c[8] + c[9] + c[10] + c[11] + c[12]
        + c[13] + c[14] + c[15]) as nat
}

proof fn lemma_advance_len(counts: Seq<u8>, len: nat, used: nat, code: nat)
    requires
        1 <= len,
    ensures
        advance(counts, len, used, code).0 >= len,
        advance(counts, len, used, code).0 >= 1,
        advance(counts, len, used, code).0 <= 16 ==> advance(counts, len, used, code).1 < counts[advance(counts, len, used, code).0 - 1],
        len <= 17 ==> advance(counts, len, used, code).0 <= 17,
        advance(counts, len, used, code).0 > len ==> advance(counts, len, used, code).1 == 0,
        advance(counts, len, used, code).0 == len ==> advance(counts, len, used, code).1 == used,
    decreases 17 - len,
{
    if 1 <= len <= 16 && used >= counts[len - 1] {
        lemma_advance_len(counts, len + 1, 0, code * 2);
    }
}

/// Runs the skipping of full code lengths.
fn advance_exec(counts: &[u8], len: u64, used: u64, code: u64) -> (r: (u64, u64, u64))
    requires
        counts@.len() == 16,
        1 <= len <= 17,
        used <= 256,
        code * pow2((17 - len) as nat) <= 257 * pow2(16),
    ensures
        (r.0 as nat, r.1 as nat, r.2 as nat) == advance(counts@, len as nat, used as nat, code as nat),
        r.2 * pow2((17 - r.0) as nat) == code * pow2((17 - len) as nat),
        len <= r.0 <= 17,
        r.1 <= used,
{
    let mut l = len;
    let mut u = used;
    let mut c = code;
    while l <= 16 && u >= counts[(l - 1) as usize] as u64
        invariant
            counts@.len() == 16,
            1 <= l <= 17,
            u <= 256,
            c * pow2((17 - l) as nat) == code * pow2((17 - len) as nat),
            code * pow2((17 - len) as nat) <= 257 * pow2(16),
            len <= l,
            u <= used,
            advance(counts@, l as nat, u as nat, c as nat) == advance(
                counts@,
                len as nat,
                used as nat,
                code as nat,
            ),
        decreases 17 - l,
    {
        proof {
            assert(c * pow2((17 - l) as nat) <= 257 * pow2(16));
            lemma_pow2_unfold((17 - l) as nat);
            lemma_pow2_pos((16 - l) as nat);
            assert(c * pow2((17 - l) as nat) == (c * 2) * pow2((16 - l) as nat)) by (nonlinear_arith)
                requires
                    pow2((17 - l) as nat) == 2 * pow2((16 - l) as nat),
            ;
            assert(c * 2 <= 257 * pow2(16)) by (nonlinear_arith)
                requires
                    (c * 2) * pow2((16 - l) as nat) <= 257 * pow2(16),
                    pow2((16 - l) as nat) >= 1,
            ;
            vstd::arithmetic::power2::lemma2_to64();
        }
        l = l + 1;
        u = 0;
        c = c * 2;
    }
    (l, u, c)
}

/// Builds the lookup table, by symbol, of `(code length, code)` pairs from a
/// table specification: the number of codes of each length 1 to 16, and the
/// values in order of increasing code.
pub(crate) fn build_huff_lut(counts: &[u8], values: &[u8]) -> (r: Vec<(u8, u16)>)
    requires
        counts@.len() == 16,
        values@.len() <= 256,
    ensures
        r@ == lut_of(counts@, values@),
        r@.len() == 256,
{
    let mut lut: Vec<(u8, u16)> = Vec::new();
    while lut.len() < 256
        invariant
            lut@.len() <= 256,
            forall|i: int| 0 <= i < lut@.len() ==> lut@[i] == (17u8, 0u16),
        decreases 256 - lut@.len(),
    {
        lut.push((17u8, 0u16));
    }
    proof {
        assert(lut@ =~= huff_lut(counts@, values@, 0));
        vstd::arithmetic::power2::lemma2_to64();
    }
    let mut state = advance_exec(counts, 1, 0, 0);
    let mut k: usize = 0;
    while k < values.len()
        invariant
            counts@.len() == 16,
            values@.len() <= 256,
            k <= values@.len(),
            lut@ == huff_lut(counts@, values@, k as nat),
            (state.0 as nat, state.1 as nat, state.2 as nat) == code_state(counts@, k as nat),
            1 <= state.0 <= 17,
            state.1 <= k,
            state.2 * pow2((17 - state.0) as nat) <= k * pow2(16),
        decreases values@.len() - k,
    {
        let (len, used, code) = state;
        let entry: (u8, u16);
        if len <= 16 {
            proof {
                lemma_u64_pow2_no_overflow(len as nat);
                lemma_u64_shl_is_mul(1, len);
                lemma_pow2_mono(len as nat, 16);
                lemma2_16();
            }
            if code < (1u64 << len) {
                entry = (len as u8, code as u16);
            } else {
                entry = (17u8, 0u16);
            }
        } else {
            entry = (17u8, 0u16);
        }
        proof {
            assert(entry == code_entry(counts@, k as nat));
        }
        proof {
            lemma_huff_lut_len(counts@, values@, k as nat);
        }
        lut.set(values[k] as usize, entry);
        proof {
            lemma_pow2_pos((17 - len) as nat);
            lemma_pow2_mono((17 - len) as nat, 16);
            vstd::arithmetic::power2::lemma2_to64();
            assert((code + 1) * pow2((17 - len) as nat) <= (k + 1) * pow2(16)) by (nonlinear_arith)
                requires
                    code * pow2((17 - len) as nat) <= k * pow2(16),
                    pow2((17 - len) as nat) <= pow2(16),
            ;
            assert(code <= k * pow2(16)) by (nonlinear_arith)
                requires
                    code * pow2((17 - len) as nat) <= k * pow2(16),
                    pow2((17 - len) as nat) >= 1,
            ;
        }
        state = advance_exec(counts, len, used + 1, code + 1);
        k = k + 1;
    }
    proof {
        lemma_huff_lut_len(counts@, values@, values@.len());
    }
    lut
}

proof fn lemma_pow2_mono(a: nat, b: nat)
    requires
        a <= b,
    ensures
        pow2(a) <= pow2(b),
{
    if a < b {
        lemma_pow2_strictly_increases(a, b);
    }
}

proof fn lemma_huff_lut_len(counts: Seq<u8>, values: Seq<u8>, k: nat)
    requires
        k <= values.len(),
    ensures
        huff_lut(counts, values, k).len() == 256,
    decreases k,
{
    if k > 0 {
        lemma_huff_lut_len(counts, values, (k - 1) as nat);
    }
}

proof fn lemma2_16()
    ensures
        pow2(16) == 65536,
        pow2(17) == 131072,
{
    vstd::arithmetic::power2::lemma2_to64();
}

} // verus!
