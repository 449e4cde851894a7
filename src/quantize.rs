//! Quantization: tables scaled for a quality, and the quantizer.
use vstd::prelude::*;
use crate::tables::{std_luma_qtable, std_chroma_qtable, luma_qtable, chroma_qtable};

verus! {

/// Cuts `a` to the range `[min, max]`.
pub open spec fn clamp_spec(a: int, min: int, max: int) -> int {
    if a < min {
        min
    } else if a > max {
        max
    } else {
        a
    }
}

/// The table scaling factor, in percent, of a quality (clamped to 1..=100).
pub open spec fn quality_scale(quality: u8) -> int {
    let q = clamp_spec(quality as int, 1, 100);
    if q < 50 {
        5000int / q
    } else {
        200int - 2 * q
    }
}

/// One standard table entry scaled for a quality, rounded and clamped to 1..=255.
pub open spec fn scaled_entry(entry: u8, quality: u8) -> u8 {
    clamp_spec((entry as int * quality_scale(quality) + 50) / 100, 1, 255) as u8
}

/// The two quantization tables of a quality: luma then chroma, 64 entries
/// each in natural order.
pub open spec fn quant_tables(quality: u8) -> Seq<u8> {
    std_luma_qtable().map_values(|e: u8| scaled_entry(e, quality)) + std_chroma_qtable().map_values(
        |e: u8| scaled_entry(e, quality),
    )
}

/// Division truncating toward zero, as integer division in Rust does.
pub open spec fn trunc_div(x: int, d: int) -> int {
    if x >= 0 {
        x / d
    } else {
        -((-x) / d)
    }
}

/// `v / t` rounded to the nearest integer, halves away from zero.
pub open spec fn round_div(v: int, t: int) -> int {
    if v >= 0 {
        (2 * v + t) / (2 * t)
    } else {
        -((2 * (-v) + t) / (2 * t))
    }
}

/// A transformed coefficient (scaled by 8) quantized by a table entry.
#[verifier::opaque]
pub open spec fn quantize_spec(raw: int, q: u8) -> int {
    round_div(trunc_div(raw, 8), q as int)
}

/// Cut value to be inside given range.
pub fn clamp(a: u32, min: u32, max: u32) -> (r: u32)
    ensures
        r as int == clamp_spec(a as int, min as int, max as int),
{
    if a < min {
        min
    } else if a > max {
        max
    } else {
        a
    }
}

/// The quantization tables of a quality: luma then chroma.
pub fn build_quant_tables(quality: u8) -> (r: Vec<u8>)
    ensures
        r@ == quant_tables(quality),
        r@.len() == 128,
        forall|i: int| 0 <= i < 128 ==> 1 <= #[trigger] r@[i],
{
    let q = clamp(quality as u32, 1, 100);
    let scale: u32 = if q < 50 {
        5000 / q
    } else {
        200 - q * 2
    };
    let luma = luma_qtable();
    let chroma = chroma_qtable();
    let mut tables: Vec<u8> = Vec::new();
    let mut i: usize = 0;
    while i < 128
        invariant
            i <= 128,
            scale as int == quality_scale(quality),
            scale <= 5000,
            luma@ == std_luma_qtable(),
            chroma@ == std_chroma_qtable(),
            tables@.len() == i,
            forall|j: int| 0 <= j < i ==> #[trigger] tables@[j] == quant_tables(quality)[j],
            forall|j: int| 0 <= j < i ==> 1 <= #[trigger] tables@[j],
        decreases 128 - i,
    {
        let e: u8 = if i < 64 {
            luma[i]
        } else {
            chroma[i - 64]
        };
        proof {
            assert(e as int * scale <= 255 * 5000) by (nonlinear_arith)
                requires
                    scale <= 5000,
            ;
        }
        let value = (e as u32 * scale + 50) / 100;
        let v = clamp(value, 1, 255) as u8;
        tables.push(v);
        i += 1;
    }
    proof {
        assert(tables@ =~= quant_tables(quality));
    }
    tables
}

/// Quantizes a transformed coefficient (scaled by 8) by a table entry:
/// `round((raw / 8) / q)`, halves away from zero.
pub fn quantize(raw: i32, q: u8) -> (r: i32)
    requires
        -8192 <= raw <= 8192,
        q >= 1,
    ensures
        r as int == quantize_spec(raw as int, q),
        -1024 <= r <= 1024,
{
    proof {
        reveal(quantize_spec);
    }
    let t = q as i32;
    let v: i32 = if raw >= 0 {
        raw / 8
    } else {
        -((-raw) / 8)
    };
    let r: i32 = if v >= 0 {
        (2 * v + t) / (2 * t)
    } else {
        -((2 * (-v) + t) / (2 * t))
    };
    proof {
        assert(-1024 <= v <= 1024);
        assert(r <= 1024 && r >= -1024) by (nonlinear_arith)
            requires
                -1024 <= v <= 1024,
                t >= 1,
                v >= 0 ==> r == (2 * v + t) / (2 * t),
                v < 0 ==> r == -((2 * (-v) + t) / (2 * t)),
        ;
    }
    r
}

} // verus!

verus! {

proof fn lemma_quality_scale_monotone(q1: u8, q2: u8)
    requires
        q1 <= q2,
    ensures
        quality_scale(q2) <= quality_scale(q1),
        0 <= quality_scale(q2),
{
    let a = clamp_spec(q1 as int, 1, 100);
    let b = clamp_spec(q2 as int, 1, 100);
    assert(1 <= a <= b <= 100);
    if b < 50 {
        vstd::arithmetic::div_mod::lemma_div_is_ordered_by_denominator(5000, a, b);
    } else if a < 50 {
        vstd::arithmetic::div_mod::lemma_div_is_ordered_by_denominator(5000, a, 50);
    }
}

/// Raising the quality never raises an entry of the scaled quantization
/// tables: for qualities `q1 <= q2`, each entry at `q2` is at most its value at `q1`.
pub proof fn lemma_quant_tables_monotone(q1: u8, q2: u8, i: int)
    requires
        q1 <= q2,
        0 <= i < 128,
    ensures
        quant_tables(q2)[i] <= quant_tables(q1)[i],
{
    let l = std_luma_qtable();
    let c = std_chroma_qtable();
    let e = if i < 64 {
        l[i]
    } else {
        c[i - 64]
    };
    assert(l.len() == 64 && c.len() == 64);
    assert(quant_tables(q1)[i] == scaled_entry(e, q1));
    assert(quant_tables(q2)[i] == scaled_entry(e, q2));
    lemma_scaled_entry_monotone(e, q1, q2);
}

/// Scaling one entry is monotone in the quality.
pub proof fn lemma_scaled_entry_monotone(e: u8, q1: u8, q2: u8)
    requires
        q1 <= q2,
    ensures
        scaled_entry(e, q2) <= scaled_entry(e, q1),
{
    lemma_quality_scale_monotone(q1, q2);
    let s1 = quality_scale(q1);
    let s2 = quality_scale(q2);
    vstd::arithmetic::mul::lemma_mul_inequality(s2, s1, e as int);
    assert(e as int * s2 <= e as int * s1) by (nonlinear_arith)
        requires
            s2 <= s1,
            e >= 0,
    ;
    vstd::arithmetic::div_mod::lemma_div_is_ordered(e as int * s2 + 50, e as int * s1 + 50, 100);
}

/// Tables are a function of the quality alone: two encoders made with the
/// same quality hold byte-identical tables.
pub proof fn lemma_quant_tables_deterministic(q1: u8, q2: u8, t1: Seq<u8>, t2: Seq<u8>)
    requires
        q1 == q2,
        t1 == quant_tables(q1),
        t2 == quant_tables(q2),
    ensures
        t1 == t2,
{
}

} // verus!
