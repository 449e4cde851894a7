//! The forward DCT of 8x8 blocks in integer arithmetic: the separable
//! Loeffler-Ligtenberg-Moschytz factoring, with constants of 13 fraction
//! bits; the first (row) pass keeps 2 extra bits, the second (column) pass
//! leaves coefficients scaled by 8.
use vstd::prelude::*;

verus! {

/// Floor division by a power of two, as an arithmetic right shift.
pub open spec fn descale(x: int, d: int) -> int {
    x / d
}

/// Rotation of the even part: outputs 2 and 6 before descaling.
pub open spec fn even_rot(t12: int, t13: int, fudge: int) -> (int, int) {
    let z1 = (t12 + t13) * 4433 + fudge;
    (z1 + t12 * 6270, z1 - t13 * 15137)
}

/// The odd part: outputs 1, 3, 5 and 7 before descaling, from the four differences.
pub open spec fn odd_part(d0: int, d1: int, d2: int, d3: int, fudge: int) -> (int, int, int, int) {
    let t12 = d0 + d2;
    let t13 = d1 + d3;
    let z1 = (t12 + t13) * 9633 + fudge;
    let u12 = t12 * (-3196) + z1;
    let u13 = t13 * (-16069) + z1;
    let za = (d0 + d3) * (-7373);
    let zb = (d1 + d2) * (-20995);
    (d0 * 12299 + za + u12, d1 * 25172 + zb + u13, d2 * 16819 + zb + u12, d3 * 2446 + za + u13)
}

/// First pass on one row of samples: level shift, results scaled by 4 more
/// than the second pass leaves.
pub open spec fn dct_row(v: Seq<int>) -> Seq<int> {
    let t0 = v[0] + v[7];
    let t1 = v[1] + v[6];
    let t2 = v[2] + v[5];
    let t3 = v[3] + v[4];
    let t10 = t0 + t3;
    let t12 = t0 - t3;
    let t11 = t1 + t2;
    let t13 = t1 - t2;
    let e = even_rot(t12, t13, 1024);
    let o = odd_part(v[0] - v[7], v[1] - v[6], v[2] - v[5], v[3] - v[4], 1024);
    seq![
        (t10 + t11 - 1024) * 4,
        descale(o.0, 2048),
        descale(e.0, 2048),
        descale(o.1, 2048),
        (t10 - t11) * 4,
        descale(o.2, 2048),
        descale(e.1, 2048),
        descale(o.3, 2048),
    ]
}

/// Second pass on one column of first-pass results.
pub open spec fn dct_col(v: Seq<int>) -> Seq<int> {
    let t0 = v[0] + v[7];
    let t1 = v[1] + v[6];
    let t2 = v[2] + v[5];
    let t3 = v[3] + v[4];
    let t10 = t0 + t3 + 2;
    let t12 = t0 - t3;
    let t11 = t1 + t2;
    let t13 = t1 - t2;
    let e = even_rot(t12, t13, 16384);
    let o = odd_part(v[0] - v[7], v[1] - v[6], v[2] - v[5], v[3] - v[4], 16384);
    seq![
        descale(t10 + t11, 4),
        descale(o.0, 32768),
        descale(e.0, 32768),
        descale(o.1, 32768),
        descale(t10 - t11, 4),
        descale(o.2, 32768),
        descale(e.1, 32768),
        descale(o.3, 32768),
    ]
}

pub open spec fn row_pass(s: Seq<int>) -> Seq<int> {
    Seq::new(64, |i: int| dct_row(s.subrange(i / 8 * 8, i / 8 * 8 + 8))[i % 8])
}

pub open spec fn col_pass(r: Seq<int>) -> Seq<int> {
    Seq::new(64, |i: int| dct_col(Seq::new(8, |y: int| r[y * 8 + i % 8]))[i / 8])
}

/// The second pass written column by column.
pub open spec fn col_major(r: Seq<int>) -> Seq<int> {
    Seq::new(64, |j: int| dct_col(Seq::new(8, |k: int| r[k * 8 + j / 8]))[j % 8])
}

/// The forward DCT of an 8x8 block of samples (row-major), level-shifted by
/// 128, with coefficients scaled by 8.
#[verifier::opaque]
pub open spec fn fdct_spec(s: Seq<u8>) -> Seq<int> {
    col_pass(row_pass(Seq::new(64, |i: int| s[i] as int)))
}

proof fn lemma_odd_bound(d0: int, d1: int, d2: int, d3: int, m: int, fudge: int)
    requires
        -m <= d0 <= m,
        -m <= d1 <= m,
        -m <= d2 <= m,
        -m <= d3 <= m,
    ensures
        ({
            let o = odd_part(d0, d1, d2, d3, fudge);
            &&& -29693 * m + fudge <= o.0 <= 29693 * m + fudge
            &&& -29693 * m + fudge <= o.1 <= 29693 * m + fudge
            &&& -29693 * m + fudge <= o.2 <= 29693 * m + fudge
            &&& -29693 * m + fudge <= o.3 <= 29693 * m + fudge
        }),
{
    let o = odd_part(d0, d1, d2, d3, fudge);
    assert(o.0 == 11363 * d0 + 9633 * d1 + 6437 * d2 + 2260 * d3 + fudge);
    assert(o.1 == 9633 * d0 - 2259 * d1 - 11362 * d2 - 6436 * d3 + fudge);
    assert(o.2 == 6437 * d0 - 11362 * d1 + 2261 * d2 + 9633 * d3 + fudge);
    assert(o.3 == 2260 * d0 - 6436 * d1 + 9633 * d2 - 11363 * d3 + fudge);
}

proof fn lemma_even_bound(t12: int, t13: int, m: int, fudge: int)
    requires
        -m <= t12 <= m,
        -m <= t13 <= m,
    ensures
        ({
            let e = even_rot(t12, t13, fudge);
            &&& -15137 * m + fudge <= e.0 <= 15137 * m + fudge
            &&& -15137 * m + fudge <= e.1 <= 15137 * m + fudge
        }),
{
    let e = even_rot(t12, t13, fudge);
    assert(e.0 == 10703 * t12 + 4433 * t13 + fudge);
    assert(e.1 == 4433 * t12 - 10704 * t13 + fudge);
}

fn floor_div(x: i64, d: i64) -> (r: i64)
    requires
        d == 4 || d == 2048 || d == 32768,
        -0x100_0000_0000 < x < 0x100_0000_0000,
    ensures
        r == x / d,
{
    let k: i64 = 0x100_0000_0000;
    proof {
        let xi = x as int;
        let di = d as int;
        let ki = k as int;
        assert(ki % di == 0);
        vstd::arithmetic::div_mod::lemma_fundamental_div_mod(xi, di);
        vstd::arithmetic::div_mod::lemma_fundamental_div_mod(ki, di);
        vstd::arithmetic::div_mod::lemma_fundamental_div_mod_converse(
            xi + ki,
            di,
            xi / di + ki / di,
            xi % di,
        );
    }
    (x + k) / d - k / d
}

fn odd_exec(d0: i64, d1: i64, d2: i64, d3: i64, m: i64, fudge: i64) -> (r: (i64, i64, i64, i64))
    requires
        0 <= m <= 0x10000,
        0 <= fudge <= 0x10000,
        -m <= d0 <= m,
        -m <= d1 <= m,
        -m <= d2 <= m,
        -m <= d3 <= m,
    ensures
        (r.0 as int, r.1 as int, r.2 as int, r.3 as int) == odd_part(
            d0 as int,
            d1 as int,
            d2 as int,
            d3 as int,
            fudge as int,
        ),
{
    let u = d0 + d2;
    let w = d1 + d3;
    let z = (u + w) * 9633 + fudge;
    let u12 = z - u * 3196;
    let u13 = z - w * 16069;
    let za = 0 - (d0 + d3) * 7373;
    let zb = 0 - (d1 + d2) * 20995;
    (d0 * 12299 + za + u12, d1 * 25172 + zb + u13, d2 * 16819 + zb + u12, d3 * 2446 + za + u13)
}

fn even_exec(t12: i64, t13: i64, m: i64, fudge: i64) -> (r: (i64, i64))
    requires
        0 <= m <= 0x10000,
        0 <= fudge <= 0x10000,
        -m <= t12 <= m,
        -m <= t13 <= m,
    ensures
        (r.0 as int, r.1 as int) == even_rot(t12 as int, t13 as int, fudge as int),
{
    let z1 = (t12 + t13) * 4433 + fudge;
    (z1 + t12 * 6270, z1 - t13 * 15137)
}

fn dct_row_exec(v: [i64; 8]) -> (r: [i64; 8])
    requires
        forall|i: int| 0 <= i < 8 ==> 0 <= #[trigger] v@[i] <= 255,
    ensures
        forall|i: int| 0 <= i < 8 ==> #[trigger] r@[i] as int == dct_row(v@.map_values(|x: i64| x as int))[i],
        forall|i: int| 0 <= i < 8 ==> -4096 <= #[trigger] r@[i] <= 4096,
{
    let ghost vi = v@.map_values(|x: i64| x as int);
    let a0 = v[0];
    let a1 = v[1];
    let a2 = v[2];
    let a3 = v[3];
    let a4 = v[4];
    let a5 = v[5];
    let a6 = v[6];
    let a7 = v[7];
    proof {
        assert(vi[0] == a0 && vi[1] == a1 && vi[2] == a2 && vi[3] == a3);
        assert(vi[4] == a4 && vi[5] == a5 && vi[6] == a6 && vi[7] == a7);
        assert(0 <= v@[0] <= 255 && 0 <= v@[1] <= 255 && 0 <= v@[2] <= 255 && 0 <= v@[3] <= 255);
        assert(0 <= v@[4] <= 255 && 0 <= v@[5] <= 255 && 0 <= v@[6] <= 255 && 0 <= v@[7] <= 255);
    }
    let t0 = a0 + a7;
    let t1 = a1 + a6;
    let t2 = a2 + a5;
    let t3 = a3 + a4;
    let t10 = t0 + t3;
    let t12 = t0 - t3;
    let t11 = t1 + t2;
    let t13 = t1 - t2;
    let (e0, e1) = even_exec(t12, t13, 510, 1024);
    let (o0, o1, o2, o3) = odd_exec(a0 - a7, a1 - a6, a2 - a5, a3 - a4, 255, 1024);
    proof {
        lemma_odd_bound((a0 - a7) as int, (a1 - a6) as int, (a2 - a5) as int, (a3 - a4) as int, 255, 1024);
        lemma_even_bound(t12 as int, t13 as int, 510, 1024);
    }
    let r = [
        (t10 + t11 - 1024) * 4,
        floor_div(o0, 2048),
        floor_div(e0, 2048),
        floor_div(o1, 2048),
        (t10 - t11) * 4,
        floor_div(o2, 2048),
        floor_div(e1, 2048),
        floor_div(o3, 2048),
    ];
    proof {
        let s = dct_row(vi);
        assert(r@[0] == s[0] && r@[1] == s[1] && r@[2] == s[2] && r@[3] == s[3]);
        assert(r@[4] == s[4] && r@[5] == s[5] && r@[6] == s[6] && r@[7] == s[7]);
    }
    r
}

fn dct_col_exec(v: [i64; 8]) -> (r: [i64; 8])
    requires
        forall|i: int| 0 <= i < 8 ==> -4096 <= #[trigger] v@[i] <= 4096,
    ensures
        forall|i: int| 0 <= i < 8 ==> #[trigger] r@[i] as int == dct_col(v@.map_values(|x: i64| x as int))[i],
        forall|i: int| 0 <= i < 8 ==> -8192 <= #[trigger] r@[i] <= 8192,
{
    let ghost vi = v@.map_values(|x: i64| x as int);
    let a0 = v[0];
    let a1 = v[1];
    let a2 = v[2];
    let a3 = v[3];
    let a4 = v[4];
    let a5 = v[5];
    let a6 = v[6];
    let a7 = v[7];
    proof {
        assert(vi[0] == a0 && vi[1] == a1 && vi[2] == a2 && vi[3] == a3);
        assert(vi[4] == a4 && vi[5] == a5 && vi[6] == a6 && vi[7] == a7);
        assert(-4096 <= v@[0] <= 4096 && -4096 <= v@[1] <= 4096 && -4096 <= v@[2] <= 4096);
        assert(-4096 <= v@[3] <= 4096 && -4096 <= v@[4] <= 4096 && -4096 <= v@[5] <= 4096);
        assert(-4096 <= v@[6] <= 4096 && -4096 <= v@[7] <= 4096);
    }
    let t0 = a0 + a7;
    let t1 = a1 + a6;
    let t2 = a2 + a5;
    let t3 = a3 + a4;
    let t10 = t0 + t3 + 2;
    let t12 = t0 - t3;
    let t11 = t1 + t2;
    let t13 = t1 - t2;
    let (e0, e1) = even_exec(t12, t13, 16384, 16384);
    let (o0, o1, o2, o3) = odd_exec(a0 - a7, a1 - a6, a2 - a5, a3 - a4, 8192, 16384);
    proof {
        lemma_odd_bound((a0 - a7) as int, (a1 - a6) as int, (a2 - a5) as int, (a3 - a4) as int, 8192, 16384);
        lemma_even_bound(t12 as int, t13 as int, 16384, 16384);
    }
    let q0 = floor_div(t10 + t11, 4);
    let q1 = floor_div(o0, 32768);
    let q2 = floor_div(e0, 32768);
    let q3 = floor_div(o1, 32768);
    let q4 = floor_div(t10 - t11, 4);
    let q5 = floor_div(o2, 32768);
    let q6 = floor_div(e1, 32768);
    let q7 = floor_div(o3, 32768);
    proof {
        assert(-8192 <= q0 <= 8192 && -8192 <= q4 <= 8192);
        assert(-8192 <= q1 <= 8192 && -8192 <= q3 <= 8192);
        assert(-8192 <= q5 <= 8192 && -8192 <= q7 <= 8192);
        assert(-8192 <= q2 <= 8192 && -8192 <= q6 <= 8192);
    }
    let r = [q0, q1, q2, q3, q4, q5, q6, q7];
    proof {
        let s = dct_col(vi);
        assert(r@[0] == s[0] && r@[1] == s[1] && r@[2] == s[2] && r@[3] == s[3]);
        assert(r@[4] == s[4] && r@[5] == s[5] && r@[6] == s[6] && r@[7] == s[7]);
    }
    r
}

fn column(tmp: &[i64; 64], x: usize) -> (r: [i64; 8])
    requires
        x < 8,
        forall|i: int| 0 <= i < 64 ==> -4096 <= #[trigger] tmp@[i] <= 4096,
    ensures
        forall|k: int| 0 <= k < 8 ==> #[trigger] r@[k] == tmp@[k * 8 + x],
        forall|k: int| 0 <= k < 8 ==> -4096 <= #[trigger] r@[k] <= 4096,
{
    let r = [
        tmp[x],
        tmp[x + 8],
        tmp[x + 16],
        tmp[x + 24],
        tmp[x + 32],
        tmp[x + 40],
        tmp[x + 48],
        tmp[x + 56],
    ];
    proof {
        assert(r@[0] == tmp@[x as int] && r@[1] == tmp@[x + 8] && r@[2] == tmp@[x + 16]);
        assert(r@[3] == tmp@[x + 24] && r@[4] == tmp@[x + 32] && r@[5] == tmp@[x + 40]);
        assert(r@[6] == tmp@[x + 48] && r@[7] == tmp@[x + 56]);
        assert(-4096 <= tmp@[x as int] <= 4096 && -4096 <= tmp@[x + 8] <= 4096);
        assert(-4096 <= tmp@[x + 16] <= 4096 && -4096 <= tmp@[x + 24] <= 4096);
        assert(-4096 <= tmp@[x + 32] <= 4096 && -4096 <= tmp@[x + 40] <= 4096);
        assert(-4096 <= tmp@[x + 48] <= 4096 && -4096 <= tmp@[x + 56] <= 4096);
    }
    r
}

/// The forward DCT of an 8x8 block of samples: level shift by 128, then
/// the separable integer transform; coefficients come out scaled by 8.
pub fn fdct(samples: &[u8; 64]) -> (r: [i32; 64])
    ensures
        forall|i: int| 0 <= i < 64 ==> #[trigger] r@[i] as int == fdct_spec(samples@)[i],
        forall|i: int| 0 <= i < 64 ==> -8192 <= #[trigger] r@[i] <= 8192,
{
    proof {
        reveal(fdct_spec);
    }
    let ghost s = Seq::new(64, |i: int| samples@[i] as int);
    let ghost rows = row_pass(s);
    let mut tmp: [i64; 64] = [0i64; 64];
    let mut y: usize = 0;
    while y < 8
        invariant
            y <= 8,
            s == Seq::new(64, |i: int| samples@[i] as int),
            rows == row_pass(s),
            forall|i: int| 0 <= i < y * 8 ==> #[trigger] tmp@[i] as int == rows[i],
            forall|i: int| 0 <= i < y * 8 ==> -4096 <= #[trigger] tmp@[i] <= 4096,
        decreases 8 - y,
    {
        let b = y * 8;
        let row: [i64; 8] = [
            samples[b] as i64,
            samples[b + 1] as i64,
            samples[b + 2] as i64,
            samples[b + 3] as i64,
            samples[b + 4] as i64,
            samples[b + 5] as i64,
            samples[b + 6] as i64,
            samples[b + 7] as i64,
        ];
        proof {
            assert(row@.map_values(|x: i64| x as int) =~= s.subrange(b as int, b + 8));
        }
        let out = dct_row_exec(row);
        let mut x: usize = 0;
        while x < 8
            invariant
                y < 8,
                b == y * 8,
                x <= 8,
                rows == row_pass(s),
                row@.map_values(|x: i64| x as int) == s.subrange(b as int, b + 8),
                forall|i: int| 0 <= i < 8 ==> #[trigger] out@[i] as int == dct_row(row@.map_values(|x: i64| x as int))[i],
                forall|i: int| 0 <= i < 8 ==> -4096 <= #[trigger] out@[i] <= 4096,
                forall|i: int| 0 <= i < b + x ==> #[trigger] tmp@[i] as int == rows[i],
                forall|i: int| 0 <= i < b + x ==> -4096 <= #[trigger] tmp@[i] <= 4096,
            decreases 8 - x,
        {
            tmp[b + x] = out[x];
            proof {
                let i = (b + x) as int;
                assert(i / 8 * 8 == b as int);
                assert(i % 8 == x as int);
                assert(rows[i] == dct_row(s.subrange(b as int, b + 8))[x as int]);
            }
            x += 1;
        }
        y += 1;
    }
    let mut cm: Vec<i64> = Vec::new();
    let mut x: usize = 0;
    while x < 8
        invariant
            x <= 8,
            rows == row_pass(s),
            forall|i: int| 0 <= i < 64 ==> #[trigger] tmp@[i] as int == rows[i],
            forall|i: int| 0 <= i < 64 ==> -4096 <= #[trigger] tmp@[i] <= 4096,
            cm@.len() == x * 8,
            forall|j: int| 0 <= j < cm@.len() ==> #[trigger] cm@[j] as int == col_major(rows)[j],
            forall|j: int| 0 <= j < cm@.len() ==> -8192 <= #[trigger] cm@[j] <= 8192,
        decreases 8 - x,
    {
        let col = column(&tmp, x);
        let ghost colv = Seq::new(8, |k: int| rows[k * 8 + x]);
        proof {
            let cv = col@.map_values(|v: i64| v as int);
            assert forall|k: int| 0 <= k < 8 implies #[trigger] cv[k] == colv[k] by {
                assert(col@[k] == tmp@[k * 8 + x]);
            };
            assert(cv =~= colv);
        }
        let out = dct_col_exec(col);
        let mut yy: usize = 0;
        while yy < 8
            invariant
                x < 8,
                yy <= 8,
                colv == Seq::new(8, |k: int| rows[k * 8 + x]),
                col@.map_values(|v: i64| v as int) == colv,
                forall|i: int| 0 <= i < 8 ==> #[trigger] out@[i] as int == dct_col(colv)[i],
                forall|i: int| 0 <= i < 8 ==> -8192 <= #[trigger] out@[i] <= 8192,
                cm@.len() == x * 8 + yy,
                forall|j: int| 0 <= j < cm@.len() ==> #[trigger] cm@[j] as int == col_major(rows)[j],
                forall|j: int| 0 <= j < cm@.len() ==> -8192 <= #[trigger] cm@[j] <= 8192,
            decreases 8 - yy,
        {
            proof {
                let j = (x * 8 + yy) as int;
                assert(j / 8 == x as int);
                assert(j % 8 == yy as int);
                assert(col_major(rows)[j] == dct_col(colv)[yy as int]);
            }
            cm.push(out[yy]);
            yy += 1;
        }
        x += 1;
    }
    let mut res: [i32; 64] = [0i32; 64];
    let mut i: usize = 0;
    while i < 64
        invariant
            i <= 64,
            cm@.len() == 64,
            forall|j: int| 0 <= j < 64 ==> #[trigger] cm@[j] as int == col_major(rows)[j],
            forall|j: int| 0 <= j < 64 ==> -8192 <= #[trigger] cm@[j] <= 8192,
            forall|j: int| 0 <= j < i ==> #[trigger] res@[j] as int == col_pass(rows)[j],
            forall|j: int| 0 <= j < i ==> -8192 <= #[trigger] res@[j] <= 8192,
        decreases 64 - i,
    {
        let t = (i % 8) * 8 + i / 8;
        proof {
            assert(t / 8 == i % 8);
            assert(t % 8 == i / 8);
            assert(col_major(rows)[t as int] == col_pass(rows)[i as int]);
        }
        res[i] = cm[t] as i32;
        i += 1;
    }
    res
}

} // verus!
