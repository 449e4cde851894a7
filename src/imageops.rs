//! Whole-image operations: joining left and right frames, histogram
//! equalization and downscaling.
use vstd::prelude::*;

verus! {

/// The first `y` rows of two images `w` bytes wide placed side by side:
/// each row of `left` followed by the same row of `right`.
pub open spec fn side_by_side(left: Seq<u8>, right: Seq<u8>, w: nat, y: nat) -> Seq<u8>
    decreases y,
{
    if y == 0 {
        Seq::empty()
    } else {
        let r = (y - 1) as nat;
        let a = (r * w) as int;
        side_by_side(left, right, w, r) + left.subrange(a, a + w) + right.subrange(a, a + w)
    }
}

/// Joins two images of `w` x `h` pixels (3 bytes each where `is_color`,
/// else 1) into one `2w` wide: left, then right.
pub fn concat_images(left: &[u8], right: &[u8], w: usize, h: usize, is_color: bool) -> (r: Vec<u8>)
    requires
        is_color ==> 3 * w <= usize::MAX,
        left@.len() == (if is_color { 3 * w } else { w as int }) * h,
        right@.len() == left@.len(),
    ensures
        r@ == side_by_side(left@, right@, (if is_color { 3 * w } else { w as int }) as nat, h as nat),
        r@.len() == 2 * left@.len(),
{
    let w = if is_color {
        3 * w
    } else {
        w
    };
    let mut out: Vec<u8> = Vec::new();
    let mut y: usize = 0;
    let ghost lw = w as nat;
    let n = left.len();
    while y < h
        invariant
            y <= h,
            lw == w,
            n == left@.len(),
            left@.len() == w * h,
            right@.len() == w * h,
            out@ == side_by_side(left@, right@, lw, y as nat),
            out@.len() == 2 * (y * w),
        decreases h - y,
    {
        proof {
            assert(y * w + w <= w * h) by (nonlinear_arith)
                requires
                    y < h,
            ;
            assert((y + 1) * w == y * w + w) by (nonlinear_arith);
        }
        let base = y * w;
        let ghost before = out@;
        let mut x: usize = 0;
        while x < w
            invariant
                x <= w,
                base == y * w,
                base + w <= left@.len(),
                n == left@.len(),
                right@.len() == left@.len(),
                out@ == before + left@.subrange(base as int, base + x),
            decreases w - x,
        {
            out.push(left[base + x]);
            x += 1;
            proof {
                assert(left@.subrange(base as int, base + x) =~= left@.subrange(
                    base as int,
                    base + x - 1,
                ).push(left@[base + x - 1]));
            }
        }
        let ghost mid = out@;
        let mut x: usize = 0;
        while x < w
            invariant
                x <= w,
                base == y * w,
                base + w <= right@.len(),
                n == right@.len(),
                out@ == mid + right@.subrange(base as int, base + x),
            decreases w - x,
        {
            out.push(right[base + x]);
            x += 1;
            proof {
                assert(right@.subrange(base as int, base + x) =~= right@.subrange(
                    base as int,
                    base + x - 1,
                ).push(right@[base + x - 1]));
            }
        }
        proof {
            assert(out@ =~= side_by_side(left@, right@, lw, (y + 1) as nat));
        }
        y += 1;
    }
    proof {
        assert(h * w == w * h) by (nonlinear_arith);
    }
    out
}

} // verus!

verus! {

/// The brightness level of pixel `p` of an RGB image: `(R + G + 2 B) / 4`.
pub open spec fn pixel_level(data: Seq<u8>, p: int) -> int {
    (data[3 * p] as int + 2 * data[3 * p + 2] as int + data[3 * p + 1] as int) / 4
}

/// How many of the first `n` pixels have level `v`.
pub open spec fn level_count(data: Seq<u8>, v: int, n: nat) -> nat
    decreases n,
{
    if n == 0 {
        0
    } else {
        level_count(data, v, (n - 1) as nat) + if pixel_level(data, n - 1) == v {
            1nat
        } else {
            0nat
        }
    }
}

/// How many of the first `n` pixels have a level of at most `v`.
pub open spec fn cumulative(data: Seq<u8>, v: int, n: nat) -> nat
    decreases v + 1,
{
    if v < 0 {
        0
    } else {
        cumulative(data, v - 1, n) + level_count(data, v, n)
    }
}

/// The equalized value of byte value `b`: the share of pixels at or below
/// level `b`, on a scale where all pixels make 255, kept to its low 8 bits.
pub open spec fn equalized(data: Seq<u8>, b: int) -> u8 {
    let n = data.len() / 3;
    let unit = cumulative(data, 255, n) / 255;
    ((cumulative(data, b, n) / unit) % 256) as u8
}

proof fn lemma_cumulative_step(data: Seq<u8>, v: int, n: nat)
    ensures
        cumulative(data, v, n + 1) == cumulative(data, v, n) + if 0 <= pixel_level(
            data,
            n as int,
        ) <= v {
            1nat
        } else {
            0nat
        },
    decreases v + 1,
{
    if v >= 0 {
        lemma_cumulative_step(data, v - 1, n);
        assert(level_count(data, v, n + 1) == level_count(data, v, n) + if pixel_level(
            data,
            n as int,
        ) == v {
            1nat
        } else {
            0nat
        });
    }
}

proof fn lemma_cumulative_all(data: Seq<u8>, n: nat)
    requires
        3 * n <= data.len(),
    ensures
        cumulative(data, 255, n) == n,
    decreases n,
{
    if n > 0 {
        lemma_cumulative_all(data, (n - 1) as nat);
        lemma_cumulative_step(data, 255, (n - 1) as nat);
        let p = (n - 1) as int;
        assert(0 <= pixel_level(data, p) <= 255);
    } else {
        lemma_cumulative_zero(data, 255);
    }
}

proof fn lemma_cumulative_zero(data: Seq<u8>, v: int)
    ensures
        cumulative(data, v, 0) == 0,
    decreases v + 1,
{
    if v >= 0 {
        lemma_cumulative_zero(data, v - 1);
    }
}

/// Histogram equalization: each byte `b` becomes `equalized(data, b)`.
pub fn histeq(data: &mut [u8])
    requires
        old(data)@.len() % 3 == 0,
        old(data)@.len() / 3 >= 255,
        old(data)@.len() <= u32::MAX,
    ensures
        final(data)@.len() == old(data)@.len(),
        forall|i: int|
            0 <= i < old(data)@.len() ==> #[trigger] final(data)@[i] == equalized(
                old(data)@,
                old(data)@[i] as int,
            ),
{
    let ghost d = data@;
    let npix = data.len() / 3;
    let mut hist: Vec<u32> = Vec::new();
    while hist.len() < 256
        invariant
            hist@.len() <= 256,
            forall|v: int| 0 <= v < hist@.len() ==> #[trigger] hist@[v] == 0,
        decreases 256 - hist@.len(),
    {
        hist.push(0);
    }
    // build histogram
    let mut p: usize = 0;
    while p < npix
        invariant
            d == data@,
            npix == d.len() / 3,
            d.len() % 3 == 0,
            d.len() <= u32::MAX,
            p <= npix,
            hist@.len() == 256,
            forall|v: int| 0 <= v < 256 ==> #[trigger] hist@[v] == level_count(d, v, p as nat),
            forall|v: int| 0 <= v < 256 ==> #[trigger] hist@[v] <= p,
        decreases npix - p,
    {
        let r = data[3 * p] as usize;
        let g = data[3 * p + 1] as usize;
        let b = data[3 * p + 2] as usize;
        let y = (r + 2 * b + g) / 4;
        proof {
            assert(y as int == pixel_level(d, p as int));
            assert forall|v: int| 0 <= v < 256 implies level_count(d, v, (p + 1) as nat) == level_count(
                d,
                v,
                p as nat,
            ) + if v == y {
                1nat
            } else {
                0nat
            } by {};
        }
        hist.set(y, hist[y] + 1);
        p += 1;
    }
    // accumulate histogram
    let mut sum: u32 = 0;
    let mut v: usize = 0;
    while v < 256
        invariant
            d == data@,
            npix == d.len() / 3,
            d.len() <= u32::MAX,
            v <= 256,
            hist@.len() == 256,
            sum == cumulative(d, v - 1, npix as nat),
            forall|u: int| 0 <= u < v ==> #[trigger] hist@[u] == cumulative(d, u, npix as nat),
            forall|u: int| v <= u < 256 ==> #[trigger] hist@[u] == level_count(d, u, npix as nat),
        decreases 256 - v,
    {
        proof {
            lemma_cumulative_le(d, v as int, npix as nat);
        }
        sum = sum + hist[v];
        hist.set(v, sum);
        v += 1;
    }
    // normalize histogram
    proof {
        lemma_cumulative_all(d, npix as nat);
    }
    let max_val = hist[255] / 255;
    let mut map: Vec<u8> = Vec::new();
    let mut u: usize = 0;
    while u < 256
        invariant
            d == data@,
            npix == d.len() / 3,
            npix >= 255,
            hist@.len() == 256,
            max_val == cumulative(d, 255, npix as nat) / 255,
            max_val >= 1,
            forall|k: int| 0 <= k < 256 ==> #[trigger] hist@[k] == cumulative(d, k, npix as nat),
            map@.len() == u,
            u <= 256,
            forall|k: int| 0 <= k < u ==> #[trigger] map@[k] == equalized(d, k),
        decreases 256 - u,
    {
        map.push(((hist[u] / max_val) % 256) as u8);
        u += 1;
    }
    // map pixels
    let mut i: usize = 0;
    while i < data.len()
        invariant
            d.len() == data@.len(),
            map@.len() == 256,
            forall|k: int| 0 <= k < 256 ==> #[trigger] map@[k] == equalized(d, k),
            i <= data@.len(),
            forall|j: int| 0 <= j < i ==> #[trigger] data@[j] == equalized(d, d[j] as int),
            forall|j: int| i <= j < data@.len() ==> #[trigger] data@[j] == d[j],
        decreases data@.len() - i,
    {
        let b = data[i];
        data[i] = map[b as usize];
        i += 1;
    }
}

proof fn lemma_cumulative_le(data: Seq<u8>, v: int, n: nat)
    requires
        3 * n <= data.len(),
        0 <= v <= 255,
    ensures
        cumulative(data, v, n) <= n,
    decreases n,
{
    if n > 0 {
        lemma_cumulative_le(data, v, (n - 1) as nat);
        lemma_cumulative_step(data, v, (n - 1) as nat);
    } else {
        lemma_cumulative_zero(data, v);
    }
}

} // verus!

verus! {

/// The sum of channel `c` over the first `k` pixels (row by row) of the
/// `s` x `s` square whose top-left pixel is `(x0, y0)`, in an RGB image
/// `width` pixels wide.
pub open spec fn square_sum(data: Seq<u8>, width: int, s: int, x0: int, y0: int, c: int, k: nat) -> nat
    decreases k,
{
    if k == 0 || s <= 0 {
        0
    } else {
        let j = k - 1;
        square_sum(data, width, s, x0, y0, c, (k - 1) as nat) + data[3 * ((y0 + j / s) * width + x0
            + j % s) + c] as nat
    }
}

/// Byte `o` of an RGB image `width` x `height` downscaled by `s`: the mean
/// (rounded down) of its channel over the `s` x `s` square of source pixels.
pub open spec fn downscaled(data: Seq<u8>, width: int, s: int, o: int) -> u8 {
    let w2 = width / s;
    let p = o / 3;
    let c = o % 3;
    (square_sum(data, width, s, (p % w2) * s, (p / w2) * s, c, (s * s) as nat) / ((s * s) as nat)) as u8
}

proof fn lemma_square_sum_bound(data: Seq<u8>, width: int, s: int, x0: int, y0: int, c: int, k: nat)
    ensures
        square_sum(data, width, s, x0, y0, c, k) <= 255 * k,
    decreases k,
{
    if k > 0 && s > 0 {
        lemma_square_sum_bound(data, width, s, x0, y0, c, (k - 1) as nat);
    }
}

/// The mean of channel `c` over the `s` x `s` square at `(x0, y0)`.
fn square_mean(data: &[u8], width: usize, height: usize, s: usize, x0: usize, y0: usize, c: usize) -> (r: u8)
    requires
        1 <= s <= 16,
        c < 3,
        x0 + s <= width,
        y0 + s <= height,
        data@.len() == 3 * width * height,
    ensures
        r as nat == square_sum(data@, width as int, s as int, x0 as int, y0 as int, c as int, (s * s) as nat)
            / ((s * s) as nat),
{
    let ghost n = s * s;
    let dlen = data.len();
    let mut sum: u32 = 0;
    let mut k: usize = 0;
    let mut dy: usize = 0;
    while dy < s
        invariant
            1 <= s <= 16,
            c < 3,
            x0 + s <= width,
            y0 + s <= height,
            data@.len() == 3 * width * height,
            dlen == data@.len(),
            dy <= s,
            k == dy * s,
            sum == square_sum(data@, width as int, s as int, x0 as int, y0 as int, c as int, k as nat),
        decreases s - dy,
    {
        let mut dx: usize = 0;
        while dx < s
            invariant
                1 <= s <= 16,
                c < 3,
                x0 + s <= width,
                y0 + s <= height,
                data@.len() == 3 * width * height,
                dlen == data@.len(),
                dy < s,
                dx <= s,
                k == dy * s + dx,
                sum == square_sum(data@, width as int, s as int, x0 as int, y0 as int, c as int, k as nat),
            decreases s - dx,
        {
            proof {
                assert((k as int) / (s as int) == dy as int && (k as int) % (s as int) == dx as int) by {
                    vstd::arithmetic::div_mod::lemma_fundamental_div_mod_converse(
                        k as int,
                        s as int,
                        dy as int,
                        dx as int,
                    );
                };
                assert((y0 + dy) * width + x0 + dx < width * height) by (nonlinear_arith)
                    requires
                        y0 + dy < height,
                        x0 + dx < width,
                ;
                assert((y0 + dy) * width <= width * height) by (nonlinear_arith)
                    requires
                        y0 + dy < height,
                ;
                assert(3 * ((y0 + dy) * width + x0 + dx) + c < 3 * width * height) by (nonlinear_arith)
                    requires
                        (y0 + dy) * width + x0 + dx < width * height,
                        c < 3,
                ;
                lemma_square_sum_bound(data@, width as int, s as int, x0 as int, y0 as int, c as int, k as nat);
                assert(k < 256) by (nonlinear_arith)
                    requires
                        k == dy * s + dx,
                        dy < s,
                        dx < s,
                        s <= 16,
                ;
            }
            let idx = 3 * ((y0 + dy) * width + x0 + dx) + c;
            sum = sum + data[idx] as u32;
            k += 1;
            dx += 1;
        }
        proof {
            assert((dy + 1) * s == dy * s + s) by (nonlinear_arith);
        }
        dy += 1;
    }
    proof {
        assert(s * s <= 256) by (nonlinear_arith)
            requires
                s <= 16,
        ;
    }
    let nn: u32 = (s * s) as u32;
    proof {
        lemma_square_sum_bound(data@, width as int, s as int, x0 as int, y0 as int, c as int, k as nat);
        assert(k == s * s);
        assert(nn >= 1) by (nonlinear_arith)
            requires
                nn == s * s,
                s >= 1,
        ;
        assert(sum / nn <= 255) by (nonlinear_arith)
            requires
                sum <= 255 * k,
                k == nn,
                nn >= 1,
        ;
    }
    (sum / nn) as u8
}

/// Downscales an RGB image by `scale` (2, 4, 8 or 16), each output pixel
/// the mean of a `scale` x `scale` square.
pub fn resize(data: &[u8], width: u32, height: u32, scale: u8) -> (r: Vec<u8>)
    requires
        scale == 2 || scale == 4 || scale == 8 || scale == 16,
        width % scale as u32 == 0,
        height % scale as u32 == 0,
        data@.len() == 3 * width * height,
    ensures
        r@.len() == 3 * (width / scale as u32) * (height / scale as u32),
        forall|o: int| 0 <= o < r@.len() ==> #[trigger] r@[o] == downscaled(data@, width as int, scale as int, o),
{
    let s = scale as usize;
    let width = width as usize;
    let height = height as usize;
    let w = width / s;
    let h = height / s;
    proof {
        vstd::arithmetic::div_mod::lemma_fundamental_div_mod(width as int, s as int);
        vstd::arithmetic::div_mod::lemma_fundamental_div_mod(height as int, s as int);
        assert(w * s == width && h * s == height);
        assert(3 * w * h <= 3 * width * height) by (nonlinear_arith)
            requires
                w * s == width,
                h * s == height,
                s >= 1,
        ;
    }
    let dlen = data.len();
    proof {
        assert(3 * w * h <= dlen);
        assert(w * h <= dlen) by (nonlinear_arith)
            requires
                3 * w * h <= dlen,
        ;
        assert(3 * (w * h) == 3 * w * h) by (nonlinear_arith);
    }
    let total = 3 * (w * h);
    let mut out: Vec<u8> = Vec::new();
    let mut o: usize = 0;
    while o < total
        invariant
            2 <= s <= 16,
            w == width / s,
            h == height / s,
            w * s == width,
            h * s == height,
            total == 3 * w * h,
            data@.len() == 3 * width * height,
            o <= total,
            out@.len() == o,
            forall|j: int| 0 <= j < o ==> #[trigger] out@[j] == downscaled(data@, width as int, s as int, j),
        decreases total - o,
    {
        let p = o / 3;
        let c = o % 3;
        let x = p % w;
        let y = p / w;
        proof {
            assert(w > 0) by (nonlinear_arith)
                requires
                    o < total,
                    total == 3 * w * h,
            ;
            assert(p < w * h) by (nonlinear_arith)
                requires
                    o < 3 * w * h,
                    p == o / 3,
            ;
            assert(y < h) by (nonlinear_arith)
                requires
                    p < w * h,
                    y == p / w,
                    w > 0,
            ;
            assert(x * s + s <= width) by (nonlinear_arith)
                requires
                    x < w,
                    w * s == width,
            ;
            assert(y * s + s <= height) by (nonlinear_arith)
                requires
                    y < h,
                    h * s == height,
            ;
        }
        let v = square_mean(data, width, height, s, x * s, y * s, c);
        out.push(v);
        o += 1;
    }
    out
}

} // verus!
