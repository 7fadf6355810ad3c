//! Box blur over RGBA pixel buffers.
use vstd::prelude::*;
use crate::error::RenderError;
use vstd::slice::SliceAdditionalExecFns;

verus! {

/// `v` clamped to the coordinate range `0..size`.
pub open spec fn clamp_coord(v: int, size: int) -> int {
    if v < 0 { 0 } else if v > size - 1 { size - 1 } else { v }
}

/// Channel `c` of the pixel at window offset `(dx, dy)` around `(x, y)`, with
/// coordinates clamped to the image (edge pixels repeat).
pub open spec fn window_sample(p: Seq<u8>, w: int, h: int, r: int, x: int, y: int, dx: int, dy: int, c: int) -> int {
    p[clamp_coord(y + dy - r, h) * (w * 4) + clamp_coord(x + dx - r, w) * 4 + c] as int
}

/// Sum of the first `m` samples of window row `dy`.
pub open spec fn window_row_sum(p: Seq<u8>, w: int, h: int, r: int, x: int, y: int, dy: int, c: int, m: nat) -> int
    decreases m,
{
    if m == 0 {
        0
    } else {
        window_row_sum(p, w, h, r, x, y, dy, c, (m - 1) as nat) + window_sample(p, w, h, r, x, y, m - 1, dy, c)
    }
}

/// Sum of the first `k` rows of the `(2r+1) x (2r+1)` window around `(x, y)`.
pub open spec fn window_sum(p: Seq<u8>, w: int, h: int, r: int, x: int, y: int, c: int, k: nat) -> int
    decreases k,
{
    if k == 0 {
        0
    } else {
        window_sum(p, w, h, r, x, y, c, (k - 1) as nat) + window_row_sum(p, w, h, r, x, y, k - 1, c, (2 * r + 1) as nat)
    }
}

/// Channel `c` of the box-blurred pixel at `(x, y)`: the window sum divided
/// (rounding down) by the number of samples.
pub open spec fn box_average(p: Seq<u8>, w: int, h: int, r: int, x: int, y: int, c: int) -> int {
    window_sum(p, w, h, r, x, y, c, (2 * r + 1) as nat) / ((2 * r + 1) * (2 * r + 1))
}

/// The number of samples in a window, `(2r+1)^2`, fits in `u32` (the blur
/// counts its samples in a `u32`).
pub open spec fn box_blur_in_range(radius: u32, width: u32, height: u32) -> bool {
    (2 * radius + 1) * (2 * radius + 1) <= u32::MAX
}

/// Box blur effect (faster but lower quality)
pub struct BoxBlur {
    radius: u32,
}

proof fn lemma_sample_index(w: int, h: int, sx: int, sy: int, c: int)
    requires
        0 <= sx < w,
        0 <= sy < h,
        0 <= c < 4,
    ensures
        0 <= sy * (w * 4) + sx * 4 + c < w * h * 4,
        sy * (w * 4) + sx * 4 + c <= (h - 1) * (w * 4) + (w - 1) * 4 + 3,
{
    assert(0 <= sy * (w * 4)) by (nonlinear_arith) requires sy >= 0, w >= 0;
    assert(sy * (w * 4) <= (h - 1) * (w * 4)) by (nonlinear_arith) requires sy <= h - 1, w >= 0;
    assert((h - 1) * (w * 4) + (w - 1) * 4 + 3 == w * h * 4 - 1) by (nonlinear_arith);
}

proof fn lemma_row_sum_bound(p: Seq<u8>, w: int, h: int, r: int, x: int, y: int, dy: int, c: int, m: nat)
    ensures
        0 <= window_row_sum(p, w, h, r, x, y, dy, c, m) <= 255 * m,
    decreases m,
{
    if m > 0 {
        lemma_row_sum_bound(p, w, h, r, x, y, dy, c, (m - 1) as nat);
    }
}

proof fn lemma_window_sum_bound(p: Seq<u8>, w: int, h: int, r: int, x: int, y: int, c: int, k: nat)
    requires
        r >= 0,
    ensures
        0 <= window_sum(p, w, h, r, x, y, c, k) <= 255 * k * (2 * r + 1),
    decreases k,
{
    if k > 0 {
        lemma_window_sum_bound(p, w, h, r, x, y, c, (k - 1) as nat);
        lemma_row_sum_bound(p, w, h, r, x, y, k - 1, c, (2 * r + 1) as nat);
        assert(255 * (k - 1) * (2 * r + 1) + 255 * (2 * r + 1) == 255 * k * (2 * r + 1)) by (nonlinear_arith);
    }
}

proof fn lemma_average_fits(p: Seq<u8>, w: int, h: int, r: int, x: int, y: int, c: int)
    requires
        r >= 0,
    ensures
        0 <= box_average(p, w, h, r, x, y, c) <= 255,
{
    lemma_window_sum_bound(p, w, h, r, x, y, c, (2 * r + 1) as nat);
    let n = 2 * r + 1;
    let s = window_sum(p, w, h, r, x, y, c, n as nat);
    assert(255 * n * n == 255 * (n * n)) by (nonlinear_arith);
    assert(n * n > 0) by (nonlinear_arith) requires n >= 1;
    vstd::arithmetic::div_mod::lemma_div_is_ordered(s, 255 * (n * n), n * n);
    vstd::arithmetic::div_mod::lemma_div_multiples_vanish(255, n * n);
    vstd::arithmetic::div_mod::lemma_div_pos_is_pos(s, n * n);
}

/// Clamp a signed coordinate to `0..size`, as `.max(0).min(size - 1)` does.
fn clamp_i64(v: i64, size: u32) -> (r: u32)
    requires
        size >= 1,
    ensures
        r == clamp_coord(v as int, size as int),
{
    if v < 0 {
        0
    } else if v > size as i64 - 1 {
        size - 1
    } else {
        v as u32
    }
}

impl BoxBlur {
    /// Blur radius in pixels.
    pub closed spec fn spec_radius(&self) -> u32 {
        self.radius
    }

    /// Create a new box blur effect
    pub fn new(radius: u32) -> (b: Self)
        ensures
            b.spec_radius() == radius,
    {
        BoxBlur { radius }
    }

    /// Blur radius in pixels.
    pub fn radius(&self) -> (r: u32)
        ensures
            r == self.spec_radius(),
    {
        self.radius
    }

    /// Sums of the four channels over the window around `(x, y)`.
    fn window_sums(&self, pixels: &[u8], width: u32, height: u32, x: u32, y: u32) -> (s: (u64, u64, u64, u64))
        requires
            x < width,
            y < height,
            pixels@.len() == width * height * 4,
            width * height * 4 <= u32::MAX,
            width * 4 <= u32::MAX,
            box_blur_in_range(self.spec_radius(), width, height),
        ensures
            s.0 == window_sum(pixels@, width as int, height as int, self.spec_radius() as int, x as int, y as int, 0, (2 * self.spec_radius() + 1) as nat),
            s.1 == window_sum(pixels@, width as int, height as int, self.spec_radius() as int, x as int, y as int, 1, (2 * self.spec_radius() + 1) as nat),
            s.2 == window_sum(pixels@, width as int, height as int, self.spec_radius() as int, x as int, y as int, 2, (2 * self.spec_radius() + 1) as nat),
            s.3 == window_sum(pixels@, width as int, height as int, self.spec_radius() as int, x as int, y as int, 3, (2 * self.spec_radius() + 1) as nat),
    {
        let ghost p = pixels@;
        let ghost w = width as int;
        let ghost h = height as int;
        let ghost rr = self.radius as int;
        let ghost xi = x as int;
        let ghost yi = y as int;
        let r = self.radius;
        proof {
            assert(r <= 32767) by (nonlinear_arith) requires (2 * r + 1) * (2 * r + 1) <= u32::MAX, r >= 0;
        }
        let n: u32 = r * 2 + 1;
        let stride = width * 4;
        let mut sr: u64 = 0;
        let mut sg: u64 = 0;
        let mut sb: u64 = 0;
        let mut sa: u64 = 0;
        let mut dy: u32 = 0;
        while dy < n
            invariant
                n == 2 * rr + 1,
                r == rr,
                w == width,
                h == height,
                xi == x,
                yi == y,
                width * 4 <= u32::MAX,
                rr <= 32767,
                (2 * rr + 1) * (2 * rr + 1) <= u32::MAX,
                x < width,
                y < height,
                p == pixels@,
                p.len() == width * height * 4,
                width * height * 4 <= u32::MAX,
                stride == width * 4,
                dy <= n,
                sr == window_sum(p, w, h, rr, xi, yi, 0, dy as nat),
                sg == window_sum(p, w, h, rr, xi, yi, 1, dy as nat),
                sb == window_sum(p, w, h, rr, xi, yi, 2, dy as nat),
                sa == window_sum(p, w, h, rr, xi, yi, 3, dy as nat),
            decreases n - dy,
        {
            let sy = clamp_i64(y as i64 + dy as i64 - r as i64, height);
            let mut rs: u64 = 0;
            let mut gs: u64 = 0;
            let mut bs: u64 = 0;
            let mut as_: u64 = 0;
            let mut dx: u32 = 0;
            while dx < n
                invariant
                    n == 2 * rr + 1,
                    r == rr,
                    w == width,
                    h == height,
                    xi == x,
                    yi == y,
                    width * 4 <= u32::MAX,
                    rr <= 32767,
                    x < width,
                    y < height,
                    p == pixels@,
                    p.len() == width * height * 4,
                    width * height * 4 <= u32::MAX,
                    stride == width * 4,
                    sy == clamp_coord(y + dy - rr, h),
                    sy < height,
                    dx <= n,
                    rs == window_row_sum(p, w, h, rr, xi, yi, dy as int, 0, dx as nat),
                    gs == window_row_sum(p, w, h, rr, xi, yi, dy as int, 1, dx as nat),
                    bs == window_row_sum(p, w, h, rr, xi, yi, dy as int, 2, dx as nat),
                    as_ == window_row_sum(p, w, h, rr, xi, yi, dy as int, 3, dx as nat),
                decreases n - dx,
            {
                let sx = clamp_i64(x as i64 + dx as i64 - r as i64, width);
                proof {
                    lemma_sample_index(w, h, sx as int, sy as int, 0);
                    lemma_sample_index(w, h, sx as int, sy as int, 3);
                    lemma_row_sum_bound(p, w, h, rr, xi, yi, dy as int, 0, dx as nat);
                    lemma_row_sum_bound(p, w, h, rr, xi, yi, dy as int, 1, dx as nat);
                    lemma_row_sum_bound(p, w, h, rr, xi, yi, dy as int, 2, dx as nat);
                    lemma_row_sum_bound(p, w, h, rr, xi, yi, dy as int, 3, dx as nat);
                }
                let idx = (sy * stride + sx * 4) as usize;
                rs = rs + pixels[idx] as u64;
                gs = gs + pixels[idx + 1] as u64;
                bs = bs + pixels[idx + 2] as u64;
                as_ = as_ + pixels[idx + 3] as u64;
                dx = dx + 1;
            }
            proof {
                lemma_window_sum_bound(p, w, h, rr, xi, yi, 0, dy as nat);
                lemma_window_sum_bound(p, w, h, rr, xi, yi, 1, dy as nat);
                lemma_window_sum_bound(p, w, h, rr, xi, yi, 2, dy as nat);
                lemma_window_sum_bound(p, w, h, rr, xi, yi, 3, dy as nat);
                lemma_row_sum_bound(p, w, h, rr, xi, yi, dy as int, 0, n as nat);
                lemma_row_sum_bound(p, w, h, rr, xi, yi, dy as int, 1, n as nat);
                lemma_row_sum_bound(p, w, h, rr, xi, yi, dy as int, 2, n as nat);
                lemma_row_sum_bound(p, w, h, rr, xi, yi, dy as int, 3, n as nat);
                assert(255 * dy * n + 255 * n <= 255 * n * n) by (nonlinear_arith)
                    requires dy < n, n >= 1;
                assert(255 * n * n <= u64::MAX) by (nonlinear_arith)
                    requires n * n <= u32::MAX;
            }
            sr = sr + rs;
            sg = sg + gs;
            sb = sb + bs;
            sa = sa + as_;
            dy = dy + 1;
        }
        (sr, sg, sb, sa)
    }

    /// Apply the box blur in place. Each output channel is the average (rounded
    /// down) of the `(2r+1) x (2r+1)` window around the pixel, edge pixels
    /// repeating outside the image. A buffer whose length is not
    /// `width * height * 4` is refused and left unchanged.
    pub fn apply(&self, pixels: &mut [u8], width: u32, height: u32) -> (res: Result<(), RenderError>)
        requires
            width * height * 4 <= u32::MAX,
            old(pixels)@.len() == width * height * 4 ==> width * 4 <= u32::MAX,
            old(pixels)@.len() == width * height * 4 && width > 0 && height > 0
                ==> box_blur_in_range(self.spec_radius(), width, height),
        ensures
            old(pixels)@.len() != width * height * 4 ==> {
                &&& res matches Err(RenderError::InvalidBufferSize { expected, actual })
                &&& expected == width * height * 4
                &&& actual == old(pixels)@.len()
                &&& final(pixels)@ == old(pixels)@
            },
            old(pixels)@.len() == width * height * 4 ==> {
                &&& res is Ok
                &&& final(pixels)@.len() == old(pixels)@.len()
                &&& forall|q: int, c: int| 0 <= q < width * height && 0 <= c < 4 ==>
                    #[trigger] final(pixels)@[4 * q + c] == box_average(old(pixels)@, width as int, height as int,
                        self.spec_radius() as int, q % (width as int), q / (width as int), c)
            },
    {
        proof {
            vstd::arithmetic::mul::lemma_mul_nonnegative(width as int, height as int);
        }
        let expected = (width * height * 4) as usize;
        if pixels.len() != expected {
            return Err(RenderError::InvalidBufferSize { expected, actual: pixels.len() });
        }
        let ghost p = pixels@;
        let ghost w = width as int;
        let ghost h = height as int;
        let ghost rr = self.radius as int;
        let stride = width * 4;
        let mut temp: Vec<u8> = vec![0u8; pixels.len()];

        let mut y: u32 = 0;
        while y < height
            invariant
                p == pixels@,
                p.len() == width * height * 4,
                width * height * 4 <= u32::MAX,
                stride == width * 4,
                temp@.len() == p.len(),
                y <= height,
                w == width,
                h == height,
                rr == self.radius,
                width * 4 <= u32::MAX,
                width > 0 && height > 0 ==> box_blur_in_range(self.radius, width, height),
                forall|q: int, c: int| 0 <= q < y * w && 0 <= c < 4 ==>
                    #[trigger] temp@[4 * q + c] == box_average(p, w, h, rr, q % w, q / w, c),
            decreases height - y,
        {
            let mut x: u32 = 0;
            while x < width
                invariant
                    p == pixels@,
                    p.len() == width * height * 4,
                    width * height * 4 <= u32::MAX,
                    stride == width * 4,
                    temp@.len() == p.len(),
                    y < height,
                    x <= width,
                    w == width,
                    h == height,
                    rr == self.radius,
                    width * 4 <= u32::MAX,
                    width > 0 ==> box_blur_in_range(self.radius, width, height),
                    forall|q: int, c: int| 0 <= q < y * w + x && 0 <= c < 4 ==>
                        #[trigger] temp@[4 * q + c] == box_average(p, w, h, rr, q % w, q / w, c),
                decreases width - x,
            {
                let (sr, sg, sb, sa) = self.window_sums(pixels, width, height, x, y);
                proof {
                    assert(rr <= 32767) by (nonlinear_arith) requires (2 * rr + 1) * (2 * rr + 1) <= u32::MAX, rr >= 0;
                }
                let n = self.radius * 2 + 1;
                let count = (n as u64) * (n as u64);
                let ghost q = y * w + x;
                proof {
                    lemma_sample_index(w, h, x as int, y as int, 0);
                    lemma_sample_index(w, h, x as int, y as int, 3);
                    assert(y * (w * 4) + x * 4 == 4 * q) by (nonlinear_arith) requires q == y * w + x;
                    vstd::arithmetic::div_mod::lemma_fundamental_div_mod_converse(q, w, y as int, x as int);
                    assert(count > 0) by (nonlinear_arith) requires count == n * n, n >= 1;
                    lemma_average_fits(p, w, h, rr, x as int, y as int, 0);
                    lemma_average_fits(p, w, h, rr, x as int, y as int, 1);
                    lemma_average_fits(p, w, h, rr, x as int, y as int, 2);
                    lemma_average_fits(p, w, h, rr, x as int, y as int, 3);
                }
                let idx = (y * stride + x * 4) as usize;
                temp.set(idx, (sr / count) as u8);
                temp.set(idx + 1, (sg / count) as u8);
                temp.set(idx + 2, (sb / count) as u8);
                temp.set(idx + 3, (sa / count) as u8);
                proof {
                    assert forall|qq: int, c: int| 0 <= qq < y * w + x + 1 && 0 <= c < 4 implies
                        #[trigger] temp@[4 * qq + c] == box_average(p, w, h, rr, qq % w, qq / w, c) by {
                        if qq < q {
                        }
                    }
                }
                x = x + 1;
            }
            proof {
                assert((y + 1) * w == y * w + w) by (nonlinear_arith);
            }
            y = y + 1;
        }

        let mut i: usize = 0;
        while i < pixels.len()
            invariant
                pixels@.len() == temp@.len(),
                i <= pixels@.len(),
                forall|k: int| 0 <= k < i ==> #[trigger] pixels@[k] == temp@[k],
            decreases pixels@.len() - i,
        {
            pixels.set(i, temp[i]);
            i = i + 1;
        }
        proof {
            assert(height * w == w * height) by (nonlinear_arith);
        }
        Ok(())
    }
}

} // verus!

verus! {

/// With radius 0 the blur leaves every channel of every pixel unchanged.
pub proof fn lemma_radius_zero_is_identity(p: Seq<u8>, w: int, h: int, x: int, y: int, c: int)
    requires
        0 <= x < w,
        0 <= y < h,
    ensures
        box_average(p, w, h, 0, x, y, c) == p[y * (w * 4) + x * 4 + c] as int,
{
    assert(window_row_sum(p, w, h, 0, x, y, 0, c, 0) == 0);
    assert(window_row_sum(p, w, h, 0, x, y, 0, c, 1) == window_sample(p, w, h, 0, x, y, 0, 0, c));
    assert(window_sum(p, w, h, 0, x, y, c, 0) == 0);
    assert(window_sum(p, w, h, 0, x, y, c, 1) == window_sample(p, w, h, 0, x, y, 0, 0, c));
    assert(clamp_coord(y + 0 - 0, h) == y);
    assert(clamp_coord(x + 0 - 0, w) == x);
    let s = window_sample(p, w, h, 0, x, y, 0, 0, c);
    assert(s / 1 == s);
    assert((2 * 0 + 1) as nat == 1nat);
    assert((2 * 0 + 1) * (2 * 0 + 1) == 1);
    assert(box_average(p, w, h, 0, x, y, c) == window_sum(p, w, h, 0, x, y, c, 1) / 1);
}

proof fn lemma_uniform_row_sum(p: Seq<u8>, w: int, h: int, r: int, x: int, y: int, dy: int, c: int, v: u8, m: nat)
    requires
        w >= 1,
        h >= 1,
        0 <= c < 4,
        p.len() == w * h * 4,
        forall|q: int| 0 <= q < w * h ==> #[trigger] p[4 * q + c] == v,
    ensures
        window_row_sum(p, w, h, r, x, y, dy, c, m) == m * v,
    decreases m,
{
    if m > 0 {
        lemma_uniform_row_sum(p, w, h, r, x, y, dy, c, v, (m - 1) as nat);
        let sy = clamp_coord(y + dy - r, h);
        let sx = clamp_coord(x + (m - 1) - r, w);
        lemma_sample_index(w, h, sx, sy, c);
        let q = sy * w + sx;
        assert(sy * (w * 4) + sx * 4 + c == 4 * q + c) by (nonlinear_arith) requires q == sy * w + sx;
        assert(0 <= q < w * h) by (nonlinear_arith) requires q == sy * w + sx, 0 <= sx < w, 0 <= sy < h;
        assert(p[4 * q + c] == v);
        assert(window_sample(p, w, h, r, x, y, m - 1, dy, c) == v);
        assert((m - 1) * v + v == m * v) by (nonlinear_arith);
    } else {
        assert(m * v == 0) by (nonlinear_arith) requires m == 0;
    }
}

proof fn lemma_uniform_window_sum(p: Seq<u8>, w: int, h: int, r: int, x: int, y: int, c: int, v: u8, k: nat)
    requires
        w >= 1,
        h >= 1,
        r >= 0,
        0 <= c < 4,
        p.len() == w * h * 4,
        forall|q: int| 0 <= q < w * h ==> #[trigger] p[4 * q + c] == v,
    ensures
        window_sum(p, w, h, r, x, y, c, k) == k * ((2 * r + 1) * v),
    decreases k,
{
    if k > 0 {
        lemma_uniform_window_sum(p, w, h, r, x, y, c, v, (k - 1) as nat);
        lemma_uniform_row_sum(p, w, h, r, x, y, k - 1, c, v, (2 * r + 1) as nat);
        assert((k - 1) * ((2 * r + 1) * v) + (2 * r + 1) * v == k * ((2 * r + 1) * v)) by (nonlinear_arith);
    } else {
        assert(k * ((2 * r + 1) * v) == 0) by (nonlinear_arith) requires k == 0;
    }
}

/// Blurring an image whose channel `c` has the same value everywhere keeps that value.
pub proof fn lemma_uniform_channel_unchanged(p: Seq<u8>, w: int, h: int, r: int, x: int, y: int, c: int, v: u8)
    requires
        w >= 1,
        h >= 1,
        r >= 0,
        0 <= c < 4,
        p.len() == w * h * 4,
        forall|q: int| 0 <= q < w * h ==> #[trigger] p[4 * q + c] == v,
    ensures
        box_average(p, w, h, r, x, y, c) == v,
{
    let n = 2 * r + 1;
    lemma_uniform_window_sum(p, w, h, r, x, y, c, v, n as nat);
    assert(n * (n * v) == (n * n) * v) by (nonlinear_arith);
    assert(n * n > 0) by (nonlinear_arith) requires n >= 1;
    vstd::arithmetic::div_mod::lemma_div_multiples_vanish(v as int, n * n);
    assert((n * n) * v == v * (n * n)) by (nonlinear_arith);
}

} // verus!
