//! Box blur: the smoothing that descriptors are sampled from.
use super::brief::differ_at;
use super::image::GrayImage;
use vstd::prelude::*;

verus! {

/// First sample of the window of radius `r` around `c`.
pub open spec fn window_lo(c: int, r: int) -> int {
    if c < r {
        0
    } else {
        c - r
    }
}

/// One past the last sample of the window of radius `r` around `c` among `n`.
pub open spec fn window_hi(c: int, r: int, n: int) -> int {
    if c + r + 1 > n {
        n
    } else {
        c + r + 1
    }
}

/// Sum of the pixels of row `y` from `x0` up to but not including `x1`.
pub open spec fn row_sum(img: GrayImage, y: int, x0: int, x1: int) -> int
    decreases x1 - x0,
{
    if x1 <= x0 {
        0
    } else {
        row_sum(img, y, x0, x1 - 1) + img.pixel(x1 - 1, y)
    }
}

/// Sum of the pixels of a rectangle.
pub open spec fn box_sum(img: GrayImage, x0: int, x1: int, y0: int, y1: int) -> int
    decreases y1 - y0,
{
    if y1 <= y0 {
        0
    } else {
        box_sum(img, x0, x1, y0, y1 - 1) + row_sum(img, y1 - 1, x0, x1)
    }
}

/// Mean, rounded down, of the pixels at most `r` from `(x, y)` either way that
/// lie in the image.
pub open spec fn box_mean(img: GrayImage, x: int, y: int, r: int) -> int {
    let (x0, x1) = (window_lo(x, r), window_hi(x, r, img.width as int));
    let (y0, y1) = (window_lo(y, r), window_hi(y, r, img.height as int));
    box_sum(img, x0, x1, y0, y1) / ((x1 - x0) * (y1 - y0))
}

/// All pixels of an image lie between two levels.
pub open spec fn levels_within(img: GrayImage, lo: int, hi: int) -> bool {
    forall|x: int, y: int|
        0 <= x < img.width && 0 <= y < img.height ==> lo <= #[trigger] img.pixel(x, y) <= hi
}

proof fn lemma_row_bounds(img: GrayImage, y: int, x0: int, x1: int, lo: int, hi: int)
    requires
        levels_within(img, lo, hi),
        0 <= y < img.height,
        0 <= x0 <= x1 <= img.width,
    ensures
        lo * (x1 - x0) <= row_sum(img, y, x0, x1) <= hi * (x1 - x0),
    decreases x1 - x0,
{
    if x0 < x1 {
        lemma_row_bounds(img, y, x0, x1 - 1, lo, hi);
        assert(lo <= img.pixel(x1 - 1, y) <= hi);
        assert(lo * (x1 - x0) == lo * (x1 - 1 - x0) + lo && hi * (x1 - x0) == hi * (x1 - 1 - x0)
            + hi) by (nonlinear_arith);
    } else {
        assert(lo * (x1 - x0) == 0 && hi * (x1 - x0) == 0) by (nonlinear_arith)
            requires
                x1 == x0,
        ;
    }
}

proof fn lemma_box_bounds(
    img: GrayImage,
    x0: int,
    x1: int,
    y0: int,
    y1: int,
    lo: int,
    hi: int,
)
    requires
        levels_within(img, lo, hi),
        0 <= x0 <= x1 <= img.width,
        0 <= y0 <= y1 <= img.height,
    ensures
        lo * ((x1 - x0) * (y1 - y0)) <= box_sum(img, x0, x1, y0, y1) <= hi * ((x1 - x0) * (y1
            - y0)),
    decreases y1 - y0,
{
    let w = x1 - x0;
    let h = y1 - y0;
    if y0 < y1 {
        lemma_box_bounds(img, x0, x1, y0, y1 - 1, lo, hi);
        lemma_row_bounds(img, y1 - 1, x0, x1, lo, hi);
        assert(lo * (w * h) == lo * (w * (h - 1)) + lo * w && hi * (w * h) == hi * (w * (h - 1))
            + hi * w) by (nonlinear_arith);
    } else {
        assert(lo * (w * h) == 0 && hi * (w * h) == 0) by (nonlinear_arith)
            requires
                h == 0,
        ;
    }
}

/// Blurring stays within the levels of the image; so a constant image is left
/// as it is.
pub proof fn law_blur_stays_within(img: GrayImage, x: int, y: int, r: nat, lo: int, hi: int)
    requires
        levels_within(img, lo, hi),
        0 <= x < img.width,
        0 <= y < img.height,
    ensures
        lo <= box_mean(img, x, y, r as int) <= hi,
{
    let (x0, x1) = (window_lo(x, r as int), window_hi(x, r as int, img.width as int));
    let (y0, y1) = (window_lo(y, r as int), window_hi(y, r as int, img.height as int));
    lemma_box_bounds(img, x0, x1, y0, y1, lo, hi);
    let n = (x1 - x0) * (y1 - y0);
    let s = box_sum(img, x0, x1, y0, y1);
    assert(n >= 1) by (nonlinear_arith)
        requires
            n == (x1 - x0) * (y1 - y0),
            x1 - x0 >= 1,
            y1 - y0 >= 1,
    ;
    assert(lo <= s / n <= hi) by (nonlinear_arith)
        requires
            n >= 1,
            lo * n <= s <= hi * n,
    ;
}

fn window(c: usize, r: usize, n: usize) -> (w: (usize, usize))
    requires
        c < n,
    ensures
        w.0 == window_lo(c as int, r as int),
        w.1 == window_hi(c as int, r as int, n as int),
        w.0 <= c < w.1 <= n,
{
    let lo: usize = if c < r {
        0
    } else {
        c - r
    };
    let hi: usize = if r >= n - c {
        n
    } else {
        c + r + 1
    };
    (lo, hi)
}

fn mean_at(img: &GrayImage, x: usize, y: usize, r: usize) -> (m: u8)
    requires
        img.covers(),
        x < img.width,
        y < img.height,
    ensures
        m == box_mean(*img, x as int, y as int, r as int),
{
    let (x0, x1): (usize, usize) = window(x, r, img.width);
    let (y0, y1): (usize, usize) = window(y, r, img.height);
    let len: usize = img.data.len();
    let mut sum: u128 = 0;
    let mut j: usize = y0;
    proof {
        assert(levels_within(*img, 0, 255));
    }
    while j < y1
        invariant
            y0 <= j <= y1 <= img.height,
            x0 < x1 <= img.width,
            img.covers(),
            len == img.data@.len(),
            levels_within(*img, 0, 255),
            sum == box_sum(*img, x0 as int, x1 as int, y0 as int, j as int),
        decreases y1 - j,
    {
        let mut i: usize = x0;
        let ghost before = sum;
        while i < x1
            invariant
                x0 <= i <= x1 <= img.width,
                y0 <= j < y1 <= img.height,
                img.covers(),
                len == img.data@.len(),
                levels_within(*img, 0, 255),
                before == box_sum(*img, x0 as int, x1 as int, y0 as int, j as int),
                sum == before + row_sum(*img, j as int, x0 as int, i as int),
            decreases x1 - i,
        {
            proof {
                lemma_inside(*img, i as int, j as int);
                lemma_box_bounds(*img, x0 as int, x1 as int, y0 as int, j as int, 0, 255);
                lemma_row_bounds(*img, j as int, x0 as int, i as int, 0, 255);
                let (w, h) = (x1 - x0, j - y0);
                lemma_area(*img, w, h);
            }
            sum = sum + img.at(i, j) as u128;
            i = i + 1;
        }
        j = j + 1;
    }
    proof {
        law_blur_stays_within(*img, x as int, y as int, r as nat, 0, 255);
        let (w, h) = (x1 - x0, y1 - y0);
        lemma_area(*img, w, h);
        assert(w * h >= 1) by (nonlinear_arith)
            requires
                w >= 1,
                h >= 1,
        ;
    }
    (sum / ((x1 - x0) as u128 * (y1 - y0) as u128)) as u8
}

proof fn lemma_inside(img: GrayImage, x: int, y: int)
    requires
        img.covers(),
        0 <= x < img.width,
        0 <= y < img.height,
    ensures
        y * img.width + x < img.data@.len(),
{
    let (w, h) = (img.width as int, img.height as int);
    assert(y * w + w <= h * w) by (nonlinear_arith)
        requires
            0 <= y < h,
            0 <= w,
    ;
}

proof fn lemma_area(img: GrayImage, w: int, h: int)
    requires
        img.covers(),
        0 <= w <= img.width,
        0 <= h <= img.height,
    ensures
        0 <= w * h <= usize::MAX,
{
    let (iw, ih) = (img.width as int, img.height as int);
    assert(0 <= w * h <= iw * ih) by (nonlinear_arith)
        requires
            0 <= w <= iw,
            0 <= h <= ih,
    ;
}

impl GrayImage {
    /// The image with each pixel replaced by the mean of the square of radius `r`
    /// around it, as far as that lies in the image.
    pub fn box_blur(&self, r: usize) -> (b: GrayImage)
        requires
            self.covers(),
        ensures
            b.width == self.width,
            b.height == self.height,
            b.data@ == Seq::new(
                self.width as nat * self.height as nat,
                |k: int|
                    box_mean(*self, k % self.width as int, k / self.width as int, r as int) as u8,
            ),
    {
        proof {
            lemma_area(*self, self.width as int, self.height as int);
        }
        let n: usize = self.width * self.height;
        let mut data: Vec<u8> = Vec::new();
        let mut k: usize = 0;
        while k < n
            invariant
                k <= n,
                n == self.width * self.height,
                self.covers(),
                data@.len() == k,
                forall|i: int|
                    0 <= i < k ==> #[trigger] data@[i] == box_mean(
                        *self,
                        i % self.width as int,
                        i / self.width as int,
                        r as int,
                    ) as u8,
            decreases n - k,
        {
            proof {
                let (w, h) = (self.width as int, self.height as int);
                assert(w > 0 && k as int / w < h && 0 <= k as int % w < w) by (nonlinear_arith)
                    requires
                        0 <= k < w * h,
                        0 <= w,
                        0 <= h,
                ;
            }
            data.push(mean_at(self, k % self.width, k / self.width, r));
            k = k + 1;
        }
        GrayImage { width: self.width, height: self.height, data }
    }
}

// ── What a blurred pixel is made of ───────────────────────────────────────────

proof fn lemma_row_change(a: GrayImage, b: GrayImage, px: int, py: int, y: int, x0: int, x1: int)
    requires
        differ_at(a, b, px, py),
        0 <= y < a.height,
        0 <= x0,
        x1 <= a.width,
    ensures
        row_sum(b, y, x0, x1) - row_sum(a, y, x0, x1) == if y == py && x0 <= px < x1 {
            b.pixel(px, py) - a.pixel(px, py)
        } else {
            0
        },
    decreases x1 - x0,
{
    if x0 < x1 {
        lemma_row_change(a, b, px, py, y, x0, x1 - 1);
        if !(x1 - 1 == px && y == py) {
            assert(a.pixel(x1 - 1, y) == b.pixel(x1 - 1, y));
        }
    }
}

proof fn lemma_box_change(
    a: GrayImage,
    b: GrayImage,
    px: int,
    py: int,
    x0: int,
    x1: int,
    y0: int,
    y1: int,
)
    requires
        differ_at(a, b, px, py),
        0 <= x0,
        x1 <= a.width,
        0 <= y0,
        y1 <= a.height,
    ensures
        box_sum(b, x0, x1, y0, y1) - box_sum(a, x0, x1, y0, y1) == if x0 <= px < x1 && y0 <= py < y1 {
            b.pixel(px, py) - a.pixel(px, py)
        } else {
            0
        },
    decreases y1 - y0,
{
    if y0 < y1 {
        lemma_box_change(a, b, px, py, x0, x1, y0, y1 - 1);
        lemma_row_change(a, b, px, py, y1 - 1, x0, x1);
    }
}

/// The sum of which a blurred pixel is the mean.
pub open spec fn window_sum(img: GrayImage, x: int, y: int, r: int) -> int {
    box_sum(
        img,
        window_lo(x, r),
        window_hi(x, r, img.width as int),
        window_lo(y, r),
        window_hi(y, r, img.height as int),
    )
}

/// Every pixel of the image at most `r` away across and down counts once, with its own
/// level, and no other pixel does: where two images differ in one pixel, their sums differ
/// by as much, or not at all.
pub proof fn law_blur_takes_the_window(
    a: GrayImage,
    b: GrayImage,
    x: int,
    y: int,
    r: nat,
    px: int,
    py: int,
)
    requires
        differ_at(a, b, px, py),
        0 <= x < a.width,
        0 <= y < a.height,
        0 <= px < a.width,
        0 <= py < a.height,
    ensures
        ({
            let change = window_sum(b, x, y, r as int) - window_sum(a, x, y, r as int);
            let near = x - r <= px <= x + r && y - r <= py <= y + r;
            &&& near ==> change == b.pixel(px, py) - a.pixel(px, py)
            &&& !near ==> change == 0
        }),
{
    let (x0, x1) = (window_lo(x, r as int), window_hi(x, r as int, a.width as int));
    let (y0, y1) = (window_lo(y, r as int), window_hi(y, r as int, a.height as int));
    lemma_box_change(a, b, px, py, x0, x1, y0, y1);
}

/// A blurred pixel is its sum shared out over the pixels of the window, which number
/// `(2 r + 1)` squared away from the edges, rounded down.
pub proof fn law_blur_divides_by_the_window(img: GrayImage, x: int, y: int, r: nat)
    requires
        r <= x,
        r <= y,
        x + r < img.width,
        y + r < img.height,
    ensures
        ({
            let n = (2 * r + 1) * (2 * r + 1);
            let m = box_mean(img, x, y, r as int);
            n * m <= window_sum(img, x, y, r as int) < n * m + n
        }),
{
    let k = 2 * r + 1;
    assert(window_hi(x, r as int, img.width as int) - window_lo(x, r as int) == k);
    assert(window_hi(y, r as int, img.height as int) - window_lo(y, r as int) == k);
    let n = k * k;
    let s = window_sum(img, x, y, r as int);
    assert(n >= 1) by (nonlinear_arith)
        requires
            n == k * k,
            k >= 1,
    ;
    vstd::arithmetic::div_mod::lemma_fundamental_div_mod(s, n as int);
}

} // verus!
