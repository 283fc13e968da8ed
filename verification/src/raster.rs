//! Grayscale rasters and the pixel operations of the pipeline:
//! inversion, mirroring, hole filling, counting, thresholding and the
//! dark runs of each row.
use vstd::prelude::*;

verus! {

/// An 8-bit grayscale image, stored row by row: the pixel at column `x`
/// of row `y` is `pixels[y * width + x]`.
#[derive(Debug, Clone)]
pub struct GrayImage {
    pub width: u32,
    pub height: u32,
    pub pixels: Vec<u8>,
}

/// `y * w + x` stays inside a `w` by `h` grid.
pub proof fn lemma_index_in_grid(w: int, h: int, x: int, y: int)
    requires
        0 <= x < w,
        0 <= y < h,
    ensures
        0 <= y * w + x < w * h,
        y * w + x < h * w,
        0 <= y * w,
        y * w + x + 1 <= w * h,
{
    assert(0 <= y * w + x < w * h && y * w + x < h * w && 0 <= y * w) by (nonlinear_arith)
        requires
            0 <= x < w,
            0 <= y < h,
    ;
}

/// Two grid positions share a row-major index only if they are equal.
pub proof fn lemma_index_injective(w: int, x1: int, y1: int, x2: int, y2: int)
    requires
        0 <= x1 < w,
        0 <= x2 < w,
        0 <= y1,
        0 <= y2,
        y1 * w + x1 == y2 * w + x2,
    ensures
        x1 == x2,
        y1 == y2,
{
    assert(y1 == y2) by (nonlinear_arith)
        requires
            0 <= x1 < w,
            0 <= x2 < w,
            0 <= y1,
            0 <= y2,
            y1 * w + x1 == y2 * w + x2,
    {
        if y1 < y2 {
            assert(y1 * w + w <= y2 * w);
        } else if y1 > y2 {
            assert(y2 * w + w <= y1 * w);
        }
    }
}

impl GrayImage {
    /// The pixel buffer has one byte per pixel.
    pub open spec fn wf(&self) -> bool {
        self.pixels@.len() == self.width * self.height
    }

    pub open spec fn in_bounds(&self, x: int, y: int) -> bool {
        0 <= x < self.width && 0 <= y < self.height
    }

    /// The pixel at column `x` of row `y`.
    pub open spec fn px(&self, x: int, y: int) -> u8 {
        self.pixels@[y * self.width + x]
    }

    /// An image of the given size with every pixel set to `value`.
    pub fn from_pixel(width: u32, height: u32, value: u8) -> (r: GrayImage)
        requires
            width * height <= usize::MAX,
        ensures
            r.wf(),
            r.width == width,
            r.height == height,
            forall|x: int, y: int| r.in_bounds(x, y) ==> #[trigger] r.px(x, y) == value,
    {
        let n = width as usize * height as usize;
        let pixels = vec![value; n];
        let r = GrayImage { width, height, pixels };
        assert forall|x: int, y: int| r.in_bounds(x, y) implies #[trigger] r.px(x, y) == value by {
            lemma_index_in_grid(width as int, height as int, x, y);
        }
        r
    }

    /// An image made from a row-major pixel buffer, when the buffer has
    /// exactly one byte per pixel.
    pub fn from_raw(width: u32, height: u32, pixels: Vec<u8>) -> (r: Option<GrayImage>)
        ensures
            match r {
                Some(img) => img.width == width && img.height == height && img.pixels@ == pixels@
                    && img.wf(),
                None => pixels@.len() != width * height,
            },
    {
        assert((width as u64) * (height as u64) <= u64::MAX) by (nonlinear_arith)
            requires
                width <= u32::MAX,
                height <= u32::MAX,
        ;
        if (width as u64) * (height as u64) == pixels.len() as u64 {
            Some(GrayImage { width, height, pixels })
        } else {
            None
        }
    }

    pub fn dimensions(&self) -> (r: (u32, u32))
        ensures
            r == (self.width, self.height),
    {
        (self.width, self.height)
    }

    pub fn get_pixel(&self, x: u32, y: u32) -> (r: u8)
        requires
            self.wf(),
            self.in_bounds(x as int, y as int),
        ensures
            r == self.px(x as int, y as int),
    {
        let n = self.pixels.len();
        proof {
            lemma_index_in_grid(self.width as int, self.height as int, x as int, y as int);
        }
        self.pixels[y as usize * self.width as usize + x as usize]
    }

    pub fn put_pixel(&mut self, x: u32, y: u32, value: u8)
        requires
            old(self).wf(),
            old(self).in_bounds(x as int, y as int),
        ensures
            final(self).wf(),
            final(self).width == old(self).width,
            final(self).height == old(self).height,
            final(self).px(x as int, y as int) == value,
            forall|a: int, b: int|
                #![trigger final(self).px(a, b)]
                final(self).in_bounds(a, b) && (a != x || b != y) ==> final(self).px(a, b) == old(self).px(a, b),
    {
        let n = self.pixels.len();
        proof {
            lemma_index_in_grid(self.width as int, self.height as int, x as int, y as int);
        }
        let idx = y as usize * self.width as usize + x as usize;
        self.pixels.set(idx, value);
        proof {
            assert forall|a: int, b: int|
                #![trigger self.px(a, b)]
                self.in_bounds(a, b) && (a != x || b != y) implies self.px(a, b) == old(self).px(a, b) by {
                lemma_index_in_grid(self.width as int, self.height as int, a, b);
                if b * self.width + a == idx {
                    lemma_index_injective(self.width as int, a, b, x as int, y as int);
                }
            }
        }
    }
}

/// Every pixel replaced by its complement `255 - p`.
pub open spec fn inverted(p: Seq<u8>) -> Seq<u8> {
    Seq::new(p.len(), |i: int| (255 - p[i]) as u8)
}

/// Replaces every pixel `p` by `255 - p`.
pub fn invert_image_gray(image: &mut GrayImage)
    ensures
        final(image).width == old(image).width,
        final(image).height == old(image).height,
        final(image).pixels@ == inverted(old(image).pixels@),
{
    let n = image.pixels.len();
    let mut i: usize = 0;
    while i < n
        invariant
            n == image.pixels@.len(),
            n == old(image).pixels@.len(),
            image.width == old(image).width,
            image.height == old(image).height,
            i <= n,
            forall|j: int| 0 <= j < i ==> image.pixels@[j] == (255 - old(image).pixels@[j]) as u8,
            forall|j: int| i <= j < n ==> image.pixels@[j] == old(image).pixels@[j],
        decreases n - i,
    {
        let p = image.pixels[i];
        image.pixels.set(i, 255 - p);
        i += 1;
    }
    assert(image.pixels@ =~= inverted(old(image).pixels@));
}

/// Inverting twice gives back the same pixels.
pub proof fn lemma_invert_involution(p: Seq<u8>)
    ensures
        inverted(inverted(p)) == p,
{
    assert(inverted(inverted(p)) =~= p);
}

/// The image mirrored left to right.
pub fn flip_horizontal(image: &GrayImage) -> (r: GrayImage)
    requires
        image.wf(),
    ensures
        r.wf(),
        r.width == image.width,
        r.height == image.height,
        forall|x: int, y: int| r.in_bounds(x, y) ==> #[trigger] r.px(x, y) == image.px(image.width - 1 - x, y),
{
    let w = image.width;
    let h = image.height;
    let mut out: Vec<u8> = Vec::new();
    let mut y: u32 = 0;
    while y < h
        invariant
            image.wf(),
            w == image.width,
            h == image.height,
            y <= h,
            out@.len() == y * w,
            forall|a: int, b: int|
                0 <= a < w && 0 <= b < y ==> #[trigger] out@[b * w + a] == image.px(w - 1 - a, b),
        decreases h - y,
    {
        let mut x: u32 = 0;
        while x < w
            invariant
                image.wf(),
                w == image.width,
                h == image.height,
                y < h,
                x <= w,
                out@.len() == y * w + x,
                forall|a: int, b: int|
                    0 <= a < w && 0 <= b < y ==> #[trigger] out@[b * w + a] == image.px(w - 1 - a, b),
                forall|a: int| 0 <= a < x ==> #[trigger] out@[y * w + a] == image.px(w - 1 - a, y as int),
            decreases w - x,
        {
            let p = image.get_pixel(w - 1 - x, y);
            proof {
                lemma_index_in_grid(w as int, h as int, x as int, y as int);
            }
            out.push(p);
            proof {
                assert forall|a: int, b: int|
                    0 <= a < w && 0 <= b < y implies #[trigger] out@[b * w + a] == image.px(w - 1 - a, b) by {
                    lemma_index_in_grid(w as int, y as int, a, b);
                }
                assert forall|a: int| 0 <= a < x + 1 implies #[trigger] out@[y * w + a] == image.px(w - 1 - a, y as int) by {
                    if a < x {
                    }
                }
            }
            x += 1;
        }
        proof {
            assert(out@.len() == (y + 1) * w) by (nonlinear_arith)
                requires
                    out@.len() == y * w + w,
            ;
            assert forall|a: int, b: int|
                0 <= a < w && 0 <= b < y + 1 implies #[trigger] out@[b * w + a] == image.px(w - 1 - a, b) by {
                if b == y {
                }
            }
        }
        y += 1;
    }
    assert(h * w == w * h) by (nonlinear_arith);
    let r = GrayImage { width: w, height: h, pixels: out };
    r
}

/// The number of pixels darker than `threshold`.
pub open spec fn count_below(p: Seq<u8>, threshold: u8) -> nat
    decreases p.len(),
{
    if p.len() == 0 {
        0
    } else {
        count_below(p.drop_last(), threshold) + if p.last() < threshold { 1nat } else { 0nat }
    }
}

/// How many pixels are darker than `threshold`.
pub fn count_dark_pixels(image: &GrayImage, threshold: u8) -> (r: usize)
    ensures
        r == count_below(image.pixels@, threshold),
{
    let mut n: usize = 0;
    let mut i: usize = 0;
    while i < image.pixels.len()
        invariant
            i <= image.pixels@.len(),
            n == count_below(image.pixels@.take(i as int), threshold),
            n <= i,
        decreases image.pixels.len() - i,
    {
        assert(image.pixels@.take(i + 1).drop_last() =~= image.pixels@.take(i as int));
        if image.pixels[i] < threshold {
            n += 1;
        }
        i += 1;
    }
    assert(image.pixels@.take(image.pixels@.len() as int) =~= image.pixels@);
    n
}

/// The material mask of an image: cell `y * width + x` holds whether the
/// pixel at column `x`, counted from the bottom row upwards as row `y`,
/// is brighter than `threshold`.
pub open spec fn material_mask(image: GrayImage, threshold: u8) -> Seq<bool> {
    Seq::new(
        (image.width * image.height) as nat,
        |i: int| image.px(i % image.width as int, image.height - 1 - i / image.width as int) > threshold,
    )
}

/// Thresholds an image into a material mask with the rows flipped so
/// that row 0 is the bottom of the picture, and counts the material
/// cells.
pub fn threshold_to_mask(image: &GrayImage, threshold: u8) -> (r: (Vec<bool>, usize))
    requires
        image.wf(),
    ensures
        r.0@.len() == image.width * image.height,
        forall|x: int, y: int|
            0 <= x < image.width && 0 <= y < image.height ==> #[trigger] r.0@[y * image.width + x]
                == (image.px(x, image.height - 1 - y) > threshold),
        r.1 == count_true(r.0@),
{
    let w = image.width;
    let h = image.height;
    let mut mask: Vec<bool> = Vec::new();
    let mut material: usize = 0;
    let mut y: u32 = 0;
    while y < h
        invariant
            image.wf(),
            w == image.width,
            h == image.height,
            y <= h,
            mask@.len() == y * w,
            material == count_true(mask@),
            material <= mask@.len(),
            forall|a: int, b: int|
                0 <= a < w && 0 <= b < y ==> #[trigger] mask@[b * w + a] == (image.px(a, h - 1 - b) > threshold),
        decreases h - y,
    {
        let mut x: u32 = 0;
        while x < w
            invariant
                image.wf(),
                w == image.width,
                h == image.height,
                y < h,
                x <= w,
                mask@.len() == y * w + x,
                material == count_true(mask@),
                material <= mask@.len(),
                forall|a: int, b: int|
                    0 <= a < w && 0 <= b < y ==> #[trigger] mask@[b * w + a] == (image.px(a, h - 1 - b) > threshold),
                forall|a: int| 0 <= a < x ==> #[trigger] mask@[y * w + a] == (image.px(a, h - 1 - y) > threshold),
            decreases w - x,
        {
            let v = image.get_pixel(x, h - 1 - y) > threshold;
            proof {
                lemma_index_in_grid(w as int, h as int, x as int, y as int);
                assert(mask@.push(v).drop_last() =~= mask@);
            }
            mask.push(v);
            let len = mask.len();
            if v {
                material += 1;
            }
            proof {
                assert forall|a: int, b: int|
                    0 <= a < w && 0 <= b < y implies #[trigger] mask@[b * w + a] == (image.px(a, h - 1 - b) > threshold) by {
                    lemma_index_in_grid(w as int, y as int, a, b);
                }
            }
            x += 1;
        }
        proof {
            assert(mask@.len() == (y + 1) * w) by (nonlinear_arith)
                requires
                    mask@.len() == y * w + w,
            ;
        }
        y += 1;
    }
    assert(h * w == w * h) by (nonlinear_arith);
    (mask, material)
}

/// Number of `true` cells.
pub open spec fn count_true(s: Seq<bool>) -> nat
    decreases s.len(),
{
    if s.len() == 0 {
        0
    } else {
        count_true(s.drop_last()) + if s.last() { 1nat } else { 0nat }
    }
}

/// A pixel is dark when its value is below 128.
pub open spec fn is_dark(image: GrayImage, x: int, y: int) -> bool {
    image.px(x, y) < 128
}

/// The pixel lies on the first or last row or column.
pub open spec fn on_border(image: GrayImage, x: int, y: int) -> bool {
    x == 0 || y == 0 || x == image.width - 1 || y == image.height - 1
}

/// Two positions are 4-neighbours.
pub open spec fn adjacent(a: (int, int), b: (int, int)) -> bool {
    ||| a.0 == b.0 && (a.1 - b.1 == 1 || b.1 - a.1 == 1)
    ||| a.1 == b.1 && (a.0 - b.0 == 1 || b.0 - a.0 == 1)
}

/// A walk through dark pixels, from a border pixel, one 4-neighbour step
/// at a time.
pub open spec fn dark_walk(image: GrayImage, walk: Seq<(int, int)>) -> bool {
    &&& walk.len() > 0
    &&& on_border(image, walk[0].0, walk[0].1)
    &&& forall|k: int|
        0 <= k < walk.len() ==> image.in_bounds(#[trigger] walk[k].0, walk[k].1) && is_dark(
            image,
            walk[k].0,
            walk[k].1,
        )
    &&& forall|k: int| 0 <= k < walk.len() - 1 ==> adjacent(#[trigger] walk[k], walk[k + 1])
}

/// The pixel can be reached from the border of the image through dark
/// pixels only.
pub open spec fn border_connected(image: GrayImage, x: int, y: int) -> bool {
    exists|walk: Seq<(int, int)>| dark_walk(image, walk) && #[trigger] walk.last() == (x, y)
}

/// What hole filling gives: every pixel that is not reachable from the
/// border through dark pixels becomes white; the others keep their value.
pub open spec fn holes_filled(image: GrayImage, out: GrayImage) -> bool {
    &&& out.wf()
    &&& out.width == image.width
    &&& out.height == image.height
    &&& forall|x: int, y: int|
        image.in_bounds(x, y) ==> #[trigger] out.px(x, y) == if border_connected(image, x, y) {
            image.px(x, y)
        } else {
            255u8
        }
}

/// The visited flag of a position.
pub open spec fn seen(v: Seq<bool>, w: int, x: int, y: int) -> bool {
    v[y * w + x]
}

/// The position is waiting on the stack.
pub open spec fn pending(s: Seq<(u32, u32)>, x: int, y: int) -> bool {
    exists|k: int| 0 <= k < s.len() && #[trigger] s[k] == (x as u32, y as u32)
}

/// Every dark neighbour of a visited pixel is visited or pending.
pub open spec fn closed_at(image: GrayImage, v: Seq<bool>, s: Seq<(u32, u32)>, x: int, y: int) -> bool {
    let w = image.width as int;
    seen(v, w, x, y) ==> {
        &&& (image.in_bounds(x - 1, y) && is_dark(image, x - 1, y)) ==> (seen(v, w, x - 1, y) || pending(s, x - 1, y))
        &&& (image.in_bounds(x + 1, y) && is_dark(image, x + 1, y)) ==> (seen(v, w, x + 1, y) || pending(s, x + 1, y))
        &&& (image.in_bounds(x, y - 1) && is_dark(image, x, y - 1)) ==> (seen(v, w, x, y - 1) || pending(s, x, y - 1))
        &&& (image.in_bounds(x, y + 1) && is_dark(image, x, y + 1)) ==> (seen(v, w, x, y + 1) || pending(s, x, y + 1))
    }
}

/// Number of `false` cells.
pub open spec fn count_false(s: Seq<bool>) -> nat
    decreases s.len(),
{
    if s.len() == 0 {
        0
    } else {
        count_false(s.drop_last()) + if s.last() { 0nat } else { 1nat }
    }
}

proof fn lemma_count_false_set(s: Seq<bool>, i: int)
    requires
        0 <= i < s.len(),
        !s[i],
    ensures
        count_false(s.update(i, true)) + 1 == count_false(s),
    decreases s.len(),
{
    if i == s.len() - 1 {
        assert(s.update(i, true).drop_last() =~= s.drop_last());
    } else {
        lemma_count_false_set(s.drop_last(), i);
        assert(s.update(i, true).drop_last() =~= s.drop_last().update(i, true));
    }
}

proof fn lemma_pending_push(s: Seq<(u32, u32)>, e: (u32, u32), x: int, y: int)
    ensures
        pending(s, x, y) ==> pending(s.push(e), x, y),
        pending(s.push(e), e.0 as int, e.1 as int),
{
    if pending(s, x, y) {
        let k = choose|k: int| 0 <= k < s.len() && #[trigger] s[k] == (x as u32, y as u32);
        assert(s.push(e)[k] == (x as u32, y as u32));
    }
    assert(s.push(e)[s.len() as int] == e);
}

proof fn lemma_pending_pop(s: Seq<(u32, u32)>, x: int, y: int)
    requires
        s.len() > 0,
        0 <= x <= u32::MAX,
        0 <= y <= u32::MAX,
        pending(s, x, y),
    ensures
        pending(s.drop_last(), x, y) || s.last() == (x as u32, y as u32),
{
    let k = choose|k: int| 0 <= k < s.len() && #[trigger] s[k] == (x as u32, y as u32);
    if k < s.len() - 1 {
        assert(s.drop_last()[k] == (x as u32, y as u32));
    }
}

/// A dark border pixel is reachable by the one-pixel walk.
proof fn lemma_border_start(image: GrayImage, x: int, y: int)
    requires
        image.in_bounds(x, y),
        on_border(image, x, y),
        is_dark(image, x, y),
    ensures
        border_connected(image, x, y),
{
    let walk = seq![(x, y)];
    assert(dark_walk(image, walk));
    assert(walk.last() == (x, y));
}

/// A dark neighbour of a reachable pixel is reachable.
proof fn lemma_extend(image: GrayImage, x: int, y: int, nx: int, ny: int)
    requires
        border_connected(image, x, y),
        image.in_bounds(nx, ny),
        is_dark(image, nx, ny),
        adjacent((x, y), (nx, ny)),
    ensures
        border_connected(image, nx, ny),
{
    let walk = choose|walk: Seq<(int, int)>| dark_walk(image, walk) && #[trigger] walk.last() == (x, y);
    let w2 = walk.push((nx, ny));
    assert forall|k: int| 0 <= k < w2.len() - 1 implies adjacent(#[trigger] w2[k], w2[k + 1]) by {
        if k < walk.len() - 1 {
            assert(w2[k] == walk[k] && w2[k + 1] == walk[k + 1]);
        }
    }
    assert forall|k: int| 0 <= k < w2.len() implies image.in_bounds(#[trigger] w2[k].0, w2[k].1) && is_dark(image, w2[k].0, w2[k].1) by {
        if k < walk.len() {
            assert(w2[k] == walk[k]);
        }
    }
    assert(dark_walk(image, w2));
    assert(w2.last() == (nx, ny));
}

/// Once the visited set holds every dark border pixel and is closed
/// under dark neighbours, it holds every reachable pixel.
proof fn lemma_closed_covers(image: GrayImage, v: Seq<bool>, walk: Seq<(int, int)>, k: int)
    requires
        image.wf(),
        v.len() == image.width * image.height,
        dark_walk(image, walk),
        0 <= k < walk.len(),
        forall|x: int, y: int|
            image.in_bounds(x, y) && on_border(image, x, y) && is_dark(image, x, y) ==> #[trigger] seen(
                v,
                image.width as int,
                x,
                y,
            ),
        forall|x: int, y: int| image.in_bounds(x, y) ==> #[trigger] closed_at(image, v, Seq::empty(), x, y),
    ensures
        seen(v, image.width as int, walk[k].0, walk[k].1),
    decreases k,
{
    assert(image.in_bounds(walk[k].0, walk[k].1));
    if k > 0 {
        lemma_closed_covers(image, v, walk, k - 1);
        assert(adjacent(walk[k - 1], walk[k]));
        assert(image.in_bounds(walk[k - 1].0, walk[k - 1].1));
        assert(closed_at(image, v, Seq::empty(), walk[k - 1].0, walk[k - 1].1));
    }
}

/// Fills the holes of a mask image: every pixel that cannot be reached
/// from the border through dark (below 128) pixels becomes white (255);
/// the other pixels keep their value.
pub fn flood_fill_holes(image: &GrayImage) -> (r: GrayImage)
    requires
        image.wf(),
        image.width * image.height <= u32::MAX,
        (image.width == 0) == (image.height == 0),
    ensures
        holes_filled(*image, r),
{
    let w = image.width;
    let h = image.height;
    let n = image.pixels.len();
    let ghost img = *image;
    if w == 0 {
        let r = GrayImage { width: w, height: h, pixels: image.pixels.clone() };
        return r;
    }
    let mut visited: Vec<bool> = vec![false; n];
    let mut stack: Vec<(u32, u32)> = Vec::new();
    let mut x: u32 = 0;
    while x < w
        invariant
            img == *image,
            image.wf(),
            w == image.width,
            h == image.height,
            w > 0 && h > 0,
            n == w * h,
            x <= w,
            visited@.len() == n,
            forall|i: int| 0 <= i < n ==> !#[trigger] visited@[i],
            forall|k: int|
                0 <= k < stack@.len() ==> image.in_bounds(#[trigger] stack@[k].0 as int, stack@[k].1 as int)
                    && border_connected(img, stack@[k].0 as int, stack@[k].1 as int),
            forall|a: int| 0 <= a < x && is_dark(img, a, 0) ==> #[trigger] pending(stack@, a, 0),
            forall|a: int| 0 <= a < x && is_dark(img, a, h - 1) ==> #[trigger] pending(stack@, a, h - 1),
        decreases w - x,
    {
        if image.get_pixel(x, 0) < 128 {
            proof {
                lemma_border_start(img, x as int, 0);
                assert forall|a: int| 0 <= a < x + 1 && is_dark(img, a, 0) implies #[trigger] pending(stack@.push((x, 0)), a, 0) by {
                    lemma_pending_push(stack@, (x, 0), a, 0);
                }
                assert forall|a: int| 0 <= a < x && is_dark(img, a, h - 1) implies #[trigger] pending(stack@.push((x, 0)), a, h - 1) by {
                    lemma_pending_push(stack@, (x, 0), a, h - 1);
                }
            }
            stack.push((x, 0));
        }
        if image.get_pixel(x, h - 1) < 128 {
            proof {
                lemma_border_start(img, x as int, h - 1);
                assert forall|a: int| 0 <= a < x + 1 && is_dark(img, a, 0) implies #[trigger] pending(stack@.push((x, (h - 1) as u32)), a, 0) by {
                    lemma_pending_push(stack@, (x, (h - 1) as u32), a, 0);
                }
                assert forall|a: int| 0 <= a < x + 1 && is_dark(img, a, h - 1) implies #[trigger] pending(stack@.push((x, (h - 1) as u32)), a, h - 1) by {
                    lemma_pending_push(stack@, (x, (h - 1) as u32), a, h - 1);
                }
            }
            stack.push((x, h - 1));
        }
        x += 1;
    }
    let mut y: u32 = 0;
    while y < h
        invariant
            img == *image,
            image.wf(),
            w == image.width,
            h == image.height,
            w > 0 && h > 0,
            n == w * h,
            y <= h,
            visited@.len() == n,
            forall|i: int| 0 <= i < n ==> !#[trigger] visited@[i],
            forall|k: int|
                0 <= k < stack@.len() ==> image.in_bounds(#[trigger] stack@[k].0 as int, stack@[k].1 as int)
                    && border_connected(img, stack@[k].0 as int, stack@[k].1 as int),
            forall|a: int| 0 <= a < w && is_dark(img, a, 0) ==> #[trigger] pending(stack@, a, 0),
            forall|a: int| 0 <= a < w && is_dark(img, a, h - 1) ==> #[trigger] pending(stack@, a, h - 1),
            forall|b: int| 0 <= b < y && is_dark(img, 0, b) ==> #[trigger] pending(stack@, 0, b),
            forall|b: int| 0 <= b < y && is_dark(img, w - 1, b) ==> #[trigger] pending(stack@, w - 1, b),
        decreases h - y,
    {
        if image.get_pixel(0, y) < 128 {
            proof {
                lemma_border_start(img, 0, y as int);
                let s2 = stack@.push((0, y));
                assert forall|a: int| 0 <= a < w && is_dark(img, a, 0) implies #[trigger] pending(s2, a, 0) by {
                    lemma_pending_push(stack@, (0, y), a, 0);
                }
                assert forall|a: int| 0 <= a < w && is_dark(img, a, h - 1) implies #[trigger] pending(s2, a, h - 1) by {
                    lemma_pending_push(stack@, (0, y), a, h - 1);
                }
                assert forall|b: int| 0 <= b < y + 1 && is_dark(img, 0, b) implies #[trigger] pending(s2, 0, b) by {
                    lemma_pending_push(stack@, (0, y), 0, b);
                }
                assert forall|b: int| 0 <= b < y && is_dark(img, w - 1, b) implies #[trigger] pending(s2, w - 1, b) by {
                    lemma_pending_push(stack@, (0, y), w - 1, b);
                }
            }
            stack.push((0, y));
        }
        if image.get_pixel(w - 1, y) < 128 {
            proof {
                lemma_border_start(img, w - 1, y as int);
                let s2 = stack@.push(((w - 1) as u32, y));
                assert forall|a: int| 0 <= a < w && is_dark(img, a, 0) implies #[trigger] pending(s2, a, 0) by {
                    lemma_pending_push(stack@, ((w - 1) as u32, y), a, 0);
                }
                assert forall|a: int| 0 <= a < w && is_dark(img, a, h - 1) implies #[trigger] pending(s2, a, h - 1) by {
                    lemma_pending_push(stack@, ((w - 1) as u32, y), a, h - 1);
                }
                assert forall|b: int| 0 <= b < y + 1 && is_dark(img, 0, b) implies #[trigger] pending(s2, 0, b) by {
                    lemma_pending_push(stack@, ((w - 1) as u32, y), 0, b);
                }
                assert forall|b: int| 0 <= b < y + 1 && is_dark(img, w - 1, b) implies #[trigger] pending(s2, w - 1, b) by {
                    lemma_pending_push(stack@, ((w - 1) as u32, y), w - 1, b);
                }
            }
            stack.push((w - 1, y));
        }
        y += 1;
    }
    assert forall|x: int, y: int| image.in_bounds(x, y) implies #[trigger] closed_at(img, visited@, stack@, x, y) by {
        lemma_index_in_grid(w as int, h as int, x, y);
    }
    assert forall|x: int, y: int| image.in_bounds(x, y) implies !#[trigger] seen(visited@, w as int, x, y) by {
        lemma_index_in_grid(w as int, h as int, x, y);
    }
    while stack.len() > 0
        invariant
            img == *image,
            image.wf(),
            w == image.width,
            h == image.height,
            w > 0 && h > 0,
            n == w * h,
            n <= u32::MAX,
            visited@.len() == n,
            forall|k: int|
                0 <= k < stack@.len() ==> image.in_bounds(#[trigger] stack@[k].0 as int, stack@[k].1 as int)
                    && border_connected(img, stack@[k].0 as int, stack@[k].1 as int),
            forall|x: int, y: int|
                image.in_bounds(x, y) && #[trigger] seen(visited@, w as int, x, y) ==> border_connected(img, x, y),
            forall|x: int, y: int| image.in_bounds(x, y) ==> #[trigger] closed_at(img, visited@, stack@, x, y),
            forall|x: int, y: int|
                image.in_bounds(x, y) && on_border(img, x, y) && is_dark(img, x, y) ==> seen(visited@, w as int, x, y)
                    || #[trigger] pending(stack@, x, y),
        decreases count_false(visited@) * 5 + stack@.len(),
    {
        let ghost s0 = stack@;
        let ghost v0 = visited@;
        let (cx, cy) = stack.pop().unwrap();
        proof {
            assert(s0[s0.len() - 1] == (cx, cy));
            assert(stack@ =~= s0.drop_last());
        }
        let ghost top = (cx, cy);
        proof {
            lemma_index_in_grid(w as int, h as int, cx as int, cy as int);
        }
        let idx = (cy as usize) * (w as usize) + (cx as usize);
        if visited[idx] {
            proof {
                assert forall|x: int, y: int| image.in_bounds(x, y) implies #[trigger] closed_at(img, visited@, stack@, x, y) by {
                    assert(closed_at(img, v0, s0, x, y));
                    if seen(visited@, w as int, x, y) {
                        if image.in_bounds(x - 1, y) && pending(s0, x - 1, y) {
                            lemma_pending_pop(s0, x - 1, y);
                        }
                        if image.in_bounds(x + 1, y) && pending(s0, x + 1, y) {
                            lemma_pending_pop(s0, x + 1, y);
                        }
                        if image.in_bounds(x, y - 1) && pending(s0, x, y - 1) {
                            lemma_pending_pop(s0, x, y - 1);
                        }
                        if image.in_bounds(x, y + 1) && pending(s0, x, y + 1) {
                            lemma_pending_pop(s0, x, y + 1);
                        }
                    }
                }
                assert forall|x: int, y: int|
                    image.in_bounds(x, y) && on_border(img, x, y) && is_dark(img, x, y) implies seen(visited@, w as int, x, y)
                        || #[trigger] pending(stack@, x, y) by {
                    if pending(s0, x, y) {
                        lemma_pending_pop(s0, x, y);
                    }
                }
            }
            continue;
        }
        proof {
            lemma_count_false_set(visited@, idx as int);
        }
        visited.set(idx, true);
        proof {
            assert(border_connected(img, cx as int, cy as int));
            assert forall|x: int, y: int|
                image.in_bounds(x, y) && #[trigger] seen(visited@, w as int, x, y) implies border_connected(img, x, y) by {
                lemma_index_in_grid(w as int, h as int, x, y);
                if y * w + x != idx {
                    assert(seen(v0, w as int, x, y));
                } else {
                    lemma_index_injective(w as int, x, y, cx as int, cy as int);
                }
            }
        }
        let ghost v1 = visited@;
        let ghost s1 = stack@;
        if cx > 0 {
            proof {
                lemma_index_in_grid(w as int, h as int, cx - 1, cy as int);
            }
            let j = idx - 1;
            if !visited[j] && image.get_pixel(cx - 1, cy) < 128 {
                proof {
                    lemma_extend(img, cx as int, cy as int, cx - 1, cy as int);
                }
                stack.push((cx - 1, cy));
            }
        }
        let ghost s2 = stack@;
        if cx + 1 < w {
            proof {
                lemma_index_in_grid(w as int, h as int, cx + 1, cy as int);
            }
            let j = idx + 1;
            if !visited[j] && image.get_pixel(cx + 1, cy) < 128 {
                proof {
                    lemma_extend(img, cx as int, cy as int, cx + 1, cy as int);
                }
                stack.push((cx + 1, cy));
            }
        }
        let ghost s3 = stack@;
        if cy > 0 {
            proof {
                lemma_index_in_grid(w as int, h as int, cx as int, cy - 1);
            }
            proof {
                assert((cy - 1) * w == cy * w - w) by (nonlinear_arith);
            }
            let j = idx - w as usize;
            if !visited[j] && image.get_pixel(cx, cy - 1) < 128 {
                proof {
                    lemma_extend(img, cx as int, cy as int, cx as int, cy - 1);
                }
                stack.push((cx, cy - 1));
            }
        }
        let ghost s4 = stack@;
        if cy + 1 < h {
            proof {
                lemma_index_in_grid(w as int, h as int, cx as int, cy + 1);
            }
            proof {
                assert((cy + 1) * w == cy * w + w) by (nonlinear_arith);
            }
            let j = idx + w as usize;
            if !visited[j] && image.get_pixel(cx, cy + 1) < 128 {
                proof {
                    lemma_extend(img, cx as int, cy as int, cx as int, cy + 1);
                }
                stack.push((cx, cy + 1));
            }
        }
        proof {
            lemma_flood_step(img, v0, s0, visited@, s1, s2, s3, s4, stack@, cx as int, cy as int);
        }
    }
    proof {
        assert forall|x: int, y: int| image.in_bounds(x, y) && border_connected(img, x, y) implies #[trigger] seen(visited@, w as int, x, y) by {
            let walk = choose|walk: Seq<(int, int)>| dark_walk(img, walk) && #[trigger] walk.last() == (x, y);
            assert forall|a: int, b: int|
                image.in_bounds(a, b) && on_border(img, a, b) && is_dark(img, a, b) implies #[trigger] seen(visited@, w as int, a, b) by {
                assert(!pending(stack@, a, b));
            }
            assert forall|a: int, b: int| image.in_bounds(a, b) implies #[trigger] closed_at(img, visited@, Seq::empty(), a, b) by {
                assert(closed_at(img, visited@, stack@, a, b));
                assert(stack@ =~= Seq::<(u32, u32)>::empty());
            }
            lemma_closed_covers(img, visited@, walk, walk.len() - 1);
        }
    }
    let mut out = image.pixels.clone();
    let mut i: usize = 0;
    while i < n
        invariant
            n == out@.len(),
            n == visited@.len(),
            n == image.pixels@.len(),
            i <= n,
            forall|j: int| 0 <= j < i ==> #[trigger] out@[j] == if visited@[j] { image.pixels@[j] } else { 255u8 },
            forall|j: int| i <= j < n ==> #[trigger] out@[j] == image.pixels@[j],
        decreases n - i,
    {
        if !visited[i] {
            out.set(i, 255);
        }
        i += 1;
    }
    let r = GrayImage { width: w, height: h, pixels: out };
    proof {
        assert forall|x: int, y: int| image.in_bounds(x, y) implies #[trigger] r.px(x, y) == if border_connected(img, x, y) {
            image.px(x, y)
        } else {
            255u8
        } by {
            lemma_index_in_grid(w as int, h as int, x, y);
            let j = y * w + x;
            assert(r.px(x, y) == out@[j]);
            assert(image.px(x, y) == image.pixels@[j]);
            assert(out@[j] == if visited@[j] { image.pixels@[j] } else { 255u8 });
            assert(seen(visited@, w as int, x, y) == visited@[j]);
            if border_connected(img, x, y) {
                assert(seen(visited@, w as int, x, y));
            } else {
                assert(!seen(visited@, w as int, x, y));
            }
        }
    }
    r
}

/// After one visit the invariants of the fill hold again.
proof fn lemma_flood_step(
    img: GrayImage,
    v0: Seq<bool>,
    s0: Seq<(u32, u32)>,
    v1: Seq<bool>,
    s1: Seq<(u32, u32)>,
    s2: Seq<(u32, u32)>,
    s3: Seq<(u32, u32)>,
    s4: Seq<(u32, u32)>,
    s5: Seq<(u32, u32)>,
    cx: int,
    cy: int,
)
    requires
        img.wf(),
        img.in_bounds(cx, cy),
        v0.len() == img.width * img.height,
        s0.len() > 0,
        s0.last() == (cx as u32, cy as u32),
        s1 == s0.drop_last(),
        v1 == v0.update(cy * img.width + cx, true),
        forall|x: int, y: int| img.in_bounds(x, y) ==> #[trigger] closed_at(img, v0, s0, x, y),
        forall|x: int, y: int|
            img.in_bounds(x, y) && on_border(img, x, y) && is_dark(img, x, y) ==> seen(v0, img.width as int, x, y)
                || #[trigger] pending(s0, x, y),
        // each push step appends the neighbour when it is in bounds, unvisited and dark
        s2 == (if cx > 0 && !seen(v1, img.width as int, cx - 1, cy) && is_dark(img, cx - 1, cy) {
            s1.push(((cx - 1) as u32, cy as u32))
        } else {
            s1
        }),
        s3 == (if cx + 1 < img.width && !seen(v1, img.width as int, cx + 1, cy) && is_dark(img, cx + 1, cy) {
            s2.push(((cx + 1) as u32, cy as u32))
        } else {
            s2
        }),
        s4 == (if cy > 0 && !seen(v1, img.width as int, cx, cy - 1) && is_dark(img, cx, cy - 1) {
            s3.push((cx as u32, (cy - 1) as u32))
        } else {
            s3
        }),
        s5 == (if cy + 1 < img.height && !seen(v1, img.width as int, cx, cy + 1) && is_dark(img, cx, cy + 1) {
            s4.push((cx as u32, (cy + 1) as u32))
        } else {
            s4
        }),
    ensures
        forall|x: int, y: int| img.in_bounds(x, y) ==> #[trigger] closed_at(img, v1, s5, x, y),
        forall|x: int, y: int|
            img.in_bounds(x, y) && on_border(img, x, y) && is_dark(img, x, y) ==> seen(v1, img.width as int, x, y)
                || #[trigger] pending(s5, x, y),
{
    let w = img.width as int;
    let h = img.height as int;
    assert forall|x: int, y: int| img.in_bounds(x, y) implies seen(v1, w, x, y) == (seen(v0, w, x, y) || (x == cx && y == cy)) by {
        lemma_seen_update(img, v0, cx, cy, x, y);
    }
    // everything pending after the pop is still pending after the pushes
    assert forall|x: int, y: int| #[trigger] pending(s1, x, y) implies pending(s5, x, y) by {
        lemma_pending_push(s1, ((cx - 1) as u32, cy as u32), x, y);
        lemma_pending_push(s2, ((cx + 1) as u32, cy as u32), x, y);
        lemma_pending_push(s3, (cx as u32, (cy - 1) as u32), x, y);
        lemma_pending_push(s4, (cx as u32, (cy + 1) as u32), x, y);
    }
    assert forall|x: int, y: int| img.in_bounds(x, y) && #[trigger] pending(s0, x, y) implies pending(s5, x, y) || (x == cx && y == cy) by {
        lemma_pending_pop(s0, x, y);
        if pending(s1, x, y) {
        }
    }
    // the pushed neighbours are pending at the end
    if cx > 0 && !seen(v1, w, cx - 1, cy) && is_dark(img, cx - 1, cy) {
        lemma_pending_push(s1, ((cx - 1) as u32, cy as u32), cx - 1, cy);
        assert(pending(s2, cx - 1, cy));
        lemma_pending_push(s2, ((cx + 1) as u32, cy as u32), cx - 1, cy);
        lemma_pending_push(s3, (cx as u32, (cy - 1) as u32), cx - 1, cy);
        lemma_pending_push(s4, (cx as u32, (cy + 1) as u32), cx - 1, cy);
    }
    if cx + 1 < w && !seen(v1, w, cx + 1, cy) && is_dark(img, cx + 1, cy) {
        lemma_pending_push(s2, ((cx + 1) as u32, cy as u32), cx + 1, cy);
        lemma_pending_push(s3, (cx as u32, (cy - 1) as u32), cx + 1, cy);
        lemma_pending_push(s4, (cx as u32, (cy + 1) as u32), cx + 1, cy);
    }
    if cy > 0 && !seen(v1, w, cx, cy - 1) && is_dark(img, cx, cy - 1) {
        lemma_pending_push(s3, (cx as u32, (cy - 1) as u32), cx, cy - 1);
        lemma_pending_push(s4, (cx as u32, (cy + 1) as u32), cx, cy - 1);
    }
    if cy + 1 < h && !seen(v1, w, cx, cy + 1) && is_dark(img, cx, cy + 1) {
        lemma_pending_push(s4, (cx as u32, (cy + 1) as u32), cx, cy + 1);
    }
    assert forall|x: int, y: int| img.in_bounds(x, y) implies #[trigger] closed_at(img, v1, s5, x, y) by {
        assert(closed_at(img, v0, s0, x, y));
        if img.in_bounds(x - 1, y) && pending(s0, x - 1, y) {
            assert(pending(s5, x - 1, y) || (x - 1 == cx && y == cy));
        }
        if img.in_bounds(x + 1, y) && pending(s0, x + 1, y) {
            assert(pending(s5, x + 1, y) || (x + 1 == cx && y == cy));
        }
        if img.in_bounds(x, y - 1) && pending(s0, x, y - 1) {
            assert(pending(s5, x, y - 1) || (x == cx && y - 1 == cy));
        }
        if img.in_bounds(x, y + 1) && pending(s0, x, y + 1) {
            assert(pending(s5, x, y + 1) || (x == cx && y + 1 == cy));
        }
        if img.in_bounds(x - 1, y) {
            assert(seen(v1, w, x - 1, y) == (seen(v0, w, x - 1, y) || (x - 1 == cx && y == cy)));
        }
        if img.in_bounds(x + 1, y) {
            assert(seen(v1, w, x + 1, y) == (seen(v0, w, x + 1, y) || (x + 1 == cx && y == cy)));
        }
        if img.in_bounds(x, y - 1) {
            assert(seen(v1, w, x, y - 1) == (seen(v0, w, x, y - 1) || (x == cx && y - 1 == cy)));
        }
        if img.in_bounds(x, y + 1) {
            assert(seen(v1, w, x, y + 1) == (seen(v0, w, x, y + 1) || (x == cx && y + 1 == cy)));
        }
    }
    assert forall|x: int, y: int|
        img.in_bounds(x, y) && on_border(img, x, y) && is_dark(img, x, y) implies seen(v1, w, x, y)
            || #[trigger] pending(s5, x, y) by {
        if pending(s0, x, y) {
        }
    }
}

/// Setting the visited flag of one position changes no other position.
proof fn lemma_seen_update(img: GrayImage, v0: Seq<bool>, cx: int, cy: int, x: int, y: int)
    requires
        img.in_bounds(cx, cy),
        img.in_bounds(x, y),
        v0.len() == img.width * img.height,
    ensures
        seen(v0.update(cy * img.width + cx, true), img.width as int, x, y) == (seen(v0, img.width as int, x, y) || (
        x == cx && y == cy)),
{
    let w = img.width as int;
    lemma_index_in_grid(w, img.height as int, x, y);
    lemma_index_in_grid(w, img.height as int, cx, cy);
    if y * w + x == cy * w + cx {
        lemma_index_injective(w, x, y, cx, cy);
    }
}

/// Filling holes twice fills nothing more: once the holes are filled,
/// every dark pixel is reachable from the border.
pub proof fn lemma_fill_idempotent(a: GrayImage, b: GrayImage, c: GrayImage)
    requires
        holes_filled(a, b),
        holes_filled(b, c),
    ensures
        c.width == b.width,
        c.height == b.height,
        forall|x: int, y: int| b.in_bounds(x, y) ==> #[trigger] c.px(x, y) == b.px(x, y),
{
    assert forall|x: int, y: int| b.in_bounds(x, y) implies #[trigger] c.px(x, y) == b.px(x, y) by {
        if border_connected(a, x, y) && !border_connected(b, x, y) {
            let w = choose|w: Seq<(int, int)>| dark_walk(a, w) && #[trigger] w.last() == (x, y);
            assert forall|k: int| 0 <= k < w.len() implies b.in_bounds(#[trigger] w[k].0, w[k].1) && is_dark(
                b,
                w[k].0,
                w[k].1,
            ) by {
                let prefix = w.take(k + 1);
                assert(dark_walk(a, prefix));
                assert(prefix.last() == w[k]);
                assert(border_connected(a, w[k].0, w[k].1));
            }
            assert(dark_walk(b, w));
        }
    }
}

/// Where the dark run of row `y` that reaches column `x` ends: the first
/// column at or after `x` whose pixel is not darker than `t`, or the
/// width.
pub open spec fn dark_run_end(image: GrayImage, t: u8, y: int, x: int) -> int
    decreases image.width - x,
{
    if x >= image.width || image.px(x, y) >= t {
        x
    } else {
        dark_run_end(image, t, y, x + 1)
    }
}

/// A dark run ends between where it is asked about and the width.
pub proof fn lemma_dark_run_end_bounds(image: GrayImage, t: u8, y: int, x: int)
    requires
        x <= image.width,
    ensures
        x <= dark_run_end(image, t, y, x) <= image.width,
    decreases image.width - x,
{
    if x < image.width && image.px(x, y) < t {
        lemma_dark_run_end_bounds(image, t, y, x + 1);
    }
}

/// The maximal runs of pixels darker than `t` in row `y`, from column
/// `x` on, left to right, each as its first and last column.
pub open spec fn dark_runs_from(image: GrayImage, t: u8, y: int, x: int) -> Seq<(int, int)>
    decreases image.width - x,
{
    if x < 0 || x >= image.width {
        Seq::empty()
    } else if image.px(x, y) >= t {
        dark_runs_from(image, t, y, x + 1)
    } else {
        let e = dark_run_end(image, t, y, x + 1);
        proof {
            lemma_dark_run_end_bounds(image, t, y, x + 1);
        }
        seq![(x, e - 1)] + dark_runs_from(image, t, y, e)
    }
}

/// The dark runs of rows `0 .. y`, row by row, each as its row, first
/// and last column.
pub open spec fn dark_runs(image: GrayImage, t: u8, y: int) -> Seq<(int, int, int)>
    decreases y,
{
    if y <= 0 {
        Seq::empty()
    } else {
        dark_runs(image, t, y - 1) + dark_runs_from(image, t, y - 1, 0).map_values(
            |r: (int, int)| (y - 1, r.0, r.1),
        )
    }
}

/// The runs taken alternately left to right and right to left: every
/// second run has its two ends swapped.
pub open spec fn alternating(runs: Seq<(int, int, int)>) -> Seq<(int, int, int)> {
    Seq::new(runs.len(), |k: int| if k % 2 == 0 { runs[k] } else { (runs[k].0, runs[k].2, runs[k].1) })
}

pub open spec fn runs_view(r: Seq<(u32, u32, u32)>) -> Seq<(int, int, int)> {
    r.map_values(|q: (u32, u32, u32)| (q.0 as int, q.1 as int, q.2 as int))
}

/// The dark runs of the image, row by row from the first, each as its
/// row and the two columns it is cut between; the direction alternates
/// from one run to the next, the first going left to right.
pub fn raster_runs(image: &GrayImage, threshold: u8) -> (r: Vec<(u32, u32, u32)>)
    requires
        image.wf(),
    ensures
        runs_view(r@) == alternating(dark_runs(*image, threshold, image.height as int)),
{
    let w = image.width;
    let h = image.height;
    let n = image.pixels.len();
    let mut out: Vec<(u32, u32, u32)> = Vec::new();
    let mut left_to_right = true;
    let mut y: u32 = 0;
    while y < h
        invariant
            y <= h,
            w == image.width,
            h == image.height,
            n == image.pixels@.len(),
            image.wf(),
            runs_view(out@) == alternating(dark_runs(*image, threshold, y as int)),
            left_to_right == (out@.len() % 2 == 0),
        decreases h - y,
    {
        let ghost done = dark_runs(*image, threshold, y as int);
        let ghost mut acc: Seq<(int, int)> = Seq::empty();
        let mut x: u32 = 0;
        while x < w
            invariant
                x <= w,
                y < h,
                w == image.width,
                h == image.height,
                n == image.pixels@.len(),
                image.wf(),
                done == dark_runs(*image, threshold, y as int),
                dark_runs_from(*image, threshold, y as int, 0) == acc + dark_runs_from(
                    *image,
                    threshold,
                    y as int,
                    x as int,
                ),
                runs_view(out@) == alternating(done + acc.map_values(|q: (int, int)| (y as int, q.0, q.1))),
                left_to_right == (out@.len() % 2 == 0),
            decreases w - x,
        {
            if image.get_pixel(x, y) >= threshold {
                x += 1;
            } else {
                let start = x;
                x += 1;
                while x < w && image.get_pixel(x, y) < threshold
                    invariant
                        start < x <= w,
                        y < h,
                        w == image.width,
                        h == image.height,
                        n == image.pixels@.len(),
                        image.wf(),
                        dark_run_end(*image, threshold, y as int, start + 1) == dark_run_end(
                            *image,
                            threshold,
                            y as int,
                            x as int,
                        ),
                    decreases w - x,
                {
                    x += 1;
                }
                proof {
                    assert(dark_run_end(*image, threshold, y as int, x as int) == x);
                }
                let end = x - 1;
                let ghost before = done + acc.map_values(|q: (int, int)| (y as int, q.0, q.1));
                let run = if left_to_right { (y, start, end) } else { (y, end, start) };
                let ghost old_out = out@;
                assert(runs_view(old_out) == alternating(before));
                assert(runs_view(old_out).len() == old_out.len());
                out.push(run);
                left_to_right = !left_to_right;
                proof {
                    let q = (start as int, end as int);
                    let acc2 = acc.push(q);
                    assert(acc2.map_values(|q: (int, int)| (y as int, q.0, q.1)) =~= acc.map_values(
                        |q: (int, int)| (y as int, q.0, q.1),
                    ).push((y as int, start as int, end as int)));
                    let after = done + acc2.map_values(|q: (int, int)| (y as int, q.0, q.1));
                    assert(after =~= before.push((y as int, start as int, end as int)));
                    assert forall|k: int| 0 <= k < out@.len() implies #[trigger] runs_view(out@)[k] == alternating(
                        after,
                    )[k] by {
                        if k < old_out.len() {
                            assert(out@[k] == old_out[k]);
                            assert(runs_view(old_out)[k] == alternating(before)[k]);
                        }
                    }
                    assert(runs_view(out@) =~= alternating(after));
                    assert(acc + dark_runs_from(*image, threshold, y as int, start as int) =~= acc2
                        + dark_runs_from(*image, threshold, y as int, x as int));
                    acc = acc2;
                }
            }
        }
        proof {
            assert(acc + dark_runs_from(*image, threshold, y as int, w as int) =~= acc);
            assert(dark_runs(*image, threshold, y + 1) =~= done + acc.map_values(
                |q: (int, int)| (y as int, q.0, q.1),
            ));
        }
        y += 1;
    }
    out
}

} // verus!
