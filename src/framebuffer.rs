use vstd::prelude::*;

verus! {

/// Whether pixel `(px, py)` lies in the `[x, x + w) × [y, y + h)` rectangle.
pub open spec fn in_rect(px: int, py: int, x: int, y: int, w: int, h: int) -> bool {
    x <= px < x + w && y <= py < y + h
}

/// The pixels of a row-major `img_w`-wide image after the rectangle
/// `[x, x + w) × [y, y + h)` is filled with `color`, clipped to the image.
pub open spec fn rect_filled(
    pixels: Seq<u32>,
    img_w: int,
    x: int,
    y: int,
    w: int,
    h: int,
    color: u32,
) -> Seq<u32> {
    Seq::new(
        pixels.len(),
        |k: int|
            if in_rect(k % img_w, k / img_w, x, y, w, h) {
                color
            } else {
                pixels[k]
            },
    )
}

/// The pixels of a row-major `img_w × img_h` image after pixel `(px, py)` is set
/// to `color`, when it lies inside the image; unchanged otherwise.
pub open spec fn pixel_set(pixels: Seq<u32>, img_w: int, img_h: int, px: int, py: int, color: u32) -> Seq<u32> {
    if 0 <= px < img_w && 0 <= py < img_h {
        pixels.update(px + py * img_w, color)
    } else {
        pixels
    }
}

proof fn lemma_index_split(k: int, w: int, px: int, py: int)
    requires
        w > 0,
        0 <= px < w,
        0 <= py,
        k == px + py * w,
    ensures
        k % w == px,
        k / w == py,
{
    vstd::arithmetic::div_mod::lemma_fundamental_div_mod_converse(k, w, py, px);
}

/// Fills with `color` every pixel of `[x, x + w) × [y, y + h)` that lies inside the
/// `img_w × img_h` image held row-major in `image`; the rest of the rectangle is
/// dropped.
pub fn draw_rectangle(
    image: &mut Vec<u32>,
    img_w: usize,
    img_h: usize,
    x: usize,
    y: usize,
    w: usize,
    h: usize,
    color: u32,
)
    requires
        old(image).len() == img_w as int * img_h as int,
    ensures
        final(image)@ == rect_filled(old(image)@, img_w as int, x as int, y as int, w as int, h as int, color),
{
    if x >= img_w || y >= img_h {
        assert(final(image)@ =~= rect_filled(old(image)@, img_w as int, x as int, y as int, w as int, h as int, color)) by {
            assert forall|k: int| 0 <= k < image.len() implies #[trigger] image@[k] == rect_filled(old(image)@, img_w as int, x as int, y as int, w as int, h as int, color)[k] by {
                if img_w == 0 {
                    assert(image.len() == 0) by (nonlinear_arith)
                        requires image.len() == img_w as int * img_h as int, img_w == 0;
                }
                vstd::arithmetic::div_mod::lemma_div_pos_is_pos(k, img_w as int);
                vstd::arithmetic::div_mod::lemma_mod_pos_bound(k, img_w as int);
                vstd::arithmetic::div_mod::lemma_fundamental_div_mod(k, img_w as int);
                if k / img_w as int >= img_h {
                    assert(img_w * (k / img_w as int) >= img_w * img_h) by (nonlinear_arith)
                        requires k / img_w as int >= img_h, img_w > 0;
                }
            }
        }
        return;
    }
    let x_end: usize = if w <= img_w - x { x + w } else { img_w };
    let y_end: usize = if h <= img_h - y { y + h } else { img_h };
    let ghost start = image@;
    let mut j: usize = y;
    while j < y_end
        invariant
            y <= j <= y_end <= img_h,
            x <= x_end <= img_w,
            x < img_w,
            x_end == x + w || x_end == img_w,
            y_end == y + h || y_end == img_h,
            x_end <= x + w,
            y_end <= y + h,
            image.len() == img_w as int * img_h as int,
            start.len() == image.len(),
            image@ == rect_filled(start, img_w as int, x as int, y as int, w as int, (j - y) as int, color),
        decreases y_end - j,
    {
        let mut i: usize = x;
        while i < x_end
            invariant
                y <= j < y_end <= img_h,
                x <= i <= x_end <= img_w,
                x_end == x + w || x_end == img_w,
                x_end <= x + w,
                image.len() == img_w as int * img_h as int,
                start.len() == image.len(),
                forall|k: int| 0 <= k < image.len() ==> #[trigger] image@[k] == (
                    if in_rect(k % img_w as int, k / img_w as int, x as int, y as int, w as int, (j - y) as int) || in_rect(k % img_w as int, k / img_w as int, x as int, j as int, (i - x) as int, 1) {
                        color
                    } else {
                        start[k]
                    }),
            decreases x_end - i,
        {
            assert(i + j * img_w < img_w * img_h) by (nonlinear_arith)
                requires i < img_w, j < img_h;
            let idx: usize = i + j * img_w;
            image.set(idx, color);
            assert forall|k: int| 0 <= k < image.len() implies #[trigger] image@[k] == (
                    if in_rect(k % img_w as int, k / img_w as int, x as int, y as int, w as int, (j - y) as int) || in_rect(k % img_w as int, k / img_w as int, x as int, j as int, (i + 1 - x) as int, 1) {
                        color
                    } else {
                        start[k]
                    }) by {
                lemma_index_split(idx as int, img_w as int, i as int, j as int);
                if k != idx {
                    vstd::arithmetic::div_mod::lemma_fundamental_div_mod(k, img_w as int);
                    if k % img_w as int == i && k / img_w as int == j {
                        assert(k == img_w * (k / img_w as int) + k % img_w as int);
                        assert(k == i + j * img_w) by (nonlinear_arith)
                            requires k == img_w * j + i;
                    }
                }
            }
            i = i + 1;
        }
        proof {
            assert forall|k: int| 0 <= k < image.len() implies #[trigger] image@[k] == rect_filled(start, img_w as int, x as int, y as int, w as int, (j + 1 - y) as int, color)[k] by {
                vstd::arithmetic::div_mod::lemma_mod_pos_bound(k, img_w as int);
            }
            assert(image@ =~= rect_filled(start, img_w as int, x as int, y as int, w as int, (j + 1 - y) as int, color));
        }
        j = j + 1;
    }
    proof {
        assert forall|k: int| 0 <= k < image.len() implies #[trigger] image@[k] == rect_filled(start, img_w as int, x as int, y as int, w as int, h as int, color)[k] by {
            vstd::arithmetic::div_mod::lemma_mod_pos_bound(k, img_w as int);
            vstd::arithmetic::div_mod::lemma_div_pos_is_pos(k, img_w as int);
            vstd::arithmetic::div_mod::lemma_fundamental_div_mod(k, img_w as int);
            if k / img_w as int >= img_h {
                assert(img_w * (k / img_w as int) >= img_w * img_h) by (nonlinear_arith)
                    requires k / img_w as int >= img_h, img_w > 0;
            }
        }
        assert(image@ =~= rect_filled(start, img_w as int, x as int, y as int, w as int, h as int, color));
    }
}

} // verus!

verus! {

/// A `width × height` grid of packed colors, stored row-major from the top-left.
#[derive(Debug)]
pub struct Framebuffer {
    pub width: usize,
    pub height: usize,
    pub pixels: Vec<u32>,
}

impl Framebuffer {
    /// One packed color per cell of the grid.
    pub open spec fn wf(&self) -> bool {
        self.pixels.len() == self.width as int * self.height as int
    }

    /// The color at column `x`, row `y`.
    pub open spec fn pixel(&self, x: int, y: int) -> u32 {
        self.pixels@[x + y * self.width]
    }

    /// A `width × height` buffer with every pixel set to `fill`.
    pub fn new(width: usize, height: usize, fill: u32) -> (r: Framebuffer)
        requires
            width as int * height as int <= usize::MAX,
        ensures
            r.wf(),
            r.width == width,
            r.height == height,
            forall|k: int| 0 <= k < r.pixels.len() ==> r.pixels@[k] == fill,
    {
        let n: usize = width * height;
        let mut pixels: Vec<u32> = Vec::with_capacity(n);
        let mut k: usize = 0;
        while k < n
            invariant
                k <= n,
                pixels.len() == k,
                forall|i: int| 0 <= i < k ==> pixels@[i] == fill,
            decreases n - k,
        {
            pixels.push(fill);
            k = k + 1;
        }
        Framebuffer { width, height, pixels }
    }

    /// Resets every pixel to `fill`.
    pub fn clear(&mut self, fill: u32)
        requires
            old(self).wf(),
        ensures
            final(self).wf(),
            final(self).width == old(self).width,
            final(self).height == old(self).height,
            final(self).pixels@ == Seq::new(old(self).pixels@.len(), |k: int| fill),
    {
        let n: usize = self.pixels.len();
        let mut k: usize = 0;
        while k < n
            invariant
                k <= n,
                self.pixels.len() == n,
                self.width == old(self).width,
                self.height == old(self).height,
                n == old(self).pixels.len(),
                forall|i: int| 0 <= i < k ==> self.pixels@[i] == fill,
            decreases n - k,
        {
            self.pixels.set(k, fill);
            k = k + 1;
        }
        assert(self.pixels@ =~= Seq::new(n as nat, |k: int| fill));
    }

    /// Fills the part of `[x, x + w) × [y, y + h)` that lies inside the buffer with
    /// `color`; the part outside is dropped without error.
    pub fn fill_rect(&mut self, x: usize, y: usize, w: usize, h: usize, color: u32)
        requires
            old(self).wf(),
        ensures
            final(self).wf(),
            final(self).width == old(self).width,
            final(self).height == old(self).height,
            final(self).pixels@ == rect_filled(
                old(self).pixels@,
                old(self).width as int,
                x as int,
                y as int,
                w as int,
                h as int,
                color,
            ),
    {
        draw_rectangle(&mut self.pixels, self.width, self.height, x, y, w, h, color);
    }

    /// Sets pixel `(x, y)` to `color` when it lies inside the buffer; does nothing
    /// otherwise.
    pub fn set_pixel(&mut self, x: usize, y: usize, color: u32)
        requires
            old(self).wf(),
        ensures
            final(self).wf(),
            final(self).width == old(self).width,
            final(self).height == old(self).height,
            final(self).pixels@ == pixel_set(
                old(self).pixels@,
                old(self).width as int,
                old(self).height as int,
                x as int,
                y as int,
                color,
            ),
    {
        if x < self.width && y < self.height {
            assert(x + y * self.width < self.width * self.height) by (nonlinear_arith)
                requires x < self.width, y < self.height;
            self.pixels.set(x + y * self.width, color);
        }
    }

    /// The color at column `x`, row `y`.
    pub fn get_pixel(&self, x: usize, y: usize) -> (r: u32)
        requires
            self.wf(),
            x < self.width,
            y < self.height,
        ensures
            r == self.pixel(x as int, y as int),
    {
        assert(x + y * self.width < self.width * self.height) by (nonlinear_arith)
            requires x < self.width, y < self.height;
        self.pixels[x + y * self.width]
    }
}

} // verus!
