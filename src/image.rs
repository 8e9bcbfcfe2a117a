//! The shared output image: a row-major buffer of 8-bit pixels, top row first,
//! into which each worker's band of rendered pixels is placed.

use vstd::prelude::*;
use crate::bands::{
    band_len, band_start, covered_rows, in_band, row_of_index, col_of_index, local_of_index,
    pixel_index, lemma_rows_partition, lemma_pixel_index_inverse,
    lemma_index_pixel_inverse,
};

verus! {

/// A finished pixel: one byte per channel.
#[derive(Clone, Copy, Debug, PartialEq, Eq, Structural)]
pub struct Rgb {
    pub r: u8,
    pub g: u8,
    pub b: u8,
}

/// The pixel every buffer slot holds before a band is placed over it.
pub open spec fn black() -> Rgb {
    Rgb { r: 0, g: 0, b: 0 }
}

impl Rgb {
    /// The pixel with the given channels.
    pub fn new(r: u8, g: u8, b: u8) -> (p: Rgb)
        ensures
            p == (Rgb { r, g, b }),
    {
        Rgb { r, g, b }
    }
}

/// A `width` x `height` image.
pub struct Image {
    width: usize,
    height: usize,
    pixels: Vec<Rgb>,
}

impl View for Image {
    type V = Seq<Rgb>;

    closed spec fn view(&self) -> Seq<Rgb> {
        self.pixels@
    }
}

/// What the image holds at buffer index `i` once every band has been placed:
/// the pixel its band rendered there, or black on a row no band renders.
pub open spec fn assembled_pixel(
    i: nat,
    width: nat,
    height: nat,
    workers: nat,
    bands: Seq<Seq<Rgb>>,
) -> Rgb {
    let row = row_of_index(i, width, height);
    if row < covered_rows(height, workers) {
        bands[(row / band_len(height, workers)) as int][local_of_index(i, width, height, workers) as int]
    } else {
        black()
    }
}

/// Buffer state while a band is being placed: pixels of the band's rows below
/// `y`, and of row `y` left of column `x`, come from `colors`; all others are as before.
spec fn placed_upto(
    now: Seq<Rgb>,
    before: Seq<Rgb>,
    colors: Seq<Rgb>,
    band: nat,
    y: nat,
    x: nat,
    width: nat,
    height: nat,
    workers: nat,
) -> bool {
    &&& now.len() == before.len()
    &&& forall|i: int|
        #![trigger now[i]]
        0 <= i < now.len() ==> now[i] == {
            let row = row_of_index(i as nat, width, height);
            let col = col_of_index(i as nat, width);
            if in_band(row, band, height, workers) && (row < y || (row == y && col < x)) {
                colors[local_of_index(i as nat, width, height, workers) as int]
            } else {
                before[i]
            }
        }
}

impl Image {
    /// Pixels per row.
    pub closed spec fn spec_width(&self) -> nat {
        self.width as nat
    }

    /// Rows.
    pub closed spec fn spec_height(&self) -> nat {
        self.height as nat
    }

    /// One pixel per position, and the pixel count fits in `usize`.
    pub open spec fn wf(&self) -> bool {
        &&& self@.len() == self.spec_width() * self.spec_height()
        &&& self.spec_width() * self.spec_height() <= usize::MAX
    }

    /// An all-black image.
    pub fn new(width: usize, height: usize) -> (img: Image)
        requires
            width * height <= usize::MAX,
        ensures
            img.wf(),
            img.spec_width() == width,
            img.spec_height() == height,
            forall|i: int| 0 <= i < img@.len() ==> img@[i] == black(),
    {
        let n = width * height;
        let mut pixels: Vec<Rgb> = Vec::new();
        while pixels.len() < n
            invariant
                pixels@.len() <= n,
                forall|i: int| 0 <= i < pixels@.len() ==> pixels@[i] == black(),
            decreases n - pixels@.len(),
        {
            pixels.push(Rgb { r: 0, g: 0, b: 0 });
        }
        Image { width, height, pixels }
    }

    /// Pixels per row.
    pub fn width(&self) -> (r: usize)
        ensures
            r == self.spec_width(),
    {
        self.width
    }

    /// Rows.
    pub fn height(&self) -> (r: usize)
        ensures
            r == self.spec_height(),
    {
        self.height
    }

    /// The pixel at buffer index `i` (row-major, top row first).
    pub fn pixel(&self, i: usize) -> (p: Rgb)
        requires
            i < self@.len(),
        ensures
            p == self@[i as int],
    {
        self.pixels[i]
    }

    /// Writes the pixels that band `band` of `workers` rendered, given in the
    /// band's rendering order, to their places in the buffer. Nothing outside
    /// the band's rows changes.
    pub fn place_band(&mut self, band: usize, workers: usize, colors: &Vec<Rgb>)
        requires
            old(self).wf(),
            band < workers,
            colors@.len() == band_len(old(self).spec_height(), workers as nat) * old(self).spec_width(),
        ensures
            final(self).wf(),
            final(self).spec_width() == old(self).spec_width(),
            final(self).spec_height() == old(self).spec_height(),
            forall|i: int|
                #![trigger final(self)@[i]]
                0 <= i < final(self)@.len() ==> final(self)@[i] == if in_band(
                    row_of_index(i as nat, old(self).spec_width(), old(self).spec_height()),
                    band as nat,
                    old(self).spec_height(),
                    workers as nat,
                ) {
                    colors@[local_of_index(
                        i as nat,
                        old(self).spec_width(),
                        old(self).spec_height(),
                        workers as nat,
                    ) as int]
                } else {
                    old(self)@[i]
                },
    {
        let width = self.width;
        let height = self.height;
        let len = height / workers;
        let ghost before = self.pixels@;
        let ghost (w, h, wk, bd) = (width as nat, height as nat, workers as nat, band as nat);
        proof {
            lemma_rows_partition(0, h, wk);
            assert(band * len + len <= height) by (nonlinear_arith)
                requires band < workers, workers * len <= height;
        }
        let start = band * len;
        let mut y: usize = start;
        while y < start + len
            invariant
                self.width == width,
                self.height == height,
                w == width,
                h == height,
                wk == workers,
                bd == band,
                band < workers,
                len == band_len(h, wk),
                start == band_start(bd, h, wk),
                start <= y <= start + len <= height,
                width * height <= usize::MAX,
                colors@.len() == len * width,
                before.len() == width * height,
                placed_upto(self.pixels@, before, colors@, bd, y as nat, 0, w, h, wk),
            decreases start + len - y,
        {
            proof {
                lemma_rows_partition(y as nat, h, wk);
                assert(in_band(y as nat, bd, h, wk));
            }
            let mut x: usize = 0;
            while x < width
                invariant
                    self.width == width,
                    self.height == height,
                    w == width,
                    h == height,
                    wk == workers,
                    bd == band,
                    band < workers,
                    len == band_len(h, wk),
                    start == band_start(bd, h, wk),
                    start <= y < start + len <= height,
                    in_band(y as nat, bd, h, wk),
                    (y as nat) / (len as nat) == bd,
                    x <= width,
                    width * height <= usize::MAX,
                    colors@.len() == len * width,
                    before.len() == width * height,
                    placed_upto(self.pixels@, before, colors@, bd, y as nat, x as nat, w, h, wk),
                decreases width - x,
            {
                let idx = pixel_index(x, y, width, height);
                proof {
                    lemma_pixel_index_inverse(x as nat, y as nat, w, h);
                    assert((y - start) * width + x < len * width) by (nonlinear_arith)
                        requires y - start < len, x < width;
                    assert(len * width <= width * height) by (nonlinear_arith)
                        requires len <= height;
                }
                let j = (y - start) * width + x;
                let ghost prev = self.pixels@;
                self.pixels[idx] = colors[j];
                proof {
                    assert(local_of_index(idx as nat, w, h, wk) == j);
                    assert(placed_upto(self.pixels@, before, colors@, bd, y as nat, (x + 1) as nat, w, h, wk)) by {
                        assert forall|i: int| #![trigger self.pixels@[i]] 0 <= i < self.pixels@.len() implies
                            self.pixels@[i] == ({
                                let row = row_of_index(i as nat, w, h);
                                let col = col_of_index(i as nat, w);
                                if in_band(row, bd, h, wk) && (row < y || (row == y && col < x + 1)) {
                                    colors@[local_of_index(i as nat, w, h, wk) as int]
                                } else {
                                    before[i]
                                }
                            }) by {
                            if i != idx {
                                lemma_index_pixel_inverse(i as nat, w, h);
                                assert(prev[i] == self.pixels@[i]);
                            }
                        }
                    }
                }
                x = x + 1;
            }
            proof {
                assert forall|i: int| #![trigger self.pixels@[i]] 0 <= i < self.pixels@.len() implies
                    self.pixels@[i] == ({
                        let row = row_of_index(i as nat, w, h);
                        if in_band(row, bd, h, wk) && row < y + 1 {
                            colors@[local_of_index(i as nat, w, h, wk) as int]
                        } else {
                            before[i]
                        }
                    }) by {
                    lemma_index_pixel_inverse(i as nat, w, h);
                }
            }
            y = y + 1;
        }
    }

    /// Builds the whole image from the pixels that each of `workers` bands
    /// rendered (`bands[b]` in band `b`'s rendering order). Rows that no band
    /// renders stay black.
    pub fn assemble(width: usize, height: usize, workers: usize, bands: &Vec<Vec<Rgb>>) -> (img: Image)
        requires
            workers > 0,
            width * height <= usize::MAX,
            bands@.len() == workers,
            forall|b: int| 0 <= b < workers ==> #[trigger] bands@[b]@.len() == band_len(height as nat, workers as nat) * width,
        ensures
            img.wf(),
            img.spec_width() == width,
            img.spec_height() == height,
            forall|i: int|
                #![trigger img@[i]]
                0 <= i < img@.len() ==> img@[i] == assembled_pixel(
                    i as nat,
                    width as nat,
                    height as nat,
                    workers as nat,
                    bands@.map_values(|v: Vec<Rgb>| v@),
                ),
    {
        let ghost (w, h, wk) = (width as nat, height as nat, workers as nat);
        let ghost views = bands@.map_values(|v: Vec<Rgb>| v@);
        let mut img = Image::new(width, height);
        let mut b: usize = 0;
        assert forall|i: int| #![trigger img@[i]] 0 <= i < img@.len() implies img@[i] == ({
            let row = row_of_index(i as nat, w, h);
            if row < covered_rows(h, wk) && row / band_len(h, wk) < b {
                views[(row / band_len(h, wk)) as int][local_of_index(i as nat, w, h, wk) as int]
            } else {
                black()
            }
        }) by {
            let row = row_of_index(i as nat, w, h);
            if row < covered_rows(h, wk) {
                let len = band_len(h, wk);
                assert(len > 0) by (nonlinear_arith)
                    requires row < wk * len;
            }
        }
        while b < workers
            invariant
                w == width,
                h == height,
                wk == workers,
                b <= workers,
                img.wf(),
                img.spec_width() == width,
                img.spec_height() == height,
                bands@.len() == workers,
                views == bands@.map_values(|v: Vec<Rgb>| v@),
                forall|c: int| 0 <= c < workers ==> #[trigger] bands@[c]@.len() == band_len(h, wk) * width,
                forall|i: int|
                    #![trigger img@[i]]
                    0 <= i < img@.len() ==> img@[i] == {
                        let row = row_of_index(i as nat, w, h);
                        if row < covered_rows(h, wk) && row / band_len(h, wk) < b {
                            views[(row / band_len(h, wk)) as int][local_of_index(i as nat, w, h, wk) as int]
                        } else {
                            black()
                        }
                    },
            decreases workers - b,
        {
            img.place_band(b, workers, &bands[b]);
            proof {
                assert forall|i: int| #![trigger img@[i]] 0 <= i < img@.len() implies img@[i] == ({
                    let row = row_of_index(i as nat, w, h);
                    if row < covered_rows(h, wk) && row / band_len(h, wk) < b + 1 {
                        views[(row / band_len(h, wk)) as int][local_of_index(i as nat, w, h, wk) as int]
                    } else {
                        black()
                    }
                }) by {
                    let row = row_of_index(i as nat, w, h);
                    lemma_rows_partition(row, h, wk);
                }
            }
            b = b + 1;
        }
        proof {
            assert forall|i: int| #![trigger img@[i]] 0 <= i < img@.len() implies img@[i] == assembled_pixel(
                i as nat,
                w,
                h,
                wk,
                views,
            ) by {
                lemma_rows_partition(row_of_index(i as nat, w, h), h, wk);
            }
        }
        img
    }
}

} // verus!
