//! The raster that the decoder draws on: row-major RGBA, grown on demand.

use crate::error::{too_large, too_large_error, SixelError};
use crate::limits::MAX_PIXELS;
use vstd::arithmetic::div_mod::{lemma_fundamental_div_mod, lemma_fundamental_div_mod_converse};
use vstd::prelude::*;

verus! {

/// A raster as a mathematical value.
pub struct Raster {
    pub width: int,
    pub height: int,
    pub data: Seq<u8>,
}

/// Column of the pixel that byte `i` belongs to.
pub open spec fn byte_x(width: int, i: int) -> int {
    (i / 4) % width
}

/// Row of the pixel that byte `i` belongs to.
pub open spec fn byte_y(width: int, i: int) -> int {
    (i / 4) / width
}

/// Index of the first byte of the pixel at `(x, y)`.
pub open spec fn pixel_offset(width: int, x: int, y: int) -> int {
    (y * width + x) * 4
}

/// The four bytes of the pixel at `(x, y)`.
pub open spec fn pixel_at(r: Raster, x: int, y: int) -> Seq<u8> {
    r.data.subrange(pixel_offset(r.width, x, y), pixel_offset(r.width, x, y) + 4)
}

/// A raster holds at least one pixel, at most [`MAX_PIXELS`], and four
/// bytes for each.
pub open spec fn raster_wf(r: Raster) -> bool {
    &&& r.width >= 1
    &&& r.height >= 1
    &&& r.width * r.height <= MAX_PIXELS
    &&& r.data.len() == r.width * r.height * 4
}

/// Every pixel of the raster is fully opaque.
pub open spec fn raster_opaque(r: Raster) -> bool {
    forall|i: int| 0 <= i < r.data.len() && i % 4 == 3 ==> r.data[i] == 0xFFu8
}

/// Byte `i` of `r` redrawn at another width: the byte of the same pixel
/// where `r` has that pixel, the background elsewhere.
pub open spec fn reshaped_byte(r: Raster, width: int, background: Seq<u8>, i: int) -> u8 {
    let x = byte_x(width, i);
    let y = byte_y(width, i);
    if x < r.width && y < r.height {
        r.data[pixel_offset(r.width, x, y) + i % 4]
    } else {
        background[i % 4]
    }
}

/// `r` redrawn at `width` by `height`: pixels of `r` stay where they
/// are, new ones get the background, those outside are dropped.
pub open spec fn reshape(r: Raster, width: int, height: int, background: Seq<u8>) -> Raster {
    Raster {
        width,
        height,
        data: Seq::new(
            (width * height * 4) as nat,
            |i: int| reshaped_byte(r, width, background, i),
        ),
    }
}

/// The 1x1 raster of one background pixel.
pub open spec fn single_pixel(background: Seq<u8>) -> Raster {
    Raster { width: 1, height: 1, data: background }
}

/// The larger of two numbers.
pub open spec fn larger(a: int, b: int) -> int {
    if a >= b {
        a
    } else {
        b
    }
}

/// `r` grown so that `width` by `height` pixels are there, or `None`
/// where that takes more than [`MAX_PIXELS`].
pub open spec fn ensure_visible_spec(
    r: Raster,
    width: int,
    height: int,
    background: Seq<u8>,
) -> Option<Raster> {
    if width <= r.width && height <= r.height {
        Some(r)
    } else if larger(width, r.width) * larger(height, r.height) > MAX_PIXELS {
        None
    } else {
        Some(reshape(r, larger(width, r.width), larger(height, r.height), background))
    }
}

/// Whether byte `i` lies in row `y`, in one of the `len` pixels from
/// column `x` on.
pub open spec fn in_span(width: int, y: int, x: int, len: int, i: int) -> bool {
    &&& byte_y(width, i) == y
    &&& x <= byte_x(width, i) < x + len
}

/// `r` with `len` pixels of row `y` from column `x` on set to `color`,
/// as far as they lie inside.
pub open spec fn paint_spec(r: Raster, y: int, x: int, len: int, color: Seq<u8>) -> Raster {
    Raster {
        width: r.width,
        height: r.height,
        data: Seq::new(
            r.data.len(),
            |i: int|
                if in_span(r.width, y, x, len, i) {
                    color[i % 4]
                } else {
                    r.data[i]
                },
        ),
    }
}

/// `len` bytes that repeat the four bytes of `color`.
pub open spec fn repeated(color: Seq<u8>, len: nat) -> Seq<u8> {
    Seq::new(len, |i: int| color[i % 4])
}

/// The coordinates of byte `ch` of the pixel at `(x, y)` are `x` and `y`.
pub proof fn lemma_pixel_coords(width: int, x: int, y: int, ch: int)
    requires
        0 <= x < width,
        0 <= y,
        0 <= ch < 4,
    ensures
        byte_x(width, pixel_offset(width, x, y) + ch) == x,
        byte_y(width, pixel_offset(width, x, y) + ch) == y,
        (pixel_offset(width, x, y) + ch) % 4 == ch,
        (pixel_offset(width, x, y) + ch) / 4 == y * width + x,
{
    let p = y * width + x;
    let i = pixel_offset(width, x, y) + ch;
    assert(i == p * 4 + ch);
    lemma_fundamental_div_mod_converse(i, 4, p, ch);
    lemma_fundamental_div_mod_converse(p, width, y, x);
}

/// The pixel at `(x, y)` of a raster lies inside its buffer.
pub proof fn lemma_pixel_offset_bound(width: int, height: int, x: int, y: int)
    requires
        0 <= x < width,
        0 <= y < height,
    ensures
        0 <= pixel_offset(width, x, y),
        pixel_offset(width, x, y) + 4 <= width * height * 4,
{
    assert(0 <= y * width && y * width + width <= height * width) by (nonlinear_arith)
        requires
            0 <= y < height,
            0 < width,
    ;
    assert(height * width == width * height) by (nonlinear_arith);
}

/// Every byte of a raster belongs to one pixel inside it.
pub proof fn lemma_byte_coords(width: int, height: int, i: int)
    requires
        width >= 1,
        0 <= i < width * height * 4,
    ensures
        0 <= byte_x(width, i) < width,
        0 <= byte_y(width, i) < height,
        0 <= i % 4 < 4,
        i == pixel_offset(width, byte_x(width, i), byte_y(width, i)) + i % 4,
{
    let p = i / 4;
    lemma_fundamental_div_mod(i, 4);
    lemma_fundamental_div_mod(p, width);
    assert(p < width * height);
    let y = p / width;
    let x = p % width;
    assert(p == width * y + x);
    assert(width * y == y * width) by (nonlinear_arith);
    assert(0 <= y) by (nonlinear_arith)
        requires
            p >= 0,
            width >= 1,
            p == width * y + x,
            0 <= x < width,
    ;
    assert(y < height) by (nonlinear_arith)
        requires
            p < width * height,
            width >= 1,
            p == width * y + x,
            0 <= x < width,
    ;
}

/// Bytes `start..start + 4 n` of a row are the bytes of the `n` pixels
/// from column `x` on.
pub proof fn lemma_span_bytes(width: int, height: int, y: int, x: int, n: int, i: int)
    requires
        width >= 1,
        0 <= y < height,
        0 <= x,
        0 <= n,
        x + n <= width,
        0 <= i < width * height * 4,
    ensures
        in_span(width, y, x, n, i) <==> pixel_offset(width, x, y) <= i < pixel_offset(width, x, y)
            + 4 * n,
{
    lemma_byte_coords(width, height, i);
    let bx = byte_x(width, i);
    let by = byte_y(width, i);
    if pixel_offset(width, x, y) <= i < pixel_offset(width, x, y) + 4 * n {
        let p = i / 4;
        lemma_fundamental_div_mod(i, 4);
        assert(y * width + x <= p < y * width + x + n);
        let r = p - y * width;
        lemma_fundamental_div_mod_converse(p, width, y, r);
    }
    if in_span(width, y, x, n, i) {
        assert(i == (y * width + bx) * 4 + i % 4);
    }
}

/// A 1x1 raster is well formed.
pub proof fn lemma_single_pixel_wf(background: Seq<u8>)
    requires
        background.len() == 4,
    ensures
        raster_wf(single_pixel(background)),
        background[3] == 0xFFu8 ==> raster_opaque(single_pixel(background)),
{
}

/// Redrawing keeps a raster well formed, and opaque where the
/// background is.
pub proof fn lemma_reshape_wf(r: Raster, width: int, height: int, background: Seq<u8>)
    requires
        raster_wf(r),
        background.len() == 4,
        width >= 1,
        height >= 1,
        width * height <= MAX_PIXELS,
    ensures
        raster_wf(reshape(r, width, height, background)),
        raster_opaque(r) && background[3] == 0xFFu8 ==> raster_opaque(
            reshape(r, width, height, background),
        ),
{
    let out = reshape(r, width, height, background);
    assert(width * height >= 1) by (nonlinear_arith)
        requires
            width >= 1,
            height >= 1,
    ;
    if raster_opaque(r) && background[3] == 0xFFu8 {
        assert forall|i: int| 0 <= i < out.data.len() && i % 4 == 3 implies out.data[i]
            == 0xFFu8 by {
            lemma_byte_coords(width, height, i);
            let x = byte_x(width, i);
            let y = byte_y(width, i);
            if x < r.width && y < r.height {
                lemma_pixel_offset_bound(r.width, r.height, x, y);
                lemma_pixel_coords(r.width, x, y, 3);
            }
        }
    }
}

/// Writes the four bytes of `color` over and over until `buf` is full.
pub fn fill_rgba_span(buf: &mut [u8], color: [u8; 4])
    ensures
        final(buf)@ == repeated(color@, old(buf)@.len()),
{
    let n = buf.len();
    let mut i: usize = 0;
    while i < n
        invariant
            buf@.len() == n,
            n == old(buf)@.len(),
            i <= n,
            forall|j: int| 0 <= j < i ==> buf@[j] == color@[j % 4],
        decreases n - i,
    {
        buf[i] = color[i % 4];
        i += 1;
    }
    assert(buf@ =~= repeated(color@, old(buf)@.len()));
}

/// A growable RGBA raster.
pub struct Canvas {
    pub data: Vec<u8>,
    pub width: usize,
    pub height: usize,
}

impl View for Canvas {
    type V = Raster;

    open spec fn view(&self) -> Raster {
        Raster { width: self.width as int, height: self.height as int, data: self.data@ }
    }
}

impl Canvas {
    /// A canvas of one background pixel.
    pub fn new(background: [u8; 4]) -> (out: Canvas)
        ensures
            out@ == single_pixel(background@),
            raster_wf(out@),
    {
        let mut data: Vec<u8> = Vec::with_capacity(4);
        data.push(background[0]);
        data.push(background[1]);
        data.push(background[2]);
        data.push(background[3]);
        assert(data@ =~= background@);
        Canvas { data, width: 1, height: 1 }
    }

    /// Grows the canvas so that `width` by `height` pixels are there.
    /// What was drawn stays; new pixels get the background. Fails, and
    /// changes nothing, where that takes more than [`MAX_PIXELS`].
    pub fn ensure_visible(&mut self, width: usize, height: usize, background: [u8; 4]) -> (out:
        Result<(), SixelError>)
        requires
            raster_wf(old(self)@),
        ensures
            match ensure_visible_spec(old(self)@, width as int, height as int, background@) {
                Some(r) => out is Ok && final(self)@ == r,
                None => out matches Err(e) && e@ == too_large() && final(self)@ == old(self)@,
            },
            raster_wf(final(self)@),
    {
        if width <= self.width && height <= self.height {
            return Ok(());
        }
        let new_width = if width > self.width {
            width
        } else {
            self.width
        };
        let new_height = if height > self.height {
            height
        } else {
            self.height
        };
        match new_width.checked_mul(new_height) {
            Some(pixels) => {
                if pixels > MAX_PIXELS {
                    return Err(too_large_error());
                }
            },
            None => {
                return Err(too_large_error());
            },
        }
        proof {
            lemma_reshape_wf(self@, new_width as int, new_height as int, background@);
        }
        self.resize(new_width, new_height, background);
        Ok(())
    }

    /// Redraws the canvas at `new_width` by `new_height`: pixels stay
    /// where they are, new ones get the background, those outside are
    /// dropped.
    pub fn resize(&mut self, new_width: usize, new_height: usize, background: [u8; 4])
        requires
            raster_wf(old(self)@),
            new_width >= 1,
            new_height >= 1,
            new_width * new_height <= MAX_PIXELS,
        ensures
            final(self)@ == reshape(
                old(self)@,
                new_width as int,
                new_height as int,
                background@,
            ),
    {
        let ghost before = self@;
        let ghost bg = background@;
        let ghost nw = new_width as int;
        let total: usize = new_width * new_height * 4;
        let mut new_data: Vec<u8> = Vec::with_capacity(total);
        let mut y: usize = 0;
        let mut row: usize = 0;
        let mut src_row: usize = 0;
        while y < new_height
            invariant
                y <= new_height,
                new_width >= 1,
                nw == new_width,
                new_width * new_height <= MAX_PIXELS,
                total == new_width * new_height * 4,
                row == y * new_width,
                y < self.height ==> src_row == y * self.width,
                new_data@.len() == row * 4,
                before == self@,
                raster_wf(before),
                bg == background@,
                forall|i: int|
                    0 <= i < new_data@.len() ==> new_data@[i] == reshaped_byte(before, nw, bg, i),
            decreases new_height - y,
        {
            assert(row + new_width <= new_width * new_height) by (nonlinear_arith)
                requires
                    row == y * new_width,
                    y < new_height,
            ;
            let mut x: usize = 0;
            while x < new_width
                invariant
                    x <= new_width,
                    y < new_height,
                    new_width >= 1,
                    nw == new_width,
                    row == y * new_width,
                    row + new_width <= new_width * new_height,
                    new_width * new_height <= MAX_PIXELS,
                    y < self.height ==> src_row == y * self.width,
                    new_data@.len() == (row + x) * 4,
                    before == self@,
                    raster_wf(before),
                    bg == background@,
                    forall|i: int|
                        0 <= i < new_data@.len() ==> new_data@[i] == reshaped_byte(
                            before,
                            nw,
                            bg,
                            i,
                        ),
                decreases new_width - x,
            {
                let ghost base = new_data@.len() as int;
                proof {
                    lemma_pixel_coords(nw, x as int, y as int, 0);
                    lemma_pixel_coords(nw, x as int, y as int, 1);
                    lemma_pixel_coords(nw, x as int, y as int, 2);
                    lemma_pixel_coords(nw, x as int, y as int, 3);
                    assert(base == pixel_offset(nw, x as int, y as int));
                }
                if x < self.width && y < self.height {
                    proof {
                        lemma_pixel_offset_bound(
                            self.width as int,
                            self.height as int,
                            x as int,
                            y as int,
                        );
                    }
                    let src: usize = (src_row + x) * 4;
                    new_data.push(self.data[src]);
                    new_data.push(self.data[src + 1]);
                    new_data.push(self.data[src + 2]);
                    new_data.push(self.data[src + 3]);
                } else {
                    new_data.push(background[0]);
                    new_data.push(background[1]);
                    new_data.push(background[2]);
                    new_data.push(background[3]);
                }
                x += 1;
            }
            if y < self.height {
                assert(src_row + self.width <= self.width * self.height) by (nonlinear_arith)
                    requires
                        src_row == y * self.width,
                        y < self.height,
                ;
                assert((y + 1) * self.width == src_row + self.width) by (nonlinear_arith)
                    requires
                        src_row == y * self.width,
                ;
                src_row += self.width;
            }
            assert((y + 1) * new_width == row + new_width) by (nonlinear_arith)
                requires
                    row == y * new_width,
            ;
            row += new_width;
            y += 1;
        }
        assert(row == new_width * new_height) by (nonlinear_arith)
            requires
                row == y * new_width,
                y == new_height,
        ;
        self.data = new_data;
        self.width = new_width;
        self.height = new_height;
        assert(self@.data =~= reshape(before, nw, new_height as int, bg).data);
    }

    /// Sets `len` pixels of row `y`, from column `x` on, to `color`.
    /// What falls outside the canvas is left out.
    pub fn paint_span(&mut self, y: usize, x: usize, len: usize, color: [u8; 4])
        requires
            raster_wf(old(self)@),
        ensures
            final(self)@ == paint_spec(old(self)@, y as int, x as int, len as int, color@),
            raster_wf(final(self)@),
    {
        let ghost before = self@;
        let ghost w = self.width as int;
        let ghost h = self.height as int;
        if len == 0 || y >= self.height || x >= self.width {
            proof {
                assert forall|i: int| 0 <= i < before.data.len() implies !in_span(
                    w,
                    y as int,
                    x as int,
                    len as int,
                    i,
                ) by {
                    lemma_byte_coords(w, h, i);
                }
                assert(before.data =~= paint_spec(
                    before,
                    y as int,
                    x as int,
                    len as int,
                    color@,
                ).data);
            }
            return ;
        }
        let available = self.width - x;
        let actual_len = if len < available {
            len
        } else {
            available
        };
        proof {
            lemma_pixel_offset_bound(w, h, x as int, y as int);
            lemma_pixel_offset_bound(w, h, x + actual_len - 1, y as int);
            assert(y * self.width <= self.width * self.height) by (nonlinear_arith)
                requires
                    y < self.height,
            ;
        }
        let start: usize = (y * self.width + x) * 4;
        let bytes: usize = actual_len * 4;
        let (head, rest) = self.data.as_mut_slice().split_at_mut(start);
        let (mid, tail) = rest.split_at_mut(bytes);
        fill_rgba_span(mid, color);
        proof {
            let after = self@;
            let want = paint_spec(before, y as int, x as int, len as int, color@);
            assert(after.data.len() == before.data.len());
            assert forall|i: int| 0 <= i < before.data.len() implies after.data[i]
                == want.data[i] by {
                lemma_byte_coords(w, h, i);
                lemma_span_bytes(w, h, y as int, x as int, actual_len as int, i);
                lemma_pixel_coords(w, x as int, y as int, 0);
                if start <= i < start + bytes {
                    assert(after.data[i] == color@[(i - start) % 4]);
                    assert((i - start) % 4 == i % 4);
                }
            }
            assert(after.data =~= want.data);
        }
    }
}

} // verus!
