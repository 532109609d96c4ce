//! The SIXEL emitter: from a palette and one colour index per pixel to
//! the bytes of a Device Control String.

use crate::color::byte_to_percent_spec;
use crate::limits::SIXEL_PALETTE_MAX;
use vstd::prelude::*;

verus! {

/// One palette entry.
#[derive(Clone, Copy, Debug)]
pub struct Rgb {
    pub r: u8,
    pub g: u8,
    pub b: u8,
}

/// An image of palette indices as a mathematical value: the palette,
/// one index and one opacity flag per pixel, row by row.
pub struct Indexed {
    pub palette: Seq<Rgb>,
    pub indices: Seq<u8>,
    pub opaque: Seq<bool>,
    pub width: int,
    pub height: int,
}

/// The palette has at most 256 entries, and every pixel has an index
/// and an opacity flag.
pub open spec fn indexed_wf(q: Indexed) -> bool {
    &&& q.palette.len() <= SIXEL_PALETTE_MAX
    &&& q.width >= 0
    &&& q.height >= 0
    &&& q.indices.len() == q.width * q.height
    &&& q.opaque.len() == q.width * q.height
}

/// Whether every byte is below `0x80`.
pub open spec fn is_ascii_bytes(s: Seq<u8>) -> bool {
    forall|i: int| 0 <= i < s.len() ==> s[i] < 0x80
}

/// The decimal digits of `n` in ASCII, without leading zeros.
pub open spec fn decimal_digits(n: int) -> Seq<u8>
    decreases n,
{
    if n < 10 {
        seq![(0x30 + n) as u8]
    } else {
        decimal_digits(n / 10).push((0x30 + n % 10) as u8)
    }
}

/// The introducer: `ESC P`, the parameters `0;1;0` where the image has
/// transparent pixels, and `q`.
pub open spec fn header_bytes(transparent: bool) -> Seq<u8> {
    if transparent {
        seq![0x1bu8, 0x50u8, 0x30u8, 0x3bu8, 0x31u8, 0x3bu8, 0x30u8, 0x71u8]
    } else {
        seq![0x1bu8, 0x50u8, 0x71u8]
    }
}

/// The string terminator `ESC \`.
pub open spec fn trailer_bytes() -> Seq<u8> {
    seq![0x1bu8, 0x5cu8]
}

/// The definition of register `i`: `#i;2;r;g;b`, the channels in
/// percent.
pub open spec fn color_def(i: int, c: Rgb) -> Seq<u8> {
    seq![0x23u8] + decimal_digits(i) + seq![0x3bu8, 0x32u8, 0x3bu8] + decimal_digits(
        byte_to_percent_spec(c.r as int),
    ) + seq![0x3bu8] + decimal_digits(byte_to_percent_spec(c.g as int)) + seq![0x3bu8]
        + decimal_digits(byte_to_percent_spec(c.b as int))
}

/// The definitions of the first `n` registers.
pub open spec fn palette_defs(palette: Seq<Rgb>, n: int) -> Seq<u8>
    decreases n,
{
    if n <= 0 {
        Seq::empty()
    } else {
        palette_defs(palette, n - 1) + color_def(n - 1, palette[n - 1])
    }
}

/// Whether the pixel at `(x, y)` is there, opaque and of colour `c`.
pub open spec fn hit(q: Indexed, x: int, y: int, c: int) -> bool {
    &&& 0 <= y < q.height
    &&& q.opaque[y * q.width + x]
    &&& q.indices[y * q.width + x] == c
}

/// `weight` where the pixel at `(x, y)` is a hit, else zero.
pub open spec fn hit_bit(q: Indexed, x: int, y: int, c: int, weight: int) -> int {
    if hit(q, x, y, c) {
        weight
    } else {
        0
    }
}

/// The six-pixel column of colour `c` at column `x` of a band: bit `k`
/// is set where the pixel `k` rows down is a hit.
pub open spec fn column_mask(q: Indexed, band: int, x: int, c: int) -> int {
    hit_bit(q, x, 6 * band, c, 1) + hit_bit(q, x, 6 * band + 1, c, 2) + hit_bit(
        q,
        x,
        6 * band + 2,
        c,
        4,
    ) + hit_bit(q, x, 6 * band + 3, c, 8) + hit_bit(q, x, 6 * band + 4, c, 16) + hit_bit(
        q,
        x,
        6 * band + 5,
        c,
        32,
    )
}

/// How many columns from `from` on repeat the column at `x`.
pub open spec fn run_extra(q: Indexed, band: int, c: int, x: int, from: int) -> nat
    decreases q.width - from,
{
    if from < 0 || from >= q.width || column_mask(q, band, from, c) != column_mask(q, band, x, c) {
        0
    } else {
        1 + run_extra(q, band, c, x, from + 1)
    }
}

/// Length of the run of equal columns that begins at `x`.
pub open spec fn run_len(q: Indexed, band: int, c: int, x: int) -> int {
    1 + run_extra(q, band, c, x, x + 1) as int
}

/// Whether a run begins at `x`: at the left edge, and where a column
/// differs from the one before.
pub open spec fn is_run_start(q: Indexed, band: int, c: int, x: int) -> bool {
    x == 0 || column_mask(q, band, x - 1, c) != column_mask(q, band, x, c)
}

/// A run of `n` equal columns: the column's character `n` times, or,
/// for more than three, `!`, the count and the character once.
pub open spec fn encode_run(n: int, mask: int) -> Seq<u8> {
    if n > 3 {
        seq![0x21u8] + decimal_digits(n) + seq![(0x3f + mask) as u8]
    } else {
        Seq::new(n as nat, |i: int| (0x3f + mask) as u8)
    }
}

/// The runs of colour `c` in a band, from column `x` to the right edge.
pub open spec fn sweep(q: Indexed, band: int, c: int, x: int) -> Seq<u8>
    decreases q.width - x,
{
    if x < 0 || x >= q.width {
        Seq::empty()
    } else if is_run_start(q, band, c, x) {
        encode_run(run_len(q, band, c, x), column_mask(q, band, x, c)) + sweep(q, band, c, x + 1)
    } else {
        sweep(q, band, c, x + 1)
    }
}

/// Index of the first pixel of a band.
pub open spec fn band_begin(q: Indexed, band: int) -> int {
    6 * band * q.width
}

/// Index just past the last pixel of a band.
pub open spec fn band_end(q: Indexed, band: int) -> int {
    if 6 * band + 6 < q.height {
        (6 * band + 6) * q.width
    } else {
        q.height * q.width
    }
}

/// Whether pixel `p` is opaque and of colour `c`.
pub open spec fn pixel_is(q: Indexed, p: int, c: int) -> bool {
    q.opaque[p] && q.indices[p] == c
}

/// Whether some opaque pixel of the band has colour `c`.
pub open spec fn color_used(q: Indexed, band: int, c: int) -> bool {
    exists|p: int| band_begin(q, band) <= p < band_end(q, band) && #[trigger] pixel_is(q, p, c)
}

/// What a band holds for colour `c`: nothing where the band does not
/// use it, else `#c`, its runs and `$`.
pub open spec fn color_pass(q: Indexed, band: int, c: int) -> Seq<u8> {
    if color_used(q, band, c) {
        seq![0x23u8] + decimal_digits(c) + sweep(q, band, c, 0) + seq![0x24u8]
    } else {
        Seq::empty()
    }
}

/// What a band holds for the first `n` colours.
pub open spec fn band_passes(q: Indexed, band: int, n: int) -> Seq<u8>
    decreases n,
{
    if n <= 0 {
        Seq::empty()
    } else {
        band_passes(q, band, n - 1) + color_pass(q, band, n - 1)
    }
}

/// A band: one pass for each colour it uses, in register order, and
/// `-`.
pub open spec fn band_bytes(q: Indexed, band: int) -> Seq<u8> {
    band_passes(q, band, q.palette.len() as int) + seq![0x2du8]
}

/// The first `n` bands.
pub open spec fn bands_bytes(q: Indexed, n: int) -> Seq<u8>
    decreases n,
{
    if n <= 0 {
        Seq::empty()
    } else {
        bands_bytes(q, n - 1) + band_bytes(q, n - 1)
    }
}

/// Number of bands of an image of the given height.
pub open spec fn band_count(height: int) -> int {
    (height + 5) / 6
}

/// The Device Control String of an indexed image.
pub open spec fn emit_spec(q: Indexed, transparent: bool) -> Seq<u8> {
    header_bytes(transparent) + palette_defs(q.palette, q.palette.len() as int) + bands_bytes(
        q,
        band_count(q.height),
    ) + trailer_bytes()
}

/// Decimal digits are ASCII.
pub proof fn lemma_decimal_digits_ascii(n: int)
    requires
        0 <= n,
    ensures
        decimal_digits(n).len() >= 1,
        forall|i: int|
            0 <= i < decimal_digits(n).len() ==> 0x30 <= #[trigger] decimal_digits(n)[i] <= 0x39,
    decreases n,
{
    if n >= 10 {
        lemma_decimal_digits_ascii(n / 10);
    }
}

/// Appends the decimal digits of `n`.
pub fn write_number(out: &mut Vec<u8>, n: usize)
    ensures
        final(out)@ == old(out)@ + decimal_digits(n as int),
        is_ascii_bytes(old(out)@) ==> is_ascii_bytes(final(out)@),
    decreases n,
{
    proof {
        lemma_decimal_digits_ascii(n as int);
    }
    if n >= 10 {
        write_number(out, n / 10);
    }
    let ghost mid = out@;
    out.push(0x30 + (n % 10) as u8);
    proof {
        if n >= 10 {
            assert(out@ =~= old(out)@ + decimal_digits(n as int));
        } else {
            assert(out@ =~= old(out)@ + decimal_digits(n as int));
        }
    }
}

/// The indexed image that a palette, indices, opacity flags and a size
/// describe.
pub open spec fn indexed_of(
    palette: Seq<Rgb>,
    indices: Seq<u8>,
    opaque: Seq<bool>,
    width: int,
    height: int,
) -> Indexed {
    Indexed { palette, indices, opaque, width, height }
}

/// Whether the slices hold the indexed image `q`.
pub open spec fn holds(
    q: Indexed,
    indices: &[u8],
    opacity_mask: &[bool],
    width: usize,
    height: usize,
) -> bool {
    &&& q.indices == indices@
    &&& q.opaque == opacity_mask@
    &&& q.width == width
    &&& q.height == height
    &&& indices@.len() == width * height
    &&& opacity_mask@.len() == width * height
}

/// Pixel `(x, y)` of an image lies inside its buffer.
pub proof fn lemma_pixel_in_range(width: int, height: int, x: int, y: int)
    requires
        0 <= x < width,
        0 <= y < height,
    ensures
        0 <= y * width + x < width * height,
{
    assert(0 <= y * width && y * width + width <= height * width) by (nonlinear_arith)
        requires
            0 <= y < height,
            0 < width,
    ;
    assert(height * width == width * height) by (nonlinear_arith);
}

/// A band lies inside the image, and its pixels are those of its rows.
pub proof fn lemma_band_range(q: Indexed, band: int)
    requires
        q.width >= 0,
        q.height >= 0,
        0 <= band,
        6 * band < q.height,
    ensures
        0 <= band_begin(q, band) <= band_end(q, band) <= q.width * q.height,
{
    let rows_end = if 6 * band + 6 < q.height {
        6 * band + 6
    } else {
        q.height
    };
    assert(0 <= (6 * band) * q.width <= rows_end * q.width <= q.height * q.width)
        by (nonlinear_arith)
        requires
            0 <= 6 * band <= rows_end <= q.height,
            0 <= q.width,
    ;
    assert(q.height * q.width == q.width * q.height) by (nonlinear_arith);
    assert(6 * band * q.width == (6 * band) * q.width);
}

/// A stretch of `n` equal columns that ends at the right edge or at a
/// different column is one run, and no run begins inside it.
pub proof fn lemma_run(q: Indexed, band: int, c: int, x: int, n: int, from: int)
    requires
        0 <= x,
        1 <= n,
        x + n <= q.width,
        x < from <= x + n,
        forall|j: int|
            x <= j < x + n ==> column_mask(q, band, j, c) == column_mask(q, band, x, c),
        x + n < q.width ==> column_mask(q, band, x + n, c) != column_mask(q, band, x, c),
    ensures
        run_extra(q, band, c, x, from) == x + n - from,
        sweep(q, band, c, from) == sweep(q, band, c, x + n),
    decreases x + n - from,
{
    if from < x + n {
        lemma_run(q, band, c, x, n, from + 1);
        assert(!is_run_start(q, band, c, from));
    }
}

fn push_color_def(out: &mut Vec<u8>, i: usize, c: Rgb)
    ensures
        final(out)@ == old(out)@ + color_def(i as int, c),
        is_ascii_bytes(old(out)@) ==> is_ascii_bytes(final(out)@),
{
    let r: usize = (c.r as usize * 100) / 255;
    let g: usize = (c.g as usize * 100) / 255;
    let b: usize = (c.b as usize * 100) / 255;
    out.push(0x23);
    write_number(out, i);
    out.push(0x3b);
    out.push(0x32);
    out.push(0x3b);
    write_number(out, r);
    out.push(0x3b);
    write_number(out, g);
    out.push(0x3b);
    write_number(out, b);
    assert(out@ =~= old(out)@ + color_def(i as int, c));
}

fn push_run(out: &mut Vec<u8>, n: usize, bits: u8)
    requires
        n >= 1,
        bits < 64,
    ensures
        final(out)@ == old(out)@ + encode_run(n as int, bits as int),
        is_ascii_bytes(old(out)@) ==> is_ascii_bytes(final(out)@),
{
    let ch: u8 = 0x3f + bits;
    if n > 3 {
        out.push(0x21);
        write_number(out, n);
        out.push(ch);
        assert(out@ =~= old(out)@ + encode_run(n as int, bits as int));
    } else {
        let mut i: usize = 0;
        while i < n
            invariant
                i <= n <= 3,
                ch == 0x3f + bits,
                bits < 64,
                out@ == old(out)@ + Seq::new(i as nat, |k: int| ch),
                is_ascii_bytes(old(out)@) ==> is_ascii_bytes(out@),
            decreases n - i,
        {
            out.push(ch);
            i += 1;
            assert(out@ =~= old(out)@ + Seq::new(i as nat, |k: int| ch));
        }
        assert(out@ =~= old(out)@ + encode_run(n as int, bits as int));
    }
}

fn is_hit(
    indices: &[u8],
    opacity_mask: &[bool],
    width: usize,
    height: usize,
    x: usize,
    y: usize,
    color: usize,
    Ghost(q): Ghost<Indexed>,
) -> (out: bool)
    requires
        holds(q, indices, opacity_mask, width, height),
        x < width,
        y < height,
    ensures
        out == hit(q, x as int, y as int, color as int),
{
    let total: usize = indices.len();
    proof {
        lemma_pixel_in_range(width as int, height as int, x as int, y as int);
        assert(0 <= y * width) by (nonlinear_arith)
            requires
                0 <= y,
                0 <= width,
        ;
    }
    let p: usize = y * width + x;
    opacity_mask[p] && indices[p] as usize == color
}

fn column_bits(
    indices: &[u8],
    opacity_mask: &[bool],
    width: usize,
    height: usize,
    band: usize,
    x: usize,
    color: usize,
    Ghost(q): Ghost<Indexed>,
) -> (bits: u8)
    requires
        holds(q, indices, opacity_mask, width, height),
        x < width,
        6 * band < height,
    ensures
        bits == column_mask(q, band as int, x as int, color as int),
        bits < 64,
{
    let y0: usize = band * 6;
    let rows: usize = height - y0;
    let mut bits: u8 = 0;
    if is_hit(indices, opacity_mask, width, height, x, y0, color, Ghost(q)) {
        bits = bits + 1;
    }
    if rows > 1 && is_hit(indices, opacity_mask, width, height, x, y0 + 1, color, Ghost(q)) {
        bits = bits + 2;
    }
    if rows > 2 && is_hit(indices, opacity_mask, width, height, x, y0 + 2, color, Ghost(q)) {
        bits = bits + 4;
    }
    if rows > 3 && is_hit(indices, opacity_mask, width, height, x, y0 + 3, color, Ghost(q)) {
        bits = bits + 8;
    }
    if rows > 4 && is_hit(indices, opacity_mask, width, height, x, y0 + 4, color, Ghost(q)) {
        bits = bits + 16;
    }
    if rows > 5 && is_hit(indices, opacity_mask, width, height, x, y0 + 5, color, Ghost(q)) {
        bits = bits + 32;
    }
    bits
}

fn colors_in_band(
    indices: &[u8],
    opacity_mask: &[bool],
    width: usize,
    height: usize,
    band: usize,
    Ghost(q): Ghost<Indexed>,
) -> (used: [bool; 256])
    requires
        holds(q, indices, opacity_mask, width, height),
        6 * band < height,
    ensures
        forall|c: int| 0 <= c < 256 ==> used@[c] == color_used(q, band as int, c),
{
    let total: usize = indices.len();
    proof {
        lemma_band_range(q, band as int);
    }
    let y0: usize = band * 6;
    let rows: usize = if height - y0 < 6 {
        height - y0
    } else {
        6
    };
    assert((6 * band) * width == band_begin(q, band as int)) by (nonlinear_arith)
        requires
            band_begin(q, band as int) == 6 * band * q.width,
            q.width == width,
    ;
    let begin: usize = y0 * width;
    let end: usize = (y0 + rows) * width;
    assert(begin == band_begin(q, band as int));
    assert(end == band_end(q, band as int));
    let mut used: [bool; 256] = [false; 256];
    let mut p: usize = begin;
    while p < end
        invariant
            begin <= p <= end,
            end <= indices@.len(),
            end <= opacity_mask@.len(),
            q.indices == indices@,
            q.opaque == opacity_mask@,
            forall|c: int|
                0 <= c < 256 ==> (used@[c] <==> exists|k: int|
                    begin <= k < p && #[trigger] pixel_is(q, k, c)),
        decreases end - p,
    {
        let ghost before = used@;
        if opacity_mask[p] {
            let idx: usize = indices[p] as usize;
            used[idx] = true;
            assert(pixel_is(q, p as int, idx as int));
        }
        proof {
            assert forall|c: int| 0 <= c < 256 implies (used@[c] <==> exists|k: int|
                begin <= k < p + 1 && #[trigger] pixel_is(q, k, c)) by {
                if used@[c] {
                    if before[c] {
                        let k = choose|k: int| begin <= k < p && #[trigger] pixel_is(q, k, c);
                        assert(begin <= k < p + 1 && pixel_is(q, k, c));
                    } else {
                        assert(pixel_is(q, p as int, c));
                    }
                }
                if exists|k: int| begin <= k < p + 1 && #[trigger] pixel_is(q, k, c) {
                    let k = choose|k: int| begin <= k < p + 1 && #[trigger] pixel_is(q, k, c);
                    if k < p {
                        assert(before[c]);
                    }
                }
            }
        }
        p += 1;
    }
    used
}

fn push_sweep(
    out: &mut Vec<u8>,
    indices: &[u8],
    opacity_mask: &[bool],
    width: usize,
    height: usize,
    band: usize,
    color: usize,
    Ghost(q): Ghost<Indexed>,
)
    requires
        holds(q, indices, opacity_mask, width, height),
        6 * band < height,
    ensures
        final(out)@ == old(out)@ + sweep(q, band as int, color as int, 0),
        is_ascii_bytes(old(out)@) ==> is_ascii_bytes(final(out)@),
{
    let ghost b = band as int;
    let ghost c = color as int;
    let mut x: usize = 0;
    assert(out@ + sweep(q, b, c, 0) =~= old(out)@ + sweep(q, b, c, 0));
    while x < width
        invariant
            x <= width,
            holds(q, indices, opacity_mask, width, height),
            6 * band < height,
            b == band,
            c == color,
            out@ + sweep(q, b, c, x as int) == old(out)@ + sweep(q, b, c, 0),
            x < width ==> is_run_start(q, b, c, x as int),
            is_ascii_bytes(old(out)@) ==> is_ascii_bytes(out@),
        decreases width - x,
    {
        let bits = column_bits(indices, opacity_mask, width, height, band, x, color, Ghost(q));
        let mut run: usize = 1;
        let mut more: bool = true;
        while more && x + run < width
            invariant
                1 <= run,
                x + run <= width,
                x < width,
                holds(q, indices, opacity_mask, width, height),
                6 * band < height,
                b == band,
                c == color,
                bits == column_mask(q, b, x as int, c),
                forall|j: int| x <= j < x + run ==> column_mask(q, b, j, c) == bits,
                !more ==> x + run < width && column_mask(q, b, x + run, c) != bits,
            decreases width - x - run + (if more { 1int } else { 0int }),
        {
            let next = column_bits(
                indices,
                opacity_mask,
                width,
                height,
                band,
                x + run,
                color,
                Ghost(q),
            );
            if next != bits {
                more = false;
            } else {
                run += 1;
            }
        }
        let ghost before = out@;
        proof {
            if run > 1 {
                lemma_run(q, b, c, x as int, run as int, x + 1);
            }
            assert(run_len(q, b, c, x as int) == run);
            assert(sweep(q, b, c, x + 1) == sweep(q, b, c, x + run));
        }
        push_run(out, run, bits);
        proof {
            assert(out@ + sweep(q, b, c, x + run) =~= before + (encode_run(
                run as int,
                bits as int,
            ) + sweep(q, b, c, x + 1)));
        }
        x += run;
    }
    assert(out@ =~= out@ + sweep(q, b, c, x as int));
}

fn push_band(
    out: &mut Vec<u8>,
    palette_len: usize,
    indices: &[u8],
    opacity_mask: &[bool],
    width: usize,
    height: usize,
    band: usize,
    Ghost(q): Ghost<Indexed>,
)
    requires
        holds(q, indices, opacity_mask, width, height),
        q.palette.len() == palette_len,
        palette_len <= 256,
        6 * band < height,
    ensures
        final(out)@ == old(out)@ + band_bytes(q, band as int),
        is_ascii_bytes(old(out)@) ==> is_ascii_bytes(final(out)@),
{
    let used = colors_in_band(indices, opacity_mask, width, height, band, Ghost(q));
    let ghost b = band as int;
    let mut color: usize = 0;
    assert(out@ =~= old(out)@ + band_passes(q, b, 0));
    while color < palette_len
        invariant
            color <= palette_len <= 256,
            holds(q, indices, opacity_mask, width, height),
            6 * band < height,
            b == band,
            forall|c: int| 0 <= c < 256 ==> used@[c] == color_used(q, b, c),
            out@ == old(out)@ + band_passes(q, b, color as int),
            is_ascii_bytes(old(out)@) ==> is_ascii_bytes(out@),
        decreases palette_len - color,
    {
        let ghost before = out@;
        if used[color] {
            out.push(0x23);
            write_number(out, color);
            push_sweep(out, indices, opacity_mask, width, height, band, color, Ghost(q));
            out.push(0x24);
        }
        assert(out@ =~= before + color_pass(q, b, color as int));
        assert(out@ =~= old(out)@ + band_passes(q, b, color + 1));
        color += 1;
    }
    out.push(0x2d);
    assert(out@ =~= old(out)@ + band_bytes(q, b));
}

/// Writes an indexed image as the bytes of a Device Control String:
/// the introducer, one definition for each palette entry, the bands from
/// the top down, and the string terminator. Each band holds one pass for
/// each colour that an opaque pixel of it has; a pass holds the runs of
/// six-pixel columns in which that colour is set. Pixels that are not
/// opaque are never drawn.
pub fn emit_sixel(
    palette: &[Rgb],
    indices: &[u8],
    opacity_mask: &[bool],
    width: usize,
    height: usize,
    has_transparency: bool,
) -> (out: Vec<u8>)
    requires
        palette@.len() <= 256,
        indices@.len() == width * height,
        opacity_mask@.len() == width * height,
    ensures
        out@ == emit_spec(
            indexed_of(palette@, indices@, opacity_mask@, width as int, height as int),
            has_transparency,
        ),
        is_ascii_bytes(out@),
{
    let ghost q = indexed_of(palette@, indices@, opacity_mask@, width as int, height as int);
    let mut out: Vec<u8> = Vec::new();
    out.push(0x1b);
    out.push(0x50);
    if has_transparency {
        out.push(0x30);
        out.push(0x3b);
        out.push(0x31);
        out.push(0x3b);
        out.push(0x30);
    }
    out.push(0x71);
    assert(out@ =~= header_bytes(has_transparency));
    let ghost header = out@;
    let mut i: usize = 0;
    assert(out@ =~= header + palette_defs(q.palette, 0));
    while i < palette.len()
        invariant
            i <= palette@.len(),
            q.palette == palette@,
            out@ == header + palette_defs(q.palette, i as int),
            is_ascii_bytes(out@),
        decreases palette@.len() - i,
    {
        let ghost before = out@;
        push_color_def(&mut out, i, palette[i]);
        assert(out@ =~= header + palette_defs(q.palette, i + 1));
        i += 1;
    }
    let ghost defs = out@;
    let bands: usize = height / 6 + if height % 6 != 0 {
        1
    } else {
        0
    };
    assert(bands == band_count(height as int));
    let mut band: usize = 0;
    assert(out@ =~= defs + bands_bytes(q, 0));
    while band < bands
        invariant
            band <= bands,
            bands == band_count(height as int),
            holds(q, indices, opacity_mask, width, height),
            q.palette.len() == palette@.len(),
            palette@.len() <= 256,
            out@ == defs + bands_bytes(q, band as int),
            is_ascii_bytes(out@),
        decreases bands - band,
    {
        push_band(
            &mut out,
            palette.len(),
            indices,
            opacity_mask,
            width,
            height,
            band,
            Ghost(q),
        );
        assert(out@ =~= defs + bands_bytes(q, band + 1));
        band += 1;
    }
    out.push(0x1b);
    out.push(0x5c);
    assert(out@ =~= emit_spec(q, has_transparency));
    out
}

} // verus!
