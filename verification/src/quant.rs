//! Fixed-palette colour mapping with error diffusion: colour hashing,
//! nearest-colour lookup and the diffusion kernels.

use vstd::prelude::*;

verus! {

/// The cell of a colour in a grid of 32 steps per channel: the high
/// five bits of each of its `depth` channels, the first channel in the
/// highest place.
pub open spec fn color_hash(data: Seq<u8>, i: int, depth: int) -> int
    decreases depth,
{
    if depth <= 0 {
        0
    } else {
        color_hash(data, i, depth - 1) * 32 + data[i + depth - 1] / 8
    }
}

/// 32 to the power `n`.
pub open spec fn pow32(n: int) -> int
    decreases n,
{
    if n <= 0 {
        1
    } else {
        32 * pow32(n - 1)
    }
}

/// A colour hash of `depth` channels is below `32^depth`.
pub proof fn lemma_color_hash_bound(data: Seq<u8>, i: int, depth: int)
    ensures
        0 <= color_hash(data, i, depth) < pow32(depth),
    decreases depth,
{
    if depth > 0 {
        lemma_color_hash_bound(data, i, depth - 1);
    }
}

/// The grid cell of the colour whose `depth` channels begin at `data[i]`.
#[allow(non_snake_case)]
pub fn computeHash(data: &[u8], i: usize, depth: i32) -> (hash: i32)
    requires
        depth <= 6,
        depth > 0 ==> i + depth <= data@.len(),
    ensures
        hash == color_hash(data@, i as int, depth as int),
{
    let mut hash: i32 = 0;
    let mut n: i32 = 0;
    let total: usize = data.len();
    proof {
        reveal_with_fuel(pow32, 7);
    }
    while n < depth
        invariant
            0 <= n,
            n <= depth || (depth < 0 && n == 0),
            depth <= 6,
            depth > 0 ==> i + depth <= data@.len(),
            data@.len() <= usize::MAX,
            hash == color_hash(data@, i as int, n as int),
            0 <= hash < pow32(n as int),
            pow32(n as int) <= 0x2000000 || n >= 6,
        decreases depth - n,
    {
        proof {
            reveal_with_fuel(pow32, 7);
            assert(pow32(n as int) <= 0x2000000);
            lemma_color_hash_bound(data@, i as int, n + 1);
        }
        hash = hash * 32 + (data[i + n as usize] / 8) as i32;
        n += 1;
    }
    hash
}

/// A colour and a count: an entry of a histogram or of a colour map.
#[derive(Clone)]
pub struct Tuple {
    pub value: i32,
    pub tuple: Vec<i32>,
}

/// `v` limited to the range of a byte.
pub open spec fn clamp_byte(v: int) -> u8 {
    if v < 0 {
        0u8
    } else if v > 255 {
        255u8
    } else {
        v as u8
    }
}

/// The quotient of `a` by a positive `b`, rounded toward zero.
pub open spec fn trunc_div(a: int, b: int) -> int {
    if a >= 0 {
        a / b
    } else {
        -((-a) / b)
    }
}

/// `data` after the share `numerator / denominator` of `error` was
/// added to the first channel of pixel `pos`, the sum limited to a byte.
#[verifier::opaque]
pub open spec fn diffused(
    data: Seq<u8>,
    pos: int,
    depth: int,
    error: int,
    numerator: int,
    denominator: int,
) -> Seq<u8> {
    data.update(
        pos * depth,
        clamp_byte(data[pos * depth] + trunc_div(error * numerator, denominator)),
    )
}

/// Whether a share of an error can be added to pixel `pos`: the pixel
/// is in the buffer and no product leaves the range of `i32`.
#[verifier::opaque]
pub open spec fn can_diffuse(
    len: int,
    pos: int,
    depth: int,
    error: int,
    numerator: int,
    denominator: int,
) -> bool {
    &&& 0 <= pos * depth < len
    &&& pos * depth <= i32::MAX
    &&& denominator > 0
    &&& -0x7000_0000 <= error * numerator <= 0x7000_0000
}

/// Adds the share `numerator / denominator` of `error` to the first
/// channel of pixel `pos`, and limits the sum to a byte.
pub fn error_diffuse(
    data: &mut [u8],
    pos: i32,
    depth: i32,
    error: i32,
    numerator: i32,
    denominator: i32,
)
    requires
        can_diffuse(
            old(data)@.len() as int,
            pos as int,
            depth as int,
            error as int,
            numerator as int,
            denominator as int,
        ),
    ensures
        final(data)@ == diffused(
            old(data)@,
            pos as int,
            depth as int,
            error as int,
            numerator as int,
            denominator as int,
        ),
        final(data)@.len() == old(data)@.len(),
{
    reveal(diffused);
    reveal(can_diffuse);
    let offset: usize = (pos * depth) as usize;
    let product: i32 = error * numerator;
    let share: i32 = if product >= 0 {
        product / denominator
    } else {
        -((-product) / denominator)
    };
    assert(-0x7000_0000 <= share <= 0x7000_0000) by (nonlinear_arith)
        requires
            -0x7000_0000 <= product <= 0x7000_0000,
            denominator > 0,
            share == if product >= 0 {
                product as int / denominator as int
            } else {
                -((-product) as int / denominator as int)
            },
    ;
    let mut c: i32 = data[offset] as i32 + share;
    if c < 0 {
        c = 0;
    }
    if c > 255 {
        c = 255;
    }
    data[offset] = c as u8;
}

/// Whether the kernels can run at `(x, y)`: the pixel is in the image,
/// every pixel of the image is in the buffer, and no product leaves the
/// range of `i32`.
pub open spec fn kernel_ok(
    len: int,
    width: int,
    height: int,
    x: int,
    y: int,
    depth: int,
    error: int,
) -> bool {
    &&& 1 <= depth
    &&& 0 <= x < width
    &&& 0 <= y < height
    &&& (width * height - 1) * depth < len
    &&& width * height * depth <= i32::MAX
    &&& -0x100_0000 <= error <= 0x100_0000
}

/// Under [`kernel_ok`] a share can be added to every pixel of the image.
pub proof fn lemma_kernel_target(
    len: int,
    width: int,
    height: int,
    x: int,
    y: int,
    depth: int,
    error: int,
    pos: int,
    numerator: int,
    denominator: int,
)
    requires
        kernel_ok(len, width, height, x, y, depth, error),
        0 <= pos < width * height,
        1 <= numerator <= 8,
        denominator > 0,
    ensures
        can_diffuse(len, pos, depth, error, numerator, denominator),
{
    reveal(can_diffuse);
    assert(0 <= pos * depth <= (width * height - 1) * depth) by (nonlinear_arith)
        requires
            0 <= pos <= width * height - 1,
            1 <= depth,
    ;
    assert((width * height - 1) * depth <= width * height * depth) by (nonlinear_arith)
        requires
            1 <= depth,
    ;
    assert(-0x800_0000 <= error * numerator <= 0x800_0000) by (nonlinear_arith)
        requires
            -0x100_0000 <= error <= 0x100_0000,
            1 <= numerator <= 8,
    ;
}

/// [`lemma_kernel_target`] with the place of the kernel in one value:
/// length of the buffer, width, height, column, row, depth and error.
pub proof fn lemma_site_target(
    site: (int, int, int, int, int, int, int),
    pos: int,
    numerator: int,
    denominator: int,
)
    requires
        kernel_ok(site.0, site.1, site.2, site.3, site.4, site.5, site.6),
        0 <= pos < site.1 * site.2,
        1 <= numerator <= 8,
        denominator > 0,
    ensures
        can_diffuse(site.0, pos, site.5, site.6, numerator, denominator),
{
    lemma_kernel_target(
        site.0,
        site.1,
        site.2,
        site.3,
        site.4,
        site.5,
        site.6,
        pos,
        numerator,
        denominator,
    );
}

/// The index of the pixel at `(x, y)`, and the bounds that the kernels
/// lean on.
pub proof fn lemma_kernel_pos(width: int, height: int, x: int, y: int, depth: int)
    requires
        1 <= depth,
        0 <= x < width,
        0 <= y < height,
        width * height * depth <= i32::MAX,
    ensures
        0 <= y * width <= y * width + x < width * height <= i32::MAX,
        (height - 1) * width == width * height - width,
        (height - 2) * width == width * height - 2 * width,
        (y + 1) * width == y * width + width,
        y + 1 < height ==> y * width + x + width < width * height,
        y + 2 < height ==> y * width + x + 2 * width < width * height,
{
    assert(0 <= y * width && y * width + width <= height * width) by (nonlinear_arith)
        requires
            0 <= y < height,
            0 < width,
    ;
    assert(height * width == width * height) by (nonlinear_arith);
    assert(width * height <= width * height * depth) by (nonlinear_arith)
        requires
            1 <= depth,
            0 < width,
            0 < height,
    ;
    assert((height - 1) * width == width * height - width) by (nonlinear_arith);
    assert((height - 2) * width == width * height - 2 * width) by (nonlinear_arith);
    assert((y + 1) * width == y * width + width) by (nonlinear_arith);
    if y + 1 < height {
        assert((y + 1) * width + width <= height * width) by (nonlinear_arith)
            requires
                0 <= y + 1 < height,
                0 < width,
        ;
    }
    if y + 2 < height {
        assert((y + 2) * width + width <= height * width) by (nonlinear_arith)
            requires
                0 <= y + 2 < height,
                0 < width,
        ;
        assert((y + 2) * width == y * width + 2 * width) by (nonlinear_arith);
    }
}

/// The kernel that diffuses nothing.
pub fn diffuse_none(
    data: &mut [u8],
    width: i32,
    height: i32,
    x: i32,
    y: i32,
    depth: i32,
    error: i32,
)
    ensures
        final(data)@ == old(data)@,
{
}

/// `data` after the Floyd-Steinberg kernel spread `error` from
/// `(x, y)`: 7/16 to the right, 3/16 below left, 5/16 below, 1/16 below
/// right. Nothing is spread from the last column or the last row.
pub open spec fn diffuse_fs_spec(
    data: Seq<u8>,
    width: int,
    height: int,
    x: int,
    y: int,
    depth: int,
    error: int,
) -> Seq<u8> {
    let pos = y * width + x;
    if x < width - 1 && y < height - 1 {
        let d1 = diffused(data, pos + 1, depth, error, 7, 16);
        let d2 = diffused(d1, pos + width - 1, depth, error, 3, 16);
        let d3 = diffused(d2, pos + width, depth, error, 5, 16);
        diffused(d3, pos + width + 1, depth, error, 1, 16)
    } else {
        data
    }
}

/// The Floyd-Steinberg kernel.
pub fn diffuse_fs(data: &mut [u8], width: i32, height: i32, x: i32, y: i32, depth: i32, error: i32)
    requires
        kernel_ok(
            old(data)@.len() as int,
            width as int,
            height as int,
            x as int,
            y as int,
            depth as int,
            error as int,
        ),
    ensures
        final(data)@ == diffuse_fs_spec(
            old(data)@,
            width as int,
            height as int,
            x as int,
            y as int,
            depth as int,
            error as int,
        ),
        final(data)@.len() == old(data)@.len(),
{
    let ghost len = data@.len() as int;
    let ghost w = width as int;
    let ghost h = height as int;
    let ghost site = (len, w, h, x as int, y as int, depth as int, error as int);
    proof {
        lemma_kernel_pos(w, h, x as int, y as int, depth as int);
    }
    let pos: i32 = y * width + x;
    if x < width - 1 && y < height - 1 {
        proof {
            lemma_site_target(site, pos + 1, 7, 16);
            lemma_site_target(site, pos + w - 1, 3, 16);
            lemma_site_target(site, pos + w, 5, 16);
            lemma_site_target(site, pos + w + 1, 1, 16);
        }
        error_diffuse(data, pos + 1, depth, error, 7, 16);
        error_diffuse(data, pos + width - 1, depth, error, 3, 16);
        error_diffuse(data, pos + width, depth, error, 5, 16);
        error_diffuse(data, pos + width + 1, depth, error, 1, 16);
    }
}

/// `data` after Atkinson's kernel spread `error` from `(x, y)`: an
/// eighth each to the two pixels to the right, the three below and the
/// one two rows below. Nothing is spread from the last two rows.
pub open spec fn diffuse_atkinson_spec(
    data: Seq<u8>,
    width: int,
    height: int,
    x: int,
    y: int,
    depth: int,
    error: int,
) -> Seq<u8> {
    let pos = y * width + x;
    if y < height - 2 {
        let d1 = diffused(data, pos + 1, depth, error, 1, 8);
        let d2 = diffused(d1, pos + 2, depth, error, 1, 8);
        let d3 = diffused(d2, pos + width - 1, depth, error, 1, 8);
        let d4 = diffused(d3, pos + width, depth, error, 1, 8);
        let d5 = diffused(d4, pos + width + 1, depth, error, 1, 8);
        diffused(d5, pos + width * 2, depth, error, 1, 8)
    } else {
        data
    }
}

/// Atkinson's kernel.
pub fn diffuse_atkinson(
    data: &mut [u8],
    width: i32,
    height: i32,
    x: i32,
    y: i32,
    depth: i32,
    error: i32,
)
    requires
        kernel_ok(
            old(data)@.len() as int,
            width as int,
            height as int,
            x as int,
            y as int,
            depth as int,
            error as int,
        ),
    ensures
        final(data)@ == diffuse_atkinson_spec(
            old(data)@,
            width as int,
            height as int,
            x as int,
            y as int,
            depth as int,
            error as int,
        ),
        final(data)@.len() == old(data)@.len(),
{
    let ghost len = data@.len() as int;
    let ghost w = width as int;
    let ghost h = height as int;
    let ghost site = (len, w, h, x as int, y as int, depth as int, error as int);
    proof {
        lemma_kernel_pos(w, h, x as int, y as int, depth as int);
    }
    let pos: i32 = y * width + x;
    if y < height - 2 {
        proof {
            lemma_site_target(site, pos + 1, 1, 8);
            lemma_site_target(site, pos + 2, 1, 8);
            lemma_site_target(site, pos + w - 1, 1, 8);
            lemma_site_target(site, pos + w, 1, 8);
            lemma_site_target(site, pos + w + 1, 1, 8);
            lemma_site_target(site, pos + w * 2, 1, 8);
        }
        error_diffuse(data, pos + 1, depth, error, 1, 8);
        error_diffuse(data, pos + 2, depth, error, 1, 8);
        error_diffuse(data, pos + width - 1, depth, error, 1, 8);
        error_diffuse(data, pos + width, depth, error, 1, 8);
        error_diffuse(data, pos + width + 1, depth, error, 1, 8);
        error_diffuse(data, pos + width * 2, depth, error, 1, 8);
    }
}

/// `data` after a kernel of three rows spread `error` from pixel `pos`:
/// two pixels to the right, five below and five two rows below, with
/// the shares `n[k] / d[k]` in that order.
pub open spec fn spread_three_rows(
    data: Seq<u8>,
    pos: int,
    width: int,
    depth: int,
    error: int,
    n: Seq<int>,
    d: Seq<int>,
) -> Seq<u8> {
    let d1 = diffused(data, pos + 1, depth, error, n[0], d[0]);
    let d2 = diffused(d1, pos + 2, depth, error, n[1], d[1]);
    let d3 = diffused(d2, pos + width - 2, depth, error, n[2], d[2]);
    let d4 = diffused(d3, pos + width - 1, depth, error, n[3], d[3]);
    let d5 = diffused(d4, pos + width, depth, error, n[4], d[4]);
    let d6 = diffused(d5, pos + width + 1, depth, error, n[5], d[5]);
    let d7 = diffused(d6, pos + width + 2, depth, error, n[6], d[6]);
    let d8 = diffused(d7, pos + width * 2 - 2, depth, error, n[7], d[7]);
    let d9 = diffused(d8, pos + width * 2 - 1, depth, error, n[8], d[8]);
    let d10 = diffused(d9, pos + width * 2, depth, error, n[9], d[9]);
    let d11 = diffused(d10, pos + width * 2 + 1, depth, error, n[10], d[10]);
    diffused(d11, pos + width * 2 + 2, depth, error, n[11], d[11])
}

/// `data` after the kernel of Jarvis, Judice and Ninke spread `error`
/// from `(x, y)`, in 48ths: 7 and 5 to the right, 3 5 7 5 3 below,
/// 1 3 5 3 1 two rows below. Nothing is spread from a pixel within two
/// rows and two pixels of the end.
pub open spec fn diffuse_jajuni_spec(
    data: Seq<u8>,
    width: int,
    height: int,
    x: int,
    y: int,
    depth: int,
    error: int,
) -> Seq<u8> {
    let pos = y * width + x;
    if pos < (height - 2) * width - 2 {
        spread_three_rows(
            data,
            pos,
            width,
            depth,
            error,
            seq![7, 5, 3, 5, 7, 5, 3, 1, 3, 5, 3, 1],
            seq![48, 48, 48, 48, 48, 48, 48, 48, 48, 48, 48, 48],
        )
    } else {
        data
    }
}

/// The kernel of Jarvis, Judice and Ninke. The first pixel of an image
/// one pixel wide has no pixel two to the left in the next row, so the
/// kernel does not run there.
pub fn diffuse_jajuni(
    data: &mut [u8],
    width: i32,
    height: i32,
    x: i32,
    y: i32,
    depth: i32,
    error: i32,
)
    requires
        kernel_ok(
            old(data)@.len() as int,
            width as int,
            height as int,
            x as int,
            y as int,
            depth as int,
            error as int,
        ),
        y * width + x + width >= 2,
    ensures
        final(data)@ == diffuse_jajuni_spec(
            old(data)@,
            width as int,
            height as int,
            x as int,
            y as int,
            depth as int,
            error as int,
        ),
        final(data)@.len() == old(data)@.len(),
{
    let ghost len = data@.len() as int;
    let ghost w = width as int;
    let ghost h = height as int;
    let ghost site = (len, w, h, x as int, y as int, depth as int, error as int);
    proof {
        lemma_kernel_pos(w, h, x as int, y as int, depth as int);
    }
    let pos: i32 = y * width + x;
    if (pos as i64) < ((height as i64) - 2) * (width as i64) - 2 {
        proof {
            lemma_site_target(site, pos + 1, 7, 48);
            lemma_site_target(site, pos + 2, 5, 48);
            lemma_site_target(site, pos + w - 2, 3, 48);
            lemma_site_target(site, pos + w - 1, 5, 48);
            lemma_site_target(site, pos + w, 7, 48);
            lemma_site_target(site, pos + w + 1, 5, 48);
            lemma_site_target(site, pos + w + 2, 3, 48);
            lemma_site_target(site, pos + w * 2 - 2, 1, 48);
            lemma_site_target(site, pos + w * 2 - 1, 3, 48);
            lemma_site_target(site, pos + w * 2, 5, 48);
            lemma_site_target(site, pos + w * 2 + 1, 3, 48);
            lemma_site_target(site, pos + w * 2 + 2, 1, 48);
        }
        error_diffuse(data, pos + 1, depth, error, 7, 48);
        error_diffuse(data, pos + 2, depth, error, 5, 48);
        error_diffuse(data, pos + width - 2, depth, error, 3, 48);
        error_diffuse(data, pos + width - 1, depth, error, 5, 48);
        error_diffuse(data, pos + width, depth, error, 7, 48);
        error_diffuse(data, pos + width + 1, depth, error, 5, 48);
        error_diffuse(data, pos + width + 2, depth, error, 3, 48);
        error_diffuse(data, pos + width * 2 - 2, depth, error, 1, 48);
        error_diffuse(data, pos + width * 2 - 1, depth, error, 3, 48);
        error_diffuse(data, pos + width * 2, depth, error, 5, 48);
        error_diffuse(data, pos + width * 2 + 1, depth, error, 3, 48);
        error_diffuse(data, pos + width * 2 + 2, depth, error, 1, 48);
    }
}

/// `data` after Stucki's kernel spread `error` from `(x, y)`: 1/6 and
/// 1/12 to the right, 1/24 1/12 1/6 1/12 1/24 below, 1/48 1/24 1/12
/// 1/24 1/48 two rows below. Nothing is spread from a pixel within two
/// rows and two pixels of the end.
pub open spec fn diffuse_stucki_spec(
    data: Seq<u8>,
    width: int,
    height: int,
    x: int,
    y: int,
    depth: int,
    error: int,
) -> Seq<u8> {
    let pos = y * width + x;
    if pos < (height - 2) * width - 2 {
        spread_three_rows(
            data,
            pos,
            width,
            depth,
            error,
            seq![1, 1, 1, 1, 1, 1, 1, 1, 1, 1, 1, 1],
            seq![6, 12, 24, 12, 6, 12, 24, 48, 24, 12, 24, 48],
        )
    } else {
        data
    }
}

/// Stucki's kernel. The first pixel of an image one pixel wide has no
/// pixel two to the left in the next row, so the kernel does not run
/// there.
pub fn diffuse_stucki(
    data: &mut [u8],
    width: i32,
    height: i32,
    x: i32,
    y: i32,
    depth: i32,
    error: i32,
)
    requires
        kernel_ok(
            old(data)@.len() as int,
            width as int,
            height as int,
            x as int,
            y as int,
            depth as int,
            error as int,
        ),
        y * width + x + width >= 2,
    ensures
        final(data)@ == diffuse_stucki_spec(
            old(data)@,
            width as int,
            height as int,
            x as int,
            y as int,
            depth as int,
            error as int,
        ),
        final(data)@.len() == old(data)@.len(),
{
    let ghost len = data@.len() as int;
    let ghost w = width as int;
    let ghost h = height as int;
    let ghost site = (len, w, h, x as int, y as int, depth as int, error as int);
    proof {
        lemma_kernel_pos(w, h, x as int, y as int, depth as int);
    }
    let pos: i32 = y * width + x;
    if (pos as i64) < ((height as i64) - 2) * (width as i64) - 2 {
        proof {
            lemma_site_target(site, pos + 1, 1, 6);
            lemma_site_target(site, pos + 2, 1, 12);
            lemma_site_target(site, pos + w - 2, 1, 24);
            lemma_site_target(site, pos + w - 1, 1, 12);
            lemma_site_target(site, pos + w, 1, 6);
            lemma_site_target(site, pos + w + 1, 1, 12);
            lemma_site_target(site, pos + w + 2, 1, 24);
            lemma_site_target(site, pos + w * 2 - 2, 1, 48);
            lemma_site_target(site, pos + w * 2 - 1, 1, 24);
            lemma_site_target(site, pos + w * 2, 1, 12);
            lemma_site_target(site, pos + w * 2 + 1, 1, 24);
            lemma_site_target(site, pos + w * 2 + 2, 1, 48);
        }
        error_diffuse(data, pos + 1, depth, error, 1, 6);
        error_diffuse(data, pos + 2, depth, error, 1, 12);
        error_diffuse(data, pos + width - 2, depth, error, 1, 24);
        error_diffuse(data, pos + width - 1, depth, error, 1, 12);
        error_diffuse(data, pos + width, depth, error, 1, 6);
        error_diffuse(data, pos + width + 1, depth, error, 1, 12);
        error_diffuse(data, pos + width + 2, depth, error, 1, 24);
        error_diffuse(data, pos + width * 2 - 2, depth, error, 1, 48);
        error_diffuse(data, pos + width * 2 - 1, depth, error, 1, 24);
        error_diffuse(data, pos + width * 2, depth, error, 1, 12);
        error_diffuse(data, pos + width * 2 + 1, depth, error, 1, 24);
        error_diffuse(data, pos + width * 2 + 2, depth, error, 1, 48);
    }
}

/// `data` after Burkes' kernel spread `error` from `(x, y)`: 1/4 and
/// 1/8 to the right, 1/16 1/8 1/4 1/8 1/16 below. Nothing is spread
/// from a pixel within one row and two pixels of the end.
pub open spec fn diffuse_burkes_spec(
    data: Seq<u8>,
    width: int,
    height: int,
    x: int,
    y: int,
    depth: int,
    error: int,
) -> Seq<u8> {
    let pos = y * width + x;
    if pos < (height - 1) * width - 2 {
        let d1 = diffused(data, pos + 1, depth, error, 1, 4);
        let d2 = diffused(d1, pos + 2, depth, error, 1, 8);
        let d3 = diffused(d2, pos + width - 2, depth, error, 1, 16);
        let d4 = diffused(d3, pos + width - 1, depth, error, 1, 8);
        let d5 = diffused(d4, pos + width, depth, error, 1, 4);
        let d6 = diffused(d5, pos + width + 1, depth, error, 1, 8);
        diffused(d6, pos + width + 2, depth, error, 1, 16)
    } else {
        data
    }
}

/// Burkes' kernel. The first pixel of an image one pixel wide has no
/// pixel two to the left in the next row, so the kernel does not run
/// there.
pub fn diffuse_burkes(
    data: &mut [u8],
    width: i32,
    height: i32,
    x: i32,
    y: i32,
    depth: i32,
    error: i32,
)
    requires
        kernel_ok(
            old(data)@.len() as int,
            width as int,
            height as int,
            x as int,
            y as int,
            depth as int,
            error as int,
        ),
        y * width + x + width >= 2,
    ensures
        final(data)@ == diffuse_burkes_spec(
            old(data)@,
            width as int,
            height as int,
            x as int,
            y as int,
            depth as int,
            error as int,
        ),
        final(data)@.len() == old(data)@.len(),
{
    let ghost len = data@.len() as int;
    let ghost w = width as int;
    let ghost h = height as int;
    let ghost site = (len, w, h, x as int, y as int, depth as int, error as int);
    proof {
        lemma_kernel_pos(w, h, x as int, y as int, depth as int);
    }
    let pos: i32 = y * width + x;
    if (pos as i64) < ((height as i64) - 1) * (width as i64) - 2 {
        proof {
            lemma_site_target(site, pos + 1, 1, 4);
            lemma_site_target(site, pos + 2, 1, 8);
            lemma_site_target(site, pos + w - 2, 1, 16);
            lemma_site_target(site, pos + w - 1, 1, 8);
            lemma_site_target(site, pos + w, 1, 4);
            lemma_site_target(site, pos + w + 1, 1, 8);
            lemma_site_target(site, pos + w + 2, 1, 16);
        }
        error_diffuse(data, pos + 1, depth, error, 1, 4);
        error_diffuse(data, pos + 2, depth, error, 1, 8);
        error_diffuse(data, pos + width - 2, depth, error, 1, 16);
        error_diffuse(data, pos + width - 1, depth, error, 1, 8);
        error_diffuse(data, pos + width, depth, error, 1, 4);
        error_diffuse(data, pos + width + 1, depth, error, 1, 8);
        error_diffuse(data, pos + width + 2, depth, error, 1, 16);
    }
}

/// The square of the difference of two channels.
pub open spec fn channel_gap(a: u8, b: u8) -> int {
    (a - b) * (a - b)
}

/// The squared distance over the channels `1..n` of a pixel from the
/// palette colour whose channels begin at `base`.
pub open spec fn tail_distance(pixel: Seq<u8>, palette: Seq<u8>, base: int, n: int) -> int
    decreases n,
{
    if n <= 1 {
        0
    } else {
        tail_distance(pixel, palette, base, n - 1) + channel_gap(
            pixel[n - 1],
            palette[base + n - 1],
        )
    }
}

/// The squared distance of a pixel from palette colour `i`, the first
/// channel weighted by `complexion`.
pub open spec fn color_distance(
    pixel: Seq<u8>,
    palette: Seq<u8>,
    i: int,
    depth: int,
    complexion: int,
) -> int {
    channel_gap(pixel[0], palette[i * depth]) * complexion + tail_distance(
        pixel,
        palette,
        i * depth,
        depth,
    )
}

/// Whether `r` is the first of the `reqcolor` palette colours that is
/// nearest to the pixel; `-1` where there is no colour to choose from.
pub open spec fn is_nearest(
    pixel: Seq<u8>,
    palette: Seq<u8>,
    depth: int,
    reqcolor: int,
    complexion: int,
    r: int,
) -> bool {
    if reqcolor <= 0 {
        r == -1
    } else {
        &&& 0 <= r < reqcolor
        &&& forall|j: int|
            0 <= j < reqcolor ==> color_distance(pixel, palette, r, depth, complexion)
                <= #[trigger] color_distance(pixel, palette, j, depth, complexion)
        &&& forall|j: int|
            0 <= j < r ==> color_distance(pixel, palette, r, depth, complexion)
                < #[trigger] color_distance(pixel, palette, j, depth, complexion)
    }
}

/// The first of the palette colours `0..k` that is nearest to the
/// pixel, and its distance; `-1` and `i32::MAX` where `k` is zero.
pub open spec fn nearest_upto(
    pixel: Seq<u8>,
    palette: Seq<u8>,
    depth: int,
    complexion: int,
    k: int,
) -> (int, int)
    decreases k,
{
    if k <= 0 {
        (-1, i32::MAX as int)
    } else {
        let before = nearest_upto(pixel, palette, depth, complexion, k - 1);
        let here = color_distance(pixel, palette, k - 1, depth, complexion);
        if here < before.1 {
            (k - 1, here)
        } else {
            before
        }
    }
}

/// The first of the `reqcolor` palette colours that is nearest to the
/// pixel; `-1` where there is none.
pub open spec fn nearest_index(
    pixel: Seq<u8>,
    palette: Seq<u8>,
    depth: int,
    reqcolor: int,
    complexion: int,
) -> int {
    nearest_upto(pixel, palette, depth, complexion, reqcolor).0
}

/// Whether the nearest of `reqcolor` colours can be looked up: pixel
/// and palette have all their channels, and no distance reaches
/// `i32::MAX`.
pub open spec fn lookup_ok(
    pixel_len: int,
    palette_len: int,
    depth: int,
    reqcolor: int,
    complexion: int,
) -> bool {
    &&& 1 <= depth <= pixel_len
    &&& reqcolor > 0 ==> reqcolor * depth <= palette_len
    &&& reqcolor * depth <= i32::MAX
    &&& 0 <= complexion
    &&& (complexion + depth) * 65025 < i32::MAX
}

/// The square of the difference of two bytes is at most 65025.
pub proof fn lemma_channel_gap_bound(a: u8, b: u8)
    ensures
        0 <= channel_gap(a, b) <= 65025,
{
    let d = a - b;
    assert(0 <= d * d <= 65025) by (nonlinear_arith)
        requires
            -255 <= d <= 255,
    ;
}

fn distance_to(pixel: &[u8], depth: i32, palette: &[u8], i: i32, complexion: i32) -> (out: i32)
    requires
        1 <= depth <= pixel@.len(),
        0 <= i,
        (i + 1) * depth <= palette@.len(),
        (i + 1) * depth <= i32::MAX,
        0 <= complexion,
        (complexion + depth) * 65025 < i32::MAX,
    ensures
        out == color_distance(pixel@, palette@, i as int, depth as int, complexion as int),
        0 <= out < i32::MAX,
{
    assert(0 <= i * depth && i * depth + depth == (i + 1) * depth) by (nonlinear_arith)
        requires
            0 <= i,
            1 <= depth,
    ;
    let base: i32 = i * depth;
    proof {
        lemma_channel_gap_bound(pixel@[0], palette@[base as int]);
    }
    let first: i32 = pixel[0] as i32 - palette[base as usize] as i32;
    assert(0 <= first * first * complexion <= 65025 * complexion) by (nonlinear_arith)
        requires
            0 <= first * first <= 65025,
            0 <= complexion,
    ;
    let mut distant: i32 = first * first * complexion;
    let mut n: i32 = 1;
    while n < depth
        invariant
            1 <= n <= depth <= pixel@.len(),
            0 <= base,
            base + depth <= palette@.len(),
            base + depth <= i32::MAX,
            0 <= complexion,
            (complexion + depth) * 65025 < i32::MAX,
            distant == channel_gap(pixel@[0], palette@[base as int]) * complexion + tail_distance(
                pixel@,
                palette@,
                base as int,
                n as int,
            ),
            0 <= distant <= 65025 * complexion + 65025 * (n - 1),
        decreases depth - n,
    {
        proof {
            lemma_channel_gap_bound(pixel@[n as int], palette@[base + n]);
        }
        let r: i32 = pixel[n as usize] as i32 - palette[(base + n) as usize] as i32;
        distant = distant + r * r;
        n += 1;
    }
    distant
}

fn nearest_color(pixel: &[u8], depth: i32, palette: &[u8], reqcolor: i32, complexion: i32) -> (out:
    i32)
    requires
        lookup_ok(
            pixel@.len() as int,
            palette@.len() as int,
            depth as int,
            reqcolor as int,
            complexion as int,
        ),
    ensures
        is_nearest(
            pixel@,
            palette@,
            depth as int,
            reqcolor as int,
            complexion as int,
            out as int,
        ),
        out == nearest_index(
            pixel@,
            palette@,
            depth as int,
            reqcolor as int,
            complexion as int,
        ),
        reqcolor > 0 ==> 0 <= out < reqcolor,
{
    let mut result: i32 = -1;
    let mut diff: i32 = i32::MAX;
    let mut i: i32 = 0;
    while i < reqcolor
        invariant
            0 <= i,
            i <= reqcolor || (reqcolor <= 0 && i == 0),
            lookup_ok(
                pixel@.len() as int,
                palette@.len() as int,
                depth as int,
                reqcolor as int,
                complexion as int,
            ),
            i == 0 ==> result == -1 && diff == i32::MAX,
            (result as int, diff as int) == nearest_upto(
                pixel@,
                palette@,
                depth as int,
                complexion as int,
                i as int,
            ),
            i > 0 ==> 0 <= result < i && diff == color_distance(
                pixel@,
                palette@,
                result as int,
                depth as int,
                complexion as int,
            ),
            forall|j: int|
                0 <= j < i ==> diff <= #[trigger] color_distance(
                    pixel@,
                    palette@,
                    j,
                    depth as int,
                    complexion as int,
                ),
            forall|j: int|
                0 <= j < result ==> diff < #[trigger] color_distance(
                    pixel@,
                    palette@,
                    j,
                    depth as int,
                    complexion as int,
                ),
        decreases reqcolor - i,
    {
        assert((i + 1) * depth <= reqcolor * depth) by (nonlinear_arith)
            requires
                0 <= i < reqcolor,
                1 <= depth,
        ;
        let distant = distance_to(pixel, depth, palette, i, complexion);
        if distant < diff {
            diff = distant;
            result = i;
        }
        i += 1;
    }
    result
}

/// Finds the palette colour nearest to a pixel by trying them all: the
/// first one with the least squared distance, the first channel
/// weighted by `complexion`. The cache is not used.
pub fn lookup_normal(
    pixel: &[u8],
    depth: i32,
    palette: &[u8],
    reqcolor: i32,
    cachetable: &mut Vec<u16>,
    complexion: i32,
) -> (out: i32)
    requires
        lookup_ok(
            pixel@.len() as int,
            palette@.len() as int,
            depth as int,
            reqcolor as int,
            complexion as int,
        ),
    ensures
        is_nearest(
            pixel@,
            palette@,
            depth as int,
            reqcolor as int,
            complexion as int,
            out as int,
        ),
        out == nearest_index(
            pixel@,
            palette@,
            depth as int,
            reqcolor as int,
            complexion as int,
        ),
        final(cachetable)@ == old(cachetable)@,
{
    nearest_color(pixel, depth, palette, reqcolor, complexion)
}

/// Whether the cached lookup can run: as [`lookup_ok`] for three
/// channels, with a cache entry for every grid cell and fewer than
/// 65535 colours.
pub open spec fn lookup_fast_ok(
    pixel_len: int,
    palette_len: int,
    reqcolor: int,
    cache_len: int,
    complexion: int,
) -> bool {
    &&& lookup_ok(pixel_len, palette_len, 3, reqcolor, complexion)
    &&& cache_len >= 32768
    &&& reqcolor < 0xffff
}

/// Finds the palette colour nearest to an RGB pixel, with a cache of
/// one entry for each grid cell of [`color_hash`]: an entry other than
/// zero is the answer plus one; where the entry is zero the colour is
/// looked up as in [`lookup_normal`] and the entry is set.
pub fn lookup_fast(
    pixel: &[u8],
    depth: i32,
    palette: &[u8],
    reqcolor: i32,
    cachetable: &mut Vec<u16>,
    complexion: i32,
) -> (out: i32)
    requires
        lookup_fast_ok(
            pixel@.len() as int,
            palette@.len() as int,
            reqcolor as int,
            old(cachetable)@.len() as int,
            complexion as int,
        ),
    ensures
        old(cachetable)@[color_hash(pixel@, 0, 3)] != 0 ==> out == old(cachetable)@[color_hash(
            pixel@,
            0,
            3,
        )] - 1 && final(cachetable)@ == old(cachetable)@,
        old(cachetable)@[color_hash(pixel@, 0, 3)] == 0 ==> is_nearest(
            pixel@,
            palette@,
            3,
            reqcolor as int,
            complexion as int,
            out as int,
        ) && out == nearest_index(pixel@, palette@, 3, reqcolor as int, complexion as int)
            && final(cachetable)@ == old(cachetable)@.update(
            color_hash(pixel@, 0, 3),
            (out + 1) as u16,
        ),
{
    proof {
        lemma_color_hash_bound(pixel@, 0, 3);
        reveal_with_fuel(pow32, 4);
    }
    let hash: i32 = computeHash(pixel, 0, 3);
    let cache: u16 = cachetable[hash as usize];
    if cache != 0 {
        return cache as i32 - 1;
    }
    let result = nearest_color(pixel, 3, palette, reqcolor, complexion);
    cachetable[hash as usize] = (result + 1) as u16;
    result
}

/// The sum of the first `depth` channels of a pixel.
pub open spec fn channel_sum(pixel: Seq<u8>, depth: int) -> int
    decreases depth,
{
    if depth <= 0 {
        0
    } else {
        channel_sum(pixel, depth - 1) + pixel[depth - 1]
    }
}

/// Whether the channels of a pixel can be summed and compared with
/// `128 reqcolor` within the range of `i32`.
pub open spec fn mono_ok(pixel_len: int, depth: int, reqcolor: int) -> bool {
    &&& depth <= pixel_len
    &&& depth <= 0x80_0000
    &&& -0xff_ffff <= reqcolor <= 0xff_ffff
}

pub(crate) fn sum_channels(pixel: &[u8], depth: i32) -> (out: i32)
    requires
        depth <= pixel@.len(),
        depth <= 0x80_0000,
    ensures
        out == channel_sum(pixel@, depth as int),
        0 <= out <= 255 * 0x80_0000,
{
    let mut distant: i32 = 0;
    let mut n: i32 = 0;
    while n < depth
        invariant
            0 <= n,
            n <= depth || (depth < 0 && n == 0),
            depth <= pixel@.len(),
            depth <= 0x80_0000,
            distant == channel_sum(pixel@, n as int),
            0 <= distant <= 255 * n,
        decreases depth - n,
    {
        distant = distant + pixel[n as usize] as i32;
        n += 1;
    }
    distant
}

/// Maps a pixel to one of two colours on a dark background: 1 where
/// the sum of its channels is at least `128 reqcolor`, else 0.
pub fn lookup_mono_darkbg(
    pixel: &[u8],
    depth: i32,
    palette: &[u8],
    reqcolor: i32,
    cachetable: &mut Vec<u16>,
    complexion: i32,
) -> (out: i32)
    requires
        mono_ok(pixel@.len() as int, depth as int, reqcolor as int),
    ensures
        out == if channel_sum(pixel@, depth as int) >= 128 * reqcolor {
            1int
        } else {
            0int
        },
        final(cachetable)@ == old(cachetable)@,
{
    let distant = sum_channels(pixel, depth);
    if distant >= 128 * reqcolor {
        1
    } else {
        0
    }
}

/// Maps a pixel to one of two colours on a light background: 1 where
/// the sum of its channels is below `128 reqcolor`, else 0.
pub fn lookup_mono_lightbg(
    pixel: &[u8],
    depth: i32,
    palette: &[u8],
    reqcolor: i32,
    cachetable: &mut Vec<u16>,
    complexion: i32,
) -> (out: i32)
    requires
        mono_ok(pixel@.len() as int, depth as int, reqcolor as int),
    ensures
        out == if channel_sum(pixel@, depth as int) < 128 * reqcolor {
            1int
        } else {
            0int
        },
        final(cachetable)@ == old(cachetable)@,
{
    let distant = sum_channels(pixel, depth);
    if distant < 128 * reqcolor {
        1
    } else {
        0
    }
}

} // verus!
