//! Applying a palette to an image: one palette index for each pixel,
//! found pixel by pixel in scan order, with the error of each choice
//! diffused to the pixels that follow or with an ordered mask.

use crate::error::{ErrorView, SixelError};
use crate::quant::{
    channel_sum, clamp_byte, color_hash, diffuse_atkinson, diffuse_atkinson_spec, diffuse_burkes,
    diffuse_burkes_spec, diffuse_fs, diffuse_fs_spec, diffuse_jajuni, diffuse_jajuni_spec,
    diffuse_stucki, diffuse_stucki_spec, kernel_ok, lemma_color_hash_bound, lookup_fast,
    lookup_mono_darkbg, lookup_mono_lightbg, lookup_normal, nearest_index, pow32, sum_channels,
    trunc_div,
};
use vstd::prelude::*;
use vstd::slice::slice_subrange;

verus! {

/// How the error of a palette choice is spread.
#[derive(Clone, Copy, Debug, PartialEq, Eq, Structural)]
pub enum DiffusionMethod {
    /// Left to the library, which spreads nothing.
    Auto,
    /// No diffusion.
    Off,
    /// Atkinson's kernel.
    Atkinson,
    /// The Floyd-Steinberg kernel.
    FS,
    /// The kernel of Jarvis, Judice and Ninke.
    JaJuNi,
    /// Stucki's kernel.
    Stucki,
    /// Burkes' kernel.
    Burkes,
    /// An ordered mask, pattern A.
    ADither,
    /// An ordered mask, pattern X.
    XDither,
}

/// How the palette colour of a pixel is found.
#[derive(Clone, Copy, Debug, PartialEq, Eq, Structural)]
pub enum LookupKind {
    /// Every colour is tried.
    Normal,
    /// Every colour is tried once for each cell of the colour grid.
    Fast,
    /// Black and white, dark background.
    MonoDark,
    /// Black and white, light background.
    MonoLight,
}

/// The error for an argument outside its range.
pub open spec fn bad_argument() -> ErrorView {
    ErrorView::InvalidData("invalid argument"@)
}

/// The sum of the `depth` channels of palette colour `i`.
pub open spec fn palette_sum(palette: Seq<u8>, i: int, depth: int) -> int {
    channel_sum(palette.subrange(i * depth, i * depth + depth), depth)
}

/// The lookup that a palette calls for: the black-and-white ones for
/// a palette of black and white, else the cached one for RGB where
/// `foptimize` asks for it, else the plain one.
pub open spec fn choose_lookup(
    palette: Seq<u8>,
    reqcolor: int,
    depth: int,
    foptimize: bool,
) -> LookupKind {
    if reqcolor == 2 && palette_sum(palette, 0, depth) == 0 && palette_sum(palette, 1, depth)
        == 765 {
        LookupKind::MonoDark
    } else if reqcolor == 2 && palette_sum(palette, 0, depth) == 765 && palette_sum(
        palette,
        1,
        depth,
    ) == 0 {
        LookupKind::MonoLight
    } else if foptimize && depth == 3 {
        LookupKind::Fast
    } else {
        LookupKind::Normal
    }
}

/// The kernel that is run: none but for RGB, and none for the ordered
/// masks.
pub open spec fn kernel_of(method: DiffusionMethod, depth: int) -> DiffusionMethod {
    if depth != 3 {
        DiffusionMethod::Off
    } else {
        match method {
            DiffusionMethod::Atkinson => DiffusionMethod::Atkinson,
            DiffusionMethod::FS => DiffusionMethod::FS,
            DiffusionMethod::JaJuNi => DiffusionMethod::JaJuNi,
            DiffusionMethod::Stucki => DiffusionMethod::Stucki,
            DiffusionMethod::Burkes => DiffusionMethod::Burkes,
            _ => DiffusionMethod::Off,
        }
    }
}

/// Whether an ordered mask is laid over the image: for RGB only.
pub open spec fn is_masked(method: DiffusionMethod, depth: int) -> bool {
    depth == 3 && (method == DiffusionMethod::ADither || method == DiffusionMethod::XDither)
}

/// Whether a kernel reaches two pixels to the left in the next row.
pub open spec fn reaches_left(kernel: DiffusionMethod) -> bool {
    kernel == DiffusionMethod::JaJuNi || kernel == DiffusionMethod::Stucki || kernel
        == DiffusionMethod::Burkes
}

/// `data` after `kernel` spread `error` from `(x, y)`.
pub open spec fn kernel_spec(
    kernel: DiffusionMethod,
    data: Seq<u8>,
    width: int,
    height: int,
    x: int,
    y: int,
    depth: int,
    error: int,
) -> Seq<u8> {
    match kernel {
        DiffusionMethod::Atkinson => diffuse_atkinson_spec(data, width, height, x, y, depth, error),
        DiffusionMethod::FS => diffuse_fs_spec(data, width, height, x, y, depth, error),
        DiffusionMethod::JaJuNi => diffuse_jajuni_spec(data, width, height, x, y, depth, error),
        DiffusionMethod::Stucki => diffuse_stucki_spec(data, width, height, x, y, depth, error),
        DiffusionMethod::Burkes => diffuse_burkes_spec(data, width, height, x, y, depth, error),
        _ => data,
    }
}

/// What pattern A adds to channel `c` of the pixel at `(x, y)`, between
/// -32 and 31.
pub open spec fn mask_a_offset(x: int, y: int, c: int) -> int {
    trunc_div((((x + c * 67) + y * 236) * 119) % 256 - 128, 4)
}

/// What pattern X adds to channel `c` of the pixel at `(x, y)`, between
/// -32 and 31.
pub open spec fn mask_x_offset(x: int, y: int, c: int) -> int {
    trunc_div((((x + c * 29) as u64 ^ (y * 149) as u64) * 1234) % 512 - 256, 8)
}

/// What the ordered mask of `method` adds to a channel.
pub open spec fn mask_offset(method: DiffusionMethod, x: int, y: int, c: int) -> int {
    if method == DiffusionMethod::ADither {
        mask_a_offset(x, y, c)
    } else {
        mask_x_offset(x, y, c)
    }
}

/// Pixel `p` of `data` under the ordered mask of `method`.
pub open spec fn masked_pixel(
    data: Seq<u8>,
    p: int,
    depth: int,
    method: DiffusionMethod,
    x: int,
    y: int,
) -> Seq<u8> {
    Seq::new(
        depth as nat,
        |d: int| clamp_byte(data[p * depth + d] + mask_offset(method, x, y, d)),
    )
}

/// The cell of the cache that a pixel falls in.
pub open spec fn cache_slot(pixel: Seq<u8>) -> int {
    color_hash(pixel, 0, 3)
}

/// The palette index that a lookup gives for a pixel.
pub open spec fn lookup_index(
    kind: LookupKind,
    pixel: Seq<u8>,
    depth: int,
    palette: Seq<u8>,
    reqcolor: int,
    cache: Seq<u16>,
    complexion: int,
) -> int {
    match kind {
        LookupKind::Normal => nearest_index(pixel, palette, depth, reqcolor, complexion),
        LookupKind::Fast => if cache[cache_slot(pixel)] != 0 {
            cache[cache_slot(pixel)] - 1
        } else {
            nearest_index(pixel, palette, 3, reqcolor, complexion)
        },
        LookupKind::MonoDark => if channel_sum(pixel, depth) >= 128 * reqcolor {
            1
        } else {
            0
        },
        LookupKind::MonoLight => if channel_sum(pixel, depth) < 128 * reqcolor {
            1
        } else {
            0
        },
    }
}

/// The cache after a lookup.
pub open spec fn lookup_cache(
    kind: LookupKind,
    pixel: Seq<u8>,
    palette: Seq<u8>,
    reqcolor: int,
    cache: Seq<u16>,
    complexion: int,
) -> Seq<u16> {
    if kind == LookupKind::Fast && cache[cache_slot(pixel)] == 0 {
        cache.update(
            cache_slot(pixel),
            (nearest_index(pixel, palette, 3, reqcolor, complexion) + 1) as u16,
        )
    } else {
        cache
    }
}

/// What is fixed while a palette is applied.
pub struct ApplyPlan {
    pub width: int,
    pub height: int,
    pub depth: int,
    pub palette: Seq<u8>,
    pub reqcolor: int,
    pub method: DiffusionMethod,
    pub kind: LookupKind,
    pub complexion: int,
}

/// What changes while a palette is applied: the pixels, which take up
/// diffused errors, the indices found so far, and the cache.
pub struct ApplyState {
    pub data: Seq<u8>,
    pub result: Seq<u8>,
    pub cache: Seq<u16>,
}

/// `data` after the errors of the channels `n..depth` of pixel `p`,
/// which was given palette colour `index`, were spread, each within its
/// own channel.
pub open spec fn diffuse_channels(
    plan: ApplyPlan,
    data: Seq<u8>,
    p: int,
    index: int,
    n: int,
) -> Seq<u8>
    decreases plan.depth - n,
{
    if n < 0 || n >= plan.depth {
        data
    } else {
        let error = data[p * plan.depth + n] - plan.palette[index * plan.depth + n];
        let tail = kernel_spec(
            kernel_of(plan.method, plan.depth),
            data.subrange(n, data.len() as int),
            plan.width,
            plan.height,
            p % plan.width,
            p / plan.width,
            plan.depth,
            error,
        );
        diffuse_channels(plan, data.subrange(0, n) + tail, p, index, n + 1)
    }
}

/// The pixel that is looked up for pixel `p`: its channels and all that
/// follows, or, under an ordered mask, its channels with the mask added.
pub open spec fn probe(plan: ApplyPlan, data: Seq<u8>, p: int) -> Seq<u8> {
    if is_masked(plan.method, plan.depth) {
        masked_pixel(data, p, plan.depth, plan.method, p % plan.width, p / plan.width)
    } else {
        data.subrange(p * plan.depth, data.len() as int)
    }
}

/// The state after pixel `p` was given its palette index.
pub open spec fn apply_pixel(plan: ApplyPlan, s: ApplyState, p: int) -> ApplyState {
    let pixel = probe(plan, s.data, p);
    let index = lookup_index(
        plan.kind,
        pixel,
        plan.depth,
        plan.palette,
        plan.reqcolor,
        s.cache,
        plan.complexion,
    );
    ApplyState {
        data: if is_masked(plan.method, plan.depth) {
            s.data
        } else {
            diffuse_channels(plan, s.data, p, index, 0)
        },
        result: s.result.update(p, index as u8),
        cache: lookup_cache(
            plan.kind,
            pixel,
            plan.palette,
            plan.reqcolor,
            s.cache,
            plan.complexion,
        ),
    }
}

/// The state after the first `n` pixels were given their palette
/// indices, in scan order.
pub open spec fn apply_pixels(plan: ApplyPlan, s: ApplyState, n: int) -> ApplyState
    decreases n,
{
    if n <= 0 {
        s
    } else {
        apply_pixel(plan, apply_pixels(plan, s, n - 1), n - 1)
    }
}

/// Number of pixels of an image; none where a side is not positive.
pub open spec fn pixel_total(width: int, height: int) -> int {
    if width > 0 && height > 0 {
        width * height
    } else {
        0
    }
}

/// Whether every entry of a cache is zero or a palette index plus one.
pub open spec fn cache_ok(cache: Seq<u16>, reqcolor: int) -> bool {
    &&& cache.len() >= 32768
    &&& forall|h: int| 0 <= h < cache.len() ==> #[trigger] cache[h] <= reqcolor
}

/// Whether the buffers fit the plan: every pixel has its channels and
/// its place for an index, every palette colour its channels, and no
/// number leaves the range of `i32`.
pub open spec fn plan_ok(plan: ApplyPlan, data_len: int, result_len: int) -> bool {
    &&& 1 <= plan.width
    &&& 1 <= plan.height
    &&& 1 <= plan.depth
    &&& plan.width * plan.height <= result_len
    &&& plan.width * plan.height * plan.depth <= data_len
    &&& plan.depth <= 0x80_0000
    &&& plan.width * plan.height * plan.depth <= i32::MAX
    &&& 1 <= plan.reqcolor <= 256
    &&& plan.reqcolor * plan.depth <= plan.palette.len()
    &&& plan.reqcolor * plan.depth <= i32::MAX
    &&& 0 <= plan.complexion
    &&& (plan.complexion + plan.depth) * 65025 < i32::MAX
    &&& reaches_left(kernel_of(plan.method, plan.depth)) ==> plan.width >= 2
}

/// Pixel `p` of an image lies at column `p % width` of row `p / width`,
/// inside the image, and its channels lie inside the buffer.
pub proof fn lemma_scan_position(plan: ApplyPlan, data_len: int, result_len: int, x: int, y: int)
    requires
        plan_ok(plan, data_len, result_len),
        0 <= x < plan.width,
        0 <= y < plan.height,
    ensures
        (y * plan.width + x) % plan.width == x,
        (y * plan.width + x) / plan.width == y,
        0 <= y * plan.width + x < plan.width * plan.height,
        0 <= (y * plan.width + x) * plan.depth,
        (y * plan.width + x) * plan.depth + plan.depth <= plan.width * plan.height * plan.depth,
        (plan.width * plan.height - 1) * plan.depth + plan.depth == plan.width * plan.height
            * plan.depth,
        0 <= y * plan.width,
        y * plan.width + plan.width <= plan.width * plan.height,
        plan.width * plan.height <= i32::MAX,
{
    let p = y * plan.width + x;
    vstd::arithmetic::div_mod::lemma_fundamental_div_mod_converse(p, plan.width, y, x);
    assert(0 <= y * plan.width && y * plan.width + plan.width <= plan.height * plan.width)
        by (nonlinear_arith)
        requires
            0 <= y < plan.height,
            0 < plan.width,
    ;
    assert(plan.height * plan.width == plan.width * plan.height) by (nonlinear_arith);
    let total = plan.width * plan.height;
    assert(total <= total * plan.depth) by (nonlinear_arith)
        requires
            0 <= total,
            1 <= plan.depth,
    ;
    assert(0 <= p * plan.depth && p * plan.depth + plan.depth <= total * plan.depth
        && (total - 1) * plan.depth + plan.depth == total * plan.depth) by (nonlinear_arith)
        requires
            0 <= p < total,
            1 <= plan.depth,
    ;
}

fn mask_shift(method: DiffusionMethod, x: i32, y: i32, c: i32) -> (out: i32)
    requires
        0 <= x,
        0 <= y,
        0 <= c < 3,
    ensures
        out == mask_offset(method, x as int, y as int, c as int),
        -32 <= out <= 31,
{
    match method {
        DiffusionMethod::ADither => {
            let level: i64 = (((x as i64 + (c as i64) * 67) + (y as i64) * 236) * 119) % 256;
            let centered: i64 = level - 128;
            if centered >= 0 {
                (centered / 4) as i32
            } else {
                (-((-centered) / 4)) as i32
            }
        },
        _ => {
            let a: u64 = (x as u64) + (c as u64) * 29;
            let b: u64 = (y as u64) * 149;
            assert(a ^ b < 0x100_0000_0000u64) by (bit_vector)
                requires
                    a < 0x100_0000_0000u64,
                    b < 0x100_0000_0000u64,
            ;
            let level: u64 = ((a ^ b) * 1234) % 512;
            let centered: i64 = level as i64 - 256;
            if centered >= 0 {
                (centered / 8) as i32
            } else {
                (-((-centered) / 8)) as i32
            }
        },
    }
}

fn masked_copy(data: &[u8], p: usize, method: DiffusionMethod, x: i32, y: i32) -> (out: Vec<u8>)
    requires
        p * 3 + 3 <= data@.len(),
        0 <= x,
        0 <= y,
    ensures
        out@ == masked_pixel(data@, p as int, 3, method, x as int, y as int),
{
    let total: usize = data.len();
    let mut copy: Vec<u8> = Vec::with_capacity(3);
    let mut d: usize = 0;
    while d < 3
        invariant
            d <= 3,
            p * 3 + 3 <= data@.len(),
            data@.len() <= usize::MAX,
            0 <= x,
            0 <= y,
            copy@.len() == d,
            forall|k: int|
                0 <= k < d ==> copy@[k] == clamp_byte(
                    data@[p * 3 + k] + mask_offset(method, x as int, y as int, k),
                ),
        decreases 3 - d,
    {
        let shift = mask_shift(method, x, y, d as i32);
        let val: i32 = data[p * 3 + d] as i32 + shift;
        let byte: u8 = if val < 0 {
            0
        } else if val > 255 {
            255
        } else {
            val as u8
        };
        copy.push(byte);
        d += 1;
    }
    assert(copy@ =~= masked_pixel(data@, p as int, 3, method, x as int, y as int));
    copy
}

/// Whether a lookup of the given kind can run on a pixel.
pub open spec fn lookup_kind_ok(
    kind: LookupKind,
    pixel_len: int,
    depth: int,
    palette_len: int,
    reqcolor: int,
    cache: Seq<u16>,
    complexion: int,
) -> bool {
    &&& 1 <= depth <= pixel_len
    &&& depth <= 0x80_0000
    &&& 1 <= reqcolor <= 256
    &&& reqcolor * depth <= palette_len
    &&& reqcolor * depth <= i32::MAX
    &&& 0 <= complexion
    &&& (complexion + depth) * 65025 < i32::MAX
    &&& kind == LookupKind::Fast ==> depth == 3 && cache_ok(cache, reqcolor)
    &&& (kind == LookupKind::MonoDark || kind == LookupKind::MonoLight) ==> reqcolor == 2
}

fn lookup_with(
    kind: LookupKind,
    pixel: &[u8],
    depth: i32,
    palette: &[u8],
    reqcolor: i32,
    table: &mut Vec<u16>,
    complexion: i32,
) -> (out: i32)
    requires
        lookup_kind_ok(
            kind,
            pixel@.len() as int,
            depth as int,
            palette@.len() as int,
            reqcolor as int,
            old(table)@,
            complexion as int,
        ),
    ensures
        out == lookup_index(
            kind,
            pixel@,
            depth as int,
            palette@,
            reqcolor as int,
            old(table)@,
            complexion as int,
        ),
        final(table)@ == lookup_cache(
            kind,
            pixel@,
            palette@,
            reqcolor as int,
            old(table)@,
            complexion as int,
        ),
        0 <= out < reqcolor,
        kind == LookupKind::Fast ==> cache_ok(final(table)@, reqcolor as int),
{
    proof {
        lemma_color_hash_bound(pixel@, 0, 3);
        reveal_with_fuel(pow32, 4);
    }
    match kind {
        LookupKind::Normal => lookup_normal(pixel, depth, palette, reqcolor, table, complexion),
        LookupKind::Fast => lookup_fast(pixel, depth, palette, reqcolor, table, complexion),
        LookupKind::MonoDark => lookup_mono_darkbg(
            pixel,
            depth,
            palette,
            reqcolor,
            table,
            complexion,
        ),
        LookupKind::MonoLight => lookup_mono_lightbg(
            pixel,
            depth,
            palette,
            reqcolor,
            table,
            complexion,
        ),
    }
}

fn run_kernel(
    kernel: DiffusionMethod,
    data: &mut [u8],
    width: i32,
    height: i32,
    x: i32,
    y: i32,
    depth: i32,
    error: i32,
)
    requires
        kernel_ok(
            old(data)@.len() as int,
            width as int,
            height as int,
            x as int,
            y as int,
            depth as int,
            error as int,
        ),
        reaches_left(kernel) ==> y * width + x + width >= 2,
    ensures
        final(data)@ == kernel_spec(
            kernel,
            old(data)@,
            width as int,
            height as int,
            x as int,
            y as int,
            depth as int,
            error as int,
        ),
        final(data)@.len() == old(data)@.len(),
{
    match kernel {
        DiffusionMethod::Atkinson => diffuse_atkinson(data, width, height, x, y, depth, error),
        DiffusionMethod::FS => diffuse_fs(data, width, height, x, y, depth, error),
        DiffusionMethod::JaJuNi => diffuse_jajuni(data, width, height, x, y, depth, error),
        DiffusionMethod::Stucki => diffuse_stucki(data, width, height, x, y, depth, error),
        DiffusionMethod::Burkes => diffuse_burkes(data, width, height, x, y, depth, error),
        _ => {},
    }
}

fn effective_kernel(method: DiffusionMethod, depth: i32) -> (out: DiffusionMethod)
    ensures
        out == kernel_of(method, depth as int),
{
    if depth != 3 {
        DiffusionMethod::Off
    } else {
        match method {
            DiffusionMethod::Atkinson => DiffusionMethod::Atkinson,
            DiffusionMethod::FS => DiffusionMethod::FS,
            DiffusionMethod::JaJuNi => DiffusionMethod::JaJuNi,
            DiffusionMethod::Stucki => DiffusionMethod::Stucki,
            DiffusionMethod::Burkes => DiffusionMethod::Burkes,
            _ => DiffusionMethod::Off,
        }
    }
}

fn diffuse_pixel(
    data: &mut [u8],
    palette: &[u8],
    width: i32,
    height: i32,
    x: i32,
    y: i32,
    depth: i32,
    method: DiffusionMethod,
    index: i32,
    Ghost(plan): Ghost<ApplyPlan>,
    Ghost(result_len): Ghost<int>,
)
    requires
        plan_ok(plan, old(data)@.len() as int, result_len),
        plan.width == width,
        plan.height == height,
        plan.depth == depth,
        plan.palette == palette@,
        plan.method == method,
        0 <= x < width,
        0 <= y < height,
        0 <= index < plan.reqcolor,
    ensures
        final(data)@ == diffuse_channels(plan, old(data)@, y * width + x, index as int, 0),
        final(data)@.len() == old(data)@.len(),
{
    let kernel = effective_kernel(method, depth);
    let ghost len = data@.len() as int;
    proof {
        lemma_scan_position(plan, len, result_len, x as int, y as int);
        assert(0 <= index * depth && index * depth + depth <= plan.reqcolor * depth)
            by (nonlinear_arith)
            requires
                0 <= index < plan.reqcolor,
                1 <= depth,
        ;
    }
    let p: i32 = y * width + x;
    let base: i32 = p * depth;
    let color: i32 = index * depth;
    let mut n: i32 = 0;
    while n < depth
        invariant
            0 <= n <= depth,
            plan_ok(plan, len, result_len),
            data@.len() == len,
            len == old(data)@.len(),
            plan.width == width,
            plan.height == height,
            plan.depth == depth,
            plan.palette == palette@,
            plan.method == method,
            kernel == kernel_of(method, depth as int),
            0 <= x < width,
            0 <= y < height,
            p == y * width + x,
            p % width == x,
            p / width == y,
            base == p * depth,
            0 <= base,
            base + depth <= width * height * depth,
            (width * height - 1) * depth + depth == width * height * depth,
            color == index * depth,
            0 <= color,
            color + depth <= palette@.len(),
            color + depth <= i32::MAX,
            diffuse_channels(plan, old(data)@, p as int, index as int, 0) == diffuse_channels(
                plan,
                data@,
                p as int,
                index as int,
                n as int,
            ),
        decreases depth - n,
    {
        let error: i32 = data[(base + n) as usize] as i32 - palette[(color + n) as usize] as i32;
        let ghost before = data@;
        let (head, tail) = data.split_at_mut(n as usize);
        run_kernel(kernel, tail, width, height, x, y, depth, error);
        assert(data@ == before.subrange(0, n as int) + kernel_spec(
            kernel,
            before.subrange(n as int, len),
            width as int,
            height as int,
            x as int,
            y as int,
            depth as int,
            error as int,
        ));
        n += 1;
    }
}

/// Gives every pixel its palette index, in scan order.
fn apply_with_table(
    result: &mut [u8],
    data: &mut [u8],
    width: i32,
    height: i32,
    depth: i32,
    palette: &[u8],
    reqcolor: i32,
    method: DiffusionMethod,
    kind: LookupKind,
    complexion: i32,
    table: &mut Vec<u16>,
    Ghost(plan): Ghost<ApplyPlan>,
)
    requires
        plan_ok(plan, old(data)@.len() as int, old(result)@.len() as int),
        plan.width == width,
        plan.height == height,
        plan.depth == depth,
        plan.palette == palette@,
        plan.reqcolor == reqcolor,
        plan.method == method,
        plan.kind == kind,
        plan.complexion == complexion,
        kind == LookupKind::Fast ==> depth == 3 && cache_ok(old(table)@, reqcolor as int),
        (kind == LookupKind::MonoDark || kind == LookupKind::MonoLight) ==> reqcolor == 2,
    ensures
        (ApplyState { data: final(data)@, result: final(result)@, cache: final(table)@ })
            == apply_pixels(
            plan,
            ApplyState { data: old(data)@, result: old(result)@, cache: old(table)@ },
            width * height,
        ),
        final(data)@.len() == old(data)@.len(),
        final(result)@.len() == old(result)@.len(),
{
    let ghost start = ApplyState { data: data@, result: result@, cache: table@ };
    let ghost len = data@.len() as int;
    let ghost result_len = result@.len() as int;
    let masked: bool = depth == 3 && (method == DiffusionMethod::ADither || method
        == DiffusionMethod::XDither);
    let total: usize = data.len();
    let mut y: i32 = 0;
    let mut row: i32 = 0;
    while y < height
        invariant
            0 <= y <= height,
            row == y * width,
            plan_ok(plan, len, result_len),
            data@.len() == len,
            result@.len() == result_len,
            len <= usize::MAX,
            plan.width == width,
            plan.height == height,
            plan.depth == depth,
            plan.palette == palette@,
            plan.reqcolor == reqcolor,
            plan.method == method,
            plan.kind == kind,
            plan.complexion == complexion,
            masked == is_masked(method, depth as int),
            kind == LookupKind::Fast ==> depth == 3 && cache_ok(table@, reqcolor as int),
            (kind == LookupKind::MonoDark || kind == LookupKind::MonoLight) ==> reqcolor == 2,
            (ApplyState { data: data@, result: result@, cache: table@ }) == apply_pixels(
                plan,
                start,
                row as int,
            ),
        decreases height - y,
    {
        proof {
            lemma_scan_position(plan, len, result_len, 0, y as int);
        }
        let mut x: i32 = 0;
        while x < width
            invariant
                0 <= x <= width,
                0 <= y < height,
                row == y * width,
                0 <= row,
                row + width <= width * height,
                plan_ok(plan, len, result_len),
                data@.len() == len,
                result@.len() == result_len,
                len <= usize::MAX,
                plan.width == width,
                plan.height == height,
                plan.depth == depth,
                plan.palette == palette@,
                plan.reqcolor == reqcolor,
                plan.method == method,
                plan.kind == kind,
                plan.complexion == complexion,
                masked == is_masked(method, depth as int),
                kind == LookupKind::Fast ==> depth == 3 && cache_ok(table@, reqcolor as int),
                (kind == LookupKind::MonoDark || kind == LookupKind::MonoLight) ==> reqcolor == 2,
                (ApplyState { data: data@, result: result@, cache: table@ }) == apply_pixels(
                    plan,
                    start,
                    row + x,
                ),
            decreases width - x,
        {
            proof {
                lemma_scan_position(plan, len, result_len, x as int, y as int);
            }
            let ghost before = ApplyState { data: data@, result: result@, cache: table@ };
            let pos: i32 = row + x;
            let base: usize = (pos * depth) as usize;
            let index: i32 = if masked {
                let copy = masked_copy(data, pos as usize, method, x, y);
                lookup_with(kind, copy.as_slice(), depth, palette, reqcolor, table, complexion)
            } else {
                let pixel = slice_subrange(data, base, data.len());
                lookup_with(kind, pixel, depth, palette, reqcolor, table, complexion)
            };
            result[pos as usize] = index as u8;
            if !masked {
                diffuse_pixel(
                    data,
                    palette,
                    width,
                    height,
                    x,
                    y,
                    depth,
                    method,
                    index,
                    Ghost(plan),
                    Ghost(result_len),
                );
            }
            proof {
                let after = ApplyState { data: data@, result: result@, cache: table@ };
                assert(after == apply_pixel(plan, before, pos as int));
            }
            x += 1;
        }
        assert((y + 1) * width == row + width) by (nonlinear_arith)
            requires
                row == y * width,
        ;
        row += width;
        y += 1;
    }
    assert(row == width * height) by (nonlinear_arith)
        requires
            row == y * width,
            y == height,
    ;
}

fn pick_lookup(palette: &[u8], reqcolor: i32, depth: i32, foptimize: bool) -> (out: LookupKind)
    requires
        depth <= 0x80_0000,
        reqcolor == 2 && depth > 0 ==> 2 * depth <= palette@.len(),
    ensures
        out == choose_lookup(palette@, reqcolor as int, depth as int, foptimize),
{
    if reqcolor == 2 {
        let mut sum1: i32 = 0;
        let mut sum2: i32 = 0;
        if depth > 0 {
            let d: usize = depth as usize;
            sum1 = sum_channels(slice_subrange(palette, 0, d), depth);
            sum2 = sum_channels(slice_subrange(palette, d, d + d), depth);
        }
        if sum1 == 0 && sum2 == 255 * 3 {
            return LookupKind::MonoDark;
        } else if sum1 == 255 * 3 && sum2 == 0 {
            return LookupKind::MonoLight;
        }
    }
    if foptimize && depth == 3 {
        LookupKind::Fast
    } else {
        LookupKind::Normal
    }
}

/// The plan that the arguments of [`sixel_quant_apply_palette`] make.
pub open spec fn apply_plan(
    width: int,
    height: int,
    depth: int,
    palette: Seq<u8>,
    reqcolor: int,
    method: DiffusionMethod,
    foptimize: bool,
    complexion: int,
) -> ApplyPlan {
    ApplyPlan {
        width,
        height,
        depth,
        palette,
        reqcolor,
        method,
        kind: choose_lookup(palette, reqcolor, depth, foptimize),
        complexion,
    }
}

/// The cache that the caller hands in, or an empty one.
pub open spec fn cache_of(cachetable: Option<&mut Vec<u16>>) -> Seq<u16> {
    match cachetable {
        Some(table) => table@,
        None => Seq::empty(),
    }
}

/// Whether a palette can be applied with these arguments. The palette
/// must hold the two colours that tell a black-and-white palette. With
/// `foptimize_palette` there must be no pixel at all. Otherwise, where
/// there are pixels, the buffers must fit the plan, and the cached
/// lookup needs a cache from the caller, with an entry for every cell.
pub open spec fn apply_ok(
    data_len: int,
    result_len: int,
    plan: ApplyPlan,
    foptimize_palette: bool,
    cachetable: Option<&mut Vec<u16>>,
) -> bool {
    &&& plan.depth <= 0x80_0000
    &&& plan.reqcolor == 2 && plan.depth > 0 ==> 2 * plan.depth <= plan.palette.len()
    &&& foptimize_palette ==> pixel_total(plan.width, plan.height) == 0
    &&& !foptimize_palette && pixel_total(plan.width, plan.height) > 0 ==> {
        &&& plan_ok(plan, data_len, result_len)
        &&& plan.kind == LookupKind::Fast ==> cachetable is Some && cache_ok(
            cache_of(cachetable),
            plan.reqcolor,
        )
    }
}

/// Gives every pixel of an image the index of a palette colour, in scan
/// order, and returns the number of colours in use. `data` holds `depth`
/// channels for each pixel and `palette` for each colour; `result` gets
/// one index for each pixel.
///
/// The colour of a pixel is the nearest of the first `reqcolor` palette
/// colours, by the lookup that [`choose_lookup`] names. With a kernel
/// the error of each choice is added to pixels not yet reached, so
/// `data` changes; with an ordered mask the mask is added to the pixel
/// before the lookup and `data` stays. With `foptimize_palette` the
/// palette is cut down to the colours in use, which for an image
/// without pixels are none.
///
/// Fails where `reqcolor` is less than 1.
#[allow(non_snake_case)]
pub fn sixel_quant_apply_palette(
    result: &mut [u8],
    data: &mut [u8],
    width: i32,
    height: i32,
    depth: i32,
    palette: &mut Vec<u8>,
    reqcolor: i32,
    methodForDiffuse: DiffusionMethod,
    foptimize: bool,
    foptimize_palette: bool,
    complexion: i32,
    cachetable: Option<&mut Vec<u16>>,
) -> (out: Result<i32, SixelError>)
    requires
        reqcolor >= 1 ==> apply_ok(
            old(data)@.len() as int,
            old(result)@.len() as int,
            apply_plan(
                width as int,
                height as int,
                depth as int,
                old(palette)@,
                reqcolor as int,
                methodForDiffuse,
                foptimize,
                complexion as int,
            ),
            foptimize_palette,
            cachetable,
        ),
    ensures
        reqcolor < 1 ==> (out matches Err(e) && e@ == bad_argument()) && final(data)@ == old(
            data,
        )@ && final(result)@ == old(result)@ && final(palette)@ == old(palette)@,
        reqcolor >= 1 ==> {
            let plan = apply_plan(
                width as int,
                height as int,
                depth as int,
                old(palette)@,
                reqcolor as int,
                methodForDiffuse,
                foptimize,
                complexion as int,
            );
            let done = apply_pixels(
                plan,
                ApplyState {
                    data: old(data)@,
                    result: old(result)@,
                    cache: cache_of(cachetable),
                },
                pixel_total(width as int, height as int),
            );
            &&& out == Ok::<i32, SixelError>(
                if foptimize_palette {
                    0i32
                } else {
                    reqcolor
                },
            )
            &&& final(palette)@ == if foptimize_palette {
                Seq::<u8>::empty()
            } else {
                old(palette)@
            }
            &&& final(data)@ == done.data
            &&& final(result)@ == done.result
            &&& (cachetable matches Some(table) ==> final(table)@ == done.cache)
        },
{
    if reqcolor < 1 {
        return Err(SixelError::InvalidData("invalid argument".to_string()));
    }
    let ghost plan = apply_plan(
        width as int,
        height as int,
        depth as int,
        palette@,
        reqcolor as int,
        methodForDiffuse,
        foptimize,
        complexion as int,
    );
    let kind = pick_lookup(palette.as_slice(), reqcolor, depth, foptimize);
    if foptimize_palette {
        *palette = Vec::new();
        return Ok(0);
    }
    if width <= 0 || height <= 0 {
        return Ok(reqcolor);
    }
    assert(width * height >= 1) by (nonlinear_arith)
        requires
            width >= 1,
            height >= 1,
    ;
    match cachetable {
        Some(table) => {
            apply_with_table(
                result,
                data,
                width,
                height,
                depth,
                palette.as_slice(),
                reqcolor,
                methodForDiffuse,
                kind,
                complexion,
                table,
                Ghost(plan),
            );
        },
        None => {
            let mut local: Vec<u16> = Vec::new();
            apply_with_table(
                result,
                data,
                width,
                height,
                depth,
                palette.as_slice(),
                reqcolor,
                methodForDiffuse,
                kind,
                complexion,
                &mut local,
                Ghost(plan),
            );
        },
    }
    Ok(reqcolor)
}

} // verus!
