//! The colour histogram of an image and the palette made from it.

use crate::error::SixelError;
use crate::params::capped;
use crate::quant::{color_hash, computeHash, lemma_color_hash_bound, pow32, Tuple};
use std::collections::HashMap;
use vstd::prelude::*;

verus! {

broadcast use vstd::std_specs::hash::group_hash_axioms;

/// How much of an image is sampled for its histogram.
#[allow(non_camel_case_types)]
#[derive(Clone, Copy, Debug, PartialEq, Eq, Structural)]
pub enum Quality {
    AUTO,
    HIGH,
    LOW,
    FULL,
    HIGHCOLOR,
}

/// How the longest side of a box of colours is found.
#[derive(Clone, Copy, Debug, PartialEq, Eq, Structural)]
pub enum FindLargestDim {
    Auto,
    Norm,
    Lum,
}

/// How a box of colours is made into one colour.
#[derive(Clone, Copy, Debug, PartialEq, Eq, Structural)]
pub enum ColorChoosingMethod {
    Auto,
    CenterBox,
    AverageColors,
    AveragePixels,
}

/// The layout of the pixels of an image.
#[derive(Clone, Copy, Debug, PartialEq, Eq, Structural)]
pub enum PixelFormat {
    RGB555,
    RGB565,
    RGB888,
    BGR555,
    BGR565,
    BGR888,
    ARGB8888,
    RGBA8888,
    ABGR8888,
    BGRA8888,
    G1,
    G2,
    G4,
    G8,
    AG88,
    GA88,
    PAL1,
    PAL2,
    PAL4,
    PAL8,
}

/// Number of bytes of a pixel.
pub open spec fn depth_of(format: PixelFormat) -> int {
    match format {
        PixelFormat::ARGB8888 | PixelFormat::RGBA8888 | PixelFormat::ABGR8888
        | PixelFormat::BGRA8888 => 4,
        PixelFormat::RGB888 | PixelFormat::BGR888 => 3,
        PixelFormat::RGB555 | PixelFormat::RGB565 | PixelFormat::BGR555 | PixelFormat::BGR565
        | PixelFormat::AG88 | PixelFormat::GA88 => 2,
        _ => 1,
    }
}

/// Number of bytes of a pixel.
pub fn sixel_helper_compute_depth(format: PixelFormat) -> (out: i32)
    ensures
        out == depth_of(format),
{
    match format {
        PixelFormat::ARGB8888 | PixelFormat::RGBA8888 | PixelFormat::ABGR8888
        | PixelFormat::BGRA8888 => 4,
        PixelFormat::RGB888 | PixelFormat::BGR888 => 3,
        PixelFormat::RGB555 | PixelFormat::RGB565 | PixelFormat::BGR555 | PixelFormat::BGR565
        | PixelFormat::AG88 | PixelFormat::GA88 => 2,
        _ => 1,
    }
}

/// Most samples that are taken at the closest spacing.
pub open spec fn max_sample(quality: Quality) -> int {
    if quality == Quality::LOW || quality == Quality::HIGH {
        18383
    } else {
        4003079
    }
}

/// Distance in bytes from one sample to the next: six pixels for a
/// small image, else as many pixels as spread [`max_sample`] samples
/// over it.
pub open spec fn sample_step(length: int, depth: int, quality: Quality) -> int {
    let step = if length < max_sample(quality) * depth {
        6 * depth
    } else {
        ((length / depth) / max_sample(quality)) * depth
    };
    if step <= 0 {
        depth
    } else {
        step
    }
}

/// Number of samples taken from `length` bytes.
pub open spec fn sample_count(length: int, step: int) -> int {
    if length <= 0 {
        0
    } else {
        (length + step - 1) / step
    }
}

/// The grid cell of sample `k`.
pub open spec fn sample_cell(data: Seq<u8>, step: int, k: int) -> int {
    color_hash(data, k * step, 3)
}

/// How many of the first `n` samples fall in `cell`.
pub open spec fn cell_count(data: Seq<u8>, step: int, n: int, cell: int) -> int
    decreases n,
{
    if n <= 0 {
        0
    } else {
        cell_count(data, step, n - 1, cell) + if sample_cell(data, step, n - 1) == cell {
            1int
        } else {
            0int
        }
    }
}

/// The cells of the first `n` samples, each once, in the order in which
/// they first appear.
pub open spec fn cells_seen(data: Seq<u8>, step: int, n: int) -> Seq<int>
    decreases n,
{
    if n <= 0 {
        Seq::empty()
    } else {
        let before = cells_seen(data, step, n - 1);
        if before.contains(sample_cell(data, step, n - 1)) {
            before
        } else {
            before.push(sample_cell(data, step, n - 1))
        }
    }
}

/// Digit `n` of `cell` in base 32.
pub open spec fn cell_digit(cell: int, n: int) -> int
    decreases n,
{
    if n <= 0 {
        cell % 32
    } else {
        cell_digit(cell / 32, n - 1)
    }
}

/// The colour of a grid cell: for each of `depth` channels the lower
/// end of the cell, the last channel from the lowest digit.
pub open spec fn cell_color(cell: int, depth: int) -> Seq<i32> {
    Seq::new(depth as nat, |j: int| (cell_digit(cell, depth - 1 - j) * 8) as i32)
}

/// Most that a histogram counts for one cell.
pub const HISTOGRAM_CAP: i32 = 65535;

/// Whether `t` is entry `k` of the histogram of the first `n` samples:
/// the colour of the `k`-th cell seen and the number of samples in it,
/// at most [`HISTOGRAM_CAP`].
pub open spec fn is_histogram_entry(
    t: Tuple,
    data: Seq<u8>,
    step: int,
    n: int,
    depth: int,
    k: int,
) -> bool {
    let cell = cells_seen(data, step, n)[k];
    &&& t.value == capped(cell_count(data, step, n, cell), HISTOGRAM_CAP as int)
    &&& t.tuple@ == cell_color(cell, depth)
}

/// Whether a histogram can be taken: three to six bytes per pixel, and
/// whole pixels within the data.
pub open spec fn histogram_ok(data_len: int, length: int, depth: int) -> bool {
    &&& 3 <= depth <= 6
    &&& length <= data_len
    &&& length % depth == 0
}

/// A cell was seen exactly if a sample was counted in it; and every
/// cell seen is a grid cell, seen once.
pub proof fn lemma_cells_seen(data: Seq<u8>, step: int, n: int)
    ensures
        forall|c: int|
            cells_seen(data, step, n).contains(c) <==> #[trigger] cell_count(data, step, n, c) > 0,
        forall|j: int|
            0 <= j < cells_seen(data, step, n).len() ==> 0 <= #[trigger] cells_seen(
                data,
                step,
                n,
            )[j] < 32768,
        forall|c: int| 0 <= #[trigger] cell_count(data, step, n, c) <= larger_zero(n),
        cells_seen(data, step, n).len() <= larger_zero(n),
    decreases n,
{
    if n > 0 {
        lemma_cells_seen(data, step, n - 1);
        let before = cells_seen(data, step, n - 1);
        let here = sample_cell(data, step, n - 1);
        lemma_color_hash_bound(data, (n - 1) * step, 3);
        reveal_with_fuel(pow32, 4);
        let now = cells_seen(data, step, n);
        assert forall|c: int| 0 <= #[trigger] cell_count(data, step, n, c) <= n by {
            assert(0 <= cell_count(data, step, n - 1, c) <= larger_zero(n - 1));
        }
        assert forall|c: int| now.contains(c) <==> #[trigger] cell_count(data, step, n, c)
            > 0 by {
            assert(0 <= cell_count(data, step, n - 1, c));
            assert(before.contains(c) <==> cell_count(data, step, n - 1, c) > 0);
            if now.contains(c) {
                let j = choose|j: int| 0 <= j < now.len() && now[j] == c;
                if j < before.len() {
                    assert(before[j] == c);
                    assert(before.contains(c));
                } else {
                    assert(c == here);
                }
            }
            if cell_count(data, step, n, c) > 0 {
                if before.contains(c) {
                    let j = choose|j: int| 0 <= j < before.len() && before[j] == c;
                    assert(now[j] == c);
                } else {
                    assert(cell_count(data, step, n - 1, c) == 0);
                    assert(c == here);
                    assert(now[before.len() as int] == c);
                }
            }
        }
    }
}

/// `n`, or zero where it is negative.
pub open spec fn larger_zero(n: int) -> int {
    if n < 0 {
        0
    } else {
        n
    }
}

fn cell_tuple(cell: usize, depth: i32) -> (out: Vec<i32>)
    requires
        cell < 32768,
        1 <= depth <= 6,
    ensures
        out@ == cell_color(cell as int, depth as int),
{
    let mut tuple: Vec<i32> = vec![0i32; depth as usize];
    let mut rest: usize = cell;
    let mut n: i32 = 0;
    while n < depth
        invariant
            0 <= n <= depth <= 6,
            tuple@.len() == depth,
            rest < 32768,
            forall|m: int| 0 <= m ==> #[trigger] cell_digit(rest as int, m) == cell_digit(
                cell as int,
                n + m,
            ),
            forall|j: int|
                depth - n <= j < depth ==> tuple@[j] == (cell_digit(cell as int, depth - 1 - j)
                    * 8) as i32,
        decreases depth - n,
    {
        let digit: usize = rest % 32;
        assert(digit == cell_digit(rest as int, 0));
        tuple[(depth - 1 - n) as usize] = (digit * 8) as i32;
        let ghost before = rest;
        rest = rest / 32;
        assert forall|m: int| 0 <= m implies #[trigger] cell_digit(rest as int, m) == cell_digit(
            cell as int,
            n + 1 + m,
        ) by {
            assert(cell_digit(before as int, m + 1) == cell_digit(rest as int, m));
        }
        n += 1;
    }
    assert(tuple@ =~= cell_color(cell as int, depth as int));
    tuple
}

/// The entries of the histogram: for each cell seen, in the order of
/// first appearance, its colour and count.
fn histogram_entries(data: &[u8], length: i32, depth: i32, quality: Quality) -> (out: Vec<Tuple>)
    requires
        histogram_ok(data@.len() as int, length as int, depth as int),
    ensures
        out@.len() == cells_seen(
            data@,
            sample_step(length as int, depth as int, quality),
            sample_count(length as int, sample_step(length as int, depth as int, quality)),
        ).len(),
        out@.len() <= 32768,
        forall|k: int|
            0 <= k < out@.len() ==> is_histogram_entry(
                #[trigger] out@[k],
                data@,
                sample_step(length as int, depth as int, quality),
                sample_count(length as int, sample_step(length as int, depth as int, quality)),
                depth as int,
                k,
            ),
{
    if length <= 0 {
        return Vec::new();
    }
    let limit: i64 = match quality {
        Quality::LOW | Quality::HIGH => 18383,
        _ => 4003079,
    };
    let pixels: i64 = (length / depth) as i64;
    let stride: i64 = if (length as i64) < limit * (depth as i64) {
        6
    } else {
        pixels / limit
    };
    let ghost step = sample_step(length as int, depth as int, quality);
    assert(step == stride * depth && 1 <= stride <= 0x8000_0000) by (nonlinear_arith)
        requires
            length > 0,
            step == sample_step(length as int, depth as int, quality),
            3 <= depth <= 6,
            limit == max_sample(quality),
            pixels == length as int / depth as int,
            stride == if (length as int) < limit * depth {
                6int
            } else {
                pixels as int / limit as int
            },
            length % depth == 0,
    ;
    let ghost total = sample_count(length as int, step);
    proof {
        assert(pixels >= 1 && total >= 1) by (nonlinear_arith)
            requires
                length > 0,
                length % depth == 0,
                3 <= depth,
                pixels == length as int / depth as int,
                step == stride * depth,
                stride >= 1,
                total == (length + step - 1) / step,
        ;
    }
    let mut histogram: Vec<i32> = vec![0i32; 32768];
    let mut memory: Vec<usize> = Vec::new();
    let mut pixel: i64 = 0;
    let ghost mut k: int = 0;
    let size: usize = data.len();
    while pixel < pixels
        invariant
            histogram_ok(data@.len() as int, length as int, depth as int),
            data@.len() <= usize::MAX,
            pixels == length as int / depth as int,
            0 <= k,
            pixel == k * stride,
            0 <= pixel,
            1 <= stride <= 0x8000_0000,
            pixels <= 0x8000_0000,
            step == stride * depth,
            pixel < pixels ==> k < total,
            pixel >= pixels ==> k == total,
            total == sample_count(length as int, step),
            histogram@.len() == 32768,
            forall|c: int|
                0 <= c < 32768 ==> #[trigger] histogram@[c] == capped(
                    cell_count(data@, step, k, c),
                    HISTOGRAM_CAP as int,
                ),
            memory@.len() == cells_seen(data@, step, k).len(),
            forall|j: int|
                0 <= j < memory@.len() ==> #[trigger] memory@[j] == cells_seen(data@, step, k)[j],
        decreases total - k,
    {
        proof {
            lemma_cells_seen(data@, step, k);
            lemma_cells_seen(data@, step, k + 1);
            lemma_color_hash_bound(data@, k * step, 3);
            reveal_with_fuel(pow32, 4);
            assert(k * step == pixel * depth && pixel * depth + depth <= length)
                by (nonlinear_arith)
                requires
                    pixel == k * stride,
                    step == stride * depth,
                    0 <= pixel < pixels,
                    pixels == length as int / depth as int,
                    length % depth == 0,
                    3 <= depth,
            ;
        }
        let i: usize = (pixel * (depth as i64)) as usize;
        let bucket: usize = computeHash(data, i, 3) as usize;
        assert(bucket == sample_cell(data@, step, k));
        if histogram[bucket] == 0 {
            memory.push(bucket);
        }
        if histogram[bucket] < HISTOGRAM_CAP {
            histogram[bucket] = histogram[bucket] + 1;
        }
        proof {
            assert((k + 1) * stride == pixel + stride) by (nonlinear_arith)
                requires
                    pixel == k * stride,
            ;
            lemma_sample_progress(length as int, depth as int, stride as int, k, pixels as int);
            k = k + 1;
        }
        pixel = pixel + stride;
    }
    let mut out: Vec<Tuple> = Vec::new();
    let mut j: usize = 0;
    proof {
        lemma_cells_seen(data@, step, total);
    }
    while j < memory.len()
        invariant
            j <= memory@.len(),
            1 <= depth <= 6,
            out@.len() == j,
            histogram@.len() == 32768,
            memory@.len() == cells_seen(data@, step, total).len(),
            forall|c: int|
                0 <= c < 32768 ==> #[trigger] histogram@[c] == capped(
                    cell_count(data@, step, total, c),
                    HISTOGRAM_CAP as int,
                ),
            forall|m: int|
                0 <= m < memory@.len() ==> #[trigger] memory@[m] == cells_seen(
                    data@,
                    step,
                    total,
                )[m],
            forall|m: int|
                0 <= m < cells_seen(data@, step, total).len() ==> 0 <= #[trigger] cells_seen(
                    data@,
                    step,
                    total,
                )[m] < 32768,
            forall|m: int|
                0 <= m < j ==> is_histogram_entry(
                    #[trigger] out@[m],
                    data@,
                    step,
                    total,
                    depth as int,
                    m,
                ),
        decreases memory@.len() - j,
    {
        let cell: usize = memory[j];
        assert(cell == cells_seen(data@, step, total)[j as int]);
        let tuple = cell_tuple(cell, depth);
        out.push(Tuple { value: histogram[cell], tuple });
        j += 1;
    }
    proof {
        lemma_cells_seen(data@, step, total);
        lemma_seen_distinct(data@, step, total);
    }
    out
}

/// From one sample to the next: the count of samples taken is the
/// number of strides that fit before the end.
pub proof fn lemma_sample_progress(length: int, depth: int, stride: int, k: int, pixels: int)
    requires
        3 <= depth,
        stride >= 1,
        0 <= k,
        length % depth == 0,
        pixels == length / depth,
        k * stride < pixels,
    ensures
        k + 1 <= sample_count(length, stride * depth),
        (k + 1) * stride >= pixels ==> k + 1 == sample_count(length, stride * depth),
        (k + 1) * stride < pixels ==> k + 1 < sample_count(length, stride * depth),
{
    let step = stride * depth;
    assert(length == pixels * depth) by {
        vstd::arithmetic::div_mod::lemma_fundamental_div_mod(length, depth);
        assert(depth * pixels == pixels * depth) by (nonlinear_arith);
    }
    assert(step >= 1) by (nonlinear_arith)
        requires
            step == stride * depth,
            stride >= 1,
            depth >= 3,
    ;
    let count = (length + step - 1) / step;
    vstd::arithmetic::div_mod::lemma_fundamental_div_mod(length + step - 1, step);
    let r = (length + step - 1) % step;
    assert(length + step - 1 == step * count + r);
    assert(k * step < length) by (nonlinear_arith)
        requires
            k * stride < pixels,
            step == stride * depth,
            length == pixels * depth,
            depth >= 3,
    ;
    assert(k + 1 <= count) by (nonlinear_arith)
        requires
            k * step < length,
            length + step - 1 == step * count + r,
            0 <= r < step,
            step >= 1,
    ;
    if (k + 1) * stride >= pixels {
        assert((k + 1) * step >= length) by (nonlinear_arith)
            requires
                (k + 1) * stride >= pixels,
                step == stride * depth,
                length == pixels * depth,
                depth >= 3,
        ;
        assert(count <= k + 1) by (nonlinear_arith)
            requires
                (k + 1) * step >= length,
                length + step - 1 == step * count + r,
                0 <= r < step,
                step >= 1,
        ;
    } else {
        assert((k + 1) * step < length) by (nonlinear_arith)
            requires
                (k + 1) * stride < pixels,
                step == stride * depth,
                length == pixels * depth,
                depth >= 3,
        ;
        assert(k + 1 < count) by (nonlinear_arith)
            requires
                (k + 1) * step < length,
                length + step - 1 == step * count + r,
                0 <= r < step,
                step >= 1,
        ;
    }
}

/// No cell is seen twice, so at most 32768 are.
pub proof fn lemma_seen_distinct(data: Seq<u8>, step: int, n: int)
    ensures
        cells_seen(data, step, n).no_duplicates(),
        cells_seen(data, step, n).len() <= 32768,
    decreases n,
{
    let seen = cells_seen(data, step, n);
    if n > 0 {
        lemma_seen_distinct(data, step, n - 1);
    }
    lemma_cells_seen(data, step, n);
    assert(seen.no_duplicates());
    let cells = Set::new(|c: int| 0 <= c < 32768);
    assert(cells =~= vstd::set_lib::set_int_range(0, 32768));
    vstd::set_lib::lemma_int_range(0, 32768);
    assert(seen.to_set().subset_of(cells)) by {
        assert forall|c: int| seen.to_set().contains(c) implies cells.contains(c) by {
            let j = choose|j: int| 0 <= j < seen.len() && seen[j] == c;
        }
    }
    seen.unique_seq_to_set();
    vstd::set_lib::lemma_len_subset(seen.to_set(), cells);
}

/// Number of colours in the histogram of an image.
pub open spec fn histogram_len(data: Seq<u8>, length: int, depth: int, quality: Quality) -> int {
    cells_seen(
        data,
        sample_step(length, depth, quality),
        sample_count(length, sample_step(length, depth, quality)),
    ).len() as int
}

/// Whether `t` is entry `k` of the histogram of an image.
pub open spec fn is_entry_of(
    t: Tuple,
    data: Seq<u8>,
    length: int,
    depth: int,
    quality: Quality,
    k: int,
) -> bool {
    is_histogram_entry(
        t,
        data,
        sample_step(length, depth, quality),
        sample_count(length, sample_step(length, depth, quality)),
        depth,
        k,
    )
}

/// Whether `map` is the histogram of an image: its keys count the
/// colours from zero, in the order of first appearance.
pub open spec fn is_histogram(
    map: Map<i32, Tuple>,
    data: Seq<u8>,
    length: int,
    depth: int,
    quality: Quality,
) -> bool {
    &&& forall|k: i32| map.contains_key(k) <==> 0 <= k < histogram_len(data, length, depth, quality)
    &&& forall|k: i32|
        0 <= k < histogram_len(data, length, depth, quality) ==> is_entry_of(
            #[trigger] map[k],
            data,
            length,
            depth,
            quality,
            k as int,
        )
}

/// Takes the histogram of an image: samples of its pixels are sorted
/// into a grid of 32 steps per channel by their first three channels,
/// and each cell that holds a sample gives one entry, with its colour
/// and the number of samples in it. The samples lie [`sample_step`]
/// bytes apart; `length` is the number of bytes of the image, `depth`
/// of one pixel.
#[allow(non_snake_case)]
pub fn computeHistogram(data: &[u8], length: i32, depth: i32, qualityMode: Quality) -> (out: Result<
    HashMap<i32, Tuple>,
    SixelError,
>)
    requires
        histogram_ok(data@.len() as int, length as int, depth as int),
    ensures
        out matches Ok(map) && is_histogram(
            map@,
            data@,
            length as int,
            depth as int,
            qualityMode,
        ),
{
    let mut entries = histogram_entries(data, length, depth, qualityMode);
    let ghost all = entries@;
    let ghost n = entries@.len() as int;
    let mut map: HashMap<i32, Tuple> = HashMap::new();
    while entries.len() > 0
        invariant
            entries@.len() <= n <= 32768,
            all.len() == n,
            entries@ == all.subrange(0, entries@.len() as int),
            forall|k: i32| map@.contains_key(k) <==> entries@.len() <= k < n,
            forall|k: i32| entries@.len() <= k < n ==> #[trigger] map@[k] == all[k as int],
        decreases entries@.len(),
    {
        let k: i32 = (entries.len() - 1) as i32;
        let ghost before = entries@;
        match entries.pop() {
            Some(entry) => {
                assert(entry == all[k as int]);
                map.insert(k, entry);
            },
            None => {},
        }
        assert(entries@ =~= all.subrange(0, entries@.len() as int));
    }
    Ok(map)
}

/// Whether `t` is the filler entry of key `k`: the numbers that follow
/// `k * depth`.
pub open spec fn is_filler(t: Tuple, k: int, depth: int) -> bool {
    &&& t.value == k
    &&& t.tuple@ == Seq::new(depth as nat, |n: int| (k * depth + n) as i32)
}

/// Whether a colour map can be made of the histogram of an image: the
/// histogram has no more than `req_colors` colours.
pub open spec fn color_map_ok(
    data: Seq<u8>,
    length: int,
    depth: int,
    req_colors: int,
    quality: Quality,
) -> bool {
    &&& histogram_ok(data.len() as int, length, depth)
    &&& histogram_len(data, length, depth, quality) <= req_colors
    &&& req_colors <= 0x100_0000
}

/// Whether `after` is `before` with the colour map of an image put in:
/// the entries of its histogram, then fillers up to key `req_colors`.
pub open spec fn holds_color_map(
    after: Map<i32, Tuple>,
    before: Map<i32, Tuple>,
    data: Seq<u8>,
    length: int,
    depth: int,
    req_colors: int,
    quality: Quality,
) -> bool {
    let n = histogram_len(data, length, depth, quality);
    &&& forall|k: i32| 0 <= k <= req_colors ==> #[trigger] after.contains_key(k)
    &&& forall|k: i32|
        0 <= k < n ==> is_entry_of(#[trigger] after[k], data, length, depth, quality, k as int)
    &&& forall|k: i32| n <= k <= req_colors ==> is_filler(#[trigger] after[k], k as int, depth)
    &&& forall|k: i32|
        !(0 <= k <= req_colors) ==> (#[trigger] after.contains_key(k) <==> before.contains_key(k))
            && (before.contains_key(k) ==> after[k] == before[k])
}

fn filler_entry(k: i32, depth: i32) -> (out: Tuple)
    requires
        0 <= k <= 0x100_0000,
        1 <= depth <= 6,
    ensures
        is_filler(out, k as int, depth as int),
{
    let mut tuple: Vec<i32> = Vec::new();
    let mut n: i32 = 0;
    while n < depth
        invariant
            0 <= n <= depth <= 6,
            0 <= k <= 0x100_0000,
            tuple@.len() == n,
            forall|j: int| 0 <= j < n ==> tuple@[j] == (k * depth + j) as i32,
        decreases depth - n,
    {
        assert(0 <= k * depth <= 0x600_0000) by (nonlinear_arith)
            requires
                0 <= k <= 0x100_0000,
                1 <= depth <= 6,
        ;
        tuple.push(k * depth + n);
        n += 1;
    }
    assert(tuple@ =~= Seq::new(depth as nat, |j: int| (k * depth + j) as i32));
    Tuple { value: k, tuple }
}

/// Makes the colour map of an image from its histogram, and puts it
/// into `colormapP` under the keys from zero on; `origcolors` gets the
/// number of colours of the histogram. The histogram must have no more
/// than `reqColors` colours: its entries are the map, filled up to key
/// `reqColors` with fillers.
#[allow(non_snake_case)]
pub fn computeColorMapFromInput(
    data: &[u8],
    length: i32,
    depth: i32,
    reqColors: i32,
    methodForLargest: FindLargestDim,
    methodForRep: ColorChoosingMethod,
    qualityMode: Quality,
    colormapP: &mut HashMap<i32, Tuple>,
    origcolors: &mut i32,
) -> (out: Result<(), SixelError>)
    requires
        color_map_ok(data@, length as int, depth as int, reqColors as int, qualityMode),
    ensures
        out is Ok,
        *final(origcolors) == histogram_len(data@, length as int, depth as int, qualityMode),
        holds_color_map(
            final(colormapP)@,
            old(colormapP)@,
            data@,
            length as int,
            depth as int,
            reqColors as int,
            qualityMode,
        ),
{
    let mut entries = histogram_entries(data, length, depth, qualityMode);
    let ghost all = entries@;
    let ghost n = entries@.len() as int;
    let ghost start = colormapP@;
    *origcolors = entries.len() as i32;
    let mut k: i32 = reqColors;
    while k >= entries.len() as i32
        invariant
            -1 <= k <= reqColors <= 0x100_0000,
            n - 1 <= k,
            1 <= depth <= 6,
            entries@ == all,
            all.len() == n,
            n <= 32768,
            forall|j: i32| k < j <= reqColors ==> #[trigger] colormapP@.contains_key(j),
            forall|j: i32|
                k < j <= reqColors ==> is_filler(#[trigger] colormapP@[j], j as int, depth as int),
            forall|j: i32|
                !(k < j <= reqColors) ==> (#[trigger] colormapP@.contains_key(j)
                    <==> start.contains_key(j)) && (start.contains_key(j) ==> colormapP@[j]
                    == start[j]),
        decreases k + 1,
    {
        let entry = filler_entry(k, depth);
        colormapP.insert(k, entry);
        k -= 1;
    }
    while entries.len() > 0
        invariant
            entries@.len() <= n <= 32768,
            n - 1 <= reqColors,
            all.len() == n,
            entries@ == all.subrange(0, entries@.len() as int),
            forall|j: i32|
                entries@.len() <= j <= reqColors ==> #[trigger] colormapP@.contains_key(j),
            forall|j: i32| entries@.len() <= j < n ==> #[trigger] colormapP@[j] == all[j as int],
            forall|j: i32|
                n <= j <= reqColors ==> is_filler(#[trigger] colormapP@[j], j as int, depth as int),
            forall|j: i32|
                !(entries@.len() <= j <= reqColors) ==> (#[trigger] colormapP@.contains_key(j)
                    <==> start.contains_key(j)) && (start.contains_key(j) ==> colormapP@[j]
                    == start[j]),
        decreases entries@.len(),
    {
        let j: i32 = (entries.len() - 1) as i32;
        match entries.pop() {
            Some(entry) => {
                assert(entry == all[j as int]);
                colormapP.insert(j, entry);
            },
            None => {},
        }
        assert(entries@ =~= all.subrange(0, entries@.len() as int));
    }
    proof {
        assert forall|j: i32| 0 <= j < n implies is_entry_of(
            #[trigger] colormapP@[j],
            data@,
            length as int,
            depth as int,
            qualityMode,
            j as int,
        ) by {
            assert(colormapP@[j] == all[j as int]);
        }
        assert(holds_color_map(
            colormapP@,
            start,
            data@,
            length as int,
            depth as int,
            reqColors as int,
            qualityMode,
        ));
    }
    Ok(())
}

/// Byte `i` of the palette made from the colour map of an image.
pub open spec fn palette_byte(
    data: Seq<u8>,
    length: int,
    depth: int,
    quality: Quality,
    i: int,
) -> u8 {
    let step = sample_step(length, depth, quality);
    let seen = cells_seen(data, step, sample_count(length, step));
    if i / depth < seen.len() {
        (cell_digit(seen[i / depth], depth - 1 - i % depth) * 8) as u8
    } else {
        (i % 256) as u8
    }
}

/// Makes a palette for an image: the colours of its histogram, `depth`
/// bytes for each, filled up to `reqcolors + 1` colours with the bytes
/// that count on from each filler's place. `ncolors` and `origcolors`
/// get the number of colours of the histogram, which must be no more
/// than `reqcolors`. The pixels must have three or four bytes.
#[allow(non_snake_case)]
pub fn sixel_quant_make_palette(
    data: &[u8],
    length: i32,
    pixelformat: PixelFormat,
    reqcolors: i32,
    ncolors: &mut i32,
    origcolors: &mut i32,
    methodForLargest: FindLargestDim,
    methodForRep: ColorChoosingMethod,
    qualityMode: Quality,
) -> (out: Result<Vec<u8>, SixelError>)
    requires
        color_map_ok(data@, length as int, depth_of(pixelformat), reqcolors as int, qualityMode),
    ensures
        out matches Ok(palette) && palette@.len() == (reqcolors + 1) * depth_of(pixelformat)
            && forall|i: int|
            0 <= i < palette@.len() ==> #[trigger] palette@[i] == palette_byte(
                data@,
                length as int,
                depth_of(pixelformat),
                qualityMode,
                i,
            ),
        *final(ncolors) == histogram_len(data@, length as int, depth_of(pixelformat), qualityMode),
        *final(origcolors) == histogram_len(
            data@,
            length as int,
            depth_of(pixelformat),
            qualityMode,
        ),
{
    let depth: i32 = sixel_helper_compute_depth(pixelformat);
    let mut colormap: HashMap<i32, Tuple> = HashMap::new();
    let made = computeColorMapFromInput(
        data,
        length,
        depth,
        reqcolors,
        methodForLargest,
        methodForRep,
        qualityMode,
        &mut colormap,
        origcolors,
    );
    *ncolors = *origcolors;
    let ghost step = sample_step(length as int, depth as int, qualityMode);
    let ghost seen = cells_seen(data@, step, sample_count(length as int, step));
    proof {
        lemma_cells_seen(data@, step, sample_count(length as int, step));
    }
    let mut result: Vec<u8> = Vec::new();
    let mut i: i32 = 0;
    while i <= reqcolors
        invariant
            0 <= i <= reqcolors + 1,
            reqcolors <= 0x100_0000,
            3 <= depth <= 6,
            depth == depth_of(pixelformat),
            step == sample_step(length as int, depth as int, qualityMode),
            seen == cells_seen(data@, step, sample_count(length as int, step)),
            seen.len() <= reqcolors,
            forall|m: int| 0 <= m < seen.len() ==> 0 <= #[trigger] seen[m] < 32768,
            holds_color_map(
                colormap@,
                Map::empty(),
                data@,
                length as int,
                depth as int,
                reqcolors as int,
                qualityMode,
            ),
            result@.len() == i * depth,
            forall|j: int|
                0 <= j < result@.len() ==> #[trigger] result@[j] == palette_byte(
                    data@,
                    length as int,
                    depth as int,
                    qualityMode,
                    j,
                ),
        decreases reqcolors + 1 - i,
    {
        assert(colormap@.contains_key(i));
        let entry = match colormap.get(&i) {
            Some(entry) => entry,
            None => {
                return Ok(result);
            },
        };
        let ghost base = result@.len() as int;
        assert(base == i * depth);
        let mut n: i32 = 0;
        while n < depth
            invariant
                0 <= n <= depth,
                3 <= depth <= 6,
                0 <= i <= reqcolors <= 0x100_0000,
                base == i * depth,
                entry == colormap@[i],
                i < seen.len() ==> entry.tuple@ == cell_color(seen[i as int], depth as int),
                i < seen.len() ==> 0 <= seen[i as int] < 32768,
                i >= seen.len() ==> is_filler(*entry, i as int, depth as int),
                seen == cells_seen(
                    data@,
                    sample_step(length as int, depth as int, qualityMode),
                    sample_count(
                        length as int,
                        sample_step(length as int, depth as int, qualityMode),
                    ),
                ),
                result@.len() == base + n,
                forall|j: int|
                    0 <= j < result@.len() ==> #[trigger] result@[j] == palette_byte(
                        data@,
                        length as int,
                        depth as int,
                        qualityMode,
                        j,
                    ),
            decreases depth - n,
        {
            proof {
                vstd::arithmetic::div_mod::lemma_fundamental_div_mod_converse(
                    base + n,
                    depth as int,
                    i as int,
                    n as int,
                );
                lemma_cell_digit_bound(seen[i as int], depth - 1 - n);
                assert(0 <= i * depth <= 0x600_0000) by (nonlinear_arith)
                    requires
                        0 <= i <= 0x100_0000,
                        3 <= depth <= 6,
                ;
            }
            let value: i32 = entry.tuple[n as usize];
            let byte: u8 = if value >= 0 {
                (value % 256) as u8
            } else {
                0
            };
            result.push(byte);
            n += 1;
        }
        assert((i + 1) * depth == base + depth) by (nonlinear_arith)
            requires
                base == i * depth,
        ;
        i += 1;
    }
    Ok(result)
}

/// A digit in base 32 is below 32.
pub proof fn lemma_cell_digit_bound(cell: int, n: int)
    ensures
        0 <= cell_digit(cell, n) < 32,
    decreases n,
{
    if n > 0 {
        lemma_cell_digit_bound(cell / 32, n - 1);
    }
}

} // verus!
