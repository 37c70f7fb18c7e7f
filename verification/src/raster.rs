use vstd::prelude::*;
use crate::math::SCALE;
use crate::field::Perlin2D;
use crate::field::NoiseError;
use crate::field::clamp01_spec;

verus! {

/// Quantization of a fixed-point noise value to an 8-bit intensity: clamp
/// into `[0, SCALE]`, then rescale so `0` maps to `0` and `SCALE` to `255`.
pub open spec fn quantize_spec(v: int) -> int {
    clamp01_spec(v) * 255 / (SCALE as int)
}

/// Quantizes a fixed-point noise value to a grayscale byte.
pub fn quantize(v: i64) -> (r: u8)
    ensures
        r == quantize_spec(v as int),
{
    let c: i64 = if v < 0 {
        0
    } else if v > SCALE {
        SCALE
    } else {
        v
    };
    ((c * 255) / SCALE) as u8
}

/// The fixed-point sample coordinate of pixel `p` out of `n` on an axis:
/// `p / n` of one full lattice tile.
pub open spec fn coord_of(p: int, n: int) -> int {
    p * (SCALE as int) / n
}

/// The grayscale byte of the raster's flat pixel `idx` for an
/// `img_w x img_h` image sampled over one tile of the field `f`.
pub open spec fn pixel_spec(f: Perlin2D, img_w: int, img_h: int, idx: int) -> int {
    quantize_spec(f.noise_spec(coord_of(idx % img_w, img_w), coord_of(idx / img_w, img_h)))
}

/// The whole raster: one byte per pixel, row-major.
pub open spec fn raster_spec(f: Perlin2D, img_w: int, img_h: int) -> Seq<u8> {
    Seq::new((img_w * img_h) as nat, |i: int| pixel_spec(f, img_w, img_h, i) as u8)
}

/// Computes the byte of one pixel: maps the flat index to pixel coordinates,
/// scales them into the field's tile, samples the fractal noise and
/// quantizes it.
pub fn pixel_value(f: &Perlin2D, img_w: u32, img_h: u32, idx: u64) -> (r: u8)
    requires
        f.wf(),
        img_w >= 1,
        img_h >= 1,
        idx < img_w as int * img_h as int,
    ensures
        r == pixel_spec(*f, img_w as int, img_h as int, idx as int),
{
    let px: u64 = idx % (img_w as u64);
    let py: u64 = idx / (img_w as u64);
    proof {
        lemma_row_below_height(idx as int, img_w as int, img_h as int);
        assert(px * (SCALE as u64) <= 0xFFFF_FFFFu64 * (SCALE as u64)) by (nonlinear_arith)
            requires
                0 <= px < 0x1_0000_0000u64,
                SCALE == 1000,
        ;
        assert(py * (SCALE as u64) <= 0xFFFF_FFFFu64 * (SCALE as u64)) by (nonlinear_arith)
            requires
                0 <= py < 0x1_0000_0000u64,
                SCALE == 1000,
        ;
    }
    let x: u64 = (px * (SCALE as u64)) / (img_w as u64);
    let y: u64 = (py * (SCALE as u64)) / (img_h as u64);
    let v: i64 = f.noise(x, y);
    quantize(v)
}

/// Fills the contiguous pixel range `[start, end)`: element `k` of the
/// result is the byte of flat pixel `start + k`. This is the unit of work a
/// raster-fill worker performs; it only reads the field.
pub fn fill_range(f: &Perlin2D, img_w: u32, img_h: u32, start: usize, end: usize) -> (r: Vec<u8>)
    requires
        f.wf(),
        img_w >= 1,
        img_h >= 1,
        start <= end,
        end <= img_w as int * img_h as int,
    ensures
        r@.len() == end - start,
        forall|k: int|
            0 <= k < end - start ==> r@[k] == pixel_spec(
                *f,
                img_w as int,
                img_h as int,
                start + k,
            ),
{
    let mut out: Vec<u8> = Vec::new();
    let mut idx: usize = start;
    while idx < end
        invariant
            f.wf(),
            img_w >= 1,
            img_h >= 1,
            start <= idx <= end,
            end <= img_w as int * img_h as int,
            out@.len() == idx - start,
            forall|k: int|
                0 <= k < idx - start ==> out@[k] == pixel_spec(
                    *f,
                    img_w as int,
                    img_h as int,
                    start + k,
                ),
        decreases end - idx,
    {
        let b: u8 = pixel_value(f, img_w, img_h, idx as u64);
        out.push(b);
        idx = idx + 1;
    }
    out
}

/// A flat pixel index below `img_w * img_h` lands on a row below `img_h`.
proof fn lemma_row_below_height(idx: int, img_w: int, img_h: int)
    requires
        img_w >= 1,
        img_h >= 1,
        0 <= idx < img_w * img_h,
    ensures
        0 <= idx / img_w < img_h,
{
    vstd::arithmetic::div_mod::lemma_div_pos_is_pos(idx, img_w);
    vstd::arithmetic::div_mod::lemma_div_is_ordered(idx, img_w * img_h - 1, img_w);
    vstd::arithmetic::div_mod::lemma_div_multiples_vanish_fancy(img_h - 1, img_w - 1, img_w);
    assert(img_w * img_h - 1 == img_w * (img_h - 1) + (img_w - 1)) by (nonlinear_arith);
}

/// Single-threaded reference fill of the whole raster, pixel `0` to the
/// last, row-major.
pub fn fill_raster(f: &Perlin2D, img_w: u32, img_h: u32) -> (r: Vec<u8>)
    requires
        f.wf(),
        img_w >= 1,
        img_h >= 1,
        img_w as int * img_h as int <= usize::MAX,
    ensures
        r@ == raster_spec(*f, img_w as int, img_h as int),
{
    proof {
        assert(img_w as int * img_h as int <= 0xFFFF_FFFFu64 * 0xFFFF_FFFFu64)
            by (nonlinear_arith)
            requires
                0 <= img_w as int <= 0xFFFF_FFFFu64,
                0 <= img_h as int <= 0xFFFF_FFFFu64,
        ;
        assert(img_w as int * img_h as int >= 0) by (nonlinear_arith)
            requires
                img_w as int >= 0,
                img_h as int >= 0,
        ;
    }
    let total: usize = ((img_w as u64) * (img_h as u64)) as usize;
    let out: Vec<u8> = fill_range(f, img_w, img_h, 0, total);
    proof {
        assert(out@ =~= raster_spec(*f, img_w as int, img_h as int));
    }
    out
}

/// Where chunk `i` of `workers` equal contiguous chunks begins: every chunk
/// gets `total / workers` pixels.
pub open spec fn chunk_start_spec(total: int, workers: int, i: int) -> int {
    i * (total / workers)
}

/// Where chunk `i` ends; the last chunk absorbs the division remainder so no
/// trailing pixel is dropped.
pub open spec fn chunk_end_spec(total: int, workers: int, i: int) -> int {
    if i == workers - 1 {
        total
    } else {
        (i + 1) * (total / workers)
    }
}

/// The chunks tile the pixel range `[0, total)` exactly: chunk `0` starts at
/// `0`, each chunk ends where the next begins (no gap, no overlap), the last
/// ends at `total`, and every chunk stays within bounds.
pub proof fn lemma_chunks_partition(total: int, workers: int)
    requires
        total >= 0,
        workers >= 1,
    ensures
        chunk_start_spec(total, workers, 0) == 0,
        chunk_end_spec(total, workers, workers - 1) == total,
        forall|i: int|
            0 <= i < workers - 1 ==> #[trigger] chunk_end_spec(total, workers, i)
                == chunk_start_spec(total, workers, i + 1),
        forall|i: int|
            0 <= i < workers ==> #[trigger] chunk_start_spec(total, workers, i)
                <= chunk_end_spec(total, workers, i) <= total,
{
    let q = total / workers;
    vstd::arithmetic::div_mod::lemma_div_pos_is_pos(total, workers);
    vstd::arithmetic::div_mod::lemma_fundamental_div_mod(total, workers);
    assert forall|i: int| 0 <= i < workers implies #[trigger] chunk_start_spec(total, workers, i)
        <= chunk_end_spec(total, workers, i) <= total by {
        assert(i * q <= (i + 1) * q) by (nonlinear_arith)
            requires
                q >= 0,
        ;
        assert((i + 1) * q <= workers * q) by (nonlinear_arith)
            requires
                q >= 0,
                i + 1 <= workers,
        ;
        assert(workers * q <= total) by (nonlinear_arith)
            requires
                total == workers * q + total % workers,
                total % workers >= 0,
        ;
    }
}

/// Executable chunk bounds for worker `i`; see `chunk_start_spec` and
/// `chunk_end_spec`.
pub fn chunk_bounds(total: usize, workers: usize, i: usize) -> (r: (usize, usize))
    requires
        workers >= 1,
        i < workers,
    ensures
        r.0 == chunk_start_spec(total as int, workers as int, i as int),
        r.1 == chunk_end_spec(total as int, workers as int, i as int),
        r.0 <= r.1 <= total,
{
    proof {
        lemma_chunks_partition(total as int, workers as int);
        vstd::arithmetic::div_mod::lemma_fundamental_div_mod(total as int, workers as int);
    }
    let q: usize = total / workers;
    proof {
        assert(workers as int * q as int <= total as int) by (nonlinear_arith)
            requires
                total as int == workers as int * q as int + total as int % (workers as int),
                total as int % (workers as int) >= 0,
        ;
        assert(i as int * q as int <= workers as int * q as int && (i as int + 1) * (q as int)
            <= workers as int * q as int) by (nonlinear_arith)
            requires
                0 <= i as int <= workers as int - 1,
                q >= 0,
        ;
        assert(i as int * q as int + q as int == (i as int + 1) * (q as int)) by (nonlinear_arith);
    }
    let s: usize = i * q;
    let e: usize = if i == workers - 1 {
        total
    } else {
        s + q
    };
    proof {
        assert((i as int + 1) * (q as int) == i as int * q as int + q as int) by (nonlinear_arith);
    }
    (s, e)
}

/// Fills the raster chunk by chunk, in index order, concatenating the
/// chunks' bytes: the partition is exact, so the result is byte-identical
/// to `fill_raster`'s — the property a concurrent fill relies on when its
/// workers each run `fill_range` over one chunk and the chunks are joined in
/// index order.
pub fn fill_chunked(f: &Perlin2D, img_w: u32, img_h: u32, workers: usize) -> (r: Vec<u8>)
    requires
        f.wf(),
        img_w >= 1,
        img_h >= 1,
        workers >= 1,
        img_w as int * img_h as int <= usize::MAX,
    ensures
        r@ == raster_spec(*f, img_w as int, img_h as int),
{
    proof {
        assert(0 <= img_w as int * img_h as int <= 0xFFFF_FFFFu64 * 0xFFFF_FFFFu64)
            by (nonlinear_arith)
            requires
                0 <= img_w as int <= 0xFFFF_FFFFu64,
                0 <= img_h as int <= 0xFFFF_FFFFu64,
        ;
        lemma_chunks_partition(img_w as int * img_h as int, workers as int);
    }
    let total: usize = ((img_w as u64) * (img_h as u64)) as usize;
    let mut out: Vec<u8> = Vec::new();
    let mut c: usize = 0;
    while c < workers
        invariant
            f.wf(),
            img_w >= 1,
            img_h >= 1,
            workers >= 1,
            c <= workers,
            total == img_w as int * img_h as int,
            out@.len() == if c == 0 {
                0int
            } else {
                chunk_end_spec(total as int, workers as int, c as int - 1)
            },
            out@.len() <= total,
            forall|k: int|
                0 <= k < out@.len() ==> out@[k] == pixel_spec(
                    *f,
                    img_w as int,
                    img_h as int,
                    k,
                ),
        decreases workers - c,
    {
        proof {
            lemma_chunks_partition(total as int, workers as int);
        }
        let bounds: (usize, usize) = chunk_bounds(total, workers, c);
        let mut part: Vec<u8> = fill_range(f, img_w, img_h, bounds.0, bounds.1);
        out.append(&mut part);
        c = c + 1;
    }
    proof {
        assert(out@ =~= raster_spec(*f, img_w as int, img_h as int));
    }
    out
}

/// Checked raster generation: validates the image dimensions, then runs the
/// reference fill. Fails with `InvalidDimensions` exactly when a dimension
/// is zero or the raster would not fit in memory.
pub fn render(f: &Perlin2D, img_w: u32, img_h: u32) -> (r: Result<Vec<u8>, NoiseError>)
    requires
        f.wf(),
    ensures
        match r {
            Ok(v) => {
                &&& img_w >= 1
                &&& img_h >= 1
                &&& img_w as int * img_h as int <= usize::MAX
                &&& v@ == raster_spec(*f, img_w as int, img_h as int)
            },
            Err(e) => {
                &&& e == NoiseError::InvalidDimensions
                &&& (img_w == 0 || img_h == 0 || img_w as int * img_h as int > usize::MAX)
            },
        },
{
    proof {
        assert(0 <= img_w as int * img_h as int <= 0xFFFF_FFFFu64 * 0xFFFF_FFFFu64)
            by (nonlinear_arith)
            requires
                0 <= img_w as int <= 0xFFFF_FFFFu64,
                0 <= img_h as int <= 0xFFFF_FFFFu64,
        ;
    }
    if img_w == 0 || img_h == 0 {
        return Err(NoiseError::InvalidDimensions);
    }
    let total: u64 = (img_w as u64) * (img_h as u64);
    if total > usize::MAX as u64 {
        return Err(NoiseError::InvalidDimensions);
    }
    Ok(fill_raster(f, img_w, img_h))
}

} // verus!
