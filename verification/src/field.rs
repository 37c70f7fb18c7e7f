use vstd::prelude::*;
use vstd::arithmetic::power2::pow2;
use vstd::arithmetic::power2::lemma_pow2_unfold;
use vstd::arithmetic::power2::lemma_pow2_pos;
use vstd::arithmetic::power2::lemma2_to64;
use vstd::arithmetic::div_mod::lemma_div_multiples_vanish_fancy;
use vstd::arithmetic::div_mod::lemma_div_multiples_vanish;
use vstd::arithmetic::div_mod::lemma_fundamental_div_mod;
use vstd::arithmetic::div_mod::lemma_div_is_ordered;
use vstd::arithmetic::div_mod::lemma_div_pos_is_pos;
use crate::math::SCALE;
use crate::math::tdiv;
use crate::math::lerp_spec;
use crate::math::smooth_interpolation;
use crate::math::lemma_tdiv_lower;
use crate::math::lemma_tdiv_upper;
use crate::vector::Vector2D;
use crate::vector::lemma_dot_fast_bounded;
use crate::palette::PALETTE_LEN;
use crate::palette::in_palette;
use crate::palette::palette_vector;
use crate::palette::lemma_palette_unit;
use rand::RngExt;

verus! {

/// Errors surfaced by noise-field construction and raster generation.
#[derive(Clone, Copy, Debug, PartialEq, Eq, Structural)]
pub enum NoiseError {
    /// A lattice or image dimension is zero, the lattice cannot support the
    /// requested octave depth, or a size overflows the machine's limits.
    InvalidDimensions,
    /// A raster-fill worker terminated abnormally; reported by callers that
    /// run `fill_range` tasks concurrently, never by this crate's own code.
    WorkerTaskFailure,
}

#[verifier::external_type_specification]
#[verifier::external_body]
pub struct ExThreadRng(rand::rngs::ThreadRng);

/// Relies on `rand::rng`: hands out the thread-local random generator. It
/// panics only if the operating system fails to seed the generator, a
/// condition independent of any input.
#[verifier::external_body]
fn fresh_rng() -> rand::rngs::ThreadRng {
    rand::rng()
}

/// Relies on `rand::RngExt::random_range`: a uniform draw from `0..n` lies
/// below `n`; `n > 0` keeps the range nonempty, so the call cannot panic.
#[verifier::external_body]
fn draw_below(rng: &mut rand::rngs::ThreadRng, n: usize) -> (i: usize)
    requires
        n > 0,
    ensures
        i < n,
{
    rng.random_range(0..n)
}

/// A 2D gradient-noise field: a `width x height` lattice of unit gradient
/// vectors drawn from the fixed palette, sampled through a four-corner
/// smoothstep kernel and summed over `octaves` frequency-doubled layers.
/// Immutable once constructed; concurrent readers need no synchronization.
pub struct Perlin2D {
    width: u32,
    height: u32,
    octaves: u32,
    base_w: u32,
    base_h: u32,
    lattice: Vec<Vector2D>,
}

/// Whether a width/height/octaves request describes a buildable field: at
/// least one octave, few enough octaves that the coarsest layer still has a
/// lattice cell per axis, and a lattice that fits in memory.
pub open spec fn valid_dims(width: int, height: int, octaves: int) -> bool {
    &&& 1 <= octaves <= 30
    &&& width >= pow2(octaves as nat)
    &&& height >= pow2(octaves as nat)
    &&& width * height <= usize::MAX
}

/// Whether a frequency/octaves request describes a buildable square field:
/// the derived size `freq * 2^octaves` must be a valid dimension on both
/// axes.
pub open spec fn valid_freq(freq: int, octaves: int) -> bool {
    &&& 1 <= octaves <= 30
    &&& 1 <= freq
    &&& freq * pow2(octaves as nat) <= u32::MAX
    &&& valid_dims(
        freq * pow2(octaves as nat),
        freq * pow2(octaves as nat),
        octaves,
    )
}

impl Perlin2D {
    /// The gradient lattice, as a flat row-major sequence.
    pub closed spec fn lattice_spec(self) -> Seq<Vector2D> {
        self.lattice@
    }

    pub closed spec fn width_spec(self) -> int {
        self.width as int
    }

    pub closed spec fn height_spec(self) -> int {
        self.height as int
    }

    pub closed spec fn octaves_spec(self) -> int {
        self.octaves as int
    }

    /// Lattice resolution of the coarsest octave on each axis.
    pub closed spec fn base_w_spec(self) -> int {
        self.base_w as int
    }

    pub closed spec fn base_h_spec(self) -> int {
        self.base_h as int
    }

    /// Structural invariant: the flat lattice holds exactly `width * height`
    /// gradients, each from the fixed palette, the octave count is in range,
    /// and the coarsest-octave resolutions are the dimensions divided by
    /// `2^octaves`, at least one cell per axis.
    pub open spec fn wf(self) -> bool {
        &&& 1 <= self.octaves_spec() <= 30
        &&& self.width_spec() <= u32::MAX
        &&& self.height_spec() <= u32::MAX
        &&& 1 <= self.base_w_spec()
        &&& 1 <= self.base_h_spec()
        &&& self.base_w_spec() == self.width_spec() / pow2(self.octaves_spec() as nat) as int
        &&& self.base_h_spec() == self.height_spec() / pow2(self.octaves_spec() as nat) as int
        &&& self.lattice_spec().len() == self.width_spec() * self.height_spec()
        &&& forall|k: int|
            0 <= k < self.lattice_spec().len() ==> in_palette(#[trigger] self.lattice_spec()[k])
    }

    /// Builds a field over an explicit `width x height` gradient lattice,
    /// populating every cell with an independent uniform draw from the
    /// palette. Fails with `InvalidDimensions` exactly when the requested
    /// dimensions cannot support the octave depth (or are zero, or the
    /// lattice would not fit in memory).
    pub fn with_dimensions(width: u32, height: u32, octaves: u32) -> (r: Result<
        Perlin2D,
        NoiseError,
    >)
        ensures
            match r {
                Ok(f) => {
                    &&& valid_dims(width as int, height as int, octaves as int)
                    &&& f.wf()
                    &&& f.width_spec() == width
                    &&& f.height_spec() == height
                    &&& f.octaves_spec() == octaves
                },
                Err(e) => {
                    &&& e == NoiseError::InvalidDimensions
                    &&& !valid_dims(width as int, height as int, octaves as int)
                },
            },
    {
        if octaves == 0 || octaves > 30 {
            return Err(NoiseError::InvalidDimensions);
        }
        let p: u64 = pow2_u64(octaves);
        proof {
            lemma2_to64();
        }
        let bw: u64 = (width as u64) / p;
        let bh: u64 = (height as u64) / p;
        if bw == 0 || bh == 0 {
            proof {
                if bw == 0 {
                    lemma_div_below_one(width as int, p as int);
                } else {
                    lemma_div_below_one(height as int, p as int);
                }
            }
            return Err(NoiseError::InvalidDimensions);
        }
        proof {
            lemma_div_at_least_one(width as int, p as int);
            lemma_div_at_least_one(height as int, p as int);
        }
        proof {
            assert(width as int * height as int <= 0xFFFF_FFFFu64 * 0xFFFF_FFFFu64)
                by (nonlinear_arith)
                requires
                    0 <= width as int <= 0xFFFF_FFFFu64,
                    0 <= height as int <= 0xFFFF_FFFFu64,
            ;
        }
        let total: u64 = (width as u64) * (height as u64);
        if total > usize::MAX as u64 {
            return Err(NoiseError::InvalidDimensions);
        }
        let n: usize = total as usize;
        let mut lattice: Vec<Vector2D> = Vec::new();
        let mut rng = fresh_rng();
        let mut k: usize = 0;
        while k < n
            invariant
                k <= n,
                lattice@.len() == k,
                forall|j: int| 0 <= j < k ==> in_palette(#[trigger] lattice@[j]),
            decreases n - k,
        {
            let idx: usize = draw_below(&mut rng, PALETTE_LEN);
            lattice.push(palette_vector(idx));
            k = k + 1;
        }
        Ok(
            Perlin2D {
                width,
                height,
                octaves,
                base_w: bw as u32,
                base_h: bh as u32,
                lattice,
            },
        )
    }

    /// Derived convenience constructor: a square lattice of `freq * 2^octaves`
    /// cells per axis, so that octave `i` samples at resolution
    /// `freq * 2^i`. Fails with `InvalidDimensions` when `freq` is zero, the
    /// octave count is out of range, or the derived size overflows.
    pub fn new(freq: u32, octaves: u32) -> (r: Result<Perlin2D, NoiseError>)
        ensures
            match r {
                Ok(f) => {
                    &&& valid_freq(freq as int, octaves as int)
                    &&& f.wf()
                    &&& f.width_spec() == freq as int * pow2(octaves as nat)
                    &&& f.height_spec() == f.width_spec()
                    &&& f.octaves_spec() == octaves
                },
                Err(e) => {
                    &&& e == NoiseError::InvalidDimensions
                    &&& !valid_freq(freq as int, octaves as int)
                },
            },
    {
        if octaves == 0 || octaves > 30 {
            return Err(NoiseError::InvalidDimensions);
        }
        let p: u64 = pow2_u64(octaves);
        proof {
            assert(freq as int * p as int <= 0xFFFF_FFFFu64 * 0x4000_0000u64) by (nonlinear_arith)
                requires
                    0 <= freq as int <= 0xFFFF_FFFFu64,
                    0 <= p as int <= 0x4000_0000u64,
            ;
        }
        let size: u64 = (freq as u64) * p;
        if size == 0 || size > u32::MAX as u64 {
            proof {
                if size == 0 {
                    assert(freq == 0) by (nonlinear_arith)
                        requires
                            freq as int * p as int == 0,
                            p as int >= 1,
                            freq as int >= 0,
                    ;
                    assert(!valid_freq(freq as int, octaves as int));
                }
            }
            return Err(NoiseError::InvalidDimensions);
        }
        proof {
            assert(size as int == freq as int * pow2(octaves as nat));
            assert(freq >= 1) by (nonlinear_arith)
                requires
                    freq as int * p as int >= 1,
                    p as int >= 1,
                    freq as int >= 0,
            ;
            assert(size as int >= p as int) by (nonlinear_arith)
                requires
                    size as int == freq as int * p as int,
                    freq as int >= 1,
                    p as int >= 1,
            ;
        }
        Self::with_dimensions(size as u32, size as u32, octaves)
    }

    /// The gradient stored at flat index `x + y * width`, or `None` when
    /// that index falls outside the lattice.
    pub fn get_vector(&self, x: u32, y: u32) -> (r: Option<&Vector2D>)
        ensures
            match r {
                Some(v) => {
                    &&& x as int + y as int * self.width_spec() < self.lattice_spec().len()
                    &&& *v == self.lattice_spec()[x as int + y as int * self.width_spec()]
                },
                None => x as int + y as int * self.width_spec() >= self.lattice_spec().len(),
            },
    {
        proof {
            assert(y as int * self.width as int <= 0xFFFF_FFFFu64 * 0xFFFF_FFFFu64)
                by (nonlinear_arith)
                requires
                    0 <= y as int <= 0xFFFF_FFFFu64,
                    0 <= self.width as int <= 0xFFFF_FFFFu64,
            ;
        }
        let index: u64 = x as u64 + (y as u64) * (self.width as u64);
        if index < self.lattice.len() as u64 {
            Some(&self.lattice[index as usize])
        } else {
            None
        }
    }
}

/// The tiling rule for an upper lattice-node index: an index past the last
/// valid one on an axis wraps to `0`, so opposite lattice edges share
/// gradients and the noise tiles seamlessly.
pub open spec fn wrap_spec(i: int, size: int) -> int {
    if i > size - 1 {
        0
    } else {
        i
    }
}

/// The wrap rule maps index `size` to `0` and, for any candidate index that
/// a cell can produce, never yields an index at or past `size`.
pub proof fn lemma_wrap_in_range(i: int, size: int)
    requires
        size >= 1,
        0 <= i <= size,
    ensures
        wrap_spec(size, size) == 0,
        0 <= wrap_spec(i, size) < size,
{
}

/// Executable tiling rule; see `wrap_spec`.
pub fn wrap_index(i: u64, size: u64) -> (r: u64)
    requires
        size >= 1,
    ensures
        r == wrap_spec(i as int, size as int),
        i <= size ==> r < size,
{
    if i > size - 1 {
        0
    } else {
        i
    }
}

/// What one single-octave sample computes, step for step: wrap the
/// fixed-point coordinates into one tile, scale them by the octave's lattice
/// resolution to find the cell and the fractional offsets, look up the four
/// corner gradients (upper indices tiled by `wrap_spec`), take each
/// corner's `dot_fast` with the displacement from the *unwrapped* corner to
/// the sample, interpolate the two corner pairs along x and those results
/// along y with smoothstep weights, and remap from `[-SCALE, SCALE]` to
/// `[0, SCALE]`.
pub open spec fn basic_noise_spec(
    lattice: Seq<Vector2D>,
    width: int,
    x: int,
    y: int,
    gx: int,
    gy: int,
) -> int {
    let s = SCALE as int;
    let xs = (x % s) * gx;
    let ys = (y % s) * gy;
    let x0 = xs / s;
    let y0 = ys / s;
    let sx = xs % s;
    let sy = ys % s;
    let x1m = wrap_spec(x0 + 1, gx);
    let y1m = wrap_spec(y0 + 1, gy);
    let va = lattice[x0 + y0 * width];
    let vb = lattice[x1m + y0 * width];
    let vc = lattice[x0 + y1m * width];
    let vd = lattice[x1m + y1m * width];
    let da = va.dot_fast_spec(Vector2D { x: sx as i64, y: sy as i64 });
    let db = vb.dot_fast_spec(Vector2D { x: (sx - s) as i64, y: sy as i64 });
    let dc = vc.dot_fast_spec(Vector2D { x: sx as i64, y: (sy - s) as i64 });
    let dd = vd.dot_fast_spec(Vector2D { x: (sx - s) as i64, y: (sy - s) as i64 });
    let top = lerp_spec(da, db, sx);
    let btm = lerp_spec(dc, dd, sx);
    let fin = lerp_spec(top, btm, sy);
    tdiv(fin + s, 2)
}

impl Perlin2D {
    /// The gradient at lattice node `(col, row)`; total lookup for in-range
    /// nodes.
    fn lattice_at(&self, col: u64, row: u64) -> (v: Vector2D)
        requires
            self.wf(),
            col < self.width_spec(),
            row < self.height_spec(),
        ensures
            v == self.lattice_spec()[col as int + row as int * self.width_spec()],
            in_palette(v),
    {
        proof {
            lemma_flat_index_in_range(
                col as int,
                row as int,
                self.width_spec(),
                self.height_spec(),
            );
            assert(row as int * self.width as int <= 0xFFFF_FFFFu64 * 0xFFFF_FFFFu64)
                by (nonlinear_arith)
                requires
                    0 <= row as int <= 0xFFFF_FFFFu64,
                    0 <= self.width as int <= 0xFFFF_FFFFu64,
            ;
        }
        let index: u64 = col + row * (self.width as u64);
        let n: usize = self.lattice.len();
        proof {
            assert(index as int == col as int + row as int * self.width_spec());
            assert((index as int) < n as int);
        }
        self.lattice[index as usize]
    }

    /// One octave of lattice noise at fixed-point coordinate `(x, y)`
    /// (scale `SCALE`; only the fractional tile position matters), sampled
    /// against a `gx x gy` lattice resolution. Returns the smoothstep-
    /// interpolated four-corner gradient sample remapped from
    /// `[-SCALE, SCALE]` to `[0, SCALE]`. With unit gradients the kernel in
    /// fact keeps the pre-remap value well inside the unit band (classically
    /// within about 0.71 of zero), so the sample stays comfortably inside
    /// `[0, SCALE]`; the contract states the coarser band
    /// `[-SCALE/2, 3*SCALE/2]`, which is what is machine-checked here.
    pub fn basic_noise(&self, x: u64, y: u64, gx: u32, gy: u32) -> (r: i64)
        requires
            self.wf(),
            1 <= gx <= self.width_spec(),
            1 <= gy <= self.height_spec(),
        ensures
            r == basic_noise_spec(
                self.lattice_spec(),
                self.width_spec(),
                x as int,
                y as int,
                gx as int,
                gy as int,
            ),
            -SCALE / 2 <= r <= 3 * SCALE / 2,
    {
        let s: u64 = SCALE as u64;
        let xw: u64 = x % s;
        let yw: u64 = y % s;
        proof {
            lemma_scaled_cell_in_range(xw as int, gx as int);
            lemma_scaled_cell_in_range(yw as int, gy as int);
        }
        let xs: u64 = xw * (gx as u64);
        let ys: u64 = yw * (gy as u64);
        let x0: u64 = xs / s;
        let y0: u64 = ys / s;
        let sx: i64 = (xs % s) as i64;
        let sy: i64 = (ys % s) as i64;
        let x1m: u64 = wrap_index(x0 + 1, gx as u64);
        let y1m: u64 = wrap_index(y0 + 1, gy as u64);

        let va: Vector2D = self.lattice_at(x0, y0);
        let vb: Vector2D = self.lattice_at(x1m, y0);
        let vc: Vector2D = self.lattice_at(x0, y1m);
        let vd: Vector2D = self.lattice_at(x1m, y1m);
        proof {
            lemma_palette_unit(va);
            lemma_palette_unit(vb);
            lemma_palette_unit(vc);
            lemma_palette_unit(vd);
            lemma_dot_fast_bounded(va, Vector2D { x: sx, y: sy });
            lemma_dot_fast_bounded(vb, Vector2D { x: (sx - SCALE) as i64, y: sy });
            lemma_dot_fast_bounded(vc, Vector2D { x: sx, y: (sy - SCALE) as i64 });
            lemma_dot_fast_bounded(vd, Vector2D { x: (sx - SCALE) as i64, y: (sy - SCALE) as i64 });
        }
        let da: i64 = va.dot_fast(&Vector2D { x: sx, y: sy });
        let db: i64 = vb.dot_fast(&Vector2D { x: sx - SCALE, y: sy });
        let dc: i64 = vc.dot_fast(&Vector2D { x: sx, y: sy - SCALE });
        let dd: i64 = vd.dot_fast(&Vector2D { x: sx - SCALE, y: sy - SCALE });

        let top: i64 = smooth_interpolation(da, db, sx);
        let btm: i64 = smooth_interpolation(dc, dd, sx);
        let fin: i64 = smooth_interpolation(top, btm, sy);
        proof {
            lemma_tdiv_lower(fin as int + SCALE as int, 2, SCALE as int / 2);
            lemma_tdiv_upper(fin as int + SCALE as int, 2, 3 * SCALE as int / 2);
        }
        (fin + SCALE) / 2
    }
}

/// Sampled exactly at a lattice node (both fractional offsets zero), the
/// kernel returns the affine remap of that node's own contribution: the
/// node's gradient dotted with a zero displacement, which is zero, remapped
/// to `SCALE / 2`. This holds for every lattice, so the sampled surface
/// meets its nodes at the remapped self-contribution however the gradients
/// were drawn.
pub proof fn lemma_basic_noise_at_node(
    lattice: Seq<Vector2D>,
    width: int,
    x: int,
    y: int,
    gx: int,
    gy: int,
)
    requires
        gx >= 1,
        gy >= 1,
        ((x % (SCALE as int)) * gx) % (SCALE as int) == 0,
        ((y % (SCALE as int)) * gy) % (SCALE as int) == 0,
    ensures
        basic_noise_spec(lattice, width, x, y, gx, gy) == SCALE / 2,
{
    let s = SCALE as int;
    let xs = (x % s) * gx;
    let ys = (y % s) * gy;
    let sx = xs % s;
    let sy = ys % s;
    assert(sx == 0 && sy == 0);
    let x0 = xs / s;
    let y0 = ys / s;
    let va = lattice[x0 + y0 * width];
    let zero = Vector2D { x: 0 as i64, y: 0 as i64 };
    assert(va.x * zero.x as int + va.y * zero.y as int == 0) by (nonlinear_arith)
        requires
            zero.x == 0,
            zero.y == 0,
    ;
    assert(va.dot_fast_spec(zero) == 0);
    let x1m = wrap_spec(x0 + 1, gx);
    let y1m = wrap_spec(y0 + 1, gy);
    let vb = lattice[x1m + y0 * width];
    let vc = lattice[x0 + y1m * width];
    let vd = lattice[x1m + y1m * width];
    let da = va.dot_fast_spec(Vector2D { x: sx as i64, y: sy as i64 });
    let db = vb.dot_fast_spec(Vector2D { x: (sx - s) as i64, y: sy as i64 });
    let dc = vc.dot_fast_spec(Vector2D { x: sx as i64, y: (sy - s) as i64 });
    let dd = vd.dot_fast_spec(Vector2D { x: (sx - s) as i64, y: (sy - s) as i64 });
    assert(da == 0);
    lemma_lerp_at_zero(da, db);
    let top = lerp_spec(da, db, 0);
    let btm = lerp_spec(dc, dd, 0);
    lemma_lerp_at_zero(top, btm);
    assert(lerp_spec(top, btm, 0) == 0);
    assert(basic_noise_spec(lattice, width, x, y, gx, gy) == tdiv(0 + s, 2));
}

/// Interpolating with weight zero returns the first endpoint: the
/// smoothstep weight of `0` is `0`, and a zero-weighted difference
/// contributes nothing.
proof fn lemma_lerp_at_zero(a: int, b: int)
    ensures
        lerp_spec(a, b, 0) == a,
{
    let s = SCALE as int;
    assert(0 * 0 * (3 * s - 2 * 0) == 0) by (nonlinear_arith);
    assert(crate::math::smoothstep_spec(0) == 0int / (s * s));
    assert(crate::math::smoothstep_spec(0) == 0);
    assert(crate::math::smoothstep_spec(0) * (b - a) == 0) by (nonlinear_arith)
        requires
            crate::math::smoothstep_spec(0) == 0,
    ;
    assert(tdiv(0, s) == 0);
}

/// The weighted sum of the first `i` fractal octaves: octave `o` samples the
/// kernel at lattice resolution `(base_w * 2^o, base_h * 2^o)` and carries
/// weight `2^(octaves - 1 - o)`, so each finer octave contributes half what
/// the previous one did (persistence one half).
pub open spec fn octave_acc(
    lattice: Seq<Vector2D>,
    width: int,
    x: int,
    y: int,
    base_w: int,
    base_h: int,
    octaves: int,
    i: int,
) -> int
    decreases i,
{
    if i <= 0 {
        0
    } else {
        octave_acc(lattice, width, x, y, base_w, base_h, octaves, i - 1) + pow2(
            (octaves - i) as nat,
        ) as int * basic_noise_spec(
            lattice,
            width,
            x,
            y,
            base_w * pow2((i - 1) as nat),
            base_h * pow2((i - 1) as nat),
        )
    }
}

/// At a coordinate that is a node of the first `i` octaves' lattices, the
/// octave accumulator is exactly the midpoint sample times the weights used
/// so far.
proof fn lemma_acc_at_common_node(
    lattice: Seq<Vector2D>,
    width: int,
    x: int,
    y: int,
    base_w: int,
    base_h: int,
    octaves: int,
    i: int,
)
    requires
        base_w >= 1,
        base_h >= 1,
        0 <= i <= octaves,
        forall|o: int|
            0 <= o < i ==> ((x % (SCALE as int)) * (base_w * #[trigger] pow2(o as nat))) % (
            SCALE as int) == 0,
        forall|o: int|
            0 <= o < i ==> ((y % (SCALE as int)) * (base_h * #[trigger] pow2(o as nat))) % (
            SCALE as int) == 0,
    ensures
        octave_acc(lattice, width, x, y, base_w, base_h, octaves, i) == (SCALE as int / 2) * (pow2(
            octaves as nat,
        ) - pow2((octaves - i) as nat)),
    decreases i,
{
    if i <= 0 {
        assert((SCALE as int / 2) * (pow2(octaves as nat) - pow2(octaves as nat)) == 0)
            by (nonlinear_arith);
    } else {
        lemma_acc_at_common_node(lattice, width, x, y, base_w, base_h, octaves, i - 1);
        lemma_pow2_pos((i - 1) as nat);
        assert(base_w * pow2((i - 1) as nat) >= 1 && base_h * pow2((i - 1) as nat) >= 1)
            by (nonlinear_arith)
            requires
                base_w >= 1,
                base_h >= 1,
                pow2((i - 1) as nat) >= 1,
        ;
        lemma_basic_noise_at_node(
            lattice,
            width,
            x,
            y,
            base_w * pow2((i - 1) as nat),
            base_h * pow2((i - 1) as nat),
        );
        lemma_pow2_unfold((octaves - i + 1) as nat);
        let h: int = SCALE as int / 2;
        let pt = pow2(octaves as nat) as int;
        let pc = pow2((octaves - i) as nat) as int;
        assert(h * (pt - 2 * pc) + pc * h == h * (pt - pc)) by (nonlinear_arith);
    }
}

/// Sampled at a coordinate that is a lattice node of every octave at once,
/// the fractal sum reproduces the nodes' own remapped self-contribution,
/// `SCALE / 2`: each octave contributes the midpoint, and the normalized
/// weighted average of midpoints is the midpoint.
pub proof fn lemma_noise_at_common_node(f: Perlin2D, x: int, y: int)
    requires
        f.wf(),
        forall|o: int|
            0 <= o < f.octaves_spec() ==> ((x % (SCALE as int)) * (f.base_w_spec()
                * #[trigger] pow2(o as nat))) % (SCALE as int) == 0,
        forall|o: int|
            0 <= o < f.octaves_spec() ==> ((y % (SCALE as int)) * (f.base_h_spec()
                * #[trigger] pow2(o as nat))) % (SCALE as int) == 0,
    ensures
        f.noise_spec(x, y) == SCALE / 2,
{
    lemma_acc_at_common_node(
        f.lattice_spec(),
        f.width_spec(),
        x,
        y,
        f.base_w_spec(),
        f.base_h_spec(),
        f.octaves_spec(),
        f.octaves_spec(),
    );
    lemma2_to64();
    let h: int = SCALE as int / 2;
    let w: int = pow2(f.octaves_spec() as nat) as int - 1;
    lemma_pow2_pos(f.octaves_spec() as nat);
    vstd::arithmetic::power2::lemma_pow2_strictly_increases(0nat, f.octaves_spec() as nat);
    assert(h * w >= 0) by (nonlinear_arith)
        requires
            h >= 0,
            w >= 0,
    ;
    assert(w * h == h * w) by (nonlinear_arith);
    lemma_div_multiples_vanish(h, w);
}

/// Each octave accumulator reads its coordinates only through their
/// remainders modulo `SCALE`, so congruent coordinates accumulate alike.
proof fn lemma_acc_tiles(
    lattice: Seq<Vector2D>,
    width: int,
    x: int,
    y: int,
    x2: int,
    y2: int,
    base_w: int,
    base_h: int,
    octaves: int,
    i: int,
)
    requires
        x % (SCALE as int) == x2 % (SCALE as int),
        y % (SCALE as int) == y2 % (SCALE as int),
    ensures
        octave_acc(lattice, width, x, y, base_w, base_h, octaves, i) == octave_acc(
            lattice,
            width,
            x2,
            y2,
            base_w,
            base_h,
            octaves,
            i,
        ),
    decreases i,
{
    if i > 0 {
        lemma_acc_tiles(lattice, width, x, y, x2, y2, base_w, base_h, octaves, i - 1);
    }
}

/// The noise tiles seamlessly: the fractal sample depends on a coordinate
/// only through its position inside one lattice tile, so samples one whole
/// tile apart are identical.
pub proof fn lemma_noise_tiles(f: Perlin2D, x: int, y: int, x2: int, y2: int)
    requires
        x % (SCALE as int) == x2 % (SCALE as int),
        y % (SCALE as int) == y2 % (SCALE as int),
    ensures
        f.noise_spec(x, y) == f.noise_spec(x2, y2),
{
    lemma_acc_tiles(
        f.lattice_spec(),
        f.width_spec(),
        x,
        y,
        x2,
        y2,
        f.base_w_spec(),
        f.base_h_spec(),
        f.octaves_spec(),
        f.octaves_spec(),
    );
}

/// Clamp a fixed-point noise value into the nominal `[0, SCALE]` band.
pub open spec fn clamp01_spec(v: int) -> int {
    if v < 0 {
        0
    } else if v > SCALE {
        SCALE as int
    } else {
        v
    }
}

impl Perlin2D {
    /// The fractal sample at `(x, y)`: all octaves' weighted sum, normalized
    /// by the sum of the weights actually used (`2^octaves - 1`).
    pub open spec fn noise_spec(self, x: int, y: int) -> int {
        tdiv(
            octave_acc(
                self.lattice_spec(),
                self.width_spec(),
                x,
                y,
                self.base_w_spec(),
                self.base_h_spec(),
                self.octaves_spec(),
                self.octaves_spec(),
            ),
            pow2(self.octaves_spec() as nat) as int - 1,
        )
    }

    /// Multi-octave fractal noise at fixed-point coordinate `(x, y)`: each
    /// octave is sampled by `basic_noise` (so each octave is already
    /// remapped to the nominal `[0, SCALE]` band), then the octaves are
    /// averaged with weights halving per octave and normalized by the sum
    /// of the weights used. The normalized result stays within the same
    /// `[-SCALE/2, 3*SCALE/2]` band as a single octave.
    pub fn noise(&self, x: u64, y: u64) -> (r: i64)
        requires
            self.wf(),
        ensures
            r == self.noise_spec(x as int, y as int),
            -SCALE / 2 <= r <= 3 * SCALE / 2,
    {
        let ghost lat = self.lattice_spec();
        let ghost w = self.width_spec();
        let ghost bw = self.base_w_spec();
        let ghost bh = self.base_h_spec();
        let ghost oct = self.octaves_spec();
        let wsum_p: u64 = pow2_u64(self.octaves);
        let mut weight: i64 = (wsum_p / 2) as i64;
        let mut gw: u64 = self.base_w as u64;
        let mut gh: u64 = self.base_h as u64;
        let mut acc: i64 = 0;
        let mut i: u32 = 0;
        proof {
            lemma_pow2_pos(oct as nat);
            lemma_base_times_pow2_bounded(bw, 0, oct, self.width_spec());
            lemma_base_times_pow2_bounded(bh, 0, oct, self.height_spec());
            lemma2_to64();
            assert(bw * pow2(0nat) == bw && bh * pow2(0nat) == bh) by (nonlinear_arith)
                requires
                    pow2(0nat) == 1,
            ;
        }
        while i < self.octaves
            invariant
                self.wf(),
                lat == self.lattice_spec(),
                w == self.width_spec(),
                bw == self.base_w_spec(),
                bh == self.base_h_spec(),
                oct == self.octaves_spec(),
                i <= oct,
                wsum_p == pow2(oct as nat),
                weight as int == pow2((oct - i) as nat) as int / 2,
                gw == bw * pow2(i as nat),
                gh == bh * pow2(i as nat),
                1 <= gw <= self.width_spec(),
                1 <= gh <= self.height_spec(),
                acc == octave_acc(lat, w, x as int, y as int, bw, bh, oct, i as int),
                -500 * (pow2(oct as nat) - pow2((oct - i) as nat)) <= acc <= 1500 * (pow2(
                    oct as nat,
                ) - pow2((oct - i) as nat)),
            decreases oct - i,
        {
            proof {
                lemma_pow2_pos((oct - i) as nat);
                lemma_pow2_unfold((oct - i) as nat);
                lemma_div_multiples_vanish(pow2((oct - 1 - i) as nat) as int, 2);
                if i + 1 <= oct - 1 {
                    lemma_pow2_unfold((oct - i - 1) as nat);
                    lemma_div_multiples_vanish(pow2((oct - 2 - i) as nat) as int, 2);
                }
                vstd::arithmetic::power2::lemma_pow2_strictly_increases(
                    (oct - 1 - i) as nat,
                    31nat,
                );
                lemma2_to64();
            }
            let b: i64 = self.basic_noise(x, y, gw as u32, gh as u32);
            proof {
                lemma_octave_step_bounds(
                    acc as int,
                    weight as int,
                    b as int,
                    pow2(oct as nat) as int,
                    pow2((oct - i) as nat) as int,
                    pow2((oct - i - 1) as nat) as int,
                );
                lemma_pow2_unfold(((i + 1)) as nat);
                lemma_base_times_pow2_doubles(bw, i as int);
                lemma_base_times_pow2_doubles(bh, i as int);
                lemma_base_times_pow2_bounded(bw, i as int + 1, oct, self.width_spec());
                lemma_base_times_pow2_bounded(bh, i as int + 1, oct, self.height_spec());
            }
            acc = acc + weight * b;
            weight = weight / 2;
            gw = gw * 2;
            gh = gh * 2;
            i = i + 1;
        }
        proof {
            assert(pow2(0nat) == 1) by {
                lemma2_to64();
            }
            lemma_tdiv_lower(acc as int, wsum_p as int - 1, 500);
            lemma_tdiv_upper(acc as int, wsum_p as int - 1, 1500);
        }
        acc / ((wsum_p - 1) as i64)
    }

    /// The fractal sample clamped into the documented `[0, SCALE]` range:
    /// the value quantization consumes.
    pub fn noise01(&self, x: u64, y: u64) -> (r: i64)
        requires
            self.wf(),
        ensures
            r == clamp01_spec(self.noise_spec(x as int, y as int)),
            0 <= r <= SCALE,
    {
        let v: i64 = self.noise(x, y);
        if v < 0 {
            0
        } else if v > SCALE {
            SCALE
        } else {
            v
        }
    }
}

/// One octave step keeps the accumulator inside its window: with the octave
/// sample `b` in `[-500, 1500]` and the current weight `half` (half of
/// `cur`, the remaining weight window), the new accumulator stays within
/// `[-500, 1500]` times the widened weight span.
proof fn lemma_octave_step_bounds(acc: int, half: int, b: int, total: int, cur: int, next: int)
    requires
        -500 <= b <= 1500,
        cur == 2 * next,
        half == next,
        next >= 1,
        total >= cur,
        -500 * (total - cur) <= acc <= 1500 * (total - cur),
    ensures
        -500 * (total - next) <= acc + half * b <= 1500 * (total - next),
{
    assert(-500 * next <= half * b <= 1500 * next) by (nonlinear_arith)
        requires
            half == next,
            next >= 1,
            -500 <= b <= 1500,
    ;
}

/// Doubling a lattice resolution advances its octave index:
/// `(base * 2^i) * 2 == base * 2^(i+1)`.
proof fn lemma_base_times_pow2_doubles(base: int, i: int)
    requires
        i >= 0,
    ensures
        (base * pow2(i as nat)) * 2 == base * pow2((i + 1) as nat),
{
    lemma_pow2_unfold((i + 1) as nat);
    assert((base * pow2(i as nat)) * 2 == base * (2 * pow2(i as nat))) by (nonlinear_arith);
}

/// Every octave's lattice resolution stays within the lattice dimensions:
/// `base * 2^i <= dim` whenever `i <= octaves` and `base == dim / 2^octaves`.
proof fn lemma_base_times_pow2_bounded(base: int, i: int, octaves: int, dim: int)
    requires
        0 <= i <= octaves,
        base == dim / pow2(octaves as nat) as int,
        dim >= 0,
        base >= 1,
    ensures
        1 <= base * pow2(i as nat) <= dim,
{
    lemma_pow2_pos(i as nat);
    lemma_pow2_pos(octaves as nat);
    assert(base * pow2(i as nat) >= 1) by (nonlinear_arith)
        requires
            base >= 1,
            pow2(i as nat) >= 1,
    ;
    if i < octaves {
        vstd::arithmetic::power2::lemma_pow2_strictly_increases(i as nat, octaves as nat);
    }
    lemma_fundamental_div_mod(dim, pow2(octaves as nat) as int);
    assert(base * pow2(i as nat) <= base * pow2(octaves as nat)) by (nonlinear_arith)
        requires
            base >= 1,
            1 <= pow2(i as nat) <= pow2(octaves as nat),
    ;
    assert(base * pow2(octaves as nat) <= dim) by (nonlinear_arith)
        requires
            dim == pow2(octaves as nat) as int * base + dim % (pow2(octaves as nat) as int),
            dim % (pow2(octaves as nat) as int) >= 0,
    ;
}

/// A flat row-major index `col + row * width` with `col < width` and
/// `row < height` stays below `width * height`.
proof fn lemma_flat_index_in_range(col: int, row: int, width: int, height: int)
    requires
        0 <= col < width,
        0 <= row < height,
    ensures
        0 <= col + row * width < width * height,
{
    assert(col + row * width < width * height) by (nonlinear_arith)
        requires
            0 <= col < width,
            0 <= row < height,
    ;
}

/// Scaling a wrapped fixed-point coordinate (below `SCALE`) by a lattice
/// resolution `g` keeps the cell index `(xw * g) / SCALE` below `g`.
proof fn lemma_scaled_cell_in_range(xw: int, g: int)
    requires
        0 <= xw < SCALE,
        1 <= g,
    ensures
        0 <= xw * g <= (SCALE as int) * g - 1,
        0 <= (xw * g) / (SCALE as int) < g,
{
    let s: int = SCALE as int;
    assert(0 <= xw * g <= s * g - g) by (nonlinear_arith)
        requires
            0 <= xw <= s - 1,
            1 <= g,
    ;
    lemma_div_pos_is_pos(xw * g, s);
    lemma_div_is_ordered(xw * g, s * (g - 1) + (s - 1), s);
    lemma_div_multiples_vanish_fancy(g - 1, s - 1, s);
    assert(s * g - g <= s * (g - 1) + (s - 1)) by (nonlinear_arith)
        requires
            1 <= g,
            s == SCALE as int,
    ;
}

/// `2^e` for exponents up to 30, as an executable value.
fn pow2_u64(e: u32) -> (r: u64)
    requires
        e <= 30,
    ensures
        r == pow2(e as nat),
        1 <= r <= 0x4000_0000,
{
    proof {
        lemma2_to64();
    }
    let mut p: u64 = 1;
    let mut i: u32 = 0;
    while i < e
        invariant
            i <= e <= 30,
            p == pow2(i as nat),
            p <= 0x4000_0000,
        decreases e - i,
    {
        proof {
            lemma_pow2_unfold((i + 1) as nat);
            if i + 1 < 30 {
                vstd::arithmetic::power2::lemma_pow2_strictly_increases((i + 1) as nat, 30nat);
            }
            lemma2_to64();
        }
        p = p * 2;
        i = i + 1;
    }
    proof {
        lemma_pow2_pos(e as nat);
    }
    p
}

/// When unsigned division by a positive `p` yields zero, the dividend was
/// below `p`.
proof fn lemma_div_below_one(w: int, p: int)
    requires
        p >= 1,
        w >= 0,
        w / p == 0,
    ensures
        w < p,
{
    lemma_fundamental_div_mod(w, p);
}

/// When unsigned division by a positive `p` is nonzero, the dividend was at
/// least `p`.
proof fn lemma_div_at_least_one(w: int, p: int)
    requires
        p >= 1,
        w >= 0,
        w / p >= 1,
    ensures
        w >= p,
{
    lemma_fundamental_div_mod(w, p);
    assert((w / p) * p >= p) by (nonlinear_arith)
        requires
            w / p >= 1,
            p >= 1,
    ;
}

} // verus!
