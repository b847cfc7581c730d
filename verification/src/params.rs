//! Validated animation configuration and per-frame rank grids.
//!
//! `Params` derives the image side length and pixel count from the curve
//! order once, so they can never disagree. A frame is described by a grid of
//! rotated curve ranks: pixel `(x, y)` of frame `i` shows the color of rank
//! `(hilbert_rank(x, y) + offset(i)) % num_pixels`.

use vstd::prelude::*;

verus! {

use crate::color::ColorFunction;
use crate::hilbert::grid_side;
use crate::hilbert::grid_cells;
use crate::hilbert::hilbert_rank;
use crate::hilbert::side_length;
use crate::hilbert::coords_to_rank;
use vstd::arithmetic::power2::lemma_pow2_strictly_increases;
use vstd::arithmetic::power2::lemma2_to64;

/// The raw options an animation run is asked for.
#[derive(Debug, Clone)]
pub struct Options {
    /// Hilbert curve order; the image side is `2^order`.
    pub order: u8,
    /// Name of the colorizing function.
    pub function: String,
    /// Number of animation frames.
    pub frames: usize,
    /// Frames per second.
    pub framerate: u32,
    /// How many times a muxed video repeats the frame sequence; at least one.
    pub loops: u32,
    /// Optional bitrate argument for the external muxer.
    pub bitrate: Option<String>,
    /// Destination path.
    pub filename: String,
}

/// Why a configuration is refused.
#[derive(Clone, Copy, Debug, PartialEq, Eq, Structural)]
pub enum ConfigError {
    /// The colorizing function name is not one of the known four.
    UnknownFunction,
}

/// The validated configuration: options plus the derived image geometry.
#[derive(Debug, Clone)]
pub struct Params {
    /// Hilbert curve order.
    pub order: u8,
    /// Image side length, always `2^order`.
    pub image_size: u32,
    /// Pixel count, always `image_size * image_size`.
    pub num_pixels: u64,
    /// Number of animation frames.
    pub frames: usize,
    /// Frames per second.
    pub framerate: u32,
    /// Repeat count for the muxed video; at least one.
    pub loops: u32,
    /// Optional bitrate argument for the external muxer.
    pub bitrate: Option<String>,
    /// Destination path.
    pub filename: String,
}

impl Params {
    /// The geometry fields agree with the curve order and the loop count is
    /// positive.
    pub open spec fn wf(&self) -> bool {
        &&& self.order <= 31
        &&& self.image_size == grid_side(self.order as nat)
        &&& self.num_pixels == grid_cells(self.order as nat)
        &&& self.loops >= 1
    }

    /// Builds the validated configuration, deriving side length `2^order`
    /// and pixel count `4^order` from the curve order. An unknown
    /// color-function name is a fatal configuration error: the configuration
    /// is refused at startup, before any frame is generated and before any
    /// file or directory is touched.
    pub fn new(options: Options) -> (r: Result<Params, ConfigError>)
        requires
            options.order <= 31,
            options.loops >= 1,
        ensures
            r is Err <==> (options.function@ != "oklab_hue"@ && options.function@
                != "oklab_hue_sine_value"@ && options.function@ != "square_value"@
                && options.function@ != "square_linsrgb_channels"@),
            r is Err ==> r == Err::<Params, ConfigError>(ConfigError::UnknownFunction),
            r matches Ok(p) ==> p.wf() && p.order == options.order && p.frames == options.frames
                && p.framerate == options.framerate && p.loops == options.loops && p.bitrate
                == options.bitrate && p.filename == options.filename,
    {
        if ColorFunction::from_name(options.function.as_str()).is_none() {
            return Err(ConfigError::UnknownFunction);
        }
        let order = options.order;
        let image_size: u32 = side_length(order);
        proof {
            lemma2_to64();
            if (order as nat) < 31 {
                lemma_pow2_strictly_increases(order as nat, 31);
            }
            assert((image_size as int) * (image_size as int) <= 0x4000000000000000)
                by (nonlinear_arith)
                requires
                    0 <= (image_size as int) <= 0x80000000,
            ;
        }
        let num_pixels: u64 = (image_size as u64) * (image_size as u64);
        Ok(
            Params {
                order,
                image_size,
                num_pixels,
                frames: options.frames,
                framerate: options.framerate,
                loops: options.loops,
                bitrate: options.bitrate,
                filename: options.filename,
            },
        )
    }

    /// Builds the validated configuration and resolves the colorizing
    /// function in one step. An unknown function name is a fatal
    /// configuration error, raised before any frame is generated and before
    /// any file or directory is touched.
    pub fn validated(options: Options) -> (r: Result<(Params, ColorFunction), ConfigError>)
        requires
            options.order <= 31,
            options.loops >= 1,
        ensures
            r is Err <==> (options.function@ != "oklab_hue"@ && options.function@
                != "oklab_hue_sine_value"@ && options.function@ != "square_value"@
                && options.function@ != "square_linsrgb_channels"@),
            r is Err ==> r == Err::<(Params, ColorFunction), ConfigError>(
                ConfigError::UnknownFunction,
            ),
            r matches Ok(p) ==> p.0.wf() && p.0.order == options.order && p.0.frames
                == options.frames && p.0.framerate == options.framerate && p.0.loops
                == options.loops && p.0.bitrate == options.bitrate && p.0.filename
                == options.filename,
            r matches Ok(p) ==> (p.1 == ColorFunction::OklabHue <==> options.function@
                == "oklab_hue"@) && (p.1 == ColorFunction::OklabHueSineValue <==> options.function@
                == "oklab_hue_sine_value"@) && (p.1 == ColorFunction::SquareValue
                <==> options.function@ == "square_value"@) && (p.1
                == ColorFunction::SquareLinsrgbChannels <==> options.function@
                == "square_linsrgb_channels"@),
    {
        let function = match ColorFunction::from_name(options.function.as_str()) {
            Some(f) => f,
            None => {
                return Err(ConfigError::UnknownFunction);
            },
        };
        match Params::new(options) {
            Ok(params) => Ok((params, function)),
            Err(err) => Err(err),
        }
    }

    /// Rank rotation of a frame: frame `i` starts `i * num_pixels / frames`
    /// steps along the curve (integer division, truncating).
    pub fn frame_offset(&self, i: usize) -> (offset: u64)
        requires
            self.wf(),
            self.frames >= 1,
            i < self.frames,
            (i as int) * (self.num_pixels as int) <= u64::MAX as int,
        ensures
            offset == (i as int) * (self.num_pixels as int) / (self.frames as int),
            offset < self.num_pixels,
    {
        proof {
            vstd::arithmetic::power2::lemma_pow2_pos(self.order as nat);
            vstd::arithmetic::mul::lemma_mul_strictly_positive(
                grid_side(self.order as nat) as int,
                grid_side(self.order as nat) as int,
            );
            assert((i as int) * (self.num_pixels as int) < (self.frames as int) * (
            self.num_pixels as int)) by (nonlinear_arith)
                requires
                    0 <= (i as int) < (self.frames as int),
                    0 < (self.num_pixels as int),
            ;
            vstd::arithmetic::div_mod::lemma_multiply_divide_lt(
                (i as int) * (self.num_pixels as int),
                self.frames as int,
                self.num_pixels as int,
            );
        }
        (i as u64) * self.num_pixels / (self.frames as u64)
    }

    /// The grid of rotated ranks of one frame, in row-major order: entry
    /// `y * image_size + x` belongs to pixel `(x, y)`.
    pub fn gen_frame_ranks(&self, offset: u64) -> (v: Vec<u64>)
        requires
            self.wf(),
            offset < self.num_pixels,
            self.num_pixels <= usize::MAX as u64,
        ensures
            v@.len() == self.num_pixels,
            forall|x: int, y: int|
                0 <= x < self.image_size && 0 <= y < self.image_size ==> v@[y * (
                self.image_size as int) + x] == (#[trigger] hilbert_rank(x, y, self.order as nat)
                    + offset) % (self.num_pixels as int),
            forall|p: int| 0 <= p < v@.len() ==> #[trigger] v@[p] < self.num_pixels,
    {
        let size: u32 = self.image_size;
        let ghost sz = size as int;
        proof {
            assert(grid_cells(self.order as nat) == (size as int) * (size as int));
            lemma2_to64();
            if (self.order as nat) < 31 {
                lemma_pow2_strictly_increases(self.order as nat, 31);
            }
            assert((size as int) * (size as int) <= 0x4000000000000000) by (nonlinear_arith)
                requires
                    0 <= (size as int) <= 0x80000000,
            ;
        }
        let mut v: Vec<u64> = Vec::new();
        let mut y: u32 = 0;
        while y < size
            invariant
                self.wf(),
                offset < self.num_pixels,
                self.num_pixels <= usize::MAX as u64,
                self.num_pixels <= 0x4000000000000000,
                size == self.image_size,
                self.num_pixels == sz * sz,
                sz == size as int,
                y <= size,
                v@.len() == y * sz,
                forall|xx: int, yy: int|
                    0 <= xx < sz && 0 <= yy < y ==> v@[yy * sz + xx] == (#[trigger] hilbert_rank(
                        xx,
                        yy,
                        self.order as nat,
                    ) + offset) % (self.num_pixels as int),
                forall|p: int| 0 <= p < v@.len() ==> #[trigger] v@[p] < self.num_pixels,
            decreases size - y,
        {
            proof {
                assert((y as int) * sz + sz <= sz * sz) by (nonlinear_arith)
                    requires
                        0 <= (y as int) < sz,
                ;
            }
            let mut x: u32 = 0;
            while x < size
                invariant
                    self.wf(),
                    offset < self.num_pixels,
                    self.num_pixels <= usize::MAX as u64,
                    self.num_pixels <= 0x4000000000000000,
                    size == self.image_size,
                    self.num_pixels == sz * sz,
                    sz == size as int,
                    y < size,
                    x <= size,
                    (y as int) * sz + sz <= sz * sz,
                    v@.len() == y * sz + x,
                    forall|xx: int, yy: int|
                        0 <= xx < sz && 0 <= yy < y ==> v@[yy * sz + xx] == (
                        #[trigger] hilbert_rank(xx, yy, self.order as nat) + offset) % (
                        self.num_pixels as int),
                    forall|xx: int|
                        0 <= xx < x ==> v@[(y as int) * sz + xx] == (#[trigger] hilbert_rank(
                            xx,
                            y as int,
                            self.order as nat,
                        ) + offset) % (self.num_pixels as int),
                    forall|p: int| 0 <= p < v@.len() ==> #[trigger] v@[p] < self.num_pixels,
                decreases size - x,
            {
                let h: u64 = coords_to_rank(x, y, self.order);
                let rank: u64 = (h + offset) % self.num_pixels;
                v.push(rank);
                proof {
                    assert forall|xx: int, yy: int| 0 <= xx < sz && 0 <= yy < y implies v@[yy * sz
                        + xx] == (#[trigger] hilbert_rank(xx, yy, self.order as nat) + offset) % (
                    self.num_pixels as int) by {
                        assert(yy * sz + xx < (y as int) * sz) by (nonlinear_arith)
                            requires
                                0 <= yy < (y as int),
                                0 <= xx < sz,
                        ;
                    }
                }
                x += 1;
            }
            proof {
                assert((y as int) * sz + sz == ((y as int) + 1) * sz) by (nonlinear_arith);
            }
            y += 1;
        }
        v
    }
}

/// Assembles the RGBA bytes of one frame: pixel `p` of the frame shows the
/// four color channels stored for its rank, `colors[4 * ranks[p] ..]`.
pub fn render_frame_bytes(ranks: &Vec<u64>, colors: &Vec<u8>) -> (bytes: Vec<u8>)
    requires
        forall|p: int|
            0 <= p < ranks@.len() ==> 4 * (#[trigger] ranks@[p] as int) + 4 <= colors@.len(),
        4 * ranks@.len() <= usize::MAX,
    ensures
        bytes@.len() == 4 * ranks@.len(),
        forall|j: int|
            0 <= j < bytes@.len() ==> #[trigger] bytes@[j] == colors@[4 * (ranks@[j / 4] as int) + j
                % 4],
{
    let mut bytes: Vec<u8> = Vec::new();
    let mut p: usize = 0;
    while p < ranks.len()
        invariant
            forall|q: int|
                0 <= q < ranks@.len() ==> 4 * (#[trigger] ranks@[q] as int) + 4 <= colors@.len(),
            4 * ranks@.len() <= usize::MAX,
            p <= ranks@.len(),
            bytes@.len() == 4 * p,
            forall|j: int|
                0 <= j < bytes@.len() ==> #[trigger] bytes@[j] == colors@[4 * (ranks@[j / 4] as int)
                    + j % 4],
        decreases ranks@.len() - p,
    {
        let cap: usize = colors.len();
        proof {
            assert(4 * (ranks@[p as int] as int) + 4 <= cap as int);
        }
        let ghost pre = bytes@;
        let base: usize = 4 * (ranks[p] as usize);
        bytes.push(colors[base]);
        bytes.push(colors[base + 1]);
        bytes.push(colors[base + 2]);
        bytes.push(colors[base + 3]);
        proof {
            assert forall|j: int| 0 <= j < bytes@.len() implies #[trigger] bytes@[j] == colors@[4
                * (ranks@[j / 4] as int) + j % 4] by {
                if j < 4 * (p as int) {
                    assert(bytes@[j] == pre[j]);
                } else {
                    assert(j / 4 == p as int) by (nonlinear_arith)
                        requires
                            4 * (p as int) <= j < 4 * (p as int) + 4,
                    ;
                    assert(j % 4 == j - 4 * (p as int)) by (nonlinear_arith)
                        requires
                            4 * (p as int) <= j < 4 * (p as int) + 4,
                    ;
                }
            }
        }
        p += 1;
    }
    bytes
}

/// The frame generator is deterministic: two rank grids of the same
/// configuration and the same rotation are equal element for element.
pub proof fn lemma_frame_ranks_deterministic(p: Params, offset: int, a: Seq<u64>, b: Seq<u64>)
    requires
        p.wf(),
        a.len() == p.num_pixels,
        b.len() == p.num_pixels,
        forall|x: int, y: int|
            0 <= x < p.image_size && 0 <= y < p.image_size ==> a[y * (p.image_size as int) + x] == (
            #[trigger] hilbert_rank(x, y, p.order as nat) + offset) % (p.num_pixels as int),
        forall|x: int, y: int|
            0 <= x < p.image_size && 0 <= y < p.image_size ==> b[y * (p.image_size as int) + x] == (
            #[trigger] hilbert_rank(x, y, p.order as nat) + offset) % (p.num_pixels as int),
    ensures
        a =~= b,
{
    let sz = p.image_size as int;
    assert(grid_cells(p.order as nat) == sz * sz);
    assert forall|q: int| 0 <= q < a.len() implies a[q] == b[q] by {
        let xx = q % sz;
        let yy = q / sz;
        vstd::arithmetic::power2::lemma_pow2_pos(p.order as nat);
        vstd::arithmetic::div_mod::lemma_mod_bound(q, sz);
        vstd::arithmetic::div_mod::lemma_div_pos_is_pos(q, sz);
        vstd::arithmetic::div_mod::lemma_fundamental_div_mod(q, sz);
        vstd::arithmetic::div_mod::lemma_multiply_divide_lt(q, sz, sz);
        assert(a[yy * sz + xx] == (hilbert_rank(xx, yy, p.order as nat) + offset) % (
        p.num_pixels as int));
        assert(b[yy * sz + xx] == (hilbert_rank(xx, yy, p.order as nat) + offset) % (
        p.num_pixels as int));
    }
}

} // verus!
