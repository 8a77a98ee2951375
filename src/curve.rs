//! Hilbert curves over 2D and 3D integer lattices, and the walk that maps
//! each pixel of a square image, by its place on the 2D curve, to a pair of
//! neighbouring points on a 3D curve.
use vstd::arithmetic::power2::{lemma2_to64, lemma2_to64_rest, lemma_pow2_strictly_increases, lemma_pow2_unfold, pow2};
use vstd::prelude::*;

verus! {

/// Position along the Hilbert curve of depth `bits` of the lattice point `coords`.
pub uninterp spec fn hilbert_index_of(coords: Seq<u32>, bits: nat) -> nat;

/// Lattice point of `dims` coordinates at position `index` along the Hilbert
/// curve of depth `bits`.
pub uninterp spec fn hilbert_point_of(index: nat, bits: nat, dims: nat) -> Seq<u32>;

/// Every coordinate of `coords` fits in `bits` bits.
pub open spec fn fits_in_bits(coords: Seq<u32>, bits: nat) -> bool {
    forall|i: int| 0 <= i < coords.len() ==> (#[trigger] coords[i] as nat) < pow2(bits)
}

/// Depths and dimension counts the curve mapper accepts. An index takes
/// `bits * dims` bits and must fit in a `u64`; a coordinate takes at most 31
/// bits, so that the sum of squared coordinates the curve crate keeps for
/// each point fits in its `u64`.
pub open spec fn supported_curve(bits: nat, dims: nat) -> bool {
    &&& 1 <= bits <= 31
    &&& 2 <= dims
    &&& bits * dims <= 64
}

/// Relies on hilbert::Point::new and Point::hilbert_transform: the index is
/// built from `bits * dims` interleaved bits, so it is below 2^(bits * dims),
/// and it depends on the coordinates and the depth alone.
#[verifier::external_body]
fn index_of_point(coords: &Vec<u32>, bits: u32) -> (r: u64)
    requires
        supported_curve(bits as nat, coords@.len()),
        fits_in_bits(coords@, bits as nat),
    ensures
        r as nat == hilbert_index_of(coords@, bits as nat),
        (r as nat) < pow2((bits * coords@.len()) as nat),
{
    let index = hilbert::Point::new(0, coords).hilbert_transform(bits as usize);
    u64::try_from(index).unwrap()
}

/// Relies on hilbert::Point::new_from_hilbert_index and Point::get_coordinates:
/// the point has `dims` coordinates, each made of `bits` bits of the index,
/// and depends on the index, the depth and the dimension count alone.
#[verifier::external_body]
fn point_of_index(index: u64, bits: u32, dims: u32) -> (r: Vec<u32>)
    requires
        supported_curve(bits as nat, dims as nat),
        (index as nat) < pow2((bits * dims) as nat),
    ensures
        r@ == hilbert_point_of(index as nat, bits as nat, dims as nat),
        r@.len() == dims,
        fits_in_bits(r@, bits as nat),
{
    let index = num_bigint::BigUint::from(index);
    hilbert::Point::new_from_hilbert_index(0, &index, bits as usize, dims as usize)
        .get_coordinates()
        .clone()
}

/// Position of the lattice point `coords` along the Hilbert curve of depth `bits`.
pub fn hilbert_forward(coords: &Vec<u32>, bits: u32) -> (r: u64)
    requires
        supported_curve(bits as nat, coords@.len()),
        fits_in_bits(coords@, bits as nat),
    ensures
        r as nat == hilbert_index_of(coords@, bits as nat),
        (r as nat) < pow2((bits * coords@.len()) as nat),
{
    index_of_point(coords, bits)
}

/// Lattice point of `dims` coordinates at position `index` along the Hilbert
/// curve of depth `bits`.
pub fn hilbert_inverse(index: u64, bits: u32, dims: u32) -> (r: Vec<u32>)
    requires
        supported_curve(bits as nat, dims as nat),
        (index as nat) < pow2((bits * dims) as nat),
    ensures
        r@ == hilbert_point_of(index as nat, bits as nat, dims as nat),
        r@.len() == dims,
        fits_in_bits(r@, bits as nat),
{
    point_of_index(index, bits, dims)
}

/// 2 to the power `e`.
pub fn pow2_u64(e: u32) -> (r: u64)
    requires
        e <= 63,
    ensures
        r == pow2(e as nat),
{
    proof {
        lemma2_to64();
        lemma2_to64_rest();
    }
    let mut r: u64 = 1;
    let mut i: u32 = 0;
    while i < e
        invariant
            i <= e <= 63,
            r == pow2(i as nat),
            pow2(63) == 0x8000000000000000u64,
        decreases e - i,
    {
        proof {
            lemma_pow2_unfold((i + 1) as nat);
            if i + 1 < 63 {
                lemma_pow2_strictly_increases((i + 1) as nat, 63);
            }
        }
        r = r * 2;
        i = i + 1;
    }
    r
}

/// Rescales the fraction `num / den` of a range onto `[0, to_max]`: the whole
/// part of `num * to_max / den`, and the remainder, over `den`, that is left.
pub fn rescale(num: u64, den: u64, to_max: u64) -> (r: (u64, u64))
    requires
        0 < den,
        num <= den,
    ensures
        r.0 == (num * to_max) / den as int,
        r.1 == (num * to_max) % den as int,
        r.0 <= to_max,
        r.1 < den,
{
    proof {
        assert(num * to_max <= u64::MAX * u64::MAX) by (nonlinear_arith)
            requires
                num <= u64::MAX,
                to_max <= u64::MAX,
        ;
        assert(num * to_max <= den * to_max) by (nonlinear_arith)
            requires
                num <= den,
                to_max >= 0,
        ;
        vstd::arithmetic::div_mod::lemma_div_is_ordered(num * to_max, den * to_max, den as int);
        vstd::arithmetic::div_mod::lemma_div_multiples_vanish(to_max as int, den as int);
        vstd::arithmetic::div_mod::lemma_mod_pos_bound(num * to_max, den as int);
    }
    let p: u128 = (num as u128) * (to_max as u128);
    let q: u128 = p / (den as u128);
    let m: u128 = p % (den as u128);
    (q as u64, m as u64)
}

/// Base-2 logarithm of a power of two.
pub fn log2_exact(n: usize) -> (r: u32)
    requires
        exists|e: nat| e <= 63 && pow2(e) == n,
    ensures
        pow2(r as nat) == n,
        r <= 63,
{
    let ghost e = choose|e: nat| e <= 63 && pow2(e) == n;
    let mut p: usize = 1;
    let mut b: u32 = 0;
    proof {
        lemma2_to64();
    }
    while p < n
        invariant
            pow2(e) == n,
            e <= 63,
            p == pow2(b as nat),
            b <= e,
        decreases e - b,
    {
        proof {
            if b == e {
                assert(false);
            }
            lemma_pow2_unfold((b + 1) as nat);
            if b + 1 < e {
                lemma_pow2_strictly_increases((b + 1) as nat, e);
            }
        }
        p = p * 2;
        b = b + 1;
    }
    proof {
        if b < e {
            lemma_pow2_strictly_increases(b as nat, e);
        }
    }
    b
}

/// Walks a square image of side `2^bits_2d` along its 2D Hilbert curve and
/// maps each pixel's share of that curve onto the 3D Hilbert curve of depth
/// `bits_3d`.
pub struct CurveWalk {
    pub bits_2d: u32,
    pub span_2d: u64,
    pub bits_3d: u32,
    pub max_3d: u64,
}

/// The two neighbouring lattice points of the 3D curve that bracket a pixel's
/// position, and how far along from `lower` to `upper` it lies: `offset / span`.
pub struct CurveSample {
    pub lower: Vec<u32>,
    pub upper: Vec<u32>,
    pub offset: u64,
    pub span: u64,
}

impl CurveWalk {
    pub open spec fn wf(&self) -> bool {
        &&& supported_curve(self.bits_2d as nat, 2)
        &&& supported_curve(self.bits_3d as nat, 3)
        &&& self.span_2d == pow2(2 * self.bits_2d as nat) - 1
        &&& self.max_3d == pow2(3 * self.bits_3d as nat) - 1
    }

    /// Side of the image, in pixels.
    pub open spec fn side(&self) -> nat {
        pow2(self.bits_2d as nat)
    }

    /// Position of pixel `(x, y)` along the 2D curve.
    pub open spec fn pixel_index(&self, x: nat, y: nat) -> nat {
        hilbert_index_of(seq![x as u32, y as u32], self.bits_2d as nat)
    }

    /// Index of the 3D lattice point at or just before the pixel's position.
    pub open spec fn lower_index(&self, x: nat, y: nat) -> nat {
        ((self.pixel_index(x, y) * self.max_3d) / (self.span_2d as int)) as nat
    }

    /// Index of the 3D lattice point just after the pixel's position, kept
    /// on the curve at its far end.
    pub open spec fn upper_index(&self, x: nat, y: nat) -> nat {
        let lo = self.lower_index(x, y);
        if lo < self.max_3d {
            lo + 1
        } else {
            lo
        }
    }

    /// The walk over an image of side `size` (a power of two from 2 to 2^31)
    /// through a 3D curve of depth `levels + 1`. The 3D index takes
    /// `3 * (levels + 1)` bits, so `levels` stops at 20 to stay within a `u64`.
    pub fn new(size: usize, levels: u32) -> (r: Self)
        requires
            exists|e: nat| 1 <= e <= 31 && pow2(e) == size,
            levels <= 20,
        ensures
            r.wf(),
            r.side() == size,
            r.bits_3d == levels + 1,
    {
        let bits_2d = log2_exact(size);
        proof {
            let e = choose|e: nat| 1 <= e <= 31 && pow2(e) == size;
            lemma2_to64();
            if bits_2d as nat != e {
                if (bits_2d as nat) < e {
                    lemma_pow2_strictly_increases(bits_2d as nat, e);
                } else {
                    lemma_pow2_strictly_increases(e, bits_2d as nat);
                }
            }
            vstd::arithmetic::power2::lemma_pow2_pos(2 * bits_2d as nat);
            vstd::arithmetic::power2::lemma_pow2_pos(3 * (levels + 1) as nat);
        }
        let bits_3d = levels + 1;
        let span_2d = pow2_u64(2 * bits_2d) - 1;
        let max_3d = pow2_u64(3 * bits_3d) - 1;
        CurveWalk { bits_2d, span_2d, bits_3d, max_3d }
    }

    /// Side of the 3D lattice, `2^bits_3d`.
    pub fn lattice_side(&self) -> (r: u64)
        requires
            self.wf(),
        ensures
            r == pow2(self.bits_3d as nat),
    {
        pow2_u64(self.bits_3d)
    }

    /// The lattice points that bracket pixel `(x, y)` on the 3D curve.
    pub fn sample(&self, x: usize, y: usize) -> (r: CurveSample)
        requires
            self.wf(),
            x < self.side(),
            y < self.side(),
        ensures
            r.span == self.span_2d,
            r.offset < r.span,
            self.lower_index(x as nat, y as nat) <= self.max_3d,
            r.offset == (self.pixel_index(x as nat, y as nat) * self.max_3d) % (self.span_2d as int),
            r.lower@ == hilbert_point_of(self.lower_index(x as nat, y as nat), self.bits_3d as nat, 3),
            r.upper@ == hilbert_point_of(self.upper_index(x as nat, y as nat), self.bits_3d as nat, 3),
            r.lower@.len() == 3,
            r.upper@.len() == 3,
            fits_in_bits(r.lower@, self.bits_3d as nat),
            fits_in_bits(r.upper@, self.bits_3d as nat),
    {
        proof {
            lemma2_to64();
            if self.bits_2d < 31 {
                lemma_pow2_strictly_increases(self.bits_2d as nat, 31);
            }
        }
        let mut coords: Vec<u32> = Vec::new();
        coords.push(x as u32);
        coords.push(y as u32);
        assert(coords@ =~= seq![x as u32, y as u32]);
        let h = index_of_point(&coords, self.bits_2d);
        proof {
            lemma_pow2_strictly_increases(0, 2 * self.bits_2d as nat);
        }
        let (lo, offset) = rescale(h, self.span_2d, self.max_3d);
        let up = if lo < self.max_3d {
            lo + 1
        } else {
            lo
        };
        let lower = point_of_index(lo, self.bits_3d, 3);
        let upper = point_of_index(up, self.bits_3d, 3);
        CurveSample { lower, upper, offset, span: self.span_2d }
    }
}

} // verus!
