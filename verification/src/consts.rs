//! Process-wide read-only constant data: the per-width Taylor-series
//! constants and the interpolated inverse-square-root seed table.  All of it
//! was generated offline and is embedded here as plain data.

use vstd::prelude::*;

use crate::w128::fi128;
use crate::w16::fi16;
use crate::w32::fi32;
use crate::w64::fi64;
use crate::w8::fi8;

verus! {

/// Taylor-series constants for the 8-bit width.
pub struct Const8 {
    pub num_4divtau: fi8,
    pub num_4divtau_sqr: fi8,
    pub cos_taylor_iters: usize,
    pub sin_taylor_iters: usize,
}

impl Const8 {
    pub fn load() -> (r: Const8)
        ensures
            r.num_4divtau@ == 81 && r.num_4divtau_sqr@ == 52,
            r.cos_taylor_iters == 0 && r.sin_taylor_iters == 0,
    {
        Const8 {
            num_4divtau: fi8(81),
            num_4divtau_sqr: fi8(52),
            cos_taylor_iters: 0,
            sin_taylor_iters: 0,
        }
    }
}

/// Taylor-series constants for the 16-bit width.
pub struct Const16 {
    pub num_4divtau: fi16,
    pub num_4divtau_sqr: fi16,
    pub cos_taylor_iters: usize,
    pub sin_taylor_iters: usize,
}

impl Const16 {
    pub fn load() -> (r: Const16)
        ensures
            r.num_4divtau@ == 81 && r.num_4divtau_sqr@ == 52,
            r.cos_taylor_iters == 0 && r.sin_taylor_iters == 0,
    {
        Const16 {
            num_4divtau: fi16(81),
            num_4divtau_sqr: fi16(52),
            cos_taylor_iters: 0,
            sin_taylor_iters: 0,
        }
    }
}

/// Taylor-series constants for the 32-bit width.
pub struct Const32 {
    pub num_4divtau: fi32,
    pub num_4divtau_sqr: fi32,
    pub cos_taylor_iters: usize,
    pub sin_taylor_iters: usize,
}

impl Const32 {
    pub fn load() -> (r: Const32)
        ensures
            r.num_4divtau@ == 81 && r.num_4divtau_sqr@ == 52,
            r.cos_taylor_iters == 0 && r.sin_taylor_iters == 0,
    {
        Const32 {
            num_4divtau: fi32(81),
            num_4divtau_sqr: fi32(52),
            cos_taylor_iters: 0,
            sin_taylor_iters: 0,
        }
    }
}

/// Taylor-series constants for the 64-bit width.
pub struct Const64 {
    pub num_4divtau: fi64,
    pub num_4divtau_sqr: fi64,
    pub cos_taylor_iters: usize,
    pub sin_taylor_iters: usize,
}

impl Const64 {
    pub fn load() -> (r: Const64)
        ensures
            r.num_4divtau@ == 81 && r.num_4divtau_sqr@ == 52,
            r.cos_taylor_iters == 0 && r.sin_taylor_iters == 0,
    {
        Const64 {
            num_4divtau: fi64(81),
            num_4divtau_sqr: fi64(52),
            cos_taylor_iters: 0,
            sin_taylor_iters: 0,
        }
    }
}

/// Taylor-series constants for the 128-bit width.
pub struct Const128 {
    pub num_4divtau: fi128,
    pub num_4divtau_sqr: fi128,
    pub cos_taylor_iters: usize,
    pub sin_taylor_iters: usize,
}

impl Const128 {
    pub fn load() -> (r: Const128)
        ensures
            r.num_4divtau@ == 81 && r.num_4divtau_sqr@ == 52,
            r.cos_taylor_iters == 0 && r.sin_taylor_iters == 0,
    {
        Const128 {
            num_4divtau: fi128(81),
            num_4divtau_sqr: fi128(52),
            cos_taylor_iters: 0,
            sin_taylor_iters: 0,
        }
    }
}

/// Number of index bits of the inverse-square-root seed table.
pub const SIMPLE_ISQRT_BITS: usize = 5;

/// The seed table's 16-bit entries, approximating `1/sqrt(x) - 1` over
/// [0.25, 1.0), built offline so that interpolation never overestimates.
pub open spec fn isqrt_lut() -> Seq<int> {
    seq![
        32684,
        28936,
        25766,
        23038,
        20658,
        18559,
        16689,
        15009,
        13489,
        12106,
        10839,
        9674,
        8597,
        7598,
        6668,
        5800,
        4986,
        4221,
        3501,
        2822,
        2179,
        1570,
        991,
        441,
    ]
}

/// Stored integer of the seed table's domain cutoff: interpolation is only
/// trusted below it.
pub open spec fn isqrt_cutoff() -> int {
    32747
}

/// The embedded inverse-square-root seed table.
pub fn simple_isqrt_lut() -> (r: Vec<fi16>)
    ensures
        r@.len() == isqrt_lut().len(),
        forall|i: int| 0 <= i < r@.len() ==> r@[i]@ == isqrt_lut()[i],
{
    let mut v: Vec<fi16> = Vec::new();
    v.push(fi16(32684));
    v.push(fi16(28936));
    v.push(fi16(25766));
    v.push(fi16(23038));
    v.push(fi16(20658));
    v.push(fi16(18559));
    v.push(fi16(16689));
    v.push(fi16(15009));
    v.push(fi16(13489));
    v.push(fi16(12106));
    v.push(fi16(10839));
    v.push(fi16(9674));
    v.push(fi16(8597));
    v.push(fi16(7598));
    v.push(fi16(6668));
    v.push(fi16(5800));
    v.push(fi16(4986));
    v.push(fi16(4221));
    v.push(fi16(3501));
    v.push(fi16(2822));
    v.push(fi16(2179));
    v.push(fi16(1570));
    v.push(fi16(991));
    v.push(fi16(441));
    v
}

/// The cutoff as a value.
pub fn simple_isqrt_cutoff() -> (r: fi16)
    ensures
        r@ == isqrt_cutoff(),
{
    fi16(32747)
}

} // verus!
