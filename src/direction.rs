use vstd::prelude::*;
use crate::UNIT;

verus! {

/// Bound on the magnitude of each component handed to [`clamp_len`]: the
/// difference of two `u32` intensities stays below it.
pub const AXIS_BOUND: i64 = 0x1_0000_0000;

/// `r` is the integer square root of `n`.
pub open spec fn is_isqrt(n: int, r: int) -> bool {
    0 <= r && r * r <= n && n < (r + 1) * (r + 1)
}

/// Integer square root, rounded down.
pub fn isqrt(n: u128) -> (r: u64)
    requires
        n < 0x4_0000_0000_0000_0000u128,
    ensures
        is_isqrt(n as int, r as int),
        r < 0x2_0000_0000,
{
    let mut lo: u128 = 0;
    let mut hi: u128 = 0x2_0000_0000;
    assert(hi * hi == 0x4_0000_0000_0000_0000u128) by (nonlinear_arith)
        requires hi == 0x2_0000_0000u128;
    while hi - lo > 1
        invariant
            lo < hi <= 0x2_0000_0000,
            lo * lo <= n,
            n < hi * hi,
        decreases hi - lo,
    {
        let mid: u128 = lo + (hi - lo) / 2;
        assert(mid * mid <= 0x4_0000_0000_0000_0000u128) by (nonlinear_arith)
            requires mid <= 0x2_0000_0000u128;
        if mid * mid <= n {
            lo = mid;
        } else {
            hi = mid;
        }
    }
    assert(hi == lo + 1);
    lo as u64
}

/// `x` scaled by `UNIT / len`, rounded toward zero.
pub open spec fn scale_toward_zero(x: int, len: int) -> int {
    if x >= 0 {
        x * UNIT / len
    } else {
        -((-x) * UNIT / len)
    }
}

/// Whether `(x, y)` is no longer than a full unit.
pub open spec fn within_unit(x: int, y: int) -> bool {
    x * x + y * y <= UNIT * UNIT
}

/// `r` is the square root of `n`, rounded up.
pub open spec fn is_ceil_sqrt(n: int, r: int) -> bool {
    0 <= r && n <= r * r && (r - 1) * (r - 1) < n
}

/// What [`clamp_len`] returns for `(x, y)`: never longer than a full unit.
pub open spec fn clamped(x: int, y: int, r: (i64, i64)) -> bool {
    &&& within_unit(r.0 as int, r.1 as int)
    &&& within_unit(x, y) ==> r.0 == x && r.1 == y
    &&& !within_unit(x, y) ==> exists|len: int|
        is_ceil_sqrt(x * x + y * y, len) && r.0 == scale_toward_zero(x, len) && r.1
            == scale_toward_zero(y, len)
}

/// Scales one component by `UNIT / len`, rounding toward zero.
fn scale_component(x: i64, len: u64) -> (r: i64)
    requires
        -AXIS_BOUND < x < AXIS_BOUND,
        len >= UNIT,
    ensures
        r == scale_toward_zero(x as int, len as int),
        -AXIS_BOUND < r < AXIS_BOUND,
        r * r * (len * len) <= x * x * (UNIT * UNIT),
{
    let mag: u64 = if x >= 0 { x as u64 } else { (-x) as u64 };
    assert(mag as int * UNIT <= AXIS_BOUND * UNIT) by (nonlinear_arith)
        requires mag <= AXIS_BOUND;
    let prod: u64 = mag * (UNIT as u64);
    let q: u64 = prod / len;
    assert(q <= mag) by (nonlinear_arith)
        requires q == prod / len, prod == mag * 1000, len >= 1000;
    proof {
        vstd::arithmetic::div_mod::lemma_fundamental_div_mod(prod as int, len as int);
        let qi = q as int;
        let li = len as int;
        let pi = prod as int;
        assert(0 <= qi * li <= pi) by (nonlinear_arith)
            requires pi == li * (pi / li) + pi % li, 0 <= pi % li, qi == pi / li, qi >= 0, li > 0;
        assert(qi * qi * (li * li) <= pi * pi) by (nonlinear_arith)
            requires 0 <= qi * li <= pi;
        assert(pi * pi == x * x * (UNIT * UNIT)) by (nonlinear_arith)
            requires pi == (mag as int) * 1000, mag as int == (if x >= 0 { x as int } else { -x });
    }
    let r: i64 = if x >= 0 {
        q as i64
    } else {
        -(q as i64)
    };
    assert((r as int) * (r as int) == (q as int) * (q as int)) by (nonlinear_arith)
        requires r == q || r == -q;
    r
}

/// The vector scaled to within a unit has squared length at most a unit's.
proof fn lemma_scaled_within(rx: int, ry: int, x: int, y: int, len: int)
    requires
        len > 0,
        x * x + y * y <= len * len,
        rx * rx * (len * len) <= x * x * (UNIT * UNIT),
        ry * ry * (len * len) <= y * y * (UNIT * UNIT),
    ensures
        within_unit(rx, ry),
{
    let a = rx * rx + ry * ry;
    let l2 = len * len;
    assert(a * l2 <= (x * x + y * y) * 1000000) by (nonlinear_arith)
        requires
            rx * rx * l2 <= x * x * 1000000,
            ry * ry * l2 <= y * y * 1000000,
            a == rx * rx + ry * ry;
    assert((x * x + y * y) * 1000000 <= l2 * 1000000) by (nonlinear_arith)
        requires x * x + y * y <= l2;
    assert(l2 > 0) by (nonlinear_arith)
        requires len > 0, l2 == len * len;
    if a > 1000000 {
        assert(a * l2 > 1000000 * l2) by (nonlinear_arith)
            requires a > 1000000, l2 > 0;
    }
}

/// Scales `(x, y)` so that its length does not exceed a full unit: a vector no
/// longer than that is returned unchanged, a longer one is divided by its
/// length (the square root of `x*x + y*y`, rounded up) and multiplied by
/// `UNIT`, each component rounded toward zero.
pub fn clamp_len(x: i64, y: i64) -> (r: (i64, i64))
    requires
        -AXIS_BOUND < x < AXIS_BOUND,
        -AXIS_BOUND < y < AXIS_BOUND,
    ensures
        clamped(x as int, y as int, r),
{
    let ax: u128 = if x >= 0 { x as u128 } else { (-x) as u128 };
    let ay: u128 = if y >= 0 { y as u128 } else { (-y) as u128 };
    assert(ax * ax <= 0x1_0000_0000_0000_0000u128 && ay * ay <= 0x1_0000_0000_0000_0000u128)
        by (nonlinear_arith)
        requires ax <= 0x1_0000_0000u128, ay <= 0x1_0000_0000u128;
    let sq: u128 = ax * ax + ay * ay;
    assert(sq == x * x + y * y) by (nonlinear_arith)
        requires
            ax == (if x >= 0 { x as int } else { -x }),
            ay == (if y >= 0 { y as int } else { -y }),
            sq == ax * ax + ay * ay;
    if sq <= (UNIT as u128) * (UNIT as u128) {
        (x, y)
    } else {
        let f = isqrt(sq);
        assert((f as u128) * (f as u128) <= sq) by (nonlinear_arith)
            requires (f as int) * (f as int) <= sq;
        let len: u64 = if (f as u128) * (f as u128) < sq { f + 1 } else { f };
        assert(is_ceil_sqrt(sq as int, len as int)) by {
            let fi = f as int;
            assert(fi >= 1) by (nonlinear_arith)
                requires sq < (fi + 1) * (fi + 1), sq > 1000000, fi >= 0;
            assert((fi - 1) * (fi - 1) < fi * fi) by (nonlinear_arith)
                requires fi >= 1;
        }
        assert(len >= UNIT) by (nonlinear_arith)
            requires sq > 1000 * 1000, sq <= len * len, len >= 0;
        let rx = scale_component(x, len);
        let ry = scale_component(y, len);
        proof {
            lemma_scaled_within(rx as int, ry as int, x as int, y as int, len as int);
        }
        (rx, ry)
    }
}

} // verus!
