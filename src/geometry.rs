//! Fixed-point 2D vectors and the integer square root and rescaling they
//! need.
use vstd::prelude::*;

verus! {

/// Sub-units per world unit.
pub const UNIT: i64 = 1000;

/// Largest magnitude of a coordinate that the simulation stages accept.
pub const COORD_LIMIT: i64 = 0x100_0000_0000;

/// A 2D vector of sub-units.
#[derive(Clone, Copy, Debug, PartialEq, Eq, Structural)]
pub struct Vec2 {
    pub x: i64,
    pub y: i64,
}

/// Squared length of the vector `(x, y)`.
pub open spec fn norm_sq(x: int, y: int) -> int {
    x * x + y * y
}

/// Both coordinates lie within `COORD_LIMIT`.
pub open spec fn coords_bounded(v: Vec2) -> bool {
    -COORD_LIMIT <= v.x <= COORD_LIMIT && -COORD_LIMIT <= v.y <= COORD_LIMIT
}

/// The larger of the magnitudes of the two coordinates.
pub open spec fn coord_mag(v: Vec2) -> int {
    let ax = if v.x < 0 {
        -v.x
    } else {
        v.x as int
    };
    let ay = if v.y < 0 {
        -v.y
    } else {
        v.y as int
    };
    if ax < ay {
        ay
    } else {
        ax
    }
}

/// `r` is the least natural number whose square is at least `n`.
pub open spec fn is_ceil_root(n: int, r: int) -> bool {
    r >= 0 && r * r >= n && (r == 0 || (r - 1) * (r - 1) < n)
}

/// The ceiling of the square root of `n`.
pub open spec fn ceil_root(n: int) -> int {
    choose|r: int| is_ceil_root(n, r)
}

/// `r` is the greatest natural number whose square is at most `n`.
pub open spec fn is_floor_root(n: int, r: int) -> bool {
    r >= 0 && r * r <= n && n < (r + 1) * (r + 1)
}

/// The floor of the square root of `n`.
pub open spec fn floor_root(n: int) -> int {
    choose|r: int| is_floor_root(n, r)
}

/// Division of `a` by a positive `b`, rounded away from zero.
pub open spec fn div_away(a: int, b: int) -> int {
    if a >= 0 {
        (a + b - 1) / b
    } else {
        -((-a + b - 1) / b)
    }
}

/// Division of `a` by a positive `b`, rounded toward zero.
pub open spec fn div_trunc(a: int, b: int) -> int {
    if a >= 0 {
        a / b
    } else {
        -((-a) / b)
    }
}

/// The component `c` of a vector of length `len`, rescaled to length `k`.
pub open spec fn rescale(c: int, k: int, len: int) -> int {
    if len == 0 {
        0
    } else {
        div_trunc(c * k, len)
    }
}

/// The vector `(x, y)` rescaled to length `k`, rounded toward zero; the zero
/// vector stays zero.
pub open spec fn rescaled(x: int, y: int, k: int) -> (int, int) {
    let len = ceil_root(norm_sq(x, y));
    (rescale(x, k, len), rescale(y, k, len))
}

pub proof fn lemma_ceil_root_unique(n: int, a: int, b: int)
    requires
        is_ceil_root(n, a),
        is_ceil_root(n, b),
    ensures
        a == b,
{
    if a < b {
        assert((b - 1) * (b - 1) >= a * a) by (nonlinear_arith)
            requires
                0 <= a <= b - 1,
        ;
    } else if b < a {
        assert((a - 1) * (a - 1) >= b * b) by (nonlinear_arith)
            requires
                0 <= b <= a - 1,
        ;
    }
}

/// Once a witness is known, `ceil_root` is that witness.
pub proof fn lemma_ceil_root_is(n: int, r: int)
    requires
        is_ceil_root(n, r),
    ensures
        ceil_root(n) == r,
{
    let c = ceil_root(n);
    assert(is_ceil_root(n, c));
    lemma_ceil_root_unique(n, c, r);
}

/// The ceiling of the square root of `n`.
pub fn ceil_sqrt(n: u128) -> (r: u128)
    requires
        n <= 0x1_0000_0000_0000_0000_0000_0000,
    ensures
        r == ceil_root(n as int),
        r <= 0x10_0000_0000_0000,
{
    let mut lo: u128 = 0;
    let mut hi: u128 = 0x10_0000_0000_0000;
    assert(hi * hi >= n);
    while lo < hi
        invariant
            lo <= hi <= 0x10_0000_0000_0000,
            hi * hi >= n,
            lo == 0 || (lo - 1) * (lo - 1) < n,
        decreases hi - lo,
    {
        let mid = lo + (hi - lo) / 2;
        assert(mid * mid <= 0x10_0000_0000_0000 * 0x10_0000_0000_0000) by (nonlinear_arith)
            requires
                mid <= 0x10_0000_0000_0000,
        ;
        if mid * mid >= n {
            hi = mid;
        } else {
            lo = mid + 1;
        }
    }
    proof {
        lemma_ceil_root_is(n as int, lo as int);
    }
    lo
}


pub proof fn lemma_ceil_root_exists(n: int)
    requires
        n >= 0,
    ensures
        is_ceil_root(n, ceil_root(n)),
        ceil_root(n) * ceil_root(n) >= n,
        ceil_root(n) >= 0,
    decreases n,
{
    if n == 0 {
        assert(is_ceil_root(0, 0));
    } else {
        lemma_ceil_root_exists(n - 1);
        let r = ceil_root(n - 1);
        if r * r >= n {
            assert(is_ceil_root(n, r));
        } else {
            assert((r + 1) * (r + 1) == r * r + 2 * r + 1) by (nonlinear_arith);
            assert(is_ceil_root(n, r + 1));
        }
    }
}

/// The root of a square is at least each coordinate's magnitude.
pub proof fn lemma_ceil_root_covers(x: int, y: int)
    ensures
        norm_sq(x, y) >= 0,
        is_ceil_root(norm_sq(x, y), ceil_root(norm_sq(x, y))),
        ceil_root(norm_sq(x, y)) >= 0,
        ceil_root(norm_sq(x, y)) * ceil_root(norm_sq(x, y)) >= norm_sq(x, y),
        norm_sq(x, y) > 0 ==> ceil_root(norm_sq(x, y)) > 0,
        norm_sq(x, y) == 0 ==> ceil_root(norm_sq(x, y)) == 0,
        -ceil_root(norm_sq(x, y)) <= x <= ceil_root(norm_sq(x, y)),
        -ceil_root(norm_sq(x, y)) <= y <= ceil_root(norm_sq(x, y)),
{
    let n = norm_sq(x, y);
    assert(n >= 0 && n >= x * x && n >= y * y) by (nonlinear_arith)
        requires
            n == x * x + y * y,
    ;
    lemma_ceil_root_exists(n);
    let r = ceil_root(n);
    if n == 0 {
        lemma_ceil_root_is(n, 0);
    }
    assert(-r <= x <= r) by (nonlinear_arith)
        requires
            r >= 0,
            r * r >= x * x,
    ;
    assert(-r <= y <= r) by (nonlinear_arith)
        requires
            r >= 0,
            r * r >= y * y,
    ;
}

pub proof fn lemma_div_trunc_bound(a: int, b: int)
    requires
        b > 0,
    ensures
        (a >= 0 ==> 0 <= div_trunc(a, b) && div_trunc(a, b) * b <= a),
        (a < 0 ==> div_trunc(a, b) <= 0 && -div_trunc(a, b) * b <= -a),
{
    if a >= 0 {
        assert(0 <= a / b && (a / b) * b <= a) by (nonlinear_arith)
            requires
                a >= 0,
                b > 0,
        ;
    } else {
        assert(0 <= (-a) / b && ((-a) / b) * b <= -a) by (nonlinear_arith)
            requires
                -a >= 0,
                b > 0,
        ;
    }
}

/// `|rescale(c, k, len)| * len <= |c| * k`.
pub proof fn lemma_rescale_bound(c: int, k: int, len: int)
    requires
        k >= 0,
        len > 0,
    ensures
        rescale(c, k, len) * rescale(c, k, len) * (len * len) <= (c * c) * (k * k),
        c >= 0 ==> 0 <= rescale(c, k, len) * len <= c * k,
        c < 0 ==> 0 <= -rescale(c, k, len) * len <= -c * k,
{
    let a = rescale(c, k, len);
    if c >= 0 {
        assert(c * k >= 0) by (nonlinear_arith)
            requires
                c >= 0,
                k >= 0,
        ;
        lemma_div_trunc_bound(c * k, len);
        assert(a * a * (len * len) <= (c * c) * (k * k)) by (nonlinear_arith)
            requires
                0 <= a,
                a * len <= c * k,
                len > 0,
        ;
    } else {
        assert(c * k <= 0 && -c * k == -(c * k)) by (nonlinear_arith)
            requires
                c < 0,
                k >= 0,
        ;
        if c * k == 0 {
            assert(div_trunc(c * k, len) == 0);
            assert(a * a * (len * len) <= (c * c) * (k * k)) by (nonlinear_arith)
                requires
                    a == 0,
            ;
        } else {
            lemma_div_trunc_bound(c * k, len);
            assert(a * a * (len * len) <= (c * c) * (k * k)) by (nonlinear_arith)
                requires
                    a <= 0,
                    -a * len <= -(c * k),
                    len > 0,
            ;
        }
        assert(0 <= -rescale(c, k, len) * len) by (nonlinear_arith)
            requires
                a <= 0,
                len > 0,
                a == rescale(c, k, len),
        ;
    }
}

/// Rescaling to length `k` never yields a vector longer than `k`.
pub proof fn lemma_rescaled_within(x: int, y: int, k: int)
    requires
        k >= 0,
    ensures
        norm_sq(rescaled(x, y, k).0, rescaled(x, y, k).1) <= k * k,
{
    lemma_ceil_root_covers(x, y);
    let len = ceil_root(norm_sq(x, y));
    let (a, b) = rescaled(x, y, k);
    if len > 0 {
        lemma_rescale_bound(x, k, len);
        lemma_rescale_bound(y, k, len);
        assert(a * a + b * b <= k * k) by (nonlinear_arith)
            requires
                a * a * (len * len) <= (x * x) * (k * k),
                b * b * (len * len) <= (y * y) * (k * k),
                len * len >= x * x + y * y,
                len > 0,
                k >= 0,
        ;
    }
}

/// Rescaling shrinks no coordinate's magnitude beyond `k`.
pub proof fn lemma_rescaled_coords(x: int, y: int, k: int)
    requires
        k >= 0,
    ensures
        -k <= rescaled(x, y, k).0 <= k,
        -k <= rescaled(x, y, k).1 <= k,
{
    lemma_rescaled_within(x, y, k);
    let (a, b) = rescaled(x, y, k);
    assert(-k <= a <= k && -k <= b <= k) by (nonlinear_arith)
        requires
            a * a + b * b <= k * k,
            k >= 0,
    ;
}

/// Once a witness is known, `floor_root` is that witness.
pub proof fn lemma_floor_root_is(n: int, r: int)
    requires
        is_floor_root(n, r),
    ensures
        floor_root(n) == r,
{
    let c = floor_root(n);
    assert(is_floor_root(n, c));
    if c < r {
        assert((c + 1) * (c + 1) <= r * r) by (nonlinear_arith)
            requires
                0 <= c,
                c + 1 <= r,
        ;
    } else if r < c {
        assert((r + 1) * (r + 1) <= c * c) by (nonlinear_arith)
            requires
                0 <= r,
                r + 1 <= c,
        ;
    }
}

/// The floor of the root of a squared length bounds each coordinate's
/// magnitude, and is positive for a non-zero vector.
pub proof fn lemma_floor_root_covers(x: int, y: int)
    ensures
        norm_sq(x, y) >= 0,
        is_floor_root(norm_sq(x, y), floor_root(norm_sq(x, y))),
        norm_sq(x, y) > 0 ==> floor_root(norm_sq(x, y)) > 0,
        -floor_root(norm_sq(x, y)) <= x <= floor_root(norm_sq(x, y)),
        -floor_root(norm_sq(x, y)) <= y <= floor_root(norm_sq(x, y)),
{
    lemma_ceil_root_covers(x, y);
    let n = norm_sq(x, y);
    let c = ceil_root(n);
    assert(n >= x * x && n >= y * y) by (nonlinear_arith)
        requires
            n == x * x + y * y,
    ;
    if c * c > n {
        assert(c >= 1);
        assert(c * c == (c - 1 + 1) * (c - 1 + 1));
        assert(is_floor_root(n, c - 1));
        lemma_floor_root_is(n, c - 1);
    } else {
        assert((c + 1) * (c + 1) == c * c + 2 * c + 1) by (nonlinear_arith);
        assert(is_floor_root(n, c));
        lemma_floor_root_is(n, c);
    }
    let f = floor_root(n);
    assert(n > 0 ==> f > 0) by (nonlinear_arith)
        requires
            f >= 0,
            n < (f + 1) * (f + 1),
    ;
    assert(-f <= x <= f) by (nonlinear_arith)
        requires
            f >= 0,
            x * x <= n,
            n < (f + 1) * (f + 1),
    ;
    assert(-f <= y <= f) by (nonlinear_arith)
        requires
            f >= 0,
            y * y <= n,
            n < (f + 1) * (f + 1),
    ;
}

/// What rounding away from zero keeps: the sign, at least one unit of a
/// non-zero quotient, and less than one unit beyond the exact quotient.
pub proof fn lemma_div_away_bound(a: int, b: int)
    requires
        b > 0,
    ensures
        a >= 0 ==> 0 <= div_away(a, b) && div_away(a, b) * b <= a + b - 1,
        a > 0 ==> div_away(a, b) >= 1,
        a <= 0 ==> div_away(a, b) <= 0 && -div_away(a, b) * b <= -a + b - 1,
        a < 0 ==> div_away(a, b) <= -1,
{
    if a >= 0 {
        let x = a + b - 1;
        assert(0 <= x / b && (x / b) * b <= x) by (nonlinear_arith)
            requires
                x >= 0,
                b > 0,
        ;
        if a > 0 {
            assert(x / b >= 1) by (nonlinear_arith)
                requires
                    x >= b,
                    b > 0,
            ;
        }
    }
    if a == 0 {
        assert((b - 1) / b == 0) by (nonlinear_arith)
            requires
                b > 0,
        ;
    }
    if a <= 0 {
        let x = -a + b - 1;
        assert(0 <= x / b && (x / b) * b <= x) by (nonlinear_arith)
            requires
                x >= 0,
                b > 0,
        ;
        if a < 0 {
            assert(x / b >= 1) by (nonlinear_arith)
                requires
                    x >= b,
                    b > 0,
            ;
        }
    }
}

/// The floor of the square root of `n`.
pub fn floor_sqrt(n: u128) -> (r: u128)
    requires
        n <= 0x1_0000_0000_0000_0000_0000_0000,
    ensures
        r == floor_root(n as int),
        r <= 0x10_0000_0000_0000,
{
    let c = ceil_sqrt(n);
    proof {
        lemma_ceil_root_exists(n as int);
    }
    assert(c * c <= 0x10_0000_0000_0000 * 0x10_0000_0000_0000) by (nonlinear_arith)
        requires
            c <= 0x10_0000_0000_0000,
    ;
    if c * c > n {
        assert(c > 0) by (nonlinear_arith)
            requires
                c * c > n,
                n >= 0,
                c >= 0,
        ;
        proof {
            assert(c * c == (c - 1 + 1) * (c - 1 + 1));
            lemma_floor_root_is(n as int, c - 1);
        }
        c - 1
    } else {
        proof {
            assert((c + 1) * (c + 1) == c * c + 2 * c + 1) by (nonlinear_arith);
            lemma_floor_root_is(n as int, c as int);
        }
        c
    }
}

/// Division of `a` by a positive `b`, rounded away from zero.
pub fn div_away_from_zero(a: i128, b: i128) -> (r: i128)
    requires
        b > 0,
        -0x1000_0000_0000_0000_0000_0000_0000 <= a <= 0x1000_0000_0000_0000_0000_0000_0000,
        b <= 0x1000_0000_0000_0000_0000_0000_0000,
    ensures
        r == div_away(a as int, b as int),
{
    if a >= 0 {
        (a + b - 1) / b
    } else {
        -((-a + b - 1) / b)
    }
}

/// The squared length of `(x, y)`.
pub fn square_len(x: i128, y: i128) -> (r: i128)
    requires
        -COORD_LIMIT * 4 <= x <= COORD_LIMIT * 4,
        -COORD_LIMIT * 4 <= y <= COORD_LIMIT * 4,
    ensures
        r == norm_sq(x as int, y as int),
        0 <= r <= 0x200_0000_0000_0000_0000_0000,
{
    assert(0 <= x * x <= 0x100_0000_0000_0000_0000_0000 && 0 <= y * y <= 0x100_0000_0000_0000_0000_0000)
        by (nonlinear_arith)
        requires
            -0x400_0000_0000 <= x <= 0x400_0000_0000,
            -0x400_0000_0000 <= y <= 0x400_0000_0000,
    ;
    x * x + y * y
}

/// Division of `a` by a positive `b`, rounded toward zero.
pub fn div_toward_zero(a: i128, b: i128) -> (r: i128)
    requires
        b > 0,
        a > i128::MIN,
    ensures
        r == div_trunc(a as int, b as int),
{
    if a >= 0 {
        a / b
    } else {
        -((-a) / b)
    }
}

/// The coordinates `(x, y)` rescaled to length `k`, rounded toward zero.
pub fn rescale_exec(x: i128, y: i128, k: i128) -> (r: (i128, i128))
    requires
        -COORD_LIMIT * 4 <= x <= COORD_LIMIT * 4,
        -COORD_LIMIT * 4 <= y <= COORD_LIMIT * 4,
        0 <= k <= COORD_LIMIT * 4,
    ensures
        r.0 == rescaled(x as int, y as int, k as int).0,
        r.1 == rescaled(x as int, y as int, k as int).1,
{
    assert(0 <= x * x <= 0x100_0000_0000_0000_0000_0000 && 0 <= y * y <= 0x100_0000_0000_0000_0000_0000)
        by (nonlinear_arith)
        requires
            -0x400_0000_0000 <= x <= 0x400_0000_0000,
            -0x400_0000_0000 <= y <= 0x400_0000_0000,
    ;
    let n = x * x + y * y;
    let len = ceil_sqrt(n as u128) as i128;
    if len == 0 {
        (0, 0)
    } else {
        assert(-0x10_0000_0000_0000_0000_0000 <= x * k <= 0x10_0000_0000_0000_0000_0000
            && -0x10_0000_0000_0000_0000_0000 <= y * k <= 0x10_0000_0000_0000_0000_0000)
            by (nonlinear_arith)
            requires
                -0x400_0000_0000 <= x <= 0x400_0000_0000,
                -0x400_0000_0000 <= y <= 0x400_0000_0000,
                0 <= k <= 0x400_0000_0000,
        ;
        (div_toward_zero(x * k, len), div_toward_zero(y * k, len))
    }
}

} // verus!
