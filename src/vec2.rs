use vstd::arithmetic::div_mod::lemma_fundamental_div_mod;
use vstd::prelude::*;

verus! {

/// Bound on each component of a vector handed to `scale_to`.
pub const VEC_LIMIT: i64 = 0x100_0000_0000;

/// Bound on each component of a vector handed to `plus` or `minus`.
pub const SUM_LIMIT: i64 = 0x2000_0000_0000_0000;

/// A two-dimensional vector with fixed-point integer components.
#[derive(Clone, Copy, Debug, PartialEq, Eq, Structural)]
pub struct Vec2 {
    pub x: i64,
    pub y: i64,
}

impl View for Vec2 {
    type V = (int, int);

    open spec fn view(&self) -> (int, int) {
        (self.x as int, self.y as int)
    }
}

pub open spec fn abs(a: int) -> int {
    if a >= 0 { a } else { -a }
}

/// Squared euclidean length.
pub open spec fn norm2(v: (int, int)) -> int {
    v.0 * v.0 + v.1 * v.1
}

pub open spec fn is_ceil_sqrt(n: int, r: int) -> bool {
    0 <= r && n <= r * r && (r == 0 || (r - 1) * (r - 1) < n)
}

/// The least non-negative `r` with `n <= r * r`.
pub open spec fn ceil_sqrt(n: int) -> int {
    choose|r: int| is_ceil_sqrt(n, r)
}

/// Division that rounds toward zero, as integer division of machine integers does.
pub open spec fn div_trunc(a: int, b: int) -> int {
    if a >= 0 { a / b } else { -((-a) / b) }
}

/// `v` rescaled to length `s`; the length is rounded up, the components toward zero.
pub open spec fn scale_to(v: (int, int), s: int) -> (int, int) {
    let l = ceil_sqrt(norm2(v));
    (div_trunc(v.0 * s, l), div_trunc(v.1 * s, l))
}

/// `v` unchanged if its length is at most `m`, else rescaled to length `m`.
pub open spec fn clamp_length(v: (int, int), m: int) -> (int, int) {
    if norm2(v) > m * m { scale_to(v, m) } else { v }
}

pub open spec fn vadd(a: (int, int), b: (int, int)) -> (int, int) {
    (a.0 + b.0, a.1 + b.1)
}

pub open spec fn vsub(a: (int, int), b: (int, int)) -> (int, int) {
    (a.0 - b.0, a.1 - b.1)
}

pub open spec fn bounded(v: (int, int), m: int) -> bool {
    abs(v.0) <= m && abs(v.1) <= m
}

/// A vector no longer than `m` has no component larger than `m`.
pub proof fn lemma_norm_bounds_components(v: (int, int), m: int)
    requires
        m >= 0,
        norm2(v) <= m * m,
    ensures
        bounded(v, m),
{
    lemma_abs_square(v.0);
    lemma_abs_square(v.1);
    assert(v.0 * v.0 >= 0 && v.1 * v.1 >= 0) by (nonlinear_arith);
    if abs(v.0) > m {
        assert(m * m < abs(v.0) * abs(v.0)) by (nonlinear_arith)
            requires
                0 <= m < abs(v.0),
        ;
    }
    if abs(v.1) > m {
        assert(m * m < abs(v.1) * abs(v.1)) by (nonlinear_arith)
            requires
                0 <= m < abs(v.1),
        ;
    }
}

/// Dividing a sum of `n` terms, each at most `b`, by `n` gives at most `b`.
pub proof fn lemma_average_bound(a: int, n: int, b: int)
    requires
        n > 0,
        abs(a) <= n * b,
    ensures
        abs(div_trunc(a, n)) <= b,
{
    lemma_abs_div_trunc(a, n);
    lemma_div_below(abs(a), n);
    let q = abs(a) / n;
    assert(q <= b) by (nonlinear_arith)
        requires
            q * n <= abs(a),
            abs(a) <= n * b,
            n > 0,
    ;
}

pub proof fn lemma_square_nonneg(m: int)
    ensures
        m * m >= 0,
{
    assert(m * m >= 0) by (nonlinear_arith);
}

pub proof fn lemma_square_monotone(a: int, b: int)
    requires
        0 <= a <= b,
    ensures
        a * a <= b * b,
{
    assert(a * a <= b * b) by (nonlinear_arith)
        requires
            0 <= a <= b,
    ;
}

pub proof fn lemma_ceil_sqrt_unique(n: int, r: int)
    requires
        is_ceil_sqrt(n, r),
    ensures
        ceil_sqrt(n) == r,
{
    let c = ceil_sqrt(n);
    assert(is_ceil_sqrt(n, c));
    if c < r {
        lemma_square_monotone(c, r - 1);
    } else if r < c {
        lemma_square_monotone(r, c - 1);
    }
}

/// Component bound and length bound of a rescaled vector.
pub proof fn lemma_scale_to_bounds(v: (int, int), s: int)
    requires
        norm2(v) > 0,
        s >= 0,
    ensures
        bounded(scale_to(v, s), s),
        norm2(scale_to(v, s)) <= s * s,
{
    let n = norm2(v);
    let l = ceil_sqrt(n);
    lemma_ceil_sqrt_exists(n);
    assert(is_ceil_sqrt(n, l));
    if l == 0 {
        assert(l * l == 0);
    }
    assert(l > 0);
    lemma_abs_square(v.0);
    lemma_abs_square(v.1);
    let a = abs(v.0) * s / l;
    let b = abs(v.1) * s / l;
    lemma_div_below(abs(v.0) * s, l);
    lemma_div_below(abs(v.1) * s, l);
    assert(abs(v.0) * abs(v.0) <= n && abs(v.1) * abs(v.1) <= n) by (nonlinear_arith)
        requires
            n == v.0 * v.0 + v.1 * v.1,
    ;
    assert(abs(v.0) <= l) by {
        if abs(v.0) > l {
            lemma_square_monotone(l, abs(v.0));
            assert(l * l < abs(v.0) * abs(v.0)) by (nonlinear_arith)
                requires
                    0 < l < abs(v.0),
            ;
        }
    }
    assert(abs(v.1) <= l) by {
        if abs(v.1) > l {
            assert(l * l < abs(v.1) * abs(v.1)) by (nonlinear_arith)
                requires
                    0 < l < abs(v.1),
            ;
        }
    }
    assert(a <= s) by {
        assert(a * l <= l * s) by (nonlinear_arith)
            requires
                a * l <= abs(v.0) * s,
                abs(v.0) <= l,
                s >= 0,
        ;
        assert(a <= s) by (nonlinear_arith)
            requires
                a * l <= l * s,
                l > 0,
        ;
    }
    assert(b <= s) by {
        assert(b * l <= l * s) by (nonlinear_arith)
            requires
                b * l <= abs(v.1) * s,
                abs(v.1) <= l,
                s >= 0,
        ;
        assert(b <= s) by (nonlinear_arith)
            requires
                b * l <= l * s,
                l > 0,
        ;
    }
    assert((a * a + b * b) * (l * l) <= n * (s * s)) by (nonlinear_arith)
        requires
            0 <= a * l <= abs(v.0) * s,
            0 <= b * l <= abs(v.1) * s,
            0 <= a,
            0 <= b,
            l > 0,
            n == abs(v.0) * abs(v.0) + abs(v.1) * abs(v.1),
    ;
    assert(a * a + b * b <= s * s) by (nonlinear_arith)
        requires
            (a * a + b * b) * (l * l) <= n * (s * s),
            n <= l * l,
            l > 0,
            s >= 0,
    ;
    let r = scale_to(v, s);
    lemma_abs_div_trunc(v.0 * s, l);
    lemma_abs_div_trunc(v.1 * s, l);
    lemma_abs_scaled(v.0, s);
    lemma_abs_scaled(v.1, s);
    assert(abs(r.0) == a && abs(r.1) == b);
    assert(norm2(r) == a * a + b * b) by (nonlinear_arith)
        requires
            abs(r.0) == a,
            abs(r.1) == b,
    ;
}

pub proof fn lemma_abs_square(a: int)
    ensures
        abs(a) * abs(a) == a * a,
{
    if a < 0 {
        assert((-a) * (-a) == a * a) by (nonlinear_arith);
    }
}

pub proof fn lemma_abs_scaled(a: int, s: int)
    requires
        s >= 0,
    ensures
        abs(a * s) == abs(a) * s,
{
    if a < 0 {
        assert(a * s <= 0 && -(a * s) == (-a) * s) by (nonlinear_arith)
            requires
                a < 0,
                s >= 0,
        ;
    } else {
        assert(a * s >= 0) by (nonlinear_arith)
            requires
                a >= 0,
                s >= 0,
        ;
    }
}

pub proof fn lemma_abs_div_trunc(p: int, l: int)
    requires
        l > 0,
    ensures
        abs(div_trunc(p, l)) == abs(p) / l,
{
    lemma_div_below(abs(p), l);
}

proof fn lemma_div_below(p: int, l: int)
    requires
        p >= 0,
        l > 0,
    ensures
        0 <= (p / l) * l <= p,
        p / l >= 0,
{
    lemma_fundamental_div_mod(p, l);
    assert(0 <= p % l < l) by {
        vstd::arithmetic::div_mod::lemma_mod_pos_bound(p, l);
    }
    vstd::arithmetic::div_mod::lemma_div_pos_is_pos(p, l);
    assert((p / l) * l == l * (p / l)) by (nonlinear_arith);
}

proof fn lemma_ceil_sqrt_exists(n: int)
    requires
        n >= 0,
    ensures
        is_ceil_sqrt(n, ceil_sqrt(n)),
{
    assert(n <= (n + 1) * (n + 1)) by (nonlinear_arith)
        requires
            n >= 0,
    ;
    lemma_least_square_above(n, n + 1);
}

proof fn lemma_least_square_above(n: int, k: int)
    requires
        n >= 0,
        k >= 0,
        n <= k * k,
    ensures
        is_ceil_sqrt(n, ceil_sqrt(n)),
    decreases k,
{
    if k == 0 || (k - 1) * (k - 1) < n {
        assert(is_ceil_sqrt(n, k));
    } else {
        lemma_least_square_above(n, k - 1);
    }
}

/// Least `r` with `n <= r * r`, by bisection.
pub fn ceil_sqrt_u128(n: u128) -> (r: u128)
    requires
        n <= 0x4_0000_0000_0000_0000_0000,
    ensures
        r as int == ceil_sqrt(n as int),
        r <= 0x200_0000_0000,
{
    let mut lo: u128 = 0;
    let mut hi: u128 = 0x200_0000_0000;
    while lo < hi
        invariant
            lo <= hi <= 0x200_0000_0000,
            n as int <= hi as int * hi as int,
            lo == 0 || (lo as int - 1) * (lo as int - 1) < n as int,
        decreases hi - lo,
    {
        let mid: u128 = lo + (hi - lo) / 2;
        assert(mid as int * mid as int <= 0x4_0000_0000_0000_0000_0000) by (nonlinear_arith)
            requires
                mid <= 0x200_0000_0000,
        ;
        if mid * mid >= n {
            hi = mid;
        } else {
            lo = mid + 1;
        }
    }
    proof {
        lemma_ceil_sqrt_unique(n as int, lo as int);
    }
    lo
}

/// Quotient rounded toward zero.
pub fn div_toward_zero(a: i64, b: i64) -> (r: i64)
    requires
        b > 0,
        a > i64::MIN,
    ensures
        r == div_trunc(a as int, b as int),
{
    if a >= 0 {
        a / b
    } else {
        -((-a) / b)
    }
}

/// Quotient rounded toward zero, on wide integers.
fn div_toward_zero_wide(a: i128, b: i128) -> (r: i128)
    requires
        b > 0,
        a > i128::MIN,
    ensures
        r == div_trunc(a as int, b as int),
{
    if a >= 0 {
        a / b
    } else {
        -((-a) / b)
    }
}

impl Vec2 {
    pub fn new(x: i64, y: i64) -> (r: Vec2)
        ensures
            r@ == (x as int, y as int),
    {
        Vec2 { x, y }
    }

    pub fn zero() -> (r: Vec2)
        ensures
            r@ == (0int, 0int),
    {
        Vec2 { x: 0, y: 0 }
    }

    /// Squared length.
    pub fn length_squared(&self) -> (r: i128)
        requires
            bounded(self@, VEC_LIMIT as int),
        ensures
            r == norm2(self@),
            0 <= r <= 2 * VEC_LIMIT * VEC_LIMIT,
    {
        proof {
            lemma_abs_square(self.x as int);
            lemma_abs_square(self.y as int);
            lemma_square_monotone(abs(self.x as int), VEC_LIMIT as int);
            lemma_square_monotone(abs(self.y as int), VEC_LIMIT as int);
        }
        let x = self.x as i128;
        let y = self.y as i128;
        x * x + y * y
    }

    pub fn plus(&self, o: &Vec2) -> (r: Vec2)
        requires
            bounded(self@, SUM_LIMIT as int),
            bounded(o@, SUM_LIMIT as int),
        ensures
            r@ == vadd(self@, o@),
    {
        Vec2 { x: self.x + o.x, y: self.y + o.y }
    }

    pub fn minus(&self, o: &Vec2) -> (r: Vec2)
        requires
            bounded(self@, SUM_LIMIT as int),
            bounded(o@, SUM_LIMIT as int),
        ensures
            r@ == vsub(self@, o@),
    {
        Vec2 { x: self.x - o.x, y: self.y - o.y }
    }

    /// This vector rescaled to length `s`.
    pub fn scale_to(&self, s: i64) -> (r: Vec2)
        requires
            norm2(self@) > 0,
            bounded(self@, VEC_LIMIT as int),
            0 <= s <= VEC_LIMIT,
        ensures
            r@ == scale_to(self@, s as int),
            bounded(r@, s as int),
            norm2(r@) <= s * s,
    {
        let n = self.length_squared();
        let l = ceil_sqrt_u128(n as u128);
        proof {
            lemma_scale_to_bounds(self@, s as int);
            lemma_ceil_sqrt_exists(n as int);
            if l == 0 {
                assert(l * l == 0);
            }
            assert(self.x * s <= VEC_LIMIT * VEC_LIMIT && self.x * s >= -(VEC_LIMIT * VEC_LIMIT))
                by (nonlinear_arith)
                requires
                    abs(self.x as int) <= VEC_LIMIT,
                    0 <= s <= VEC_LIMIT,
            ;
            assert(self.y * s <= VEC_LIMIT * VEC_LIMIT && self.y * s >= -(VEC_LIMIT * VEC_LIMIT))
                by (nonlinear_arith)
                requires
                    abs(self.y as int) <= VEC_LIMIT,
                    0 <= s <= VEC_LIMIT,
            ;
        }
        let l = l as i128;
        let s = s as i128;
        let x = div_toward_zero_wide(self.x as i128 * s, l);
        let y = div_toward_zero_wide(self.y as i128 * s, l);
        Vec2 { x: x as i64, y: y as i64 }
    }

    /// This vector, shortened to length `m` where it is longer.
    pub fn clamp_length(&self, m: i64) -> (r: Vec2)
        requires
            bounded(self@, VEC_LIMIT as int),
            0 <= m <= VEC_LIMIT,
        ensures
            r@ == clamp_length(self@, m as int),
            norm2(r@) <= m * m,
    {
        proof {
            lemma_square_monotone(m as int, VEC_LIMIT as int);
        }
        if self.length_squared() > m as i128 * m as i128 {
            self.scale_to(m)
        } else {
            *self
        }
    }
}

} // verus!
