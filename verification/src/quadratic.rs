//! Facts about square roots and quadratic equations over the reals.
//!
//! Throughout, a quadratic is written `a·t² + 2·h·t + c`, with `h` half the
//! linear coefficient, so that a quarter of its discriminant is `h² − a·c`.

use vstd::prelude::*;

verus! {

/// Whether `root` is the square root of `square`: the real that is not
/// negative and whose square it is.
pub open spec fn is_sqrt(root: real, square: real) -> bool {
    root >= 0real && root * root == square
}

/// The value of the quadratic at `t`.
pub open spec fn quadratic(a: real, h: real, c: real, t: real) -> real {
    a * t * t + 2real * h * t + c
}

/// A number has at most one square root.
pub proof fn lemma_sqrt_unique(first: real, second: real, square: real)
    requires
        is_sqrt(first, square),
        is_sqrt(second, square),
    ensures
        first == second,
{
    assert(first == second) by (nonlinear_arith)
        requires
            first >= 0real,
            second >= 0real,
            first * first == second * second,
    ;
}

/// Zero is the square root of zero.
pub proof fn lemma_sqrt_zero(root: real)
    requires
        is_sqrt(root, 0real),
    ensures
        root == 0real,
{
    assert(root == 0real) by (nonlinear_arith)
        requires
            root * root == 0real,
    ;
}

/// The square root of a positive number is positive.
pub proof fn lemma_sqrt_positive(root: real, square: real)
    requires
        is_sqrt(root, square),
        square > 0real,
    ensures
        root > 0real,
{
    assert(root != 0real) by (nonlinear_arith)
        requires
            root * root == square,
            square > 0real,
    ;
}

/// A square root is at most any non-negative number whose square is at least
/// the radicand.
pub proof fn lemma_sqrt_at_most(root: real, square: real, bound: real)
    requires
        is_sqrt(root, square),
        bound >= 0real,
        square <= bound * bound,
    ensures
        root <= bound,
{
    assert(root <= bound) by (nonlinear_arith)
        requires
            root >= 0real,
            bound >= 0real,
            root * root <= bound * bound,
    ;
}

/// A square root is at least the magnitude of any number whose square is at
/// most the radicand.
pub proof fn lemma_sqrt_at_least(root: real, square: real, bound: real)
    requires
        is_sqrt(root, square),
        bound * bound <= square,
    ensures
        root >= bound,
        root >= -bound,
{
    assert(root >= bound && root >= -bound) by (nonlinear_arith)
        requires
            root >= 0real,
            bound * bound <= root * root,
    ;
}

/// Completing the square: `a` times the quadratic is the square of
/// `a·t + h`, less a quarter of the discriminant.
pub proof fn lemma_complete_square(a: real, h: real, c: real, t: real)
    ensures
        a * quadratic(a, h, c, t) == (a * t + h) * (a * t + h) - (h * h - a * c),
{
    let w = a * t;
    let x = w * t;
    let y = 2real * h * t;
    assert(a * (x + y + c) == a * x + a * y + a * c) by (nonlinear_arith);
    assert(a * x == w * w) by (nonlinear_arith)
        requires
            w == a * t,
            x == w * t,
    ;
    assert(a * y == 2real * (w * h)) by (nonlinear_arith)
        requires
            w == a * t,
            y == 2real * h * t,
    ;
    assert((w + h) * (w + h) == w * w + 2real * (w * h) + h * h) by (nonlinear_arith);
}

/// With `r` the square root of `h² − a·c`, the number `t` with
/// `a·t = −h − r` is a root of the quadratic.
pub proof fn lemma_root(a: real, h: real, c: real, r: real, t: real)
    requires
        a != 0real,
        is_sqrt(r, h * h - a * c),
        a * t == -h - r,
    ensures
        quadratic(a, h, c, t) == 0real,
{
    let s = a * t + h;
    let q = quadratic(a, h, c, t);
    lemma_complete_square(a, h, c, t);
    assert(s * s == r * r) by (nonlinear_arith)
        requires
            s == -r,
    ;
    assert(q == 0real) by (nonlinear_arith)
        requires
            a * q == 0real,
            a != 0real,
    ;
}

/// A quadratic whose discriminant is negative has no root.
pub proof fn lemma_no_root(a: real, h: real, c: real, t: real)
    requires
        h * h - a * c < 0real,
    ensures
        quadratic(a, h, c, t) != 0real,
{
    let s = a * t + h;
    let q = quadratic(a, h, c, t);
    lemma_complete_square(a, h, c, t);
    assert(s * s >= 0real) by (nonlinear_arith);
    assert(q == 0real ==> a * q == 0real) by (nonlinear_arith);
}

/// A product with a non-zero factor fixes the other factor's sign.
pub proof fn lemma_quotient_sign(a: real, t: real)
    requires
        a != 0real,
    ensures
        a > 0real && a * t >= 0real ==> t >= 0real,
        a < 0real && a * t <= 0real ==> t >= 0real,
        a * t == 0real ==> t == 0real,
{
    assert(a > 0real && a * t >= 0real ==> t >= 0real) by (nonlinear_arith);
    assert(a < 0real && a * t <= 0real ==> t >= 0real) by (nonlinear_arith);
    assert(a * t == 0real ==> t == 0real) by (nonlinear_arith)
        requires
            a != 0real,
    ;
}

/// The root chosen by `a·t = −h − r` is not negative when the leading
/// coefficient is negative, or when the linear coefficient is not positive.
pub proof fn lemma_root_nonnegative(a: real, h: real, c: real, r: real, t: real)
    requires
        a != 0real,
        is_sqrt(r, h * h - a * c),
        a * t == -h - r,
        c >= 0real,
        a < 0real || h <= 0real,
    ensures
        t >= 0real,
{
    lemma_quotient_sign(a, t);
    if a < 0real {
        assert(a * c <= 0real) by (nonlinear_arith)
            requires
                a < 0real,
                c >= 0real,
        ;
        lemma_sqrt_at_least(r, h * h - a * c, h);
    } else {
        assert(a * c >= 0real) by (nonlinear_arith)
            requires
                a > 0real,
                c >= 0real,
        ;
        assert((-h) * (-h) == h * h) by (nonlinear_arith);
        lemma_sqrt_at_most(r, h * h - a * c, -h);
    }
}

/// The root chosen by `a·t = −h − r` is zero exactly when the constant
/// coefficient is.
pub proof fn lemma_root_zero(a: real, h: real, c: real, r: real, t: real)
    requires
        a != 0real,
        is_sqrt(r, h * h - a * c),
        a * t == -h - r,
        c == 0real ==> h == 0real,
    ensures
        t == 0real <==> c == 0real,
{
    lemma_root(a, h, c, r, t);
    if t == 0real {
        assert(a * t * t + 2real * h * t + c == c) by (nonlinear_arith)
            requires
                t == 0real,
        ;
    }
    if c == 0real {
        assert(a * c == 0real && h * h == 0real) by (nonlinear_arith)
            requires
                c == 0real,
                h == 0real,
        ;
        lemma_sqrt_zero(r);
        lemma_quotient_sign(a, t);
    }
}

/// No root that is not negative comes before the one chosen by
/// `a·t = −h − r`.
pub proof fn lemma_root_earliest(a: real, h: real, c: real, r: real, t: real, u: real)
    requires
        a != 0real,
        is_sqrt(r, h * h - a * c),
        a * t == -h - r,
        c >= 0real,
        c == 0real ==> h == 0real,
        u >= 0real,
        quadratic(a, h, c, u) == 0real,
    ensures
        t <= u,
{
    let s = a * u + h;
    let q = quadratic(a, h, c, u);
    lemma_complete_square(a, h, c, u);
    assert(a * q == 0real) by (nonlinear_arith)
        requires
            q == 0real,
    ;
    assert(s == r || s == -r) by (nonlinear_arith)
        requires
            s * s == r * r,
    ;
    assert(a * (u - t) == a * u - a * t) by (nonlinear_arith);
    lemma_quotient_sign(a, u - t);
    if s == r && a < 0real {
        assert(a * u <= 0real) by (nonlinear_arith)
            requires
                a < 0real,
                u >= 0real,
        ;
        assert(a * c <= 0real) by (nonlinear_arith)
            requires
                a < 0real,
                c >= 0real,
        ;
        lemma_sqrt_at_least(r, h * h - a * c, h);
        assert(r == h);
        assert(c == 0real) by (nonlinear_arith)
            requires
                a * c == 0real,
                a != 0real,
        ;
    }
}

/// A quadratic whose coefficients are positive, but for the leading one,
/// which may be zero, is positive from time zero on.
pub proof fn lemma_no_future_root(a: real, h: real, c: real, t: real)
    requires
        a >= 0real,
        h > 0real,
        c > 0real,
        t >= 0real,
    ensures
        quadratic(a, h, c, t) > 0real,
{
    assert(a * t * t >= 0real && 2real * h * t >= 0real) by (nonlinear_arith)
        requires
            a >= 0real,
            h > 0real,
            t >= 0real,
    ;
}

/// Dividing and multiplying by the same non-zero number changes nothing.
pub proof fn lemma_quotient(numerator: real, denominator: real)
    requires
        denominator != 0real,
    ensures
        denominator * (numerator / denominator) == numerator,
{
    assert(denominator * (numerator / denominator) == numerator) by (nonlinear_arith)
        requires
            denominator != 0real,
    ;
}

/// A quotient whose numerator is zero is zero.
pub proof fn lemma_zero_quotient(root: real, denominator: real)
    requires
        denominator != 0real,
    ensures
        (0real + 0real * root) / denominator == 0real,
{
    assert((0real + 0real * root) / denominator == 0real) by (nonlinear_arith)
        requires
            denominator != 0real,
    ;
}

/// Along the line from `p` with slope `v`, the point at the chosen root `t`
/// is `s·t` times the quotient `(c·v − h·p + p·r) / (c·s)`.
pub proof fn lemma_point_at_root(
    a: real,
    h: real,
    c: real,
    r: real,
    t: real,
    s: real,
    p: real,
    v: real,
)
    requires
        a != 0real,
        r * r == h * h - a * c,
        a * t == -h - r,
        c > 0real,
        s > 0real,
    ensures
        p + v * t == (s * t) * ((c * v - h * p + p * r) / (c * s)),
{
    assert(a * (t * (r - h)) == a * c) by (nonlinear_arith)
        requires
            r * r == h * h - a * c,
            a * t == -h - r,
    ;
    assert(t * (r - h) == c) by (nonlinear_arith)
        requires
            a * (t * (r - h)) == a * c,
            a != 0real,
    ;
    let n = c * v - h * p + p * r;
    assert(t * n == c * (p + v * t)) by (nonlinear_arith)
        requires
            t * (r - h) == c,
            n == c * v - h * p + p * r,
    ;
    let d = c * s;
    assert(d != 0real) by (nonlinear_arith)
        requires
            d == c * s,
            c > 0real,
            s > 0real,
    ;
    let q = n / d;
    lemma_quotient(n, d);
    assert(c * ((s * t) * q) == t * n) by (nonlinear_arith)
        requires
            d * q == n,
            d == c * s,
    ;
    assert((s * t) * q == p + v * t) by (nonlinear_arith)
        requires
            c * ((s * t) * q) == c * (p + v * t),
            c > 0real,
    ;
}

/// A vector that is `k` times another and has length `k` is `k` times a
/// unit vector.
pub proof fn lemma_unit_length(x: (real, real, real), d: (real, real, real), k: real)
    requires
        x.0 == k * d.0,
        x.1 == k * d.1,
        x.2 == k * d.2,
        x.0 * x.0 + x.1 * x.1 + x.2 * x.2 == k * k,
        k > 0real,
    ensures
        d.0 * d.0 + d.1 * d.1 + d.2 * d.2 == 1real,
{
    assert((k * d.0) * (k * d.0) == (k * k) * (d.0 * d.0)) by (nonlinear_arith);
    assert((k * d.1) * (k * d.1) == (k * k) * (d.1 * d.1)) by (nonlinear_arith);
    assert((k * d.2) * (k * d.2) == (k * k) * (d.2 * d.2)) by (nonlinear_arith);
    let n = d.0 * d.0 + d.1 * d.1 + d.2 * d.2;
    let kk = k * k;
    assert(kk * n == kk * (d.0 * d.0) + kk * (d.1 * d.1) + kk * (d.2 * d.2)) by (nonlinear_arith)
        requires
            n == d.0 * d.0 + d.1 * d.1 + d.2 * d.2,
    ;
    assert(n == 1real) by (nonlinear_arith)
        requires
            kk * n == kk,
            kk == k * k,
            k > 0real,
    ;
}

} // verus!
