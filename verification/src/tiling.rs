//! The triangles of a simple outline do not overlap.
//!
//! The proof counts how a line is crossed. Of the sides of a triangle that
//! lie ahead on the line, as seen from a place on it, those that go up are one
//! more than those that go down where the place lies within the triangle, and
//! as many elsewhere. Along an outline the counts of its triangles add up.
//! Where a place lay in an ear and in a triangle cut later, the line from the
//! corner of the ear through that place would meet two of the later triangles
//! at once where it leaves the ear.
use crate::ears;
use crate::polygon;
use crate::polygon::Point;
use vstd::prelude::*;

verus! {

// ---------------------------------------------------------------------------
// Places and lines
// ---------------------------------------------------------------------------

/// The place at `x / m`, `y / m`, for a positive `m`: any place at fractions
/// of the unit.
pub struct Place {
    pub x: int,
    pub y: int,
    pub m: int,
}

/// Twice the area of the triangle from `a` and `b` to a place, times `m`:
/// positive where the place lies to the left on the way from `a` to `b`.
#[verifier::opaque]
pub open spec fn side(a: Point, b: Point, p: Place) -> int {
    (b.x - a.x) * (p.y - p.m * a.y) - (b.y - a.y) * (p.x - p.m * a.x)
}

/// The place lies within the triangle, which goes round counter-clockwise, and
/// on none of its sides.
pub open spec fn inside(p: Place, a: Point, b: Point, c: Point) -> bool {
    side(a, b, p) > 0 && side(b, c, p) > 0 && side(c, a, p) > 0
}

/// The line through a point in some direction.
struct Line {
    o: Point,
    x: int,
    y: int,
}

/// How far a point lies to the left of the line.
#[verifier::opaque]
spec fn height(l: Line, u: Point) -> int {
    l.x * (u.y - l.o.y) - l.y * (u.x - l.o.x)
}

/// How far it is along the line from `u` to `v`.
#[verifier::opaque]
spec fn along(l: Line, u: Point, v: Point) -> int {
    (v.x - u.x) * l.x + (v.y - u.y) * l.y
}

/// A place on the line.
spec fn on(l: Line, k: int, m: int) -> Place {
    Place { x: m * l.o.x + k * l.x, y: m * l.o.y + k * l.y, m }
}

proof fn product(p: int, q: int, r: int, s: int)
    ensures
        (p - q) * (r - s) == p * r - p * s - q * r + q * s,
{
    assert((p - q) * (r - s) == p * r - p * s - q * r + q * s) by (nonlinear_arith);
}

proof fn spread(k: int, p: int, q: int)
    ensures
        k * (p - q) == k * p - k * q,
        k * (p + q) == k * p + k * q,
        (p - q) * k == p * k - q * k,
        (p + q) * k == p * k + q * k,
{
    assert(k * (p - q) == k * p - k * q && k * (p + q) == k * p + k * q) by (nonlinear_arith);
    assert((p - q) * k == p * k - q * k && (p + q) * k == p * k + q * k) by (nonlinear_arith);
}

proof fn triple(p: int, k: int, q: int)
    ensures
        p * (k * q) == q * (k * p),
        p * (k * q) == k * (q * p),
        p * (k * q) == k * (p * q),
        p * (k * q) == (k * q) * p,
{
    assert(p * (k * q) == q * (k * p) && p * (k * q) == k * (q * p) && p * (k * q) == k * (p * q) && p
        * (k * q) == (k * q) * p) by (nonlinear_arith);
}

/// Two pairs of vectors: the products of their areas.
proof fn plucker(dx: int, dy: int, ex: int, ey: int, ux: int, uy: int, vx: int, vy: int)
    ensures
        (dx * vy - dy * vx) * (ex * uy - ey * ux) - (dx * uy - dy * ux) * (ex * vy - ey * vx) == (dx
            * ey - dy * ex) * (vx * uy - vy * ux),
{
    product(dx * vy, dy * vx, ex * uy, ey * ux);
    product(dx * uy, dy * ux, ex * vy, ey * vx);
    product(dx * ey, dy * ex, vx * uy, vy * ux);
    regroup(dx, vy, ex, uy);
    regroup(dx, vy, ey, ux);
    regroup(dy, vx, ex, uy);
    regroup(dy, vx, ey, ux);
    regroup(dx, uy, ey, vx);
    regroup(dy, ux, ex, vy);
}

proof fn regroup(p: int, q: int, r: int, s: int)
    ensures
        (p * q) * (r * s) == (p * s) * (r * q),
        (p * q) * (r * s) == (p * r) * (s * q),
        (p * q) * (r * s) == (p * s) * (q * r),
        (p * q) * (r * s) == (p * r) * (q * s),
{
    assert((p * q) * (r * s) == (p * s) * (r * q)) by (nonlinear_arith);
    assert((p * q) * (r * s) == (p * r) * (s * q)) by (nonlinear_arith);
    assert((p * q) * (r * s) == (p * s) * (q * r)) by (nonlinear_arith);
    assert((p * q) * (r * s) == (p * r) * (q * s)) by (nonlinear_arith);
}

/// On a line the side on which a place lies goes with how far it is.
proof fn side_on(l: Line, u: Point, v: Point, k: int, m: int)
    ensures
        side(u, v, on(l, k, m)) == m * polygon::cross(l.o, u, v) - k * (height(l, v) - height(l, u)),
{
    reveal(side);
    reveal(height);
    let (ux, uy, vx, vy) = (u.x - l.o.x, u.y - l.o.y, v.x - l.o.x, v.y - l.o.y);
    let (sx, sy) = (vx - ux, vy - uy);
    let p = on(l, k, m);
    spread(m, u.x as int, l.o.x as int);
    spread(m, u.y as int, l.o.y as int);
    assert(p.x - m * u.x == k * l.x - m * ux);
    assert(p.y - m * u.y == k * l.y - m * uy);
    assert(side(u, v, p) == sx * (k * l.y - m * uy) - sy * (k * l.x - m * ux));
    assert(polygon::cross(l.o, u, v) == ux * vy - uy * vx);
    assert(height(l, v) - height(l, u) == l.x * sy - l.y * sx) by {
        spread(l.x, vy, uy);
        spread(l.y, vx, ux);
    }
    let (dx, dy) = (l.x, l.y);
    spread(sx, k * dy, m * uy);
    spread(sy, k * dx, m * ux);
    spread(m * uy, vx, ux);
    spread(m * ux, vy, uy);
    spread(m, ux * vy, uy * vx);
    spread(k, dx * sy, dy * sx);
    triple(sx, k, dy);
    triple(sy, k, dx);
    triple(vx, m, uy);
    triple(ux, m, uy);
    triple(vy, m, ux);
}

/// A side the other way round.
proof fn side_turned(u: Point, v: Point, p: Place)
    ensures
        side(v, u, p) == -side(u, v, p),
{
    reveal(side);
    let (ux, uy, vx, vy) = (u.x as int, u.y as int, v.x as int, v.y as int);
    let (x, y, m) = (p.x, p.y, p.m);
    product(ux, vx, y, m * vy);
    product(uy, vy, x, m * vx);
    product(vx, ux, y, m * uy);
    product(vy, uy, x, m * ux);
    triple(ux, m, vy);
    triple(vx, m, vy);
    triple(uy, m, vx);
    triple(ux, m, uy);
}

/// The heights of three points, weighted with the areas of the others.
proof fn heights_balance(l: Line, a: Point, b: Point, c: Point)
    ensures
        polygon::cross(l.o, b, c) * height(l, a) + polygon::cross(l.o, c, a) * height(l, b)
            + polygon::cross(l.o, a, b) * height(l, c) == 0,
{
    reveal(height);
    let o = l.o;
    let (ax, ay, bx, by, cx, cy) = (
        a.x - o.x,
        a.y - o.y,
        b.x - o.x,
        b.y - o.y,
        c.x - o.x,
        c.y - o.y,
    );
    plucker(l.x, l.y, cx, cy, bx, by, ax, ay);
    ears::turned(o, b, c);
    assert(polygon::cross(o, c, b) == cx * by - cy * bx);
    assert(polygon::cross(o, c, a) == cx * ay - cy * ax);
    assert(polygon::cross(o, a, b) == ax * by - ay * bx);
    let (ha, hb, hc) = (height(l, a), height(l, b), height(l, c));
    negate(polygon::cross(o, c, b), ha);
    triple(ha, 1, polygon::cross(o, c, b));
    triple(hb, 1, polygon::cross(o, c, a));
    triple(hc, 1, polygon::cross(o, a, b));
}

proof fn negate(p: int, q: int)
    ensures
        (-p) * q == -(p * q),
        p * (-q) == -(p * q),
{
    assert((-p) * q == -(p * q) && p * (-q) == -(p * q)) by (nonlinear_arith);
}

/// The sides on which a place of the line lies.
proof fn sides_add(l: Line, a: Point, b: Point, c: Point, k: int, m: int)
    ensures
        ({
            let p = on(l, k, m);
            side(a, b, p) + side(b, c, p) + side(c, a, p) == m * polygon::cross(a, b, c)
        }),
{
    side_on(l, a, b, k, m);
    side_on(l, b, c, k, m);
    side_on(l, c, a, k, m);
    ears::parts(a, b, c, l.o);
    ears::turned(a, b, l.o);
    ears::turned(b, c, l.o);
    ears::turned(c, a, l.o);
    let (ha, hb, hc) = (height(l, a), height(l, b), height(l, c));
    spread(k, hb, ha);
    spread(k, hc, hb);
    spread(k, ha, hc);
    let (p, q, r) = (
        polygon::cross(l.o, a, b),
        polygon::cross(l.o, b, c),
        polygon::cross(l.o, c, a),
    );
    spread(m, p, q);
    spread(m, p + q, r);
}

/// The heights of a triangle, weighted with the sides on which a place of the
/// line lies.
proof fn sides_balance(l: Line, a: Point, b: Point, c: Point, k: int, m: int)
    ensures
        ({
            let p = on(l, k, m);
            side(b, c, p) * height(l, a) + side(c, a, p) * height(l, b) + side(a, b, p) * height(
                l,
                c,
            ) == 0
        }),
{
    side_on(l, a, b, k, m);
    side_on(l, b, c, k, m);
    side_on(l, c, a, k, m);
    heights_balance(l, a, b, c);
    let (ha, hb, hc) = (height(l, a), height(l, b), height(l, c));
    let (p, q, r) = (
        polygon::cross(l.o, a, b),
        polygon::cross(l.o, b, c),
        polygon::cross(l.o, c, a),
    );
    spread(ha, m * q, k * (hc - hb));
    spread(hb, m * r, k * (ha - hc));
    spread(hc, m * p, k * (hb - ha));
    triple(ha, m, q);
    triple(hb, m, r);
    triple(hc, m, p);
    triple(ha, k, hc - hb);
    triple(hb, k, ha - hc);
    triple(hc, k, hb - ha);
    spread(ha, hc, hb);
    spread(hb, ha, hc);
    spread(hc, hb, ha);
    triple(ha, 1, hb);
    triple(ha, 1, hc);
    triple(hb, 1, hc);
    spread(m, q * ha, r * hb);
    spread(m, q * ha + r * hb, p * hc);
    let (x, y, z) = (ha * (hc - hb), hb * (ha - hc), hc * (hb - ha));
    assert(x + y + z == 0);
    spread(k, x, y);
    spread(k, x + y, z);
    assert(k * (x + y + z) == 0);
    assert(m * (q * ha + r * hb + p * hc) == 0);
}

/// What a segment and a side make of a line.
proof fn line_balance(l: Line, u: Point, v: Point, p: Point, q: Point)
    ensures
        polygon::cross(l.o, p, q) * (height(l, v) - height(l, u)) == height(l, v) * polygon::cross(
            p,
            q,
            u,
        ) - height(l, u) * polygon::cross(p, q, v) + (height(l, q) - height(l, p)) * polygon::cross(
            l.o,
            u,
            v,
        ),
{
    let o = l.o;
    heights_balance(l, q, u, v);
    heights_balance(l, p, u, v);
    ears::parts(p, q, u, o);
    ears::parts(p, q, v, o);
    ears::turned(p, q, o);
    ears::turned(q, u, o);
    ears::turned(u, p, o);
    ears::turned(q, v, o);
    ears::turned(v, p, o);
    ears::turned(o, u, p);
    ears::turned(o, v, q);
    ears::turned(o, u, q);
    ears::turned(o, v, p);
    let (hu, hv, hp, hq) = (height(l, u), height(l, v), height(l, p), height(l, q));
    let f = polygon::cross(o, p, q);
    let (qu, qv, pu, pv) = (
        polygon::cross(o, q, u),
        polygon::cross(o, q, v),
        polygon::cross(o, p, u),
        polygon::cross(o, p, v),
    );
    assert(polygon::cross(p, q, u) == f + qu - pu);
    assert(polygon::cross(p, q, v) == f + qv - pv);
    spread(f, hv, hu);
    spread(hv, f + qu, pu);
    spread(hv, f, qu);
    spread(hu, f + qv, pv);
    spread(hu, f, qv);
    spread(polygon::cross(o, u, v), hq, hp);
    negate(qv, hu);
    negate(pv, hu);
    triple(hv, 1, f);
    triple(hu, 1, f);
    triple(hv, 1, qu);
    triple(hv, 1, pu);
    triple(hu, 1, qv);
    triple(hu, 1, pv);
}

/// The same of the side on which a place of the line lies.
proof fn place_balance(l: Line, u: Point, v: Point, p: Point, q: Point, k: int, m: int)
    ensures
        side(p, q, on(l, k, m)) * (height(l, v) - height(l, u)) == m * (height(l, v)
            * polygon::cross(p, q, u) - height(l, u) * polygon::cross(p, q, v)) + (height(l, q)
            - height(l, p)) * side(u, v, on(l, k, m)),
{
    side_on(l, p, q, k, m);
    side_on(l, u, v, k, m);
    line_balance(l, u, v, p, q);
    let n = height(l, v) - height(l, u);
    let kappa = height(l, q) - height(l, p);
    let f = polygon::cross(l.o, p, q);
    let s = polygon::cross(l.o, u, v);
    let big = height(l, v) * polygon::cross(p, q, u) - height(l, u) * polygon::cross(p, q, v);
    spread(n, m * f, k * kappa);
    spread(kappa, m * s, k * n);
    triple(n, m, f);
    triple(kappa, m, s);
    triple(n, k, kappa);
    triple(kappa, k, n);
    spread(m, big, kappa * s);
    assert(f * n == big + kappa * s);
}

/// The area of a triangle, from the heights of its corners and how far they
/// are along the line.
proof fn area_by_heights(l: Line, a: Point, b: Point, c: Point)
    ensures
        polygon::cross(a, b, c) * (l.x * l.x + l.y * l.y) == along(l, a, b) * (height(l, c) - height(
            l,
            a,
        )) - (height(l, b) - height(l, a)) * along(l, a, c),
{
    reveal(height);
    reveal(along);
    let (ex, ey, fx, fy) = (b.x - a.x, b.y - a.y, c.x - a.x, c.y - a.y);
    plucker(l.x, l.y, -l.y, l.x, ex, ey, fx, fy);
    spread(l.x, c.y - l.o.y, a.y - l.o.y);
    spread(l.y, c.x - l.o.x, a.x - l.o.x);
    spread(l.x, b.y - l.o.y, a.y - l.o.y);
    spread(l.y, b.x - l.o.x, a.x - l.o.x);
    let (hf, he) = (height(l, c) - height(l, a), height(l, b) - height(l, a));
    assert(hf == l.x * fy - l.y * fx);
    assert(he == l.x * ey - l.y * ex);
    let (ae, af) = (along(l, a, b), along(l, a, c));
    assert(-l.y * ey - l.x * ex == -ae && -l.y * fy - l.x * fx == -af) by {
        negate(l.y, ey);
        negate(l.y, fy);
        triple(l.y, 1, ey);
        triple(l.x, 1, ex);
        triple(l.y, 1, fy);
        triple(l.x, 1, fx);
    }
    assert(l.x * l.x - l.y * (-l.y) == l.x * l.x + l.y * l.y) by {
        negate(l.y, l.y);
    }
    negate(hf, ae);
    negate(he, af);
    triple(hf, 1, ae);
    let d = polygon::cross(a, b, c);
    let e = l.x * l.x + l.y * l.y;
    assert(fx * ey - fy * ex == -d) by {
        triple(fx, 1, ey);
        triple(fy, 1, ex);
    }
    negate(e, d);
    triple(e, 1, d);
}

// ---------------------------------------------------------------------------
// Triangles on a line
// ---------------------------------------------------------------------------

/// How a side counts that goes from height `hu` to `hv`, for a place on the
/// line with the side to this side of it: one up where it goes up ahead of the
/// place, one down where it goes down there.
spec fn count(hu: int, hv: int, s: int) -> int {
    if hu <= 0 && 0 < hv && s > 0 {
        1
    } else if hv <= 0 && 0 < hu && s < 0 {
        -1
    } else {
        0
    }
}

spec fn hit(l: Line, p: Place, u: Point, v: Point) -> int {
    count(height(l, u), height(l, v), side(u, v, p))
}

/// How the sides of a triangle count.
spec fn hits(l: Line, p: Place, a: Point, b: Point, c: Point) -> int {
    hit(l, p, a, b) + hit(l, p, b, c) + hit(l, p, c, a)
}

/// A place a little ahead on the line, and a little less to the left of it,
/// lies to the left of the side. The third corner is at height `hw`.
spec fn kept(hu: int, hv: int, hw: int, s: int) -> bool {
    s > 0 || s == 0 && (hu > hv || hu == hv && hw > hu)
}

proof fn signs(x: int, y: int)
    ensures
        x > 0 && y > 0 ==> x * y > 0,
        x < 0 && y < 0 ==> x * y > 0,
        x > 0 && y < 0 ==> x * y < 0,
        x < 0 && y > 0 ==> x * y < 0,
        x == 0 || y == 0 ==> x * y == 0,
{
    assert((x > 0 && y > 0 ==> x * y > 0) && (x < 0 && y < 0 ==> x * y > 0) && (x > 0 && y < 0 ==> x
        * y < 0) && (x < 0 && y > 0 ==> x * y < 0) && (x == 0 || y == 0 ==> x * y == 0))
        by (nonlinear_arith);
}

/// A triangle counts once or not at all.
proof fn counts(ha: int, hb: int, hc: int, ab: int, bc: int, ca: int)
    requires
        ab + bc + ca > 0,
        bc * ha + ca * hb + ab * hc == 0,
    ensures
        ({
            let n = count(ha, hb, ab) + count(hb, hc, bc) + count(hc, ha, ca);
            &&& 0 <= n <= 1
            &&& ab > 0 && bc > 0 && ca > 0 && !(ha == 0 && hb == 0 && hc == 0) ==> n == 1
            &&& n == 1 ==> kept(ha, hb, hc, ab) && kept(hb, hc, ha, bc) && kept(hc, ha, hb, ca)
        }),
{
    signs(bc, ha);
    signs(ca, hb);
    signs(ab, hc);
}

/// A triangle that goes round counter-clockwise counts once or not at all: once
/// where the place lies within. Where it counts, a place a little ahead lies
/// within.
proof fn triangle_counts(l: Line, a: Point, b: Point, c: Point, k: int, m: int)
    requires
        l.x != 0 || l.y != 0,
        m > 0,
        polygon::cross(a, b, c) > 0,
    ensures
        ({
            let p = on(l, k, m);
            let n = hits(l, p, a, b, c);
            &&& 0 <= n <= 1
            &&& inside(p, a, b, c) ==> n == 1
            &&& n == 1 ==> ahead(l, p, a, b) && ahead(l, p, b, c) && ahead(l, p, c, a)
        }),
{
    let p = on(l, k, m);
    let (ha, hb, hc) = (height(l, a), height(l, b), height(l, c));
    let d = polygon::cross(a, b, c);
    let e = l.x * l.x + l.y * l.y;
    sides_add(l, a, b, c, k, m);
    sides_balance(l, a, b, c, k, m);
    signs(m, d);
    signs(l.x, l.x);
    signs(l.y, l.y);
    signs(d, e);
    area_by_heights(l, a, b, c);
    area_by_heights(l, b, c, a);
    area_by_heights(l, c, a, b);
    ears::turned(a, b, c);
    signs(along(l, a, b), hc - ha);
    signs(hb - ha, along(l, a, c));
    signs(along(l, b, c), ha - hb);
    signs(hc - hb, along(l, b, a));
    signs(along(l, c, a), hb - hc);
    signs(ha - hc, along(l, c, b));
    counts(ha, hb, hc, side(a, b, p), side(b, c, p), side(c, a, p));
}

/// A place a little ahead on the line, and a little less to the left of it,
/// lies to the left of the side.
spec fn ahead(l: Line, p: Place, u: Point, v: Point) -> bool {
    ||| side(u, v, p) > 0
    ||| side(u, v, p) == 0 && height(l, u) > height(l, v)
    ||| side(u, v, p) == 0 && height(l, u) == height(l, v) && along(l, u, v) > 0
}

/// A place ahead of another one by a `k`th of the line's direction, and to the
/// left by a `k`th of that.
spec fn moved(l: Line, p: Place, k: int) -> Place {
    Place {
        x: (k * k) * p.x + (k * l.x - l.y),
        y: (k * k) * p.y + (k * l.y + l.x),
        m: (k * k) * p.m,
    }
}

proof fn moved_side(l: Line, p: Place, k: int, u: Point, v: Point)
    ensures
        side(u, v, moved(l, p, k)) == (k * k) * side(u, v, p) + k * (height(l, u) - height(l, v))
            + along(l, u, v),
{
    reveal(side);
    reveal(height);
    reveal(along);
    let (sx, sy) = (v.x - u.x, v.y - u.y);
    let kk = k * k;
    let (px, py) = (p.x - p.m * u.x, p.y - p.m * u.y);
    let q = moved(l, p, k);
    assert(q.x - q.m * u.x == kk * px + (k * l.x - l.y)) by {
        spread(kk, p.x, p.m * u.x);
        assert((kk * p.m) * u.x == kk * (p.m * u.x)) by (nonlinear_arith);
    }
    assert(q.y - q.m * u.y == kk * py + (k * l.y + l.x)) by {
        spread(kk, p.y, p.m * u.y);
        assert((kk * p.m) * u.y == kk * (p.m * u.y)) by (nonlinear_arith);
    }
    spread(sx, kk * py, k * l.y + l.x);
    spread(sx, k * l.y, l.x);
    spread(sy, kk * px, k * l.x - l.y);
    spread(sy, k * l.x, l.y);
    triple(sx, kk, py);
    triple(sy, kk, px);
    triple(sx, k, l.y);
    triple(sy, k, l.x);
    spread(kk, sx * py, sy * px);
    assert(height(l, u) - height(l, v) == l.y * sx - l.x * sy) by {
        spread(l.x, v.y - l.o.y, u.y - l.o.y);
        spread(l.y, v.x - l.o.x, u.x - l.o.x);
    }
    spread(k, l.y * sx, l.x * sy);
}

/// Size of a number.
spec fn size(x: int) -> int {
    if x < 0 {
        -x
    } else {
        x
    }
}

/// How small a step ahead has to be for one side.
#[verifier::opaque]
spec fn step(l: Line, u: Point, v: Point) -> int {
    size(height(l, u) - height(l, v)) + size(along(l, u, v))
}

/// A small step ahead leads to the left of the side.
proof fn moved_ahead(l: Line, p: Place, k: int, u: Point, v: Point)
    requires
        ahead(l, p, u, v),
        k > step(l, u, v),
    ensures
        side(u, v, moved(l, p, k)) > 0,
{
    reveal(step);
    moved_side(l, p, k, u, v);
    let (s, x, y) = (side(u, v, p), height(l, u) - height(l, v), along(l, u, v));
    if s > 0 {
        assert((k * k) * s + k * x + y > 0) by (nonlinear_arith)
            requires
                s >= 1,
                k >= 1,
                k > x,
                k > -x,
                k > y - x,
                k > -y - x,
                k > y + x,
                k > x - y,
        {
            assert((k * k) * s >= k * k) by (nonlinear_arith)
                requires
                    s >= 1,
            ;
            if y >= 0 {
                assert(k * (k + x) > 0) by (nonlinear_arith)
                    requires
                        k >= 1,
                        k > -x,
                ;
            } else {
                assert(k * (k + x) >= k * (1 - y)) by (nonlinear_arith)
                    requires
                        k >= 1,
                        k > -y - x,
                ;
                assert(k * (1 - y) >= 1 - y) by (nonlinear_arith)
                    requires
                        k >= 1,
                        y < 0,
                ;
            }
            assert(k * (k + x) == k * k + k * x) by (nonlinear_arith);
        }
    } else if x > 0 {
        assert(k * x >= k) by (nonlinear_arith)
            requires
                x >= 1,
                k >= 1,
        ;
    }
}

/// A small step ahead leads into a triangle that counts.
proof fn triangle_ahead(l: Line, k: int, m: int, t: (Point, Point, Point), n: int)
    requires
        l.x != 0 || l.y != 0,
        m > 0,
        polygon::cross(t.0, t.1, t.2) > 0,
        hits(l, on(l, k, m), t.0, t.1, t.2) == 1,
        n > step(l, t.0, t.1),
        n > step(l, t.1, t.2),
        n > step(l, t.2, t.0),
    ensures
        inside(moved(l, on(l, k, m), n), t.0, t.1, t.2),
{
    triangle_counts(l, t.0, t.1, t.2, k, m);
    let p = on(l, k, m);
    moved_ahead(l, p, n, t.0, t.1);
    moved_ahead(l, p, n, t.1, t.2);
    moved_ahead(l, p, n, t.2, t.0);
}

/// A step for all sides of a triangle.
proof fn step_for(l: Line, t: (Point, Point, Point)) -> (n: int)
    ensures
        n > 0,
        n > step(l, t.0, t.1),
        n > step(l, t.1, t.2),
        n > step(l, t.2, t.0),
{
    reveal(step);
    1 + step(l, t.0, t.1) + step(l, t.1, t.2) + step(l, t.2, t.0)
}

/// Two triangles that count at one place share a place within.
proof fn both_count(
    l: Line,
    k: int,
    m: int,
    t: (Point, Point, Point),
    s: (Point, Point, Point),
) -> (r: Place)
    requires
        l.x != 0 || l.y != 0,
        m > 0,
        polygon::cross(t.0, t.1, t.2) > 0,
        polygon::cross(s.0, s.1, s.2) > 0,
        hits(l, on(l, k, m), t.0, t.1, t.2) == 1,
        hits(l, on(l, k, m), s.0, s.1, s.2) == 1,
    ensures
        r.m > 0,
        inside(r, t.0, t.1, t.2),
        inside(r, s.0, s.1, s.2),
{
    let n = step_for(l, t) + step_for(l, s);
    triangle_ahead(l, k, m, t, n);
    triangle_ahead(l, k, m, s, n);
    signs(n, n);
    signs(n * n, m);
    moved(l, on(l, k, m), n)
}

// ---------------------------------------------------------------------------
// Sums round a ring
// ---------------------------------------------------------------------------

/// Sum over the first `k` sides of a ring of places.
spec fn first_sides(f: spec_fn(int, int) -> int, at: Seq<int>, k: int) -> int
    decreases k,
{
    if k <= 0 {
        0
    } else {
        first_sides(f, at, k - 1) + f(at[k - 1], at[polygon::after(k - 1, at.len() as int)])
    }
}

/// Sum over all sides.
spec fn round(f: spec_fn(int, int) -> int, at: Seq<int>) -> int {
    first_sides(f, at, at.len() as int)
}

/// Sum over the sides of a triangle.
spec fn about(f: spec_fn(int, int) -> int, e: (int, int, int)) -> int {
    f(e.0, e.1) + f(e.1, e.2) + f(e.2, e.0)
}

/// Sum over the sides of some triangles.
spec fn total(f: spec_fn(int, int) -> int, ears: Seq<(int, int, int)>) -> int
    decreases ears.len(),
{
    if ears.len() == 0 {
        0
    } else {
        about(f, ears[0]) + total(f, ears.drop_first())
    }
}

proof fn sides_before(f: spec_fn(int, int) -> int, at: Seq<int>, i: int, k: int)
    requires
        0 <= k < i < at.len(),
    ensures
        first_sides(f, at.remove(i), k) == first_sides(f, at, k),
    decreases k,
{
    if k > 0 {
        sides_before(f, at, i, k - 1);
    }
}

proof fn sides_behind(f: spec_fn(int, int) -> int, at: Seq<int>, i: int, k: int)
    requires
        at.len() >= 3,
        0 <= i <= k <= at.len() - 2,
    ensures
        ({
            let (a, b, c) = polygon::ear_at(at, i);
            let cut = if i == 0 {
                f(b, c)
            } else {
                f(a, b) + f(b, c) - f(a, c)
            };
            first_sides(f, at, k + 1) == first_sides(f, at.remove(i), k) + cut
        }),
    decreases k,
{
    let n = at.len() as int;
    let rest = at.remove(i);
    if k > i {
        sides_behind(f, at, i, k - 1);
        assert(rest[k - 1] == at[k]);
        assert(rest[k] == at[k + 1]);
    } else if i == 0 {
        reveal_with_fuel(first_sides, 2);
    } else {
        reveal_with_fuel(first_sides, 3);
        sides_before(f, at, i, i - 1);
        assert(rest[i - 1] == at[i - 1] && rest[i] == at[i + 1]);
    }
}

/// Cutting a corner takes away the sum of the triangle at it.
proof fn cut_round(f: spec_fn(int, int) -> int, at: Seq<int>, i: int)
    requires
        at.len() >= 3,
        0 <= i < at.len(),
        forall|u: int, v: int| #[trigger] f(u, v) == -f(v, u),
    ensures
        round(f, at) == round(f, at.remove(i)) + about(f, polygon::ear_at(at, i)),
{
    let n = at.len() as int;
    let (a, b, c) = polygon::ear_at(at, i);
    let rest = at.remove(i);
    assert(f(c, a) == -f(a, c));
    if i == n - 1 {
        sides_before(f, at, i, n - 2);
        reveal_with_fuel(first_sides, 3);
        assert(rest[n - 2] == at[n - 2] && rest[0] == at[0]);
    } else {
        sides_behind(f, at, i, n - 2);
        assert(rest[n - 2] == at[n - 1]);
        assert(rest[0] == if i == 0 {
            at[1]
        } else {
            at[0]
        });
    }
}

/// The triangles of an outline that is cut to the end sum up to the outline.
proof fn triangles_sum(f: spec_fn(int, int) -> int, poly: Seq<Point>, at: Seq<int>)
    requires
        at.len() >= 3,
        polygon::left_over(poly, at).len() == 0,
        forall|u: int, v: int| #[trigger] f(u, v) == -f(v, u),
    ensures
        total(f, polygon::clipped(poly, at)) == round(f, at),
    decreases at.len(),
{
    let cut = polygon::clipped(poly, at);
    if at.len() == 3 {
        reveal_with_fuel(first_sides, 4);
        assert(total(f, cut.drop_first()) == 0);
    } else {
        let i = polygon::first_ear(poly, at, 0)->0;
        let rest = at.remove(i);
        triangles_sum(f, poly, rest);
        cut_round(f, at, i);
        assert(cut.drop_first() =~= polygon::clipped(poly, rest));
    }
}

/// Two sums that differ at one side.
proof fn sides_differ(
    f: spec_fn(int, int) -> int,
    g: spec_fn(int, int) -> int,
    at: Seq<int>,
    q: int,
    k: int,
)
    requires
        0 <= k <= at.len(),
        forall|j: int|
            0 <= j < at.len() && j != q ==> #[trigger] side_of(f, at, j) == side_of(g, at, j),
    ensures
        first_sides(g, at, k) - first_sides(f, at, k) == if 0 <= q < k {
            side_of(g, at, q) - side_of(f, at, q)
        } else {
            0
        },
    decreases k,
{
    if k > 0 {
        sides_differ(f, g, at, q, k - 1);
        if k - 1 != q {
            assert(side_of(f, at, k - 1) == side_of(g, at, k - 1));
        }
    }
}

spec fn side_of(f: spec_fn(int, int) -> int, at: Seq<int>, j: int) -> int {
    f(at[j], at[polygon::after(j, at.len() as int)])
}

/// Where no triangle sums up to less than none, one alone is not more than all.
proof fn one_of_total(f: spec_fn(int, int) -> int, ears: Seq<(int, int, int)>, j: int)
    requires
        forall|t: int| 0 <= t < ears.len() ==> about(f, #[trigger] ears[t]) >= 0,
    ensures
        total(f, ears) >= 0,
        0 <= j < ears.len() ==> total(f, ears) >= about(f, ears[j]),
    decreases ears.len(),
{
    if ears.len() > 0 {
        let rest = ears.drop_first();
        assert forall|t: int| 0 <= t < rest.len() implies about(f, #[trigger] rest[t]) >= 0 by {
            assert(rest[t] == ears[t + 1]);
        }
        one_of_total(f, rest, j - 1);
        assert(about(f, ears[0]) >= 0);
        if 0 < j < ears.len() {
            assert(rest[j - 1] == ears[j]);
        }
    }
}

/// Where each triangle counts at most once, some one counts in a sum above
/// none.
proof fn one_counts(f: spec_fn(int, int) -> int, ears: Seq<(int, int, int)>) -> (j: int)
    requires
        forall|t: int| 0 <= t < ears.len() ==> 0 <= about(f, #[trigger] ears[t]) <= 1,
        total(f, ears) >= 1,
    ensures
        0 <= j < ears.len(),
        about(f, ears[j]) == 1,
    decreases ears.len(),
{
    assert(0 <= about(f, ears[0]) <= 1);
    if about(f, ears[0]) == 1 {
        0
    } else {
        let rest = ears.drop_first();
        assert forall|t: int| 0 <= t < rest.len() implies 0 <= about(f, #[trigger] rest[t])
            <= 1 by {
            assert(rest[t] == ears[t + 1]);
        }
        let j = one_counts(f, rest);
        assert(rest[j] == ears[j + 1]);
        j + 1
    }
}

/// Two triangles count in a sum above one.
proof fn two_count(f: spec_fn(int, int) -> int, ears: Seq<(int, int, int)>) -> (r: (int, int))
    requires
        forall|t: int| 0 <= t < ears.len() ==> 0 <= about(f, #[trigger] ears[t]) <= 1,
        total(f, ears) >= 2,
    ensures
        0 <= r.0 < r.1 < ears.len(),
        about(f, ears[r.0]) == 1,
        about(f, ears[r.1]) == 1,
    decreases ears.len(),
{
    let rest = ears.drop_first();
    assert(0 <= about(f, ears[0]) <= 1);
    assert forall|t: int| 0 <= t < rest.len() implies 0 <= about(f, #[trigger] rest[t]) <= 1 by {
        assert(rest[t] == ears[t + 1]);
    }
    if about(f, ears[0]) == 1 {
        let j = one_counts(f, rest);
        assert(rest[j] == ears[j + 1]);
        (0, j + 1)
    } else {
        let (i, j) = two_count(f, rest);
        assert(rest[i] == ears[i + 1] && rest[j] == ears[j + 1]);
        (i + 1, j + 1)
    }
}

// ---------------------------------------------------------------------------
// Leaving an ear
// ---------------------------------------------------------------------------

/// The line from the corner `b` through a place.
spec fn line_through(b: Point, p: Place) -> Line {
    Line { o: b, x: p.x - p.m * b.x, y: p.y - p.m * b.y }
}

/// Where the line from `b` through a place in the triangle leaves it.
spec fn way_out(a: Point, b: Point, c: Point, p: Place) -> Place {
    let l = line_through(b, p);
    on(l, polygon::cross(a, b, c), height(l, a) - height(l, c))
}

/// What lies where on the line from `b` through a place in the triangle.
proof fn line_through_is(a: Point, b: Point, c: Point, p: Place)
    requires
        p.m > 0,
        inside(p, a, b, c),
    ensures
        ({
            let l = line_through(b, p);
            let q = way_out(a, b, c, p);
            &&& l.x != 0 || l.y != 0
            &&& p == on(l, 1, p.m)
            &&& height(l, a) > 0
            &&& height(l, b) == 0
            &&& height(l, c) < 0
            &&& polygon::cross(a, b, c) > 0
            &&& q.m > 0
            &&& side(a, b, q) > 0
            &&& side(b, c, q) > 0
            &&& side(c, a, q) == 0
            &&& side(c, a, p) == p.m * polygon::cross(a, b, c) - q.m
        }),
{
    let l = line_through(b, p);
    let (m, d) = (p.m, polygon::cross(a, b, c));
    let (ha, hc) = (height(l, a), height(l, c));
    assert(p == on(l, 1, m));
    side_on(l, a, b, 1, m);
    side_on(l, b, c, 1, m);
    side_on(l, c, a, 1, m);
    assert(height(l, b) == 0) by {
        reveal(height);
    }
    assert(polygon::cross(b, a, b) == 0 && polygon::cross(b, b, c) == 0) by {
        triple(a.x - b.x, 1, b.y - b.y);
    }
    signs(m, polygon::cross(b, a, b));
    signs(m, polygon::cross(b, b, c));
    assert(ha > 0 && hc < 0);
    assert(l.x != 0 || l.y != 0) by {
        reveal(height);
        assert(ha == l.x * (a.y - b.y) - l.y * (a.x - b.x));
        signs(l.x, a.y - b.y);
        signs(l.y, a.x - b.x);
    }
    ears::turned(a, b, c);
    sides_add(l, a, b, c, 1, m);
    signs(m, d);
    side_on(l, a, b, d, ha - hc);
    side_on(l, b, c, d, ha - hc);
    side_on(l, c, a, d, ha - hc);
    signs(d, ha);
    signs(d, hc);
    negate(d, ha);
    triple(d, 1, ha - hc);
    spread(d, 0, ha);
}

/// A segment beyond a side of the triangle meets the line beyond both places.
proof fn beyond_side(
    l: Line,
    u: Point,
    v: Point,
    p: Point,
    q: Point,
    k: int,
    m: int,
    i: int,
    n: int,
)
    requires
        m > 0,
        n > 0,
        height(l, u) <= 0 < height(l, v),
        side(p, q, on(l, k, m)) > 0,
        side(p, q, on(l, i, n)) >= 0,
        polygon::cross(p, q, u) <= 0,
        polygon::cross(p, q, v) <= 0,
        side(p, q, on(l, i, n)) > 0 || polygon::cross(p, q, u) < 0 || height(l, u) < 0
            && polygon::cross(p, q, v) < 0,
    ensures
        side(u, v, on(l, k, m)) > 0 <==> side(u, v, on(l, i, n)) > 0,
        side(u, v, on(l, k, m)) != 0,
        side(u, v, on(l, i, n)) != 0,
{
    let (hu, hv) = (height(l, u), height(l, v));
    let (fu, fv) = (polygon::cross(p, q, u), polygon::cross(p, q, v));
    let kappa = height(l, q) - height(l, p);
    let big = hv * fu - hu * fv;
    place_balance(l, u, v, p, q, k, m);
    place_balance(l, u, v, p, q, i, n);
    signs(hv, fu);
    signs(hu, fv);
    signs(m, big);
    signs(n, big);
    signs(side(p, q, on(l, k, m)), hv - hu);
    signs(side(p, q, on(l, i, n)), hv - hu);
    signs(kappa, side(u, v, on(l, k, m)));
    signs(kappa, side(u, v, on(l, i, n)));
}

/// A segment that has the triangle on one side has both places there.
proof fn on_one_side(a: Point, b: Point, c: Point, p: Place, u: Point, v: Point)
    requires
        p.m > 0,
        inside(p, a, b, c),
        polygon::cross(u, v, a) > 0 && polygon::cross(u, v, b) > 0 && polygon::cross(u, v, c) > 0
            || polygon::cross(u, v, a) < 0 && polygon::cross(u, v, b) < 0 && polygon::cross(u, v, c)
            < 0,
    ensures
        side(u, v, p) > 0 <==> side(u, v, way_out(a, b, c, p)) > 0,
        side(u, v, p) < 0 <==> side(u, v, way_out(a, b, c, p)) < 0,
{
    let l = line_through(b, p);
    let q = way_out(a, b, c, p);
    let (m, n, d) = (p.m, q.m, polygon::cross(a, b, c));
    line_through_is(a, b, c, p);
    let (ha, hc) = (height(l, a), height(l, c));
    let (fa, fb, fc) = (polygon::cross(u, v, a), polygon::cross(u, v, b), polygon::cross(u, v, c));
    // Where the line leaves, both ends of the third side have a share.
    place_balance(l, c, a, u, v, d, n);
    let big = ha * fc - hc * fa;
    triple(side(u, v, q), 1, n);
    signs(height(l, v) - height(l, u), side(c, a, q));
    assert(n * side(u, v, q) == n * big);
    assert(side(u, v, q) == big) by (nonlinear_arith)
        requires
            n * side(u, v, q) == n * big,
            n > 0,
    ;
    signs(ha, fc);
    signs(hc, fa);
    // The place lies between there and `b`.
    side_on(l, u, v, 1, m);
    side_on(l, u, v, d, n);
    ears::turned(u, v, b);
    let x = height(l, v) - height(l, u);
    let sc = m * d - n;
    spread(d, m * fb, x);
    spread(fb, m * d, n);
    triple(d, m, fb);
    triple(fb, m, d);
    triple(fb, 1, n);
    triple(fb, 1, sc);
    assert(d * side(u, v, p) == side(u, v, q) + sc * fb);
    signs(sc, fb);
    signs(d, side(u, v, p));
}

/// A segment beyond a side counts the same at both places.
proof fn beyond_counts(
    a: Point,
    b: Point,
    c: Point,
    p: Place,
    u: Point,
    v: Point,
    x: Point,
    y: Point,
)
    requires
        p.m > 0,
        inside(p, a, b, c),
        x == a && y == b || x == b && y == c || x == c && y == a,
        polygon::cross(x, y, u) <= 0,
        polygon::cross(x, y, v) <= 0,
        x == c && y == a ==> {
            ||| polygon::cross(x, y, u) < 0 && polygon::cross(x, y, v) < 0
            ||| u == c && polygon::cross(x, y, v) < 0
            ||| v == a && polygon::cross(x, y, u) < 0
        },
    ensures
        hit(line_through(b, p), p, u, v) == hit(line_through(b, p), way_out(a, b, c, p), u, v),
{
    let l = line_through(b, p);
    let q = way_out(a, b, c, p);
    line_through_is(a, b, c, p);
    let (k, n) = (polygon::cross(a, b, c), height(l, a) - height(l, c));
    if height(l, u) <= 0 < height(l, v) {
        beyond_side(l, u, v, x, y, 1, p.m, k, n);
    } else if height(l, v) <= 0 < height(l, u) {
        beyond_side(l, v, u, x, y, 1, p.m, k, n);
        side_turned(u, v, p);
        side_turned(u, v, q);
    }
}

/// A side of a ring counts the same at a place in an ear and where the line
/// from its corner through the place leaves the ear.
proof fn ring_side_counts(w: Seq<Point>, i: int, p: Place, j: int)
    requires
        w.len() >= 4,
        ears::simple(w),
        0 <= i < w.len(),
        ears::ear(w, i),
        0 <= j < w.len(),
        j != i,
        polygon::after(j, w.len() as int) != i,
        p.m > 0,
        inside(
            p,
            w[polygon::before(i, w.len() as int)],
            w[i],
            w[polygon::after(i, w.len() as int)],
        ),
    ensures
        ({
            let n = w.len() as int;
            let (a, b, c) = (w[polygon::before(i, n)], w[i], w[polygon::after(i, n)]);
            let (u, v) = (w[j], w[polygon::after(j, n)]);
            let l = line_through(b, p);
            hit(l, p, u, v) == hit(l, way_out(a, b, c, p), u, v)
        }),
{
    let n = w.len() as int;
    let (s, t, e) = (polygon::before(i, n), polygon::after(i, n), polygon::after(j, n));
    let (a, b, c, u, v) = (w[s], w[i], w[t], w[j], w[e]);
    ears::side_misses_ear(w, i, j);
    reveal(ears::left);
    reveal(ears::apart);
    if j == t {
        assert(polygon::cross(b, c, c) == 0 && polygon::cross(c, a, c) == 0) by {
            ears::turned(c, a, c);
            ears::turned(b, c, c);
        }
        ears::turned(a, b, v);
        ears::turned(b, c, v);
        ears::turned(c, a, v);
        ears::turned(a, c, v);
        if !ears::left(b, c, v) {
            beyond_counts(a, b, c, p, u, v, b, c);
        } else {
            beyond_counts(a, b, c, p, u, v, c, a);
        }
    } else if e == s {
        assert(polygon::cross(a, b, a) == 0 && polygon::cross(c, a, a) == 0) by {
            ears::turned(c, a, a);
            ears::turned(a, b, a);
        }
        ears::turned(a, c, u);
        if !ears::left(a, b, u) {
            beyond_counts(a, b, c, p, u, v, a, b);
        } else {
            beyond_counts(a, b, c, p, u, v, c, a);
        }
    } else {
        ears::turned(a, c, u);
        ears::turned(a, c, v);
        ears::turned(a, u, v);
        ears::turned(b, u, v);
        ears::turned(c, u, v);
        if !ears::left(a, b, u) && !ears::left(a, b, v) {
            beyond_counts(a, b, c, p, u, v, a, b);
        } else if !ears::left(b, c, u) && !ears::left(b, c, v) {
            beyond_counts(a, b, c, p, u, v, b, c);
        } else if !ears::left(c, a, u) && !ears::left(c, a, v) {
            beyond_counts(a, b, c, p, u, v, c, a);
        } else {
            on_one_side(a, b, c, p, u, v);
        }
    }
}

// ---------------------------------------------------------------------------
// Outlines
// ---------------------------------------------------------------------------

/// The corners of a triangle of an outline are different, and go round
/// counter-clockwise.
pub open spec fn is_sound(poly: Seq<Point>, e: (int, int, int)) -> bool {
    &&& 0 <= e.0 < poly.len() && 0 <= e.1 < poly.len() && 0 <= e.2 < poly.len()
    &&& e.0 != e.1 && e.1 != e.2 && e.0 != e.2
    &&& polygon::cross(poly[e.0], poly[e.1], poly[e.2]) > 0
}

/// The place lies within a triangle of an outline.
pub open spec fn holds(poly: Seq<Point>, e: (int, int, int), p: Place) -> bool {
    inside(p, poly[e.0], poly[e.1], poly[e.2])
}

/// No place lies within two of the triangles.
pub open spec fn disjoint(poly: Seq<Point>, ears: Seq<(int, int, int)>) -> bool {
    forall|s: int, t: int, p: Place|
        0 <= s < t < ears.len() && p.m > 0 ==> !(#[trigger] holds(poly, ears[s], p)
            && #[trigger] holds(poly, ears[t], p))
}

/// Every triangle is sound.
pub open spec fn all_sound(poly: Seq<Point>, ears: Seq<(int, int, int)>) -> bool {
    forall|t: int| 0 <= t < ears.len() ==> is_sound(poly, #[trigger] ears[t])
}

/// How a side of an outline counts on a line.
spec fn counted(poly: Seq<Point>, l: Line, p: Place) -> spec_fn(int, int) -> int {
    |u: int, v: int| hit(l, p, poly[u], poly[v])
}

proof fn counted_turns(poly: Seq<Point>, l: Line, p: Place)
    ensures
        forall|u: int, v: int|
            #[trigger] counted(poly, l, p)(u, v) == -counted(poly, l, p)(v, u),
{
    assert forall|u: int, v: int|
        #[trigger] counted(poly, l, p)(u, v) == -counted(poly, l, p)(v, u) by {
        side_turned(poly[u], poly[v], p);
    }
}

/// Each triangle counts once or not at all.
proof fn each_counts(
    poly: Seq<Point>,
    ears: Seq<(int, int, int)>,
    l: Line,
    k: int,
    m: int,
    t: int,
)
    requires
        all_sound(poly, ears),
        l.x != 0 || l.y != 0,
        m > 0,
        0 <= t < ears.len(),
    ensures
        0 <= about(counted(poly, l, on(l, k, m)), ears[t]) <= 1,
        holds(poly, ears[t], on(l, k, m)) ==> about(counted(poly, l, on(l, k, m)), ears[t]) == 1,
        about(counted(poly, l, on(l, k, m)), ears[t]) == hits(
            l,
            on(l, k, m),
            poly[ears[t].0],
            poly[ears[t].1],
            poly[ears[t].2],
        ),
{
    let e = ears[t];
    assert(is_sound(poly, e));
    triangle_counts(l, poly[e.0], poly[e.1], poly[e.2], k, m);
}

/// Once an ear is cut, what remains counts once more where a line leaves the
/// ear than at a place within it.
proof fn cut_counts(poly: Seq<Point>, at: Seq<int>, i: int, p: Place)
    requires
        at.len() >= 4,
        ears::simple(ears::ring(poly, at)),
        0 <= i < at.len(),
        ears::ear(ears::ring(poly, at), i),
        p.m > 0,
        holds(poly, polygon::ear_at(at, i), p),
    ensures
        ({
            let (a, b, c) = polygon::ear_at(at, i);
            let l = line_through(poly[b], p);
            let q = way_out(poly[a], poly[b], poly[c], p);
            round(counted(poly, l, q), at.remove(i)) == round(counted(poly, l, p), at.remove(i)) + 1
        }),
{
    let n = at.len() as int;
    let w = ears::ring(poly, at);
    let (a, b, c) = polygon::ear_at(at, i);
    let l = line_through(poly[b], p);
    let q = way_out(poly[a], poly[b], poly[c], p);
    let rest = at.remove(i);
    let (f, g) = (counted(poly, l, p), counted(poly, l, q));
    let k = if i == 0 {
        n - 2
    } else {
        i - 1
    };
    assert forall|j: int| 0 <= j < rest.len() && j != k implies #[trigger] side_of(f, rest, j)
        == side_of(g, rest, j) by {
        let x = if j < i {
            j
        } else {
            j + 1
        };
        let y = polygon::after(x, n);
        assert(rest[j] == at[x] && rest[polygon::after(j, n - 1)] == at[y]);
        ring_side_counts(w, i, p, x);
    }
    assert(rest[k] == a && rest[polygon::after(k, n - 1)] == c);
    line_through_is(poly[a], poly[b], poly[c], p);
    side_turned(poly[c], poly[a], p);
    side_turned(poly[c], poly[a], q);
    assert(side_of(f, rest, k) == -1);
    assert(side_of(g, rest, k) == 0);
    sides_differ(f, g, rest, k, n - 1);
}

/// An ear shares no place with the triangles of what remains, where these
/// share none.
proof fn ear_shares_nothing(poly: Seq<Point>, at: Seq<int>, i: int, t: int, p: Place)
    requires
        at.len() >= 4,
        ears::simple(ears::ring(poly, at)),
        0 <= i < at.len(),
        ears::ear(ears::ring(poly, at), i),
        polygon::left_over(poly, at.remove(i)).len() == 0,
        all_sound(poly, polygon::clipped(poly, at.remove(i))),
        disjoint(poly, polygon::clipped(poly, at.remove(i))),
        p.m > 0,
        0 <= t < polygon::clipped(poly, at.remove(i)).len(),
    ensures
        !(holds(poly, polygon::ear_at(at, i), p) && holds(
            poly,
            polygon::clipped(poly, at.remove(i))[t],
            p,
        )),
{
    let rest = at.remove(i);
    let cut = polygon::clipped(poly, rest);
    let (a, b, c) = polygon::ear_at(at, i);
    if holds(poly, (a, b, c), p) && holds(poly, cut[t], p) {
        let l = line_through(poly[b], p);
        let q = way_out(poly[a], poly[b], poly[c], p);
        let (f, g) = (counted(poly, l, p), counted(poly, l, q));
        let (k, m) = (polygon::cross(poly[a], poly[b], poly[c]), q.m);
        line_through_is(poly[a], poly[b], poly[c], p);
        counted_turns(poly, l, p);
        counted_turns(poly, l, q);
        triangles_sum(f, poly, rest);
        triangles_sum(g, poly, rest);
        cut_counts(poly, at, i, p);
        assert forall|s: int| 0 <= s < cut.len() implies about(f, #[trigger] cut[s]) >= 0 by {
            each_counts(poly, cut, l, 1, p.m, s);
        }
        each_counts(poly, cut, l, 1, p.m, t);
        one_of_total(f, cut, t);
        assert forall|s: int| 0 <= s < cut.len() implies 0 <= about(g, #[trigger] cut[s]) <= 1 by {
            each_counts(poly, cut, l, k, m, s);
        }
        let (x, y) = two_count(g, cut);
        each_counts(poly, cut, l, k, m, x);
        each_counts(poly, cut, l, k, m, y);
        let (d, e) = (cut[x], cut[y]);
        assert(is_sound(poly, d) && is_sound(poly, e));
        let r = both_count(
            l,
            k,
            m,
            (poly[d.0], poly[d.1], poly[d.2]),
            (poly[e.0], poly[e.1], poly[e.2]),
        );
        assert(holds(poly, cut[x], r) && holds(poly, cut[y], r));
    }
}

/// Whatever corners of an outline are left, the triangles cut from them are
/// sound and do not overlap.
proof fn cuts_are_apart(poly: Seq<Point>, at: Seq<int>)
    requires
        at.len() >= 3,
        ears::places(poly, at),
        ears::simple(ears::ring(poly, at)),
        ears::counter_clockwise(ears::ring(poly, at)),
    ensures
        all_sound(poly, polygon::clipped(poly, at)),
        disjoint(poly, polygon::clipped(poly, at)),
    decreases at.len(),
{
    let w = ears::ring(poly, at);
    let cut = polygon::clipped(poly, at);
    ears::all_is_cut(poly, at);
    if at.len() == 3 {
        ears::last_turns_left(w);
        reveal(ears::left);
        assert(cut[0] == (at[0], at[1], at[2]));
        assert(w[0] == poly[at[0]] && w[1] == poly[at[1]] && w[2] == poly[at[2]]);
    } else {
        let i = ears::next_cut(poly, at);
        let rest = at.remove(i);
        let later = polygon::clipped(poly, rest);
        cuts_are_apart(poly, rest);
        ears::all_is_cut(poly, rest);
        assert(cut =~= seq![polygon::ear_at(at, i)] + later);
        assert(is_sound(poly, cut[0]));
        assert forall|t: int| 0 <= t < cut.len() implies is_sound(poly, #[trigger] cut[t]) by {
            if t > 0 {
                assert(cut[t] == later[t - 1]);
            }
        }
        assert forall|s: int, t: int, p: Place|
            0 <= s < t < cut.len() && p.m > 0 implies !(#[trigger] holds(poly, cut[s], p)
            && #[trigger] holds(poly, cut[t], p)) by {
            assert(cut[t] == later[t - 1]);
            if s > 0 {
                assert(cut[s] == later[s - 1]);
                assert(!(holds(poly, later[s - 1], p) && holds(poly, later[t - 1], p)));
            } else {
                ear_shares_nothing(poly, at, i, t - 1, p);
            }
        }
    }
}

/// The triangles of a simple outline with no three corners in a line that goes
/// round counter-clockwise are sound: each has three different corners of the
/// outline, and goes round counter-clockwise too. No place lies within two of
/// them. As they have the area of the outline between them, they tile it.
pub proof fn triangles_tile_simple_outlines(poly: Seq<Point>)
    requires
        poly.len() >= 3,
        ears::simple(poly),
        polygon::area(poly, polygon::all_corners(poly.len())) > 0,
    ensures
        all_sound(poly, polygon::clipped(poly, polygon::all_corners(poly.len()))),
        disjoint(poly, polygon::clipped(poly, polygon::all_corners(poly.len()))),
        polygon::total_area(poly, polygon::clipped(poly, polygon::all_corners(poly.len())))
            == polygon::area(poly, polygon::all_corners(poly.len())),
{
    let at = polygon::all_corners(poly.len());
    ears::area_tells_the_way_round(poly);
    ears::simple_outlines_leave_nothing_over(poly);
    polygon::triangles_cover_the_outline(poly, at);
    assert(ears::ring(poly, at) =~= poly);
    cuts_are_apart(poly, at);
}

/// The same of whole points: none lies within two triangles, as the ear
/// clipper tells.
pub proof fn points_lie_in_one_triangle(poly: Seq<Point>, q: Point, s: int, t: int)
    requires
        poly.len() >= 3,
        ears::simple(poly),
        polygon::area(poly, polygon::all_corners(poly.len())) > 0,
        0 <= s < t < poly.len() - 2,
    ensures
        ({
            let cut = polygon::clipped(poly, polygon::all_corners(poly.len()));
            let (a, b, c) = cut[s];
            let (d, e, f) = cut[t];
            !(polygon::in_triangle(q, poly[a], poly[b], poly[c]) && polygon::in_triangle(
                q,
                poly[d],
                poly[e],
                poly[f],
            ))
        }),
{
    let cut = polygon::clipped(poly, polygon::all_corners(poly.len()));
    let p = Place { x: q.x as int, y: q.y as int, m: 1 };
    triangles_tile_simple_outlines(poly);
    ears::simple_outlines_leave_nothing_over(poly);
    assert(is_sound(poly, cut[s]) && is_sound(poly, cut[t]));
    whole_place(q, poly[cut[s].0], poly[cut[s].1], poly[cut[s].2]);
    whole_place(q, poly[cut[t].0], poly[cut[t].1], poly[cut[t].2]);
    assert(!(holds(poly, cut[s], p) && holds(poly, cut[t], p)));
}

proof fn whole_place(q: Point, a: Point, b: Point, c: Point)
    requires
        polygon::cross(a, b, c) > 0,
    ensures
        polygon::in_triangle(q, a, b, c) ==> inside(
            Place { x: q.x as int, y: q.y as int, m: 1 },
            a,
            b,
            c,
        ),
{
    reveal(side);
    let p = Place { x: q.x as int, y: q.y as int, m: 1 };
    ears::corner_areas(q, a, b, c);
    assert(side(a, b, p) == polygon::cross(a, b, q));
    assert(side(b, c, p) == polygon::cross(b, c, q));
    assert(side(c, a, p) == polygon::cross(c, a, q));
}

} // verus!
