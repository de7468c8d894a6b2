//! Every simple outline is cut into triangles to the last corner.
//!
//! An outline is simple where no two of its sides cross, and no three of its
//! corners lie in a line. It goes round counter-clockwise where its lowest
//! corner turns left. Such an outline has an ear as long as it has more than
//! three corners, and cutting an ear leaves such an outline.
//!
//! The proof counts crossings, even or odd. A side crosses the border of a
//! triangle as often as its ends differ in lying within. Summed up along the
//! sides of an outline, this tells how often the way from the lowest corner to
//! another one is crossed, from the turns at both ends alone.
use crate::polygon;
use crate::polygon::Point;
use vstd::prelude::*;

verus! {

// ---------------------------------------------------------------------------
// Turns
// ---------------------------------------------------------------------------

/// `c` lies to the left on the way from `a` to `b`.
#[verifier::opaque]
pub open spec fn left(a: Point, b: Point, c: Point) -> bool {
    polygon::cross(a, b, c) > 0
}

/// The points do not lie in a line.
#[verifier::opaque]
pub open spec fn apart(a: Point, b: Point, c: Point) -> bool {
    polygon::cross(a, b, c) != 0
}

/// The segments cross.
pub open spec fn crosses(u: Point, v: Point, x: Point, y: Point) -> bool {
    left(u, v, x) != left(u, v, y) && left(x, y, u) != left(x, y, v)
}

/// `p` lies within the triangle.
pub open spec fn within(p: Point, a: Point, b: Point, c: Point) -> bool {
    left(a, b, p) == left(b, c, p) && left(b, c, p) == left(c, a, p)
}

/// `b` lies in the angle at `w` between `p` and `q`.
pub open spec fn in_angle(b: Point, w: Point, p: Point, q: Point) -> bool {
    left(w, p, b) == left(w, p, q) && left(w, q, b) == left(w, q, p)
}

proof fn expand(p: int, q: int, r: int, s: int)
    ensures
        (p - q) * (r - s) == p * r - p * s - q * r + q * s,
{
    assert((p - q) * (r - s) == p * r - p * s - q * r + q * s) by (nonlinear_arith);
}

/// The area of a triangle, from what its sides sweep about the origin.
proof fn swept_area(a: Point, b: Point, c: Point)
    ensures
        polygon::cross(a, b, c) == polygon::swept(a, b) + polygon::swept(b, c) + polygon::swept(
            c,
            a,
        ),
        polygon::swept(b, a) == -polygon::swept(a, b),
        polygon::swept(c, b) == -polygon::swept(b, c),
        polygon::swept(a, c) == -polygon::swept(c, a),
{
    let (ax, ay, bx, by, cx, cy) = (
        a.x as int,
        a.y as int,
        b.x as int,
        b.y as int,
        c.x as int,
        c.y as int,
    );
    expand(bx, ax, cy, ay);
    expand(by, ay, cx, ax);
    assert(ax * by == by * ax && bx * ay == ay * bx && bx * cy == cy * bx && cx * by == by * cx && cx
        * ay == ay * cx && ax * cy == cy * ax && ax * ay == ay * ax) by (nonlinear_arith);
}

/// A triangle may be named from any corner, and either way round.
pub(crate) proof fn turned(a: Point, b: Point, c: Point)
    ensures
        polygon::cross(b, c, a) == polygon::cross(a, b, c),
        polygon::cross(c, a, b) == polygon::cross(a, b, c),
        polygon::cross(b, a, c) == -polygon::cross(a, b, c),
        polygon::cross(a, c, b) == -polygon::cross(a, b, c),
        polygon::cross(c, b, a) == -polygon::cross(a, b, c),
{
    swept_area(a, b, c);
    swept_area(b, c, a);
    swept_area(c, a, b);
    swept_area(b, a, c);
    swept_area(a, c, b);
    swept_area(c, b, a);
}

/// The turns of three points that do not lie in a line.
proof fn turn(a: Point, b: Point, c: Point)
    requires
        apart(a, b, c),
    ensures
        left(b, c, a) == left(a, b, c),
        left(c, a, b) == left(a, b, c),
        left(b, a, c) == !left(a, b, c),
        left(a, c, b) == !left(a, b, c),
        left(c, b, a) == !left(a, b, c),
        apart(b, c, a) && apart(c, a, b) && apart(b, a, c) && apart(a, c, b) && apart(c, b, a),
{
    reveal(left);
    reveal(apart);
    turned(a, b, c);
}

/// The area of a triangle is that of the three about a point.
pub(crate) proof fn parts(a: Point, b: Point, c: Point, p: Point)
    ensures
        polygon::cross(a, b, c) == polygon::cross(a, b, p) + polygon::cross(b, c, p)
            + polygon::cross(c, a, p),
{
    swept_area(a, b, c);
    swept_area(a, b, p);
    swept_area(b, c, p);
    swept_area(c, a, p);
}

proof fn regroup(p: int, q: int, r: int, s: int)
    ensures
        (p * q) * (r * s) == (p * s) * (q * r),
        (p * q) * (r * s) == (p * r) * (q * s),
{
    assert((p * q) * (r * s) == (p * s) * (q * r)) by (nonlinear_arith);
    assert((p * q) * (r * s) == (p * r) * (q * s)) by (nonlinear_arith);
}

/// Four points about a fifth: the products of opposite areas add up.
proof fn products(p: Point, a: Point, b: Point, c: Point, d: Point)
    ensures
        polygon::cross(p, a, b) * polygon::cross(p, c, d) + polygon::cross(p, a, d)
            * polygon::cross(p, b, c) == polygon::cross(p, a, c) * polygon::cross(p, b, d),
{
    let (ax, ay) = (a.x - p.x, a.y - p.y);
    let (bx, by) = (b.x - p.x, b.y - p.y);
    let (cx, cy) = (c.x - p.x, c.y - p.y);
    let (dx, dy) = (d.x - p.x, d.y - p.y);
    expand(ax * by, ay * bx, cx * dy, cy * dx);
    expand(ax * dy, ay * dx, bx * cy, by * cx);
    expand(ax * cy, ay * cx, bx * dy, by * dx);
    regroup(ax, by, cx, dy);
    regroup(ax, by, cy, dx);
    regroup(ay, bx, cx, dy);
    regroup(ay, bx, cy, dx);
    regroup(ax, dy, bx, cy);
    regroup(ay, dx, by, cx);
    assert(dy * bx == bx * dy && dx * by == by * dx) by (nonlinear_arith);
    assert(polygon::cross(p, a, b) == ax * by - ay * bx);
    assert(polygon::cross(p, c, d) == cx * dy - cy * dx);
    assert(polygon::cross(p, a, d) == ax * dy - ay * dx);
    assert(polygon::cross(p, b, c) == bx * cy - by * cx);
    assert(polygon::cross(p, a, c) == ax * cy - ay * cx);
    assert(polygon::cross(p, b, d) == bx * dy - by * dx);
}

/// Sign of a product.
proof fn sign(x: int, y: int)
    requires
        x != 0,
        y != 0,
    ensures
        x * y != 0,
        x * y > 0 <==> (x > 0) == (y > 0),
{
    assert(x * y != 0 && (x * y > 0 <==> (x > 0) == (y > 0))) by (nonlinear_arith)
        requires
            x != 0,
            y != 0,
    ;
}

/// How the turns of three points go together.
spec fn go3(a: Point, b: Point, c: Point) -> bool {
    &&& left(b, c, a) == left(a, b, c)
    &&& left(c, a, b) == left(a, b, c)
    &&& left(b, a, c) == !left(a, b, c)
    &&& left(a, c, b) == !left(a, b, c)
    &&& left(c, b, a) == !left(a, b, c)
}

/// How the turns of four points go together.
spec fn go4(a: Point, b: Point, c: Point, d: Point) -> bool {
    &&& left(a, b, d) && left(b, c, d) && left(c, a, d) ==> left(a, b, c)
    &&& !left(a, b, d) && !left(b, c, d) && !left(c, a, d) ==> !left(a, b, c)
}

/// How the turns of four points about a fifth go together.
spec fn go5(p: Point, a: Point, b: Point, c: Point, d: Point) -> bool {
    &&& left(p, a, b) == left(p, c, d) && left(p, a, d) == left(p, b, c) ==> left(p, a, c) == left(
        p,
        b,
        d,
    )
    &&& left(p, a, b) != left(p, c, d) && left(p, a, d) != left(p, b, c) ==> left(p, a, c) != left(
        p,
        b,
        d,
    )
}

proof fn about(p: Point, a: Point, b: Point, c: Point, d: Point)
    requires
        apart(p, a, b) && apart(p, c, d) && apart(p, a, c) && apart(p, b, d) && apart(p, a, d)
            && apart(p, b, c),
    ensures
        go5(p, a, b, c, d),
{
    reveal(left);
    reveal(apart);
    products(p, a, b, c, d);
    sign(polygon::cross(p, a, b), polygon::cross(p, c, d));
    sign(polygon::cross(p, a, d), polygon::cross(p, b, c));
    sign(polygon::cross(p, a, c), polygon::cross(p, b, d));
}

/// No three of four points lie in a line.
pub open spec fn apart4(a: Point, b: Point, c: Point, d: Point) -> bool {
    apart(a, b, c) && apart(a, b, d) && apart(a, c, d) && apart(b, c, d)
}

/// All turns of four points.
proof fn turns4(a: Point, b: Point, c: Point, d: Point)
    requires
        apart4(a, b, c, d),
    ensures
        go3(a, b, c) && go3(a, b, d) && go3(a, c, d) && go3(b, c, d),
        go4(a, b, c, d),
{
    reveal(left);
    reveal(apart);
    turn(a, b, c);
    turn(a, b, d);
    turn(a, c, d);
    turn(b, c, d);
    parts(a, b, c, d);
}

/// No three of five points lie in a line.
pub open spec fn apart5(a: Point, b: Point, c: Point, d: Point, e: Point) -> bool {
    apart4(a, b, c, d) && apart4(a, b, c, e) && apart4(a, b, d, e) && apart4(a, c, d, e) && apart4(
        b,
        c,
        d,
        e,
    )
}

/// All turns of five points.
proof fn turns5(a: Point, b: Point, c: Point, d: Point, e: Point)
    requires
        apart5(a, b, c, d, e),
    ensures
        go3(a, b, c) && go3(a, b, d) && go3(a, b, e) && go3(a, c, d) && go3(a, c, e) && go3(a, d, e),
        go3(b, c, d) && go3(b, c, e) && go3(b, d, e) && go3(c, d, e),
        go4(a, b, c, d) && go4(a, b, c, e) && go4(a, b, d, e) && go4(a, c, d, e) && go4(b, c, d, e),
        go5(a, b, c, d, e) && go5(b, a, c, d, e) && go5(c, a, b, d, e) && go5(d, a, b, c, e) && go5(
            e,
            a,
            b,
            c,
            d,
        ),
{
    turns4(a, b, c, d);
    turns4(a, b, c, e);
    turns4(a, b, d, e);
    turns4(a, c, d, e);
    turns4(b, c, d, e);
    turn(a, b, c);
    turn(a, b, d);
    turn(a, b, e);
    turn(a, c, d);
    turn(a, c, e);
    turn(a, d, e);
    turn(b, c, d);
    turn(b, c, e);
    turn(b, d, e);
    turn(c, d, e);
    about(a, b, c, d, e);
    about(b, a, c, d, e);
    about(c, a, b, d, e);
    about(d, a, b, c, e);
    about(e, a, b, c, d);
}

// ---------------------------------------------------------------------------
// Crossings of a few points
// ---------------------------------------------------------------------------

/// A segment crosses the sides of a triangle an odd number of times where just
/// one of its ends lies within.
proof fn border(u: Point, v: Point, x: Point, y: Point, z: Point)
    requires
        apart5(u, v, x, y, z),
    ensures
        (crosses(u, v, x, y) ^ crosses(u, v, y, z) ^ crosses(u, v, z, x)) == (within(u, x, y, z)
            != within(v, x, y, z)),
{
    turns5(u, v, x, y, z);
}

/// A point beside the way from `b` to `x` and to `y`, where `b` is not within:
/// it lies in the triangle, or the way to it crosses the third side.
proof fn beside(b: Point, c: Point, x: Point, y: Point)
    requires
        apart4(b, c, x, y),
        !within(b, c, x, y),
    ensures
        (within(c, b, x, y) ^ crosses(b, c, x, y)) == (left(b, x, c) != left(b, y, c)),
{
    turns4(b, c, x, y);
}

/// The turn at `w`, from what lies about `b`.
proof fn turn_from(b: Point, w: Point, p: Point, q: Point)
    requires
        apart4(b, w, p, q),
        !within(b, w, p, q),
    ensures
        (within(p, b, w, q) ^ within(q, b, w, p) ^ left(b, q, p)) == (left(p, w, q) ^ in_angle(
            b,
            w,
            p,
            q,
        )),
{
    turns4(b, w, p, q);
}

/// The sides of an ear, as crossed by the way from a point within to `b`.
proof fn ear_sides(s: Point, w: Point, t: Point, v: Point, b: Point)
    requires
        apart5(s, w, t, v, b),
        left(s, w, t),
        within(v, s, w, t),
    ensures
        (within(s, b, v, w) ^ within(t, b, v, w) ^ crosses(s, w, b, v) ^ crosses(w, t, b, v))
            == !in_angle(b, w, s, t),
{
    turns5(s, w, t, v, b);
}

/// A side that starts at a corner of a triangle and ends outside leaves by the
/// opposite side, if it passes before a point within.
proof fn from_corner(s: Point, w: Point, t: Point, v: Point, y: Point)
    requires
        apart5(s, w, t, v, y),
        within(v, s, w, t),
        !within(y, s, w, t),
        !crosses(s, y, w, t),
    ensures
        !crosses(s, y, w, v),
{
    turns5(s, w, t, v, y);
}

/// A triangle between two corners and a point within lies in the triangle.
proof fn inner(a: Point, b: Point, z: Point, c: Point, x: Point)
    requires
        apart5(a, b, z, c, x),
        within(x, a, b, z),
        within(z, a, b, c),
    ensures
        within(x, a, b, c),
{
    turns5(a, b, z, c, x);
}

// ---------------------------------------------------------------------------
// Heights
// ---------------------------------------------------------------------------

/// How far a point lies in a direction.
spec fn along(p: Point, gx: int, gy: int) -> int {
    gx * p.x + gy * p.y
}

proof fn spread(c: int, gx: int, x: int, gy: int, y: int)
    ensures
        c * (gx * x + gy * y) == gx * (c * x) + gy * (c * y),
{
    assert(c * (gx * x + gy * y) == gx * (c * x) + gy * (c * y)) by (nonlinear_arith);
}

proof fn coordinate(px: int, py: int, qx: int, qy: int, bx: int, by: int)
    ensures
        (px * qy - py * qx) * bx == (bx * qy - by * qx) * px + (px * by - py * bx) * qx,
        (px * qy - py * qx) * by == (bx * qy - by * qx) * py + (px * by - py * bx) * qy,
{
    assert((px * qy - py * qx) * bx == (bx * qy - by * qx) * px + (px * by - py * bx) * qx)
        by (nonlinear_arith);
    assert((px * qy - py * qx) * by == (bx * qy - by * qx) * py + (px * by - py * bx) * qy)
        by (nonlinear_arith);
}

/// A point is made up of two others, as seen from `w`.
proof fn made_up(w: Point, p: Point, q: Point, b: Point, gx: int, gy: int)
    ensures
        polygon::cross(w, p, q) * (along(b, gx, gy) - along(w, gx, gy)) == polygon::cross(w, b, q)
            * (along(p, gx, gy) - along(w, gx, gy)) + polygon::cross(w, p, b) * (along(q, gx, gy)
            - along(w, gx, gy)),
{
    let (px, py) = (p.x - w.x, p.y - w.y);
    let (qx, qy) = (q.x - w.x, q.y - w.y);
    let (bx, by) = (b.x - w.x, b.y - w.y);
    let (c, l, r) = (px * qy - py * qx, bx * qy - by * qx, px * by - py * bx);
    assert(polygon::cross(w, p, q) == c && polygon::cross(w, b, q) == l && polygon::cross(w, p, b)
        == r);
    coordinate(px, py, qx, qy, bx, by);
    ahead(w, p, gx, gy);
    ahead(w, q, gx, gy);
    ahead(w, b, gx, gy);
    spread(c, gx, bx, gy, by);
    spread(l, gx, px, gy, py);
    spread(r, gx, qx, gy, qy);
    assert(gx * (c * bx) == gx * (l * px) + gx * (r * qx)) by (nonlinear_arith)
        requires
            c * bx == l * px + r * qx,
    ;
    assert(gy * (c * by) == gy * (l * py) + gy * (r * qy)) by (nonlinear_arith)
        requires
            c * by == l * py + r * qy,
    ;
}

proof fn ahead(w: Point, p: Point, gx: int, gy: int)
    ensures
        along(p, gx, gy) - along(w, gx, gy) == gx * (p.x - w.x) + gy * (p.y - w.y),
{
    assert(gx * (p.x - w.x) == gx * p.x - gx * w.x) by (nonlinear_arith);
    assert(gy * (p.y - w.y) == gy * p.y - gy * w.y) by (nonlinear_arith);
}

/// Products of a factor and two lengths.
proof fn longer(f: int, m: int, n: int)
    requires
        m <= n,
    ensures
        f >= 0 ==> f * m <= f * n,
        f <= 0 ==> f * m >= f * n,
{
    assert((f >= 0 ==> f * m <= f * n) && (f <= 0 ==> f * m >= f * n)) by (nonlinear_arith)
        requires
            m <= n,
    ;
}

/// A segment that ends no lower than `f` does not cross the way from a lower
/// point up to `f`.
proof fn passes_above(b: Point, f: Point, u: Point, v: Point, gx: int, gy: int)
    requires
        apart4(b, f, u, v),
        along(b, gx, gy) < along(f, gx, gy),
        along(f, gx, gy) <= along(u, gx, gy),
        along(f, gx, gy) <= along(v, gx, gy),
    ensures
        !crosses(b, f, u, v),
{
    reveal(left);
    reveal(apart);
    if crosses(b, f, u, v) {
        turns4(b, f, u, v);
        made_up(b, u, v, f, gx, gy);
        parts(b, u, v, f);
        turned(b, f, v);
        turned(b, u, v);
        turned(b, u, f);
        turned(u, v, f);
        let c = polygon::cross(b, u, v);
        let (l, r) = (polygon::cross(b, f, v), polygon::cross(b, u, f));
        let rise = along(f, gx, gy) - along(b, gx, gy);
        let (up, vp) = (along(u, gx, gy) - along(b, gx, gy), along(v, gx, gy) - along(b, gx, gy));
        longer(l, rise, up);
        longer(r, rise, vp);
        assert(l * rise + r * rise == (l + r) * rise) by (nonlinear_arith);
        if c > 0 {
            assert(l > 0 && r > 0 && l + r > c);
            assert((l + r) * rise > c * rise) by (nonlinear_arith)
                requires
                    l + r > c,
                    rise > 0,
            ;
        } else {
            assert(l < 0 && r < 0 && l + r < c);
            assert((l + r) * rise < c * rise) by (nonlinear_arith)
                requires
                    l + r < c,
                    rise > 0,
            ;
        }
    }
}

/// What is lower than `w` does not lie in an angle that opens upwards.
proof fn opens_upwards(b: Point, w: Point, p: Point, q: Point, gx: int, gy: int)
    requires
        apart4(b, w, p, q),
        along(b, gx, gy) < along(w, gx, gy),
        along(w, gx, gy) < along(p, gx, gy),
        along(w, gx, gy) < along(q, gx, gy),
    ensures
        !in_angle(b, w, p, q),
{
    reveal(left);
    reveal(apart);
    if in_angle(b, w, p, q) {
        turns4(b, w, p, q);
        made_up(w, p, q, b, gx, gy);
        let c = polygon::cross(w, p, q);
        let (l, r) = (polygon::cross(w, b, q), polygon::cross(w, p, b));
        let (bb, pp, qq) = (
            along(b, gx, gy) - along(w, gx, gy),
            along(p, gx, gy) - along(w, gx, gy),
            along(q, gx, gy) - along(w, gx, gy),
        );
        turned(w, p, q);
        turned(w, p, b);
        turned(w, q, b);
        sign(c, bb);
        sign(l, pp);
        sign(r, qq);
    }
}

/// The lowest of four points lies within no triangle of the others.
proof fn lowest_outside(b: Point, x: Point, y: Point, z: Point, gx: int, gy: int)
    requires
        apart4(b, x, y, z),
        along(b, gx, gy) < along(x, gx, gy),
        along(b, gx, gy) < along(y, gx, gy),
        along(b, gx, gy) < along(z, gx, gy),
    ensures
        !within(b, x, y, z),
{
    reveal(left);
    reveal(apart);
    if within(b, x, y, z) {
        turns4(b, x, y, z);
        made_up(b, x, y, z, gx, gy);
        let (s, l, r) = (
            polygon::cross(b, x, y),
            polygon::cross(b, z, y),
            polygon::cross(b, x, z),
        );
        turned(b, x, y);
        turned(b, y, z);
        turned(b, x, z);
        sign(s, along(z, gx, gy) - along(b, gx, gy));
        sign(l, along(x, gx, gy) - along(b, gx, gy));
        sign(r, along(y, gx, gy) - along(b, gx, gy));
    }
}

/// A point within a triangle lies on the side of a line on which all three
/// corners lie.
proof fn same_side(z: Point, a: Point, b: Point, c: Point, u: Point, v: Point)
    requires
        apart4(z, a, b, c),
        apart(u, v, a) && apart(u, v, b) && apart(u, v, c) && apart(u, v, z),
        within(z, a, b, c),
        left(u, v, a) == left(u, v, b),
        left(u, v, a) == left(u, v, c),
    ensures
        left(u, v, z) == left(u, v, a),
{
    reveal(left);
    reveal(apart);
    turns4(z, a, b, c);
    let (gx, gy) = (-(v.y - u.y), v.x - u.x);
    beyond(u, v, a);
    beyond(u, v, b);
    beyond(u, v, c);
    beyond(u, v, z);
    made_up(a, b, c, z, gx, gy);
    parts(a, b, c, z);
    turned(a, b, c);
    turned(a, b, z);
    turned(a, c, z);
    turned(b, c, z);
    let all = polygon::cross(a, b, c);
    let (la, lb, lc) = (polygon::cross(b, c, z), polygon::cross(c, a, z), polygon::cross(a, b, z));
    let (ga, gb, gc, gz) = (
        polygon::cross(u, v, a),
        polygon::cross(u, v, b),
        polygon::cross(u, v, c),
        polygon::cross(u, v, z),
    );
    assert(all * (gz - ga) == lb * (gb - ga) + lc * (gc - ga));
    assert(all * gz == la * ga + lb * gb + lc * gc) by (nonlinear_arith)
        requires
            all == la + lb + lc,
            all * (gz - ga) == lb * (gb - ga) + lc * (gc - ga),
    ;
    sign(all, gz);
    sign(la, ga);
    sign(lb, gb);
    sign(lc, gc);
}

proof fn beyond(u: Point, v: Point, p: Point)
    ensures
        polygon::cross(u, v, p) == along(p, -(v.y - u.y), v.x - u.x) - along(
            u,
            -(v.y - u.y),
            v.x - u.x,
        ),
{
    ahead(u, p, -(v.y - u.y), v.x - u.x);
    assert((v.x - u.x) * (p.y - u.y) - (v.y - u.y) * (p.x - u.x) == (-(v.y - u.y)) * (p.x - u.x) + (
    v.x - u.x) * (p.y - u.y)) by (nonlinear_arith);
}

// ---------------------------------------------------------------------------
// Rings of corners
// ---------------------------------------------------------------------------

/// No three corners lie in a line.
pub open spec fn in_general(w: Seq<Point>) -> bool {
    forall|i: int, j: int, k: int|
        0 <= i < w.len() && 0 <= j < w.len() && 0 <= k < w.len() && i != j && j != k && i != k
            ==> #[trigger] apart(w[i], w[j], w[k])
}

/// Sides `i` and `j` cross. A side goes from its corner to the next.
pub open spec fn sides_cross(w: Seq<Point>, i: int, j: int) -> bool {
    let n = w.len() as int;
    crosses(w[i], w[polygon::after(i, n)], w[j], w[polygon::after(j, n)])
}

/// Sides that share no corner do not cross.
pub open spec fn sides_apart(w: Seq<Point>) -> bool {
    let n = w.len() as int;
    forall|i: int, j: int|
        0 <= i < n && 0 <= j < n && i != j && polygon::after(i, n) != j && polygon::after(j, n) != i
            ==> !#[trigger] sides_cross(w, i, j)
}

/// Height of a corner: lower corners have less, and of two on a level the one
/// to the left.
pub open spec fn level(p: Point) -> int {
    p.x + 0x2_0000_0000_0000_0000 * p.y
}

/// Corner `i` is lower than all others.
pub open spec fn is_lowest(w: Seq<Point>, i: int) -> bool {
    &&& 0 <= i < w.len()
    &&& forall|k: int| 0 <= k < w.len() && k != i ==> level(w[i]) < #[trigger] level(w[k])
}

/// The turn at corner `i` is to the left.
pub open spec fn turns_left(w: Seq<Point>, i: int) -> bool {
    let n = w.len() as int;
    left(w[polygon::before(i, n)], w[i], w[polygon::after(i, n)])
}

/// The ring is simple, starts at its lowest corner and turns left there.
spec fn good(w: Seq<Point>) -> bool {
    &&& w.len() >= 3
    &&& in_general(w)
    &&& sides_apart(w)
    &&& is_lowest(w, 0)
    &&& turns_left(w, 0)
}

proof fn general4(w: Seq<Point>, i: int, j: int, k: int, l: int)
    requires
        in_general(w),
        0 <= i < w.len() && 0 <= j < w.len() && 0 <= k < w.len() && 0 <= l < w.len(),
        i != j && i != k && i != l && j != k && j != l && k != l,
    ensures
        apart4(w[i], w[j], w[k], w[l]),
{
    assert(apart(w[i], w[j], w[k]) && apart(w[i], w[j], w[l]) && apart(w[i], w[k], w[l]) && apart(
        w[j],
        w[k],
        w[l],
    ));
}

proof fn general5(w: Seq<Point>, i: int, j: int, k: int, l: int, m: int)
    requires
        in_general(w),
        0 <= i < w.len() && 0 <= j < w.len() && 0 <= k < w.len() && 0 <= l < w.len() && 0 <= m
            < w.len(),
        i != j && i != k && i != l && i != m && j != k && j != l && j != m && k != l && k != m && l
            != m,
    ensures
        apart5(w[i], w[j], w[k], w[l], w[m]),
{
    general4(w, i, j, k, l);
    general4(w, i, j, k, m);
    general4(w, i, j, l, m);
    general4(w, i, k, l, m);
    general4(w, j, k, l, m);
}

/// The lowest corner lies within no triangle of others.
proof fn low_outside(w: Seq<Point>, b: int, i: int, j: int, k: int)
    requires
        in_general(w),
        is_lowest(w, b),
        0 <= i < w.len() && 0 <= j < w.len() && 0 <= k < w.len(),
        b != i && b != j && b != k && i != j && i != k && j != k,
    ensures
        !within(w[b], w[i], w[j], w[k]),
{
    general4(w, b, i, j, k);
    heights(w[b]);
    heights(w[i]);
    heights(w[j]);
    heights(w[k]);
    assert(level(w[b]) < level(w[i]) && level(w[b]) < level(w[j]) && level(w[b]) < level(w[k]));
    lowest_outside(w[b], w[i], w[j], w[k], 1, 0x2_0000_0000_0000_0000);
}

proof fn heights(p: Point)
    ensures
        along(p, 1, 0x2_0000_0000_0000_0000) == level(p),
{
}

/// Whether an odd number of the sides from corner `lo` to corner `hi` cross
/// the segment.
spec fn odd(w: Seq<Point>, lo: int, hi: int, x: Point, y: Point) -> bool
    decreases hi - lo,
{
    if hi <= lo {
        false
    } else {
        odd(w, lo, hi - 1, x, y) ^ crosses(w[hi - 1], w[hi], x, y)
    }
}

proof fn none_odd(w: Seq<Point>, lo: int, hi: int, x: Point, y: Point)
    requires
        forall|i: int| lo <= i < hi ==> !crosses(#[trigger] w[i], w[i + 1], x, y),
    ensures
        !odd(w, lo, hi, x, y),
    decreases hi - lo,
{
    if lo < hi {
        none_odd(w, lo, hi - 1, x, y);
        assert(!crosses(w[hi - 1], w[hi - 1 + 1], x, y));
    }
}

/// A segment may be named from either end.
proof fn odd_turned(w: Seq<Point>, lo: int, hi: int, i: int, j: int)
    requires
        in_general(w),
        0 <= lo,
        hi < w.len(),
        0 <= i < w.len() && 0 <= j < w.len() && i != j,
        !(lo <= i <= hi) && !(lo <= j <= hi),
    ensures
        odd(w, lo, hi, w[i], w[j]) == odd(w, lo, hi, w[j], w[i]),
    decreases hi - lo,
{
    if lo < hi {
        odd_turned(w, lo, hi - 1, i, j);
        general4(w, hi - 1, hi, i, j);
        turns4(w[hi - 1], w[hi], w[i], w[j]);
    }
}

/// A chain of sides crosses the border of a triangle of corners an odd number
/// of times where just one of its ends lies within.
proof fn chain_border(w: Seq<Point>, lo: int, hi: int, x: int, y: int, z: int)
    requires
        in_general(w),
        0 <= lo <= hi < w.len(),
        0 <= x < w.len() && 0 <= y < w.len() && 0 <= z < w.len(),
        x != y && x != z && y != z,
        !(lo <= x <= hi) && !(lo <= y <= hi) && !(lo <= z <= hi),
    ensures
        (odd(w, lo, hi, w[x], w[y]) ^ odd(w, lo, hi, w[y], w[z]) ^ odd(w, lo, hi, w[z], w[x])) == (
        within(w[lo], w[x], w[y], w[z]) != within(w[hi], w[x], w[y], w[z])),
    decreases hi - lo,
{
    if lo < hi {
        chain_border(w, lo, hi - 1, x, y, z);
        general5(w, hi - 1, hi, x, y, z);
        border(w[hi - 1], w[hi], w[x], w[y], w[z]);
    }
}

// ---------------------------------------------------------------------------
// How often the way from the lowest corner is crossed
// ---------------------------------------------------------------------------

/// No side between corners `lo` and `hi` crosses side `j`.
proof fn chain_clear(w: Seq<Point>, lo: int, hi: int, j: int)
    requires
        sides_apart(w),
        0 <= lo <= hi < w.len(),
        0 <= j < w.len(),
        !(lo <= j <= hi),
        !(lo <= polygon::after(j, w.len() as int) <= hi),
    ensures
        !odd(w, lo, hi, w[j], w[polygon::after(j, w.len() as int)]),
{
    let n = w.len() as int;
    assert forall|i: int| lo <= i < hi implies !crosses(
        #[trigger] w[i],
        w[i + 1],
        w[j],
        w[polygon::after(j, n)],
    ) by {
        assert(!sides_cross(w, i, j));
    }
    none_odd(w, lo, hi, w[j], w[polygon::after(j, n)]);
}

/// What the ways from the lowest corner to corners `m + 1` and `j` are crossed
/// by, up to corner `m`.
proof fn sweep(w: Seq<Point>, m: int, j: int)
    requires
        in_general(w),
        sides_apart(w),
        is_lowest(w, 0),
        2 <= m,
        m + 1 <= j < w.len(),
    ensures
        (odd(w, 1, m - 1, w[m + 1], w[0]) ^ odd(w, 1, m - 1, w[j], w[0])) == (left(
            w[0],
            w[m + 1],
            w[1],
        ) ^ left(w[0], w[j], w[1]) ^ left(w[0], w[m + 1], w[m - 1]) ^ left(w[0], w[j], w[m - 1])
            ^ odd(w, m + 1, j, w[0], w[m - 1])),
    decreases j,
{
    if j > m + 1 {
        let (x, y) = (j - 1, j);
        sweep(w, m, x);
        chain_border(w, 1, m - 1, x, y, 0);
        odd_turned(w, 1, m - 1, 0, x);
        chain_clear(w, 1, m - 1, x);
        general4(w, 0, 1, x, y);
        low_outside(w, 0, 1, x, y);
        beside(w[0], w[1], w[x], w[y]);
        assert(!sides_cross(w, 0, x));
        general4(w, 0, m - 1, x, y);
        low_outside(w, 0, m - 1, x, y);
        beside(w[0], w[m - 1], w[x], w[y]);
        assert(odd(w, m + 1, j, w[0], w[m - 1]) == (odd(w, m + 1, x, w[0], w[m - 1]) ^ crosses(
            w[x],
            w[y],
            w[0],
            w[m - 1],
        )));
    }
}

/// Whether an odd number of sides cross the way from the first corner to
/// corner `m`.
spec fn crossed(w: Seq<Point>, m: int) -> bool {
    odd(w, 1, m - 1, w[0], w[m]) ^ odd(w, m + 1, w.len() - 1, w[0], w[m])
}

/// The way from the lowest corner to corner `m` is crossed as the turns at
/// both ends tell.
proof fn tally(w: Seq<Point>, m: int)
    requires
        good(w),
        2 <= m <= w.len() - 2,
    ensures
        crossed(w, m) == (left(w[0], w[m], w[1]) ^ left(w[0], w[m], w[w.len() - 1]) ^ !left(
            w[m - 1],
            w[m],
            w[m + 1],
        ) ^ in_angle(w[0], w[m], w[m - 1], w[m + 1])),
{
    let n = w.len() as int;
    let (c, p, q, a) = (1int, m - 1, m + 1, n - 1);
    sweep(w, m, a);
    // The last side ends at the lowest corner.
    chain_clear(w, 1, m - 1, a);
    // The first chain and the triangle of the lowest corner, `m` and `q`.
    chain_border(w, 1, m - 1, q, 0, m);
    chain_clear(w, 1, m - 1, m);
    general4(w, 0, c, m, q);
    low_outside(w, 0, c, m, q);
    beside(w[0], w[c], w[m], w[q]);
    assert(!sides_cross(w, 0, m));
    // The second chain and the triangle of the lowest corner, `m` and `p`.
    chain_border(w, m + 1, a, 0, m, p);
    chain_clear(w, m + 1, a, p);
    odd_turned(w, m + 1, a, m, p);
    odd_turned(w, m + 1, a, 0, p);
    general4(w, 0, a, m, p);
    low_outside(w, 0, a, m, p);
    beside(w[0], w[a], w[m], w[p]);
    assert(!sides_cross(w, a, p));
    odd_turned(w, 1, m - 1, 0, m);
    odd_turned(w, 1, m - 1, m, q);
    // The turn at `m`.
    general4(w, 0, m, p, q);
    low_outside(w, 0, m, p, q);
    turn_from(w[0], w[m], w[p], w[q]);
    turns4(w[0], w[a], w[m], w[p]);
    turns4(w[0], w[c], w[m], w[q]);
    turns4(w[0], w[m], w[p], w[q]);
    assert(apart(w[0], w[c], w[a]));
    turn(w[0], w[c], w[a]);
    assert(left(w[a], w[0], w[c]));
}

// ---------------------------------------------------------------------------
// Ears, and cutting the first corner
// ---------------------------------------------------------------------------

/// The triangle at corner `i` turns left and holds no other corner.
pub open spec fn ear(w: Seq<Point>, i: int) -> bool {
    let n = w.len() as int;
    &&& turns_left(w, i)
    &&& forall|k: int|
        0 <= k < n && k != i && k != polygon::before(i, n) && k != polygon::after(i, n)
            ==> !#[trigger] within(w[k], w[polygon::before(i, n)], w[i], w[polygon::after(i, n)])
}

/// No three corners in a line, and no two sides that cross.
pub open spec fn simple(w: Seq<Point>) -> bool {
    in_general(w) && sides_apart(w)
}

/// A ring without an ear at its first corner is simple too.
proof fn cut_simple(w: Seq<Point>)
    requires
        w.len() >= 4,
        simple(w),
        ear(w, 0),
    ensures
        simple(w.skip(1)),
{
    let n = w.len() as int;
    let v = w.skip(1);
    assert(v.len() == n - 1);
    assert forall|i: int, j: int, k: int|
        0 <= i < v.len() && 0 <= j < v.len() && 0 <= k < v.len() && i != j && j != k && i
            != k implies #[trigger] apart(v[i], v[j], v[k]) by {
        assert(apart(w[i + 1], w[j + 1], w[k + 1]));
    }
    assert forall|i: int, j: int|
        0 <= i < n - 1 && 0 <= j < n - 1 && i != j && polygon::after(i, n - 1) != j
            && polygon::after(j, n - 1) != i implies !#[trigger] sides_cross(v, i, j) by {
        if i == n - 2 {
            new_side_clear(w, j);
        } else if j == n - 2 {
            new_side_clear(w, i);
        } else {
            assert(!sides_cross(w, i + 1, j + 1));
        }
    }
}

/// The side that closes the ring once its first corner is cut crosses no side.
proof fn new_side_clear(w: Seq<Point>, j: int)
    requires
        w.len() >= 4,
        simple(w),
        ear(w, 0),
        0 < j < w.len() - 3,
    ensures
        !crosses(w[w.len() - 1], w[1], w[j + 1], w[j + 2]),
        !crosses(w[j + 1], w[j + 2], w[w.len() - 1], w[1]),
{
    let n = w.len() as int;
    general5(w, j + 1, j + 2, n - 1, 0, 1);
    border(w[j + 1], w[j + 2], w[n - 1], w[0], w[1]);
    assert(!sides_cross(w, j + 1, n - 1));
    assert(!sides_cross(w, j + 1, 0));
    assert(!within(w[j + 1], w[n - 1], w[0], w[1]));
    assert(!within(w[j + 2], w[n - 1], w[0], w[1]));
    turns4(w[j + 1], w[j + 2], w[n - 1], w[1]);
    general4(w, j + 1, j + 2, n - 1, 1);
}

/// A segment that enters no triangle at its sides and has no end within: the
/// triangle lies on one side of it, or it lies beyond one side of the triangle.
proof fn passes_outside(a: Point, b: Point, c: Point, u: Point, v: Point)
    requires
        apart5(a, b, c, u, v),
        left(a, b, c),
        !within(u, a, b, c),
        !within(v, a, b, c),
        !crosses(u, v, a, b),
        !crosses(u, v, b, c),
    ensures
        ({
            ||| left(u, v, a) == left(u, v, b) && left(u, v, b) == left(u, v, c)
            ||| !left(a, b, u) && !left(a, b, v)
            ||| !left(b, c, u) && !left(b, c, v)
            ||| !left(c, a, u) && !left(c, a, v)
        }),
{
    turns5(a, b, c, u, v);
}

/// A segment from a corner of a triangle that does not enter it.
proof fn leaves_outside(a: Point, b: Point, c: Point, v: Point)
    requires
        apart4(a, b, c, v),
        left(a, b, c),
        !within(v, a, b, c),
        !crosses(c, v, a, b),
    ensures
        !left(b, c, v) || !left(c, a, v),
{
    turns4(a, b, c, v);
}

/// Side `j` of a ring does not enter the ear at another corner.
pub(crate) proof fn side_misses_ear(w: Seq<Point>, i: int, j: int)
    requires
        w.len() >= 4,
        simple(w),
        0 <= i < w.len(),
        0 <= j < w.len(),
        ear(w, i),
        j != i,
        polygon::after(j, w.len() as int) != i,
    ensures
        ({
            let n = w.len() as int;
            let (s, t, e) = (polygon::before(i, n), polygon::after(i, n), polygon::after(j, n));
            let (a, b, c, u, v) = (w[s], w[i], w[t], w[j], w[e]);
            if j == t {
                &&& apart4(a, b, c, v)
                &&& !left(b, c, v) || !left(c, a, v)
            } else if e == s {
                &&& apart4(a, b, c, u)
                &&& !left(a, b, u) || !left(c, a, u)
            } else {
                &&& apart5(a, b, c, u, v)
                &&& {
                    ||| left(u, v, a) == left(u, v, b) && left(u, v, b) == left(u, v, c)
                    ||| !left(a, b, u) && !left(a, b, v)
                    ||| !left(b, c, u) && !left(b, c, v)
                    ||| !left(c, a, u) && !left(c, a, v)
                }
            }
        }),
{
    let n = w.len() as int;
    let (s, t, e) = (polygon::before(i, n), polygon::after(i, n), polygon::after(j, n));
    let (a, b, c, u, v) = (w[s], w[i], w[t], w[j], w[e]);
    if j == t {
        general4(w, s, i, t, e);
        assert(!within(v, a, b, c));
        assert(!sides_cross(w, j, s));
        leaves_outside(a, b, c, v);
    } else if e == s {
        general4(w, s, i, t, j);
        assert(!within(u, a, b, c));
        assert(!sides_cross(w, j, i));
        turns4(a, b, c, u);
    } else {
        general5(w, s, i, t, j, e);
        assert(!within(u, a, b, c));
        assert(!within(v, a, b, c));
        assert(!sides_cross(w, j, s));
        assert(!sides_cross(w, j, i));
        passes_outside(a, b, c, u, v);
    }
}

// ---------------------------------------------------------------------------
// Another first corner
// ---------------------------------------------------------------------------

/// The ring from corner `k` on.
spec fn from(w: Seq<Point>, k: int) -> Seq<Point> {
    w.skip(k) + w.take(k)
}

/// Where corner `i` of the ring from corner `k` on was before.
spec fn was(i: int, k: int, n: int) -> int {
    if i + k < n {
        i + k
    } else {
        i + k - n
    }
}

proof fn from_at(w: Seq<Point>, k: int, i: int)
    requires
        0 <= k < w.len(),
        0 <= i < w.len(),
    ensures
        from(w, k).len() == w.len(),
        from(w, k)[i] == w[was(i, k, w.len() as int)],
        0 <= was(i, k, w.len() as int) < w.len(),
        was(polygon::after(i, w.len() as int), k, w.len() as int) == polygon::after(
            was(i, k, w.len() as int),
            w.len() as int,
        ),
        was(polygon::before(i, w.len() as int), k, w.len() as int) == polygon::before(
            was(i, k, w.len() as int),
            w.len() as int,
        ),
{
}

proof fn from_simple(w: Seq<Point>, k: int)
    requires
        simple(w),
        0 <= k < w.len(),
    ensures
        simple(from(w, k)),
        from(w, k).len() == w.len(),
{
    let n = w.len() as int;
    let v = from(w, k);
    assert forall|i: int, j: int, l: int|
        0 <= i < n && 0 <= j < n && 0 <= l < n && i != j && j != l && i != l implies #[trigger] apart(
        v[i],
        v[j],
        v[l],
    ) by {
        from_at(w, k, i);
        from_at(w, k, j);
        from_at(w, k, l);
        assert(apart(w[was(i, k, n)], w[was(j, k, n)], w[was(l, k, n)]));
    }
    assert forall|i: int, j: int|
        0 <= i < n && 0 <= j < n && i != j && polygon::after(i, n) != j && polygon::after(j, n)
            != i implies !#[trigger] sides_cross(v, i, j) by {
        from_at(w, k, i);
        from_at(w, k, j);
        from_at(w, k, polygon::after(i, n));
        from_at(w, k, polygon::after(j, n));
        assert(!sides_cross(w, was(i, k, n), was(j, k, n)));
    }
}

/// Ears stay ears, whatever corner comes first.
proof fn from_ear(w: Seq<Point>, k: int, i: int)
    requires
        0 <= k < w.len(),
        0 <= i < w.len(),
        w.len() >= 3,
    ensures
        turns_left(from(w, k), i) == turns_left(w, was(i, k, w.len() as int)),
        ear(from(w, k), i) == ear(w, was(i, k, w.len() as int)),
{
    let n = w.len() as int;
    let v = from(w, k);
    from_at(w, k, i);
    from_at(w, k, polygon::after(i, n));
    from_at(w, k, polygon::before(i, n));
    let (a, b, c) = (
        v[polygon::before(i, n)],
        v[i],
        v[polygon::after(i, n)],
    );
    let o = was(i, k, n);
    if ear(w, o) {
        assert forall|l: int|
            0 <= l < n && l != i && l != polygon::before(i, n) && l != polygon::after(
                i,
                n,
            ) implies !#[trigger] within(v[l], a, b, c) by {
            from_at(w, k, l);
            assert(!within(w[was(l, k, n)], a, b, c));
        }
    }
    if ear(v, i) {
        assert forall|l: int|
            0 <= l < n && l != o && l != polygon::before(o, n) && l != polygon::after(
                o,
                n,
            ) implies !#[trigger] within(w[l], a, b, c) by {
            let h = if l >= k {
                l - k
            } else {
                l - k + n
            };
            from_at(w, k, h);
            assert(was(h, k, n) == l);
            assert(!within(v[h], a, b, c));
        }
    }
}

proof fn from_lowest(w: Seq<Point>, k: int)
    requires
        simple(w),
        w.len() >= 3,
        is_lowest(w, k),
        turns_left(w, k),
    ensures
        good(from(w, k)),
        from(w, k).len() == w.len(),
{
    let n = w.len() as int;
    let v = from(w, k);
    from_simple(w, k);
    from_ear(w, k, 0);
    from_at(w, k, 0);
    assert forall|i: int| 0 <= i < n && i != 0 implies level(v[0]) < #[trigger] level(v[i]) by {
        from_at(w, k, i);
        assert(level(w[k]) < level(w[was(i, k, n)]));
    }
}

// ---------------------------------------------------------------------------
// The lowest corner of what is left
// ---------------------------------------------------------------------------

/// Corners of a ring are different points, so they have different heights.
proof fn different_levels(w: Seq<Point>, i: int, j: int)
    requires
        in_general(w),
        w.len() >= 3,
        0 <= i < w.len() && 0 <= j < w.len() && i != j,
    ensures
        level(w[i]) != level(w[j]),
{
    let k = if i != 0 && j != 0 {
        0int
    } else if i != 1 && j != 1 {
        1
    } else {
        2
    };
    assert(apart(w[i], w[j], w[k]));
    if level(w[i]) == level(w[j]) {
        assert(w[i].y == w[j].y && w[i].x == w[j].x);
        reveal(apart);
        let (p, q) = (w[i], w[k]);
        assert(polygon::cross(p, p, q) == 0) by {
            assert((p.x - p.x) * (q.y - p.y) == 0 && (p.y - p.y) * (q.x - p.x) == 0)
                by (nonlinear_arith);
        }
    }
}

/// One of the first `n` corners is lower than the others of them.
proof fn lowest_of(w: Seq<Point>, n: int) -> (r: int)
    requires
        in_general(w),
        w.len() >= 3,
        0 < n <= w.len(),
    ensures
        0 <= r < n,
        forall|k: int| 0 <= k < n && k != r ==> level(w[r]) < #[trigger] level(w[k]),
    decreases n,
{
    if n == 1 {
        0
    } else {
        let r = lowest_of(w, n - 1);
        different_levels(w, r, n - 1);
        if level(w[r]) < level(w[n - 1]) {
            r
        } else {
            n - 1
        }
    }
}

/// A corner next to the lowest turns left once the lowest is cut.
proof fn neighbour_turns(a: Point, b: Point, c: Point, d: Point)
    requires
        apart4(a, b, c, d),
        left(a, b, c),
        !within(d, a, b, c),
    ensures
        !crosses(c, d, a, b) && !in_angle(b, c, a, d) ==> left(a, c, d),
        !crosses(d, a, b, c) && !in_angle(b, a, d, c) ==> left(d, a, c),
{
    turns4(a, b, c, d);
}

/// Once the lowest corner is cut, the lowest of the others turns left.
proof fn next_lowest_turns(w: Seq<Point>, f: int)
    requires
        good(w),
        w.len() >= 4,
        ear(w, 0),
        is_lowest(w.skip(1), f),
    ensures
        turns_left(w.skip(1), f),
{
    let n = w.len() as int;
    let v = w.skip(1);
    let m = f + 1;
    let g = 0x2_0000_0000_0000_0000int;
    assert forall|k: int| 0 < k < n && k != m implies level(w[m]) < #[trigger] level(w[k]) by {
        assert(level(v[f]) < level(v[k - 1]));
    }
    assert(level(w[0]) < level(w[m]));
    heights(w[0]);
    heights(w[m]);
    if m == 1 {
        general4(w, n - 1, 0, 1, 2);
        heights(w[2]);
        heights(w[n - 1]);
        turns4(w[n - 1], w[0], w[1], w[2]);
        opens_upwards(w[0], w[1], w[n - 1], w[2], 1, g);
        assert(!sides_cross(w, 1, n - 1));
        assert(!within(w[2], w[n - 1], w[0], w[1]));
        neighbour_turns(w[n - 1], w[0], w[1], w[2]);
    } else if m == n - 1 {
        general4(w, n - 1, 0, 1, n - 2);
        heights(w[1]);
        heights(w[n - 2]);
        turns4(w[n - 1], w[0], w[1], w[n - 2]);
        opens_upwards(w[0], w[n - 1], w[n - 2], w[1], 1, g);
        assert(!sides_cross(w, n - 2, 0));
        assert(!within(w[n - 2], w[n - 1], w[0], w[1]));
        neighbour_turns(w[n - 1], w[0], w[1], w[n - 2]);
    } else {
        let (p, q) = (m - 1, m + 1);
        tally(w, m);
        // Nothing crosses the way between the two lowest corners.
        low_way_clear(w, m, 1, m - 1);
        low_way_clear(w, m, m + 1, n - 1);
        general4(w, 0, m, p, q);
        heights(w[p]);
        heights(w[q]);
        opens_upwards(w[0], w[m], w[p], w[q], 1, g);
        // The corner lies beside the triangle that is cut.
        general4(w, 0, m, 1, n - 1);
        low_outside(w, 0, m, 1, n - 1);
        beside(w[0], w[m], w[1], w[n - 1]);
        heights(w[1]);
        heights(w[n - 1]);
        passes_above(w[0], w[m], w[1], w[n - 1], 1, g);
        assert(!within(w[m], w[n - 1], w[0], w[1]));
        turns4(w[0], w[m], w[1], w[n - 1]);
    }
}

/// No side between other corners crosses the way between the two lowest.
proof fn low_way_clear(w: Seq<Point>, m: int, lo: int, hi: int)
    requires
        in_general(w),
        0 < m < w.len(),
        level(w[0]) < level(w[m]),
        forall|k: int| 0 < k < w.len() && k != m ==> level(w[m]) < #[trigger] level(w[k]),
        0 < lo <= hi < w.len(),
        !(lo <= m <= hi),
    ensures
        !odd(w, lo, hi, w[0], w[m]),
{
    assert forall|i: int| lo <= i < hi implies !crosses(#[trigger] w[i], w[i + 1], w[0], w[m]) by {
        general4(w, 0, m, i, i + 1);
        heights(w[0]);
        heights(w[m]);
        heights(w[i]);
        heights(w[i + 1]);
        assert(level(w[m]) < level(w[i]) && level(w[m]) < level(w[i + 1]));
        passes_above(w[0], w[m], w[i], w[i + 1], 1, 0x2_0000_0000_0000_0000);
    }
    none_odd(w, lo, hi, w[0], w[m]);
}

// ---------------------------------------------------------------------------
// Two parts of a ring
// ---------------------------------------------------------------------------

/// The first corner, and those from `lo` to `hi`.
spec fn part(w: Seq<Point>, lo: int, hi: int) -> Seq<Point> {
    seq![w[0]] + w.subrange(lo, hi + 1)
}

/// No side that touches neither end crosses the way from the first corner to
/// corner `m`.
spec fn way_clear(w: Seq<Point>, m: int) -> bool {
    let n = w.len() as int;
    forall|j: int|
        0 < j < n - 1 && j != m && j + 1 != m ==> !crosses(
            w[0],
            w[m],
            #[trigger] w[j],
            w[j + 1],
        )
}

/// A ring without a chain between two corners that the first corner is joined
/// to is simple.
proof fn part_simple(w: Seq<Point>, lo: int, hi: int)
    requires
        simple(w),
        w.len() >= 3,
        1 <= lo < hi < w.len(),
        lo == 1 || way_clear(w, lo),
        hi == w.len() - 1 || way_clear(w, hi),
    ensures
        simple(part(w, lo, hi)),
        part(w, lo, hi).len() == hi - lo + 2,
{
    let n = w.len() as int;
    let v = part(w, lo, hi);
    let l = hi - lo + 2;
    assert(v.len() == l);
    assert(v[0] == w[0]);
    assert(forall|i: int| 0 < i < l ==> #[trigger] v[i] == w[lo + i - 1]);
    assert forall|i: int, j: int, k: int|
        0 <= i < l && 0 <= j < l && 0 <= k < l && i != j && j != k && i
            != k implies #[trigger] apart(v[i], v[j], v[k]) by {
        let at = |x: int|
            if x == 0 {
                0
            } else {
                lo + x - 1
            };
        assert(apart(w[at(i)], w[at(j)], w[at(k)]));
    }
    assert forall|i: int, j: int|
        0 <= i < l && 0 <= j < l && i != j && polygon::after(i, l) != j && polygon::after(j, l)
            != i implies !#[trigger] sides_cross(v, i, j) by {
        if i == 0 || i == l - 1 {
            joint_clear(w, lo, hi, i, j);
        } else if j == 0 || j == l - 1 {
            joint_clear(w, lo, hi, j, i);
        } else {
            assert(!sides_cross(w, lo + i - 1, lo + j - 1));
        }
    }
}

/// The sides at the first corner of a part cross no other side of it.
proof fn joint_clear(w: Seq<Point>, lo: int, hi: int, i: int, j: int)
    requires
        simple(w),
        w.len() >= 3,
        1 <= lo < hi < w.len(),
        lo == 1 || way_clear(w, lo),
        hi == w.len() - 1 || way_clear(w, hi),
        i == 0 && 1 < j < hi - lo + 1 || i == hi - lo + 1 && 0 < j < hi - lo,
    ensures
        !sides_cross(part(w, lo, hi), i, j),
        !sides_cross(part(w, lo, hi), j, i),
{
    let n = w.len() as int;
    let v = part(w, lo, hi);
    let k = lo + j - 1;
    assert(v[j] == w[k] && v[j + 1] == w[k + 1]);
    assert(v[0] == w[0] && v[1] == w[lo] && v[hi - lo + 1] == w[hi]);
    if i == 0 {
        if lo == 1 {
            assert(!sides_cross(w, 0, k));
        } else {
            assert(!crosses(w[0], w[lo], w[k], w[k + 1]));
        }
    } else {
        general4(w, 0, hi, k, k + 1);
        turns4(w[0], w[hi], w[k], w[k + 1]);
        if hi == n - 1 {
            assert(!sides_cross(w, n - 1, k));
        } else {
            assert(!crosses(w[0], w[hi], w[k], w[k + 1]));
        }
    }
}

proof fn part_good(w: Seq<Point>, lo: int, hi: int)
    requires
        simple(w),
        w.len() >= 3,
        is_lowest(w, 0),
        1 <= lo < hi < w.len(),
        lo == 1 || way_clear(w, lo),
        hi == w.len() - 1 || way_clear(w, hi),
        left(w[hi], w[0], w[lo]),
    ensures
        good(part(w, lo, hi)),
        part(w, lo, hi).len() == hi - lo + 2,
{
    part_simple(w, lo, hi);
    let v = part(w, lo, hi);
    assert(v[0] == w[0] && v[1] == w[lo] && v[hi - lo + 1] == w[hi]);
    assert forall|k: int| 0 <= k < v.len() && k != 0 implies level(v[0]) < #[trigger] level(v[k]) by {
        assert(v[k] == w[lo + k - 1]);
    }
}

proof fn odd_part(w: Seq<Point>, lo: int, hi: int, i: int, j: int, x: Point, y: Point)
    requires
        1 <= lo <= hi < w.len(),
        1 <= i,
        j <= hi - lo + 1,
    ensures
        odd(part(w, lo, hi), i, j, x, y) == odd(w, lo + i - 1, lo + j - 1, x, y),
    decreases j - i,
{
    if i < j {
        odd_part(w, lo, hi, i, j - 1, x, y);
        let v = part(w, lo, hi);
        assert(v[j] == w[lo + j - 1] && v[j - 1] == w[lo + j - 2]);
    }
}

proof fn odd_split(w: Seq<Point>, lo: int, mid: int, hi: int, x: Point, y: Point)
    requires
        lo <= mid <= hi,
    ensures
        odd(w, lo, hi, x, y) == (odd(w, lo, mid, x, y) ^ odd(w, mid, hi, x, y)),
    decreases hi - mid,
{
    if mid < hi {
        odd_split(w, lo, mid, hi - 1, x, y);
    }
}

/// Corner `k` lies outside the part from `lo` to `hi`: the way to it from the
/// first corner is crossed by the part as the order about that corner tells.
spec fn lies_outside(w: Seq<Point>, lo: int, hi: int, k: int) -> bool {
    odd(w, lo, hi, w[0], w[k]) == (left(w[0], w[k], w[lo]) ^ left(w[0], w[k], w[hi]))
}

/// Where a clear way splits a ring, the corners of each part lie outside the
/// other.
proof fn parts_outside(w: Seq<Point>, m: int, k: int)
    requires
        good(w),
        2 <= m <= w.len() - 2,
        way_clear(w, m),
        left(w[w.len() - 1], w[0], w[m]),
        left(w[m], w[0], w[1]),
        0 < k < w.len() && k != m,
    ensures
        k > m ==> lies_outside(w, 1, m, k),
        k < m ==> lies_outside(w, m, w.len() - 1, k),
{
    let n = w.len() as int;
    let (b, v) = (w[0], w[k]);
    general4(w, 0, 1, m, n - 1);
    turns4(w[0], w[1], w[m], w[n - 1]);
    if k > m {
        if k == n - 1 {
            chain_clear(w, 1, m, n - 1);
            odd_turned(w, 1, m, 0, n - 1);
        } else {
            let r = part(w, m, n - 1);
            part_good(w, m, n - 1);
            let e = k - m + 1;
            tally(w, k);
            tally(r, e);
            assert(r[0] == b && r[e] == v && r[1] == w[m] && r[r.len() - 1] == w[n - 1]);
            assert(r[e - 1] == w[k - 1] && r[e + 1] == w[k + 1]);
            odd_part(w, m, n - 1, 1, e - 1, b, v);
            odd_part(w, m, n - 1, e + 1, r.len() - 1, b, v);
            odd_split(w, 1, m, k - 1, b, v);
        }
    } else {
        if k == 1 {
            chain_clear(w, m, n - 1, 0);
        } else {
            let r = part(w, 1, m);
            part_good(w, 1, m);
            tally(w, k);
            tally(r, k);
            assert(r[0] == b && r[k] == v && r[1] == w[1] && r[r.len() - 1] == w[m]);
            assert(r[k - 1] == w[k - 1] && r[k + 1] == w[k + 1]);
            odd_part(w, 1, m, 1, k - 1, b, v);
            odd_part(w, 1, m, k + 1, r.len() - 1, b, v);
            odd_split(w, k + 1, m, n - 1, b, v);
        }
    }
}

// ---------------------------------------------------------------------------
// What an ear of a part holds
// ---------------------------------------------------------------------------

/// Six different corners of a ring.
spec fn six(w: Seq<Point>, x: int, y: int, s: int, c: int, t: int, v: int) -> bool {
    &&& 0 <= x < w.len() && 0 <= y < w.len() && 0 <= s < w.len() && 0 <= c < w.len() && 0 <= t
        < w.len() && 0 <= v < w.len()
    &&& x != y && x != s && x != c && x != t && x != v && y != s && y != c && y != t && y != v
    &&& s != c && s != t && s != v && c != t && c != v && t != v
}

/// A segment with both ends outside a triangle that crosses two of its sides
/// not at all does not cross the third, nor the way from a corner to a point
/// within.
proof fn passes_by(w: Seq<Point>, x: int, y: int, s: int, c: int, t: int, v: int)
    requires
        in_general(w),
        six(w, x, y, s, c, t, v),
        within(w[v], w[s], w[c], w[t]),
        !within(w[x], w[s], w[c], w[t]) && !within(w[y], w[s], w[c], w[t]),
        !crosses(w[x], w[y], w[s], w[c]),
        !crosses(w[x], w[y], w[c], w[t]),
    ensures
        !crosses(w[x], w[y], w[t], w[s]),
        !crosses(w[x], w[y], w[c], w[v]),
        !crosses(w[x], w[y], w[s], w[v]),
        !crosses(w[x], w[y], w[t], w[v]),
{
    general5(w, x, y, s, c, t);
    border(w[x], w[y], w[s], w[c], w[t]);
    spoke(w, x, y, s, c, t, v);
    spoke(w, x, y, c, t, s, v);
    spoke(w, x, y, t, s, c, v);
}

proof fn spoke(w: Seq<Point>, x: int, y: int, s: int, c: int, t: int, v: int)
    requires
        in_general(w),
        six(w, x, y, s, c, t, v),
        within(w[v], w[s], w[c], w[t]),
        !within(w[x], w[s], w[c], w[t]) && !within(w[y], w[s], w[c], w[t]),
        !crosses(w[x], w[y], w[s], w[c]),
        !crosses(w[x], w[y], w[c], w[t]),
        !crosses(w[x], w[y], w[t], w[s]),
    ensures
        !crosses(w[x], w[y], w[c], w[v]),
{
    if crosses(w[x], w[y], w[c], w[v]) {
        general5(w, x, y, s, c, v);
        general5(w, x, y, c, t, v);
        border(w[x], w[y], w[s], w[c], w[v]);
        border(w[x], w[y], w[c], w[t], w[v]);
        general5(w, s, c, v, t, x);
        general5(w, s, c, v, t, y);
        general5(w, c, t, v, s, x);
        general5(w, c, t, v, s, y);
        if within(w[x], w[s], w[c], w[v]) {
            inner(w[s], w[c], w[v], w[t], w[x]);
        }
        if within(w[y], w[s], w[c], w[v]) {
            inner(w[s], w[c], w[v], w[t], w[y]);
        }
        if within(w[x], w[c], w[t], w[v]) {
            inner(w[c], w[t], w[v], w[s], w[x]);
        }
        if within(w[y], w[c], w[t], w[v]) {
            inner(w[c], w[t], w[v], w[s], w[y]);
        }
        general4(w, x, y, c, v);
        turns4(w[x], w[y], w[c], w[v]);
        general4(w, v, s, c, t);
        assert(apart(w[x], w[y], w[s]) && apart(w[x], w[y], w[c]) && apart(w[x], w[y], w[t])
            && apart(w[x], w[y], w[v]));
        same_side(w[v], w[s], w[c], w[t], w[x], w[y]);
    }
}

/// Corners of a ring that are joined by a side of a part.
spec fn joined(lo: int, hi: int, x: int, y: int) -> bool {
    x == 0 && y == lo || lo <= x < hi && y == x + 1 || x == hi && y == 0
}

/// Place in a part of a corner of the ring.
spec fn place(lo: int, x: int) -> int {
    if x == 0 {
        0
    } else {
        x - lo + 1
    }
}

/// The corner before `e` in a part.
spec fn ahead_of(lo: int, e: int) -> int {
    if e == lo {
        0
    } else {
        e - 1
    }
}

/// The corner behind `e` in a part.
spec fn behind(hi: int, e: int) -> int {
    if e == hi {
        0
    } else {
        e + 1
    }
}

/// Sides of a part that share no corner do not cross.
proof fn part_sides(w: Seq<Point>, lo: int, hi: int, x: int, y: int, u: int, v: int)
    requires
        1 <= lo < hi < w.len(),
        simple(part(w, lo, hi)),
        joined(lo, hi, x, y),
        joined(lo, hi, u, v),
        x != u && x != v && y != u && y != v,
    ensures
        !crosses(w[x], w[y], w[u], w[v]),
{
    let r = part(w, lo, hi);
    let (i, j) = (place(lo, x), place(lo, u));
    assert(r.len() == hi - lo + 2);
    assert(r[i] == w[x] && r[place(lo, y)] == w[y]);
    assert(r[j] == w[u] && r[place(lo, v)] == w[v]);
    assert(!sides_cross(r, i, j));
}

/// Corner `e` is an ear of a part.
spec fn part_ear(w: Seq<Point>, lo: int, hi: int, e: int) -> bool {
    let (s, t) = (ahead_of(lo, e), behind(hi, e));
    &&& left(w[s], w[e], w[t])
    &&& forall|x: int|
        (x == 0 || lo <= x <= hi) && x != s && x != e && x != t ==> !#[trigger] within(
            w[x],
            w[s],
            w[e],
            w[t],
        )
}

proof fn part_ear_is(w: Seq<Point>, lo: int, hi: int, e: int)
    requires
        1 <= lo < hi < w.len(),
        lo <= e <= hi,
        ear(part(w, lo, hi), e - lo + 1),
    ensures
        part_ear(w, lo, hi, e),
{
    let r = part(w, lo, hi);
    let (s, t) = (ahead_of(lo, e), behind(hi, e));
    assert(r.len() == hi - lo + 2);
    assert(r[e - lo + 1] == w[e] && r[place(lo, s)] == w[s] && r[place(lo, t)] == w[t]);
    assert forall|x: int|
        (x == 0 || lo <= x <= hi) && x != s && x != e && x != t implies !#[trigger] within(
        w[x],
        w[s],
        w[e],
        w[t],
    ) by {
        assert(r[place(lo, x)] == w[x]);
        assert(!within(r[place(lo, x)], w[s], w[e], w[t]));
    }
}

/// A side of a part does not cross the ways between the corners of an ear and
/// a corner within it, but for those it shares an end with.
proof fn ways_clear(w: Seq<Point>, lo: int, hi: int, e: int, k: int, x: int, y: int)
    requires
        in_general(w),
        1 <= lo < hi < w.len(),
        simple(part(w, lo, hi)),
        lo <= e <= hi,
        part_ear(w, lo, hi, e),
        0 < k < w.len() && !(lo <= k <= hi),
        within(w[k], w[ahead_of(lo, e)], w[e], w[behind(hi, e)]),
        joined(lo, hi, x, y),
        x != e && y != e,
    ensures
        !crosses(w[x], w[y], w[e], w[k]),
        x != ahead_of(lo, e) && y != ahead_of(lo, e) ==> !crosses(
            w[x],
            w[y],
            w[ahead_of(lo, e)],
            w[k],
        ),
        x != behind(hi, e) && y != behind(hi, e) ==> !crosses(w[x], w[y], w[behind(hi, e)], w[k]),
{
    let (s, t) = (ahead_of(lo, e), behind(hi, e));
    general4(w, s, e, t, k);
    turns4(w[s], w[e], w[t], w[k]);
    if x == t && y == s {
    } else if y == s {
        general5(w, s, e, t, k, x);
        turns5(w[s], w[e], w[t], w[k], w[x]);
        part_sides(w, lo, hi, x, s, e, t);
        assert(!within(w[x], w[s], w[e], w[t]));
        assert(!within(w[x], w[s], w[t], w[e]));
        from_corner(w[s], w[e], w[t], w[k], w[x]);
        general5(w, s, t, e, k, x);
        from_corner(w[s], w[t], w[e], w[k], w[x]);
    } else if x == t {
        general5(w, t, e, s, k, y);
        turns5(w[t], w[e], w[s], w[k], w[y]);
        part_sides(w, lo, hi, t, y, s, e);
        assert(!within(w[y], w[s], w[e], w[t]));
        assert(!within(w[y], w[t], w[e], w[s]) && !within(w[y], w[t], w[s], w[e]));
        from_corner(w[t], w[e], w[s], w[k], w[y]);
        general5(w, t, s, e, k, y);
        from_corner(w[t], w[s], w[e], w[k], w[y]);
    } else {
        part_sides(w, lo, hi, x, y, s, e);
        part_sides(w, lo, hi, x, y, e, t);
        passes_by(w, x, y, s, e, t, k);
    }
}

/// No side of a part between corners `from` and `to` crosses the way between a
/// corner of an ear and a corner within, where none of them shares an end.
proof fn way_even(w: Seq<Point>, lo: int, hi: int, e: int, k: int, from: int, to: int, c: int)
    requires
        in_general(w),
        1 <= lo < hi < w.len(),
        simple(part(w, lo, hi)),
        lo <= e <= hi,
        part_ear(w, lo, hi, e),
        0 < k < w.len() && !(lo <= k <= hi),
        within(w[k], w[ahead_of(lo, e)], w[e], w[behind(hi, e)]),
        lo <= from <= to <= hi,
        !(from <= e <= to),
        c == e || c == ahead_of(lo, e) || c == behind(hi, e),
        !(from <= c <= to),
    ensures
        !odd(w, from, to, w[c], w[k]),
{
    assert forall|i: int| from <= i < to implies !crosses(#[trigger] w[i], w[i + 1], w[c], w[k]) by {
        ways_clear(w, lo, hi, e, k, i, i + 1);
    }
    none_odd(w, from, to, w[c], w[k]);
}

/// An ear of a part between other corners holds no corner outside the part.
proof fn inner_ear_clear(w: Seq<Point>, lo: int, hi: int, e: int, k: int)
    requires
        in_general(w),
        is_lowest(w, 0),
        1 <= lo < hi < w.len(),
        good(part(w, lo, hi)),
        lo < e < hi,
        part_ear(w, lo, hi, e),
        0 < k < w.len() && !(lo <= k <= hi),
        lies_outside(w, lo, hi, k),
    ensures
        !within(w[k], w[e - 1], w[e], w[e + 1]),
{
    let (s, t) = (e - 1, e + 1);
    if within(w[k], w[s], w[e], w[t]) {
        let r = part(w, lo, hi);
        let i = e - lo + 1;
        let (b, v) = (w[0], w[k]);
        assert(r.len() == hi - lo + 2);
        // The way to the ear.
        tally(r, i);
        assert(r[0] == b && r[i] == w[e] && r[1] == w[lo] && r[r.len() - 1] == w[hi]);
        assert(r[i - 1] == w[s] && r[i + 1] == w[t]);
        odd_part(w, lo, hi, 1, i - 1, b, w[e]);
        odd_part(w, lo, hi, i + 1, r.len() - 1, b, w[e]);
        // The way to the corner within.
        odd_split(w, lo, s, hi, b, v);
        odd_split(w, s, t, hi, b, v);
        assert(odd(w, s, t, b, v) == (crosses(w[s], w[e], b, v) ^ crosses(w[e], w[t], b, v))) by {
            reveal_with_fuel(odd, 3);
        }
        // The triangle of both ways.
        chain_border(w, lo, s, 0, k, e);
        chain_border(w, t, hi, 0, k, e);
        way_even(w, lo, hi, e, k, lo, s, e);
        way_even(w, lo, hi, e, k, t, hi, e);
        odd_turned(w, lo, s, k, e);
        odd_turned(w, t, hi, k, e);
        odd_turned(w, lo, s, 0, e);
        odd_turned(w, t, hi, 0, e);
        // The first and the last side of the part.
        general4(w, 0, lo, k, e);
        low_outside(w, 0, lo, k, e);
        beside(b, w[lo], v, w[e]);
        ways_clear(w, lo, hi, e, k, 0, lo);
        turns4(b, w[lo], v, w[e]);
        general4(w, 0, hi, k, e);
        low_outside(w, 0, hi, k, e);
        beside(b, w[hi], v, w[e]);
        ways_clear(w, lo, hi, e, k, hi, 0);
        turns4(b, w[hi], v, w[e]);
        // The sides of the ear.
        general5(w, s, e, t, k, 0);
        ear_sides(w[s], w[e], w[t], v, b);
    }
}

/// An ear of a part at its first or last corner but the lowest holds no corner
/// outside the part.
proof fn end_ear_clear(w: Seq<Point>, lo: int, hi: int, e: int, k: int)
    requires
        in_general(w),
        is_lowest(w, 0),
        1 <= lo < hi < w.len(),
        good(part(w, lo, hi)),
        e == lo || e == hi,
        part_ear(w, lo, hi, e),
        0 < k < w.len() && !(lo <= k <= hi),
        lies_outside(w, lo, hi, k),
    ensures
        !within(w[k], w[ahead_of(lo, e)], w[e], w[behind(hi, e)]),
{
    let (s, t) = (ahead_of(lo, e), behind(hi, e));
    if within(w[k], w[s], w[e], w[t]) {
        let r = part(w, lo, hi);
        let (b, v) = (w[0], w[k]);
        assert(r.len() == hi - lo + 2);
        assert(r[0] == b && r[1] == w[lo] && r[r.len() - 1] == w[hi]);
        assert(left(w[hi], b, w[lo]));
        assert(apart(w[hi], b, w[lo]));
        turn(w[hi], b, w[lo]);
        general4(w, s, e, t, k);
        turns4(w[s], w[e], w[t], v);
        general4(w, 0, lo, hi, k);
        turns4(b, w[lo], w[hi], v);
        // The other corner of the ear, the lowest apart.
        let o = if e == lo {
            t
        } else {
            s
        };
        if e == lo {
            odd_split(w, lo, t, hi, b, v);
            way_even(w, lo, hi, e, k, t, hi, 0);
            assert(odd(w, lo, t, b, v) == crosses(w[lo], w[t], b, v)) by {
                reveal_with_fuel(odd, 2);
            }
        } else {
            odd_split(w, lo, s, hi, b, v);
            way_even(w, lo, hi, e, k, lo, s, 0);
            assert(odd(w, s, hi, b, v) == crosses(w[s], w[hi], b, v)) by {
                reveal_with_fuel(odd, 2);
            }
        }
        let far = if e == lo {
            hi
        } else {
            lo
        };
        if o != far {
            general4(w, 0, far, e, o);
            turns4(b, w[far], w[e], w[o]);
            low_outside(w, 0, far, e, o);
            beside(b, w[far], w[e], w[o]);
            assert(!within(w[far], w[s], w[e], w[t]));
            if e == lo {
                part_sides(w, lo, hi, hi, 0, lo, t);
            } else {
                part_sides(w, lo, hi, 0, lo, s, hi);
            }
            general4(w, 0, far, k, o);
            turns4(b, w[far], v, w[o]);
            low_outside(w, 0, far, k, o);
        }
    }
}

/// An ear of a part holds no corner outside the part.
proof fn part_ear_clear(w: Seq<Point>, lo: int, hi: int, e: int, k: int)
    requires
        in_general(w),
        is_lowest(w, 0),
        1 <= lo < hi < w.len(),
        good(part(w, lo, hi)),
        lo <= e <= hi,
        part_ear(w, lo, hi, e),
        0 < k < w.len() && !(lo <= k <= hi),
        lies_outside(w, lo, hi, k),
    ensures
        !within(w[k], w[ahead_of(lo, e)], w[e], w[behind(hi, e)]),
{
    if lo < e < hi {
        inner_ear_clear(w, lo, hi, e, k);
    } else {
        end_ear_clear(w, lo, hi, e, k);
    }
}

// ---------------------------------------------------------------------------
// A clear way into the ring
// ---------------------------------------------------------------------------

/// Of the corners up to `n` within the triangle at the first corner, the one
/// farthest from its opposite side. `None` where there is none.
proof fn farthest(w: Seq<Point>, n: int) -> (r: Option<int>)
    requires
        w.len() >= 4,
        2 <= n <= w.len() - 1,
    ensures
        match r {
            Some(m) => {
                &&& 2 <= m < n
                &&& within(w[m], w[w.len() - 1], w[0], w[1])
                &&& forall|k: int|
                    2 <= k < n && #[trigger] within(w[k], w[w.len() - 1], w[0], w[1])
                        ==> polygon::cross(w[1], w[w.len() - 1], w[k]) <= polygon::cross(
                        w[1],
                        w[w.len() - 1],
                        w[m],
                    )
            },
            None => forall|k: int|
                2 <= k < n ==> !#[trigger] within(w[k], w[w.len() - 1], w[0], w[1]),
        },
    decreases n,
{
    if n == 2 {
        None
    } else {
        let k = n - 1;
        let r = farthest(w, k);
        if within(w[k], w[w.len() - 1], w[0], w[1]) {
            match r {
                Some(m) => {
                    if polygon::cross(w[1], w[w.len() - 1], w[k]) <= polygon::cross(
                        w[1],
                        w[w.len() - 1],
                        w[m],
                    ) {
                        Some(m)
                    } else {
                        Some(k)
                    }
                },
                None => Some(k),
            }
        } else {
            r
        }
    }
}

/// The way to the farthest corner within is clear.
proof fn way_to_farthest(w: Seq<Point>, m: int)
    requires
        good(w),
        w.len() >= 4,
        2 <= m < w.len() - 1,
        within(w[m], w[w.len() - 1], w[0], w[1]),
        forall|k: int|
            2 <= k < w.len() - 1 && #[trigger] within(w[k], w[w.len() - 1], w[0], w[1])
                ==> polygon::cross(w[1], w[w.len() - 1], w[k]) <= polygon::cross(
                w[1],
                w[w.len() - 1],
                w[m],
            ),
    ensures
        way_clear(w, m),
{
    let n = w.len() as int;
    assert forall|j: int| 0 < j < n - 1 && j != m && j + 1 != m implies !crosses(
        w[0],
        w[m],
        #[trigger] w[j],
        w[j + 1],
    ) by {
        if crosses(w[0], w[m], w[j], w[j + 1]) {
            one_end_higher(w, m, j);
            if polygon::cross(w[1], w[n - 1], w[j]) > polygon::cross(w[1], w[n - 1], w[m]) {
                way_blocked(w, m, j, j, j + 1);
            } else {
                way_blocked(w, m, j, j + 1, j);
            }
        }
    }
}

/// A side that crosses the way to a corner within has an end farther from the
/// opposite side than that corner.
proof fn one_end_higher(w: Seq<Point>, m: int, j: int)
    requires
        good(w),
        w.len() >= 4,
        2 <= m < w.len() - 1,
        within(w[m], w[w.len() - 1], w[0], w[1]),
        0 < j < w.len() - 1 && j != m && j + 1 != m,
        crosses(w[0], w[m], w[j], w[j + 1]),
    ensures
        polygon::cross(w[1], w[w.len() - 1], w[j]) > polygon::cross(w[1], w[w.len() - 1], w[m])
            || polygon::cross(w[1], w[w.len() - 1], w[j + 1]) > polygon::cross(
            w[1],
            w[w.len() - 1],
            w[m],
        ),
{
    let n = w.len() as int;
    let (c, a) = (w[1], w[n - 1]);
    let (gx, gy) = (-(a.y - c.y), a.x - c.x);
    general4(w, 0, m, j, j + 1);
    general4(w, n - 1, 0, 1, m);
    turns4(a, w[0], c, w[m]);
    beyond(c, a, w[0]);
    beyond(c, a, w[m]);
    beyond(c, a, w[j]);
    beyond(c, a, w[j + 1]);
    parts(c, a, w[0], w[m]);
    turned(c, a, w[0]);
    turned(a, w[0], w[m]);
    turned(w[0], c, w[m]);
    reveal(left);
    assert(polygon::cross(c, a, w[0]) > polygon::cross(c, a, w[m]));
    if polygon::cross(c, a, w[j]) <= polygon::cross(c, a, w[m]) && polygon::cross(c, a, w[j + 1])
        <= polygon::cross(c, a, w[m]) {
        opposite(w[0], gx, gy);
        opposite(w[m], gx, gy);
        opposite(w[j], gx, gy);
        opposite(w[j + 1], gx, gy);
        passes_above(w[0], w[m], w[j], w[j + 1], -gx, -gy);
    }
}

proof fn opposite(p: Point, gx: int, gy: int)
    ensures
        along(p, -gx, -gy) == -along(p, gx, gy),
{
    assert((-gx) * p.x == -(gx * p.x) && (-gy) * p.y == -(gy * p.y)) by (nonlinear_arith);
}

/// No side with an end `u` farther from the opposite side than the farthest
/// corner within crosses the way to it.
proof fn way_blocked(w: Seq<Point>, m: int, j: int, u: int, v: int)
    requires
        good(w),
        w.len() >= 4,
        2 <= m < w.len() - 1,
        within(w[m], w[w.len() - 1], w[0], w[1]),
        forall|k: int|
            2 <= k < w.len() - 1 && #[trigger] within(w[k], w[w.len() - 1], w[0], w[1])
                ==> polygon::cross(w[1], w[w.len() - 1], w[k]) <= polygon::cross(
                w[1],
                w[w.len() - 1],
                w[m],
            ),
        0 < j < w.len() - 1 && j != m && j + 1 != m,
        u == j && v == j + 1 || u == j + 1 && v == j,
        polygon::cross(w[1], w[w.len() - 1], w[u]) > polygon::cross(w[1], w[w.len() - 1], w[m]),
    ensures
        !crosses(w[0], w[m], w[j], w[j + 1]),
{
    let n = w.len() as int;
    let (a, c) = (n - 1, 1int);
    general4(w, a, 0, c, m);
    turns4(w[a], w[0], w[c], w[m]);
    turned(w[a], w[0], w[c]);
    assert(left(w[a], w[0], w[c]));
    // The far end is not on the opposite side.
    level_ends(w[c], w[a]);
    assert(polygon::cross(w[c], w[a], w[m]) > 0) by {
        reveal(left);
    }
    assert(u != a && u != c);
    assert(!within(w[u], w[a], w[0], w[c]));
    general4(w, 0, m, u, v);
    turns4(w[0], w[m], w[u], w[v]);
    if v == a {
        general5(w, a, 0, c, m, u);
        turns5(w[a], w[0], w[c], w[m], w[u]);
        assert(!sides_cross(w, n - 2, 0));
        from_corner(w[a], w[0], w[c], w[m], w[u]);
    } else if v == c {
        general5(w, c, 0, a, m, u);
        turns5(w[c], w[0], w[a], w[m], w[u]);
        assert(!sides_cross(w, 1, n - 1));
        from_corner(w[c], w[0], w[a], w[m], w[u]);
    } else {
        general5(w, u, v, a, 0, c);
        turns5(w[u], w[v], w[a], w[0], w[c]);
        assert(!sides_cross(w, j, n - 1));
        assert(!sides_cross(w, j, 0));
        border(w[u], w[v], w[a], w[0], w[c]);
        if within(w[v], w[a], w[0], w[c]) {
            // The side leaves the triangle by the opposite side, downwards.
            assert(crosses(w[u], w[v], w[c], w[a]));
            assert(left(w[c], w[a], w[v]));
            assert(left(w[c], w[a], w[u])) by {
                reveal(left);
            }
        } else {
            passes_by(w, u, v, a, 0, c, m);
        }
    }
}

proof fn level_ends(c: Point, a: Point)
    ensures
        polygon::cross(c, a, c) == 0,
        polygon::cross(c, a, a) == 0,
{
    assert((a.x - c.x) * (c.y - c.y) - (a.y - c.y) * (c.x - c.x) == 0) by (nonlinear_arith);
    assert((a.x - c.x) * (a.y - c.y) - (a.y - c.y) * (a.x - c.x) == 0) by (nonlinear_arith);
}

// ---------------------------------------------------------------------------
// Two ears
// ---------------------------------------------------------------------------

/// Two ears that are not next to each other.
spec fn ears_apart(w: Seq<Point>, i: int, j: int) -> bool {
    let n = w.len() as int;
    &&& 0 <= i < n && 0 <= j < n && i != j
    &&& polygon::after(i, n) != j && polygon::after(j, n) != i
    &&& ear(w, i) && ear(w, j)
}

/// An ear of a part that touches neither the first corner nor the corner that
/// the part is cut off at is an ear of the ring.
proof fn part_ear_counts(w: Seq<Point>, m: int, lo: int, hi: int, e: int)
    requires
        good(w),
        2 <= m <= w.len() - 2,
        way_clear(w, m),
        left(w[w.len() - 1], w[0], w[m]),
        left(w[m], w[0], w[1]),
        lo == 1 && hi == m || lo == m && hi == w.len() - 1,
        lo <= e <= hi && e != m,
        ear(part(w, lo, hi), e - lo + 1),
    ensures
        ear(w, e),
{
    let n = w.len() as int;
    let (s, t) = (ahead_of(lo, e), behind(hi, e));
    part_good(w, lo, hi);
    part_ear_is(w, lo, hi, e);
    assert(s == polygon::before(e, n) && t == polygon::after(e, n));
    assert forall|k: int| 0 <= k < n && k != e && k != s && k != t implies !#[trigger] within(
        w[k],
        w[s],
        w[e],
        w[t],
    ) by {
        if k != 0 && !(lo <= k <= hi) {
            parts_outside(w, m, k);
            part_ear_clear(w, lo, hi, e, k);
        }
    }
}

/// An ear of a triangle.
proof fn triangle_ear(w: Seq<Point>, i: int)
    requires
        w.len() == 3,
        in_general(w),
        turns_left(w, 0),
        0 <= i < 3,
    ensures
        ear(w, i),
{
    assert(apart(w[2], w[0], w[1]));
    turn(w[2], w[0], w[1]);
}

/// A ring of more than three corners has two ears that are not next to each
/// other.
proof fn two_ears(w: Seq<Point>) -> (r: (int, int))
    requires
        good(w),
        w.len() >= 4,
    ensures
        ears_apart(w, r.0, r.1),
    decreases w.len(), 1int,
{
    let n = w.len() as int;
    match farthest(w, n - 1) {
        None => {
            assert(ear(w, 0)) by {
                assert forall|k: int|
                    0 <= k < n && k != 0 && k != n - 1 && k != 1 implies !#[trigger] within(
                    w[k],
                    w[n - 1],
                    w[0],
                    w[1],
                ) by {}
            }
            let e = ear_beyond(w);
            (0, e)
        },
        Some(m) => {
            way_to_farthest(w, m);
            general4(w, n - 1, 0, 1, m);
            turns4(w[n - 1], w[0], w[1], w[m]);
            assert(left(w[n - 1], w[0], w[1]));
            let i = ear_of_part(w, m, 1, m);
            let j = ear_of_part(w, m, m, n - 1);
            (i, j)
        },
    }
}

/// An ear of a part that is an ear of the ring.
proof fn ear_of_part(w: Seq<Point>, m: int, lo: int, hi: int) -> (e: int)
    requires
        good(w),
        2 <= m <= w.len() - 2,
        way_clear(w, m),
        left(w[w.len() - 1], w[0], w[m]),
        left(w[m], w[0], w[1]),
        lo == 1 && hi == m || lo == m && hi == w.len() - 1,
    ensures
        lo <= e <= hi && e != m,
        ear(w, e),
    decreases w.len(), 0int,
{
    let r = part(w, lo, hi);
    part_good(w, lo, hi);
    let l = r.len() as int;
    // The places of the first corner and of corner `m`, which are neighbours.
    let e = if l == 3 {
        let i = if lo == m {
            2int
        } else {
            1
        };
        triangle_ear(r, i);
        lo + i - 1
    } else {
        let (i, j) = two_ears(r);
        let q = if lo == m {
            1int
        } else {
            l - 1
        };
        if i != 0 && i != q {
            lo + i - 1
        } else {
            lo + j - 1
        }
    };
    part_ear_counts(w, m, lo, hi, e);
    e
}

/// Where the first corner is an ear there is another, not next to it.
proof fn ear_beyond(w: Seq<Point>) -> (e: int)
    requires
        good(w),
        w.len() >= 4,
        ear(w, 0),
    ensures
        ears_apart(w, 0, e),
    decreases w.len(), 0int,
{
    let n = w.len() as int;
    let v = w.skip(1);
    cut_simple(w);
    let f = lowest_of(v, n - 1);
    next_lowest_turns(w, f);
    from_lowest(v, f);
    let g = from(v, f);
    let i = if n == 4 {
        from_ear(v, f, 0);
        let h = if 1 >= f {
            1 - f
        } else {
            4 - f
        };
        triangle_ear(g, h);
        from_ear(v, f, h);
        assert(was(h, f, 3) == 1);
        1int
    } else {
        let (i, j) = two_ears(g);
        from_ear(v, f, i);
        from_ear(v, f, j);
        from_at(v, f, i);
        from_at(v, f, j);
        let (i, j) = (was(i, f, n - 1), was(j, f, n - 1));
        if 0 < i < n - 2 {
            i
        } else {
            j
        }
    };
    assert(0 < i < n - 2 && ear(v, i));
    let e = i + 1;
    assert(v[i] == w[e] && v[i - 1] == w[e - 1] && v[i + 1] == w[e + 1]);
    assert forall|k: int| 0 <= k < n && k != e && k != e - 1 && k != e + 1 implies !#[trigger] within(
        w[k],
        w[e - 1],
        w[e],
        w[e + 1],
    ) by {
        if k == 0 {
            low_outside(w, 0, e - 1, e, e + 1);
        } else {
            assert(v[k - 1] == w[k]);
            assert(!within(v[k - 1], v[i - 1], v[i], v[i + 1]));
        }
    }
    e
}

// ---------------------------------------------------------------------------
// Cutting any ear
// ---------------------------------------------------------------------------

/// The ring goes round counter-clockwise: its lowest corner turns left.
pub open spec fn counter_clockwise(w: Seq<Point>) -> bool {
    exists|i: int| #[trigger] is_lowest(w, i) && turns_left(w, i)
}

/// The lowest corner still turns left when a corner next to it is cut.
proof fn lowest_still_turns(e: Point, a: Point, b: Point, c: Point)
    requires
        apart4(e, a, b, c),
        left(a, b, c),
        !within(b, e, a, c),
    ensures
        left(e, a, b) && !within(c, e, a, b) && !crosses(e, a, b, c) ==> left(e, b, c),
        left(b, c, e) && !within(a, b, c, e) && !crosses(a, b, c, e) ==> left(a, b, e),
{
    turns4(e, a, b, c);
}

/// What is left when the first corner is cut still goes round
/// counter-clockwise.
proof fn cut_first_keeps(w: Seq<Point>)
    requires
        w.len() >= 4,
        simple(w),
        counter_clockwise(w),
        ear(w, 0),
    ensures
        simple(w.skip(1)),
        counter_clockwise(w.skip(1)),
{
    let n = w.len() as int;
    let v = w.skip(1);
    cut_simple(w);
    let l = choose|i: int| #[trigger] is_lowest(w, i) && turns_left(w, i);
    if l == 0 {
        let f = lowest_of(v, n - 1);
        assert(is_lowest(v, f));
        next_lowest_turns(w, f);
    } else {
        assert(is_lowest(v, l - 1)) by {
            assert forall|k: int| 0 <= k < v.len() && k != l - 1 implies level(v[l - 1])
                < #[trigger] level(v[k]) by {
                assert(level(w[l]) < level(w[k + 1]));
            }
        }
        assert(turns_left(v, l - 1)) by {
            if l == 1 {
                general4(w, n - 1, 0, 1, 2);
                low_outside(w, 1, n - 1, 0, 2);
                assert(!sides_cross(w, n - 1, 1));
                assert(!within(w[2], w[n - 1], w[0], w[1]));
                lowest_still_turns(w[n - 1], w[0], w[1], w[2]);
            } else if l == n - 1 {
                general4(w, 1, n - 2, n - 1, 0);
                low_outside(w, n - 1, 1, n - 2, 0);
                assert(!sides_cross(w, n - 2, 0));
                assert(!within(w[n - 2], w[n - 1], w[0], w[1]));
                lowest_still_turns(w[1], w[n - 2], w[n - 1], w[0]);
            }
        }
    }
}

/// A ring goes round counter-clockwise, whatever corner comes first.
proof fn from_keeps(w: Seq<Point>, k: int)
    requires
        w.len() >= 3,
        simple(w),
        0 <= k < w.len(),
    ensures
        simple(from(w, k)),
        from(w, k).len() == w.len(),
        counter_clockwise(w) ==> counter_clockwise(from(w, k)),
{
    let n = w.len() as int;
    let v = from(w, k);
    from_simple(w, k);
    if counter_clockwise(w) {
        let l = choose|i: int| #[trigger] is_lowest(w, i) && turns_left(w, i);
        let h = if l >= k {
            l - k
        } else {
            l - k + n
        };
        from_at(w, k, h);
        from_ear(w, k, h);
        assert(is_lowest(v, h)) by {
            assert forall|i: int| 0 <= i < n && i != h implies level(v[h]) < #[trigger] level(
                v[i],
            ) by {
                from_at(w, k, i);
                assert(level(w[l]) < level(w[was(i, k, n)]));
            }
        }
    }
}

/// Cutting an ear leaves a simple ring that goes round counter-clockwise.
pub proof fn cutting_keeps_rings_simple(w: Seq<Point>, i: int)
    requires
        w.len() >= 4,
        simple(w),
        counter_clockwise(w),
        0 <= i < w.len(),
        ear(w, i),
    ensures
        simple(w.remove(i)),
        counter_clockwise(w.remove(i)),
{
    let n = w.len() as int;
    from_keeps(w, i);
    let u = from(w, i);
    from_ear(w, i, 0);
    cut_first_keeps(u);
    let v = u.skip(1);
    let k = if i == 0 {
        0int
    } else {
        n - 1 - i
    };
    from_keeps(v, k);
    assert(from(v, k) =~= w.remove(i));
}

/// A simple ring of more than three corners that goes round counter-clockwise
/// has an ear.
pub proof fn rings_have_ears(w: Seq<Point>) -> (i: int)
    requires
        w.len() >= 4,
        simple(w),
        counter_clockwise(w),
    ensures
        0 <= i < w.len(),
        ear(w, i),
{
    let n = w.len() as int;
    let l = choose|i: int| #[trigger] is_lowest(w, i) && turns_left(w, i);
    from_lowest(w, l);
    let (i, j) = two_ears(from(w, l));
    from_ear(w, l, i);
    from_at(w, l, i);
    was(i, l, n)
}

// ---------------------------------------------------------------------------
// Outlines
// ---------------------------------------------------------------------------

/// The corners of an outline at some places.
pub open spec fn ring(poly: Seq<Point>, at: Seq<int>) -> Seq<Point> {
    at.map_values(|i: int| poly[i])
}

/// Different places of an outline.
pub open spec fn places(poly: Seq<Point>, at: Seq<int>) -> bool {
    &&& forall|k: int| 0 <= k < at.len() ==> 0 <= #[trigger] at[k] < poly.len()
    &&& at.no_duplicates()
}

/// What being in a triangle is told by, as areas.
pub(crate) proof fn corner_areas(p: Point, a: Point, b: Point, c: Point)
    ensures
        polygon::in_triangle(p, a, b, c) <==> {
            ||| polygon::cross(a, b, c) > 1 && polygon::cross(b, c, p) > 0 && polygon::cross(c, a, p)
                > 0 && polygon::cross(a, b, p) > 0
            ||| polygon::cross(a, b, c) < -1 && polygon::cross(b, c, p) < 0 && polygon::cross(
                c,
                a,
                p,
            ) < 0 && polygon::cross(a, b, p) < 0
        },
{
    parts(a, b, c, p);
    turned(a, b, c);
    turned(b, c, p);
    turned(c, a, p);
    turned(a, b, p);
    let (ax, ay, bx, by, cx, cy, px, py) = (
        a.x as int,
        a.y as int,
        b.x as int,
        b.y as int,
        c.x as int,
        c.y as int,
        p.x as int,
        p.y as int,
    );
    flip(cx, bx, ay, cy);
    flip(cx, bx, py, cy);
    flip(cy, ay, px, cx);
    // The terms are the areas at `c`.
    assert((by - cy) * (ax - cx) - (bx - cx) * (ay - cy) == polygon::cross(c, a, b)) by {
        swap(by - cy, ax - cx);
        swap(bx - cx, ay - cy);
    }
    assert((by - cy) * (px - cx) - (bx - cx) * (py - cy) == polygon::cross(c, p, b)) by {
        swap(by - cy, px - cx);
        swap(bx - cx, py - cy);
    }
    turned(c, p, b);
}

/// Being in a triangle that turns left, in either form.
proof fn in_triangle_is(p: Point, a: Point, b: Point, c: Point)
    requires
        apart4(a, b, c, p),
        left(a, b, c),
    ensures
        polygon::in_triangle(p, a, b, c) == within(p, a, b, c),
{
    turns4(a, b, c, p);
    reveal(left);
    reveal(apart);
    parts(a, b, c, p);
    corner_areas(p, a, b, c);
}

proof fn flip(p: int, q: int, r: int, s: int)
    ensures
        (p - q) * (r - s) == -((q - p) * (r - s)),
{
    assert((p - q) * (r - s) == -((q - p) * (r - s))) by (nonlinear_arith);
}

proof fn swap(p: int, q: int)
    ensures
        p * q == q * p,
{
    assert(p * q == q * p) by (nonlinear_arith);
}

/// Ears of an outline are ears of the ring of its corners.
proof fn ears_agree(poly: Seq<Point>, at: Seq<int>, i: int)
    requires
        at.len() >= 4,
        places(poly, at),
        in_general(ring(poly, at)),
        0 <= i < at.len(),
    ensures
        polygon::is_ear(poly, at, i) == ear(ring(poly, at), i),
{
    let n = at.len() as int;
    let w = ring(poly, at);
    let (s, t) = (polygon::before(i, n), polygon::after(i, n));
    let (a, b, c) = (at[s], at[i], at[t]);
    assert(w.len() == n && w[s] == poly[a] && w[i] == poly[b] && w[t] == poly[c]);
    assert(left(w[s], w[i], w[t]) == (polygon::cross(poly[a], poly[b], poly[c]) > 0)) by {
        reveal(left);
    }
    if left(w[s], w[i], w[t]) {
        assert forall|k: int| 0 <= k < n && k != i && k != s && k != t implies (
        #[trigger] polygon::in_triangle(poly[at[k]], poly[a], poly[b], poly[c]) == within(
            w[k],
            w[s],
            w[i],
            w[t],
        )) && at[k] != a && at[k] != b && at[k] != c by {
            general4(w, s, i, t, k);
            assert(w[k] == poly[at[k]]);
            in_triangle_is(w[k], w[s], w[i], w[t]);
        }
        if ear(w, i) {
            assert forall|k: int| 0 <= k < n implies {
                let p = #[trigger] at[k];
                p == a || p == b || p == c || !polygon::in_triangle(
                    poly[p],
                    poly[a],
                    poly[b],
                    poly[c],
                )
            } by {
                if k != i && k != s && k != t {
                    assert(!within(w[k], w[s], w[i], w[t]));
                }
            }
        }
        if polygon::is_ear(poly, at, i) {
            assert forall|k: int| 0 <= k < n && k != i && k != s && k != t implies !#[trigger] within(
                w[k],
                w[s],
                w[i],
                w[t],
            ) by {
                assert(polygon::in_triangle(poly[at[k]], poly[a], poly[b], poly[c]) == within(
                    w[k],
                    w[s],
                    w[i],
                    w[t],
                ));
            }
        }
    }
}

proof fn first_ear_exists(poly: Seq<Point>, at: Seq<int>, i: int, j: int)
    requires
        0 <= i <= j < at.len(),
        polygon::is_ear(poly, at, j),
    ensures
        polygon::first_ear(poly, at, i) matches Some(k) && i <= k < at.len() && polygon::is_ear(
            poly,
            at,
            k,
        ),
    decreases j - i,
{
    if !polygon::is_ear(poly, at, i) {
        first_ear_exists(poly, at, i + 1, j);
    }
}

/// A ring of three corners that goes round counter-clockwise turns left.
pub(crate) proof fn last_turns_left(w: Seq<Point>)
    requires
        w.len() == 3,
        simple(w),
        counter_clockwise(w),
    ensures
        left(w[0], w[1], w[2]),
{
    let l = choose|i: int| #[trigger] is_lowest(w, i) && turns_left(w, i);
    assert(apart(w[0], w[1], w[2]));
    turn(w[0], w[1], w[2]);
}

/// The corner that is cut next is an ear of the ring, and the rest is such a
/// ring again.
pub(crate) proof fn next_cut(poly: Seq<Point>, at: Seq<int>) -> (i: int)
    requires
        at.len() >= 4,
        places(poly, at),
        simple(ring(poly, at)),
        counter_clockwise(ring(poly, at)),
    ensures
        0 <= i < at.len(),
        polygon::first_ear(poly, at, 0) == Some(i),
        polygon::is_ear(poly, at, i),
        ear(ring(poly, at), i),
        places(poly, at.remove(i)),
        simple(ring(poly, at.remove(i))),
        counter_clockwise(ring(poly, at.remove(i))),
{
    let w = ring(poly, at);
    assert(w.len() == at.len());
    let j = rings_have_ears(w);
    ears_agree(poly, at, j);
    first_ear_exists(poly, at, 0, j);
    let i = polygon::first_ear(poly, at, 0)->0;
    ears_agree(poly, at, i);
    cutting_keeps_rings_simple(w, i);
    let rest = at.remove(i);
    assert(ring(poly, rest) =~= w.remove(i));
    assert forall|k: int| 0 <= k < rest.len() implies 0 <= #[trigger] rest[k] < poly.len() by {
        assert(rest[k] == at[if k < i { k } else { k + 1 }]);
    }
    i
}

/// Whatever corners of an outline are left, they are cut to the last.
pub(crate) proof fn all_is_cut(poly: Seq<Point>, at: Seq<int>)
    requires
        at.len() >= 3,
        places(poly, at),
        simple(ring(poly, at)),
        counter_clockwise(ring(poly, at)),
    ensures
        polygon::cuts_whole(poly, at),
    decreases at.len(),
{
    if at.len() == 3 {
        last_turns_left(ring(poly, at));
        reveal(left);
        polygon::one_triangle(poly, at);
    } else {
        let i = next_cut(poly, at);
        all_is_cut(poly, at.remove(i));
        polygon::first_cut(poly, at, i);
    }
}

/// A simple outline that goes round counter-clockwise is cut whole.
proof fn outline_is_cut(poly: Seq<Point>)
    requires
        poly.len() >= 3,
        simple(poly),
        counter_clockwise(poly),
    ensures
        polygon::left_over(poly, polygon::all_corners(poly.len())) == Seq::<int>::empty(),
        polygon::clipped(poly, polygon::all_corners(poly.len())).len() == poly.len() - 2,
        polygon::area(poly, polygon::all_corners(poly.len())) > 0,
{
    let at = polygon::all_corners(poly.len());
    assert(ring(poly, at) =~= poly);
    all_is_cut(poly, at);
    polygon::whole_cuts(poly);
}

// ---------------------------------------------------------------------------
// Either way round
// ---------------------------------------------------------------------------

/// A simple ring is simple the other way round, and turns the other way.
proof fn reversed(w: Seq<Point>)
    requires
        w.len() >= 3,
        simple(w),
    ensures
        simple(w.reverse()),
        counter_clockwise(w) || counter_clockwise(w.reverse()),
{
    let n = w.len() as int;
    let v = w.reverse();
    assert forall|i: int, j: int, k: int|
        0 <= i < n && 0 <= j < n && 0 <= k < n && i != j && j != k && i != k implies #[trigger] apart(
        v[i],
        v[j],
        v[k],
    ) by {
        assert(apart(w[n - 1 - i], w[n - 1 - j], w[n - 1 - k]));
    }
    assert forall|i: int, j: int|
        0 <= i < n && 0 <= j < n && i != j && polygon::after(i, n) != j && polygon::after(j, n)
            != i implies !#[trigger] sides_cross(v, i, j) by {
        let (x, y) = (n - 1 - polygon::after(i, n), n - 1 - polygon::after(j, n));
        assert(polygon::after(x, n) == n - 1 - i && polygon::after(y, n) == n - 1 - j);
        assert(!sides_cross(w, x, y));
        general4(w, x, n - 1 - i, y, n - 1 - j);
        turns4(w[x], w[n - 1 - i], w[y], w[n - 1 - j]);
    }
    let l = lowest_of(w, n);
    assert(is_lowest(w, l));
    let h = n - 1 - l;
    assert(is_lowest(v, h)) by {
        assert forall|k: int| 0 <= k < n && k != h implies level(v[h]) < #[trigger] level(v[k]) by {
            assert(level(w[l]) < level(w[n - 1 - k]));
        }
    }
    let (p, q) = (polygon::before(l, n), polygon::after(l, n));
    assert(polygon::before(h, n) == n - 1 - q && polygon::after(h, n) == n - 1 - p);
    assert(apart(w[p], w[l], w[q]));
    turn(w[p], w[l], w[q]);
}

/// The other way round sweeps the same the other way.
proof fn chain_reversed(w: Seq<Point>, k: nat)
    requires
        0 < k <= w.len(),
    ensures
        polygon::chain(w.reverse(), polygon::all_corners(k)) == -polygon::chain(
            w,
            polygon::corners_from(w.len() - k, w.len() as int),
        ),
    decreases k,
{
    let n = w.len() as int;
    let v = w.reverse();
    if k > 1 {
        let j = (k - 1) as nat;
        chain_reversed(w, j);
        assert(polygon::all_corners(k).drop_last() =~= polygon::all_corners(j));
        let one = seq![n - k];
        let rest = polygon::corners_from(n - j, n);
        assert(polygon::corners_from(n - k, n) =~= one + rest);
        polygon::chain_joins(w, one, rest);
        assert(polygon::chain(w, one) == 0);
        swept_area(v[k - 2], v[k - 1], v[k - 1]);
        assert(v[k - 2] == w[n - j] && v[k - 1] == w[n - k]);
    }
}

proof fn area_reversed(w: Seq<Point>)
    requires
        w.len() >= 3,
    ensures
        polygon::area(w.reverse(), polygon::all_corners(w.len())) == -polygon::area(
            w,
            polygon::all_corners(w.len()),
        ),
{
    let n = w.len();
    let v = w.reverse();
    chain_reversed(w, n);
    assert(polygon::corners_from(0, n as int) =~= polygon::all_corners(n));
    swept_area(w[0], w[n - 1], w[0]);
    assert(v[0] == w[n - 1] && v[n - 1] == w[0]);
}

/// A simple outline goes round counter-clockwise where its area is positive.
/// It always has one.
pub proof fn area_tells_the_way_round(poly: Seq<Point>)
    requires
        poly.len() >= 3,
        simple(poly),
    ensures
        counter_clockwise(poly) == (polygon::area(poly, polygon::all_corners(poly.len())) > 0),
        polygon::area(poly, polygon::all_corners(poly.len())) != 0,
{
    reversed(poly);
    area_reversed(poly);
    if counter_clockwise(poly) {
        outline_is_cut(poly);
    } else {
        outline_is_cut(poly.reverse());
    }
}

/// A simple outline with no three corners in a line that goes round
/// counter-clockwise leaves nothing over: the ear clipper cuts it into two
/// triangles fewer than it has corners.
pub proof fn simple_outlines_leave_nothing_over(poly: Seq<Point>)
    requires
        poly.len() >= 3,
        simple(poly),
        polygon::area(poly, polygon::all_corners(poly.len())) > 0,
    ensures
        polygon::left_over(poly, polygon::all_corners(poly.len())) == Seq::<int>::empty(),
        polygon::clipped(poly, polygon::all_corners(poly.len())).len() == poly.len() - 2,
{
    area_tells_the_way_round(poly);
    outline_is_cut(poly);
}

} // verus!
