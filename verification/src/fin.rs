//! The outline of a fin is cut into triangles to the last corner.
//!
//! On one side of the aircraft the leading edge is cut about the root and the
//! trailing edge about the tip. On the other side everything is cut about the
//! first corner of the leading edge.
use crate::polygon;
use crate::polygon::Point;
use crate::surface;
use crate::surface::FIN_POINTS;
use vstd::prelude::*;

verus! {

/// The corners of the fin, in units of an outline.
proof fn fin_corners()
    ensures
        surface::fin_point(0).x == 0 && surface::fin_point(0).y == -20736,
        surface::fin_point(1).x == 6074 && surface::fin_point(1).y == -20147,
        surface::fin_point(2).x == 12160 && surface::fin_point(2).y == -18472,
        surface::fin_point(3).x == 18198 && surface::fin_point(3).y == -15849,
        surface::fin_point(4).x == 24128 && surface::fin_point(4).y == -12416,
        surface::fin_point(5).x == 29890 && surface::fin_point(5).y == -8311,
        surface::fin_point(6).x == 35424 && surface::fin_point(6).y == -3672,
        surface::fin_point(7).x == 40670 && surface::fin_point(7).y == 1363,
        surface::fin_point(8).x == 45568 && surface::fin_point(8).y == 6656,
        surface::fin_point(9).x == 50058 && surface::fin_point(9).y == 12069,
        surface::fin_point(10).x == 54080 && surface::fin_point(10).y == 17464,
        surface::fin_point(11).x == 57574 && surface::fin_point(11).y == 22703,
        surface::fin_point(12).x == 60480 && surface::fin_point(12).y == 27648,
        surface::fin_point(13).x == 56386 && surface::fin_point(13).y == 27874,
        surface::fin_point(14).x == 51920 && surface::fin_point(14).y == 27728,
        surface::fin_point(15).x == 47142 && surface::fin_point(15).y == 27270,
        surface::fin_point(16).x == 42112 && surface::fin_point(16).y == 26560,
        surface::fin_point(17).x == 36890 && surface::fin_point(17).y == 25658,
        surface::fin_point(18).x == 31536 && surface::fin_point(18).y == 24624,
        surface::fin_point(19).x == 26110 && surface::fin_point(19).y == 23518,
        surface::fin_point(20).x == 20672 && surface::fin_point(20).y == 22400,
        surface::fin_point(21).x == 15282 && surface::fin_point(21).y == 21330,
        surface::fin_point(22).x == 10000 && surface::fin_point(22).y == 20368,
        surface::fin_point(23).x == 4886 && surface::fin_point(23).y == 19574,
        surface::fin_point(24).x == 0 && surface::fin_point(24).y == 19008,
{
    assert(surface::curve(0, 14, 29, 35, 0) == 0);
    assert(surface::curve(-12, -12, 5, 16, 0) == -20736);
    assert(surface::curve(0, 14, 29, 35, 1) == 6074);
    assert(surface::curve(-12, -12, 5, 16, 1) == -20147);
    assert(surface::curve(0, 14, 29, 35, 2) == 12160);
    assert(surface::curve(-12, -12, 5, 16, 2) == -18472);
    assert(surface::curve(0, 14, 29, 35, 3) == 18198);
    assert(surface::curve(-12, -12, 5, 16, 3) == -15849);
    assert(surface::curve(0, 14, 29, 35, 4) == 24128);
    assert(surface::curve(-12, -12, 5, 16, 4) == -12416);
    assert(surface::curve(0, 14, 29, 35, 5) == 29890);
    assert(surface::curve(-12, -12, 5, 16, 5) == -8311);
    assert(surface::curve(0, 14, 29, 35, 6) == 35424);
    assert(surface::curve(-12, -12, 5, 16, 6) == -3672);
    assert(surface::curve(0, 14, 29, 35, 7) == 40670);
    assert(surface::curve(-12, -12, 5, 16, 7) == 1363);
    assert(surface::curve(0, 14, 29, 35, 8) == 45568);
    assert(surface::curve(-12, -12, 5, 16, 8) == 6656);
    assert(surface::curve(0, 14, 29, 35, 9) == 50058);
    assert(surface::curve(-12, -12, 5, 16, 9) == 12069);
    assert(surface::curve(0, 14, 29, 35, 10) == 54080);
    assert(surface::curve(-12, -12, 5, 16, 10) == 17464);
    assert(surface::curve(0, 14, 29, 35, 11) == 57574);
    assert(surface::curve(-12, -12, 5, 16, 11) == 22703);
    assert(surface::curve(0, 14, 29, 35, 12) == 60480);
    assert(surface::curve(-12, -12, 5, 16, 12) == 27648);
    assert(surface::curve(35, 26, 11, 0, 1) == 56386);
    assert(surface::curve(16, 17, 12, 11, 1) == 27874);
    assert(surface::curve(35, 26, 11, 0, 2) == 51920);
    assert(surface::curve(16, 17, 12, 11, 2) == 27728);
    assert(surface::curve(35, 26, 11, 0, 3) == 47142);
    assert(surface::curve(16, 17, 12, 11, 3) == 27270);
    assert(surface::curve(35, 26, 11, 0, 4) == 42112);
    assert(surface::curve(16, 17, 12, 11, 4) == 26560);
    assert(surface::curve(35, 26, 11, 0, 5) == 36890);
    assert(surface::curve(16, 17, 12, 11, 5) == 25658);
    assert(surface::curve(35, 26, 11, 0, 6) == 31536);
    assert(surface::curve(16, 17, 12, 11, 6) == 24624);
    assert(surface::curve(35, 26, 11, 0, 7) == 26110);
    assert(surface::curve(16, 17, 12, 11, 7) == 23518);
    assert(surface::curve(35, 26, 11, 0, 8) == 20672);
    assert(surface::curve(16, 17, 12, 11, 8) == 22400);
    assert(surface::curve(35, 26, 11, 0, 9) == 15282);
    assert(surface::curve(16, 17, 12, 11, 9) == 21330);
    assert(surface::curve(35, 26, 11, 0, 10) == 10000);
    assert(surface::curve(16, 17, 12, 11, 10) == 20368);
    assert(surface::curve(35, 26, 11, 0, 11) == 4886);
    assert(surface::curve(16, 17, 12, 11, 11) == 19574);
    assert(surface::curve(35, 26, 11, 0, 12) == 0);
    assert(surface::curve(16, 17, 12, 11, 12) == 19008);
}

/// The turn at corner `a` from corner `b` to corner `c`, by the way from `a`
/// to each.
proof fn turn(a: int, b: int, c: int, ux: int, uy: int, vx: int, vy: int)
    requires
        surface::fin_point(b).x - surface::fin_point(a).x == ux,
        surface::fin_point(b).y - surface::fin_point(a).y == uy,
        surface::fin_point(c).x - surface::fin_point(a).x == vx,
        surface::fin_point(c).y - surface::fin_point(a).y == vy,
    ensures
        polygon::cross(surface::fin_point(a), surface::fin_point(b), surface::fin_point(c)) == ux
            * vy - uy * vx,
{
}

/// As seen from `a`, `w` follows `u` where `v` follows `u` and `w` follows `v`,
/// all on one side.
proof fn turns_add_up(a: Point, u: Point, v: Point, w: Point)
    requires
        polygon::cross(a, u, v) > 0,
        polygon::cross(a, v, w) > 0,
        (u.x >= a.x && v.x > a.x && w.x >= a.x) || (u.x <= a.x && v.x < a.x && w.x <= a.x),
        u.x != a.x || w.x != a.x,
    ensures
        polygon::cross(a, u, w) > 0,
{
    let (ux, uy) = (u.x - a.x, u.y - a.y);
    let (vx, vy) = (v.x - a.x, v.y - a.y);
    let (wx, wy) = (w.x - a.x, w.y - a.y);
    assert(vx * (ux * wy - uy * wx) == wx * (ux * vy - uy * vx) + ux * (vx * wy - vy * wx))
        by (nonlinear_arith);
    let (s, t, r) = (ux * vy - uy * vx, vx * wy - vy * wx, ux * wy - uy * wx);
    if vx > 0 {
        assert(wx * s + ux * t > 0) by (nonlinear_arith)
            requires
                s > 0,
                t > 0,
                ux >= 0,
                wx >= 0,
                ux != 0 || wx != 0,
        ;
        assert(r > 0) by (nonlinear_arith)
            requires
                vx * r > 0,
                vx > 0,
        ;
    } else {
        assert(wx * s + ux * t < 0) by (nonlinear_arith)
            requires
                s > 0,
                t > 0,
                ux <= 0,
                wx <= 0,
                ux != 0 || wx != 0,
        ;
        assert(r > 0) by (nonlinear_arith)
            requires
                vx * r < 0,
                vx < 0,
        ;
    }
}

/// The corners from `first` to `last` lie on one side of `a`. Only one end may
/// be level with it.
spec fn on_one_side(a: Point, s: Seq<Point>, first: int, last: int) -> bool {
    &&& s[first].x != a.x || s[last].x != a.x
    &&& {
        ||| s[first].x >= a.x && s[last].x >= a.x && forall|k: int|
            first < k < last ==> (#[trigger] s[k]).x > a.x
        ||| s[first].x <= a.x && s[last].x <= a.x && forall|k: int|
            first < k < last ==> (#[trigger] s[k]).x < a.x
    }
}

/// As seen from `a`, corners that each follow the one before follow one
/// another.
proof fn chain_turns(a: Point, s: Seq<Point>, first: int, last: int, i: int, j: int)
    requires
        first <= i < j <= last,
        on_one_side(a, s, first, last),
        forall|k: int| first < k <= last ==> polygon::cross(a, s[k - 1], #[trigger] s[k]) > 0,
    ensures
        polygon::cross(a, s[i], s[j]) > 0,
    decreases j - i,
{
    assert(polygon::cross(a, s[j - 1], s[j]) > 0);
    if i + 1 < j {
        chain_turns(a, s, first, last, i, j - 1);
        turns_add_up(a, s[i], s[j - 1], s[j]);
    }
}

/// Turns of the fin, as seen from its last corner.
proof fn fin_about_the_root()
    ensures
        forall|k: int|
            0 < k <= 11 ==> polygon::cross(
                surface::fin_point(24),
                surface::fin_point(k - 1),
                #[trigger] surface::fin_point(k),
            ) > 0,
        forall|j: int|
            12 <= j <= 23 ==> polygon::cross(
                surface::fin_point(24),
                surface::fin_point(11),
                #[trigger] surface::fin_point(j),
            ) > 0,
{
    fin_corners();
    turn(24, 0, 1, 0, -39744, 6074, -39155);
    turn(24, 1, 2, 6074, -39155, 12160, -37480);
    turn(24, 2, 3, 12160, -37480, 18198, -34857);
    turn(24, 3, 4, 18198, -34857, 24128, -31424);
    turn(24, 4, 5, 24128, -31424, 29890, -27319);
    turn(24, 5, 6, 29890, -27319, 35424, -22680);
    turn(24, 6, 7, 35424, -22680, 40670, -17645);
    turn(24, 7, 8, 40670, -17645, 45568, -12352);
    turn(24, 8, 9, 45568, -12352, 50058, -6939);
    turn(24, 9, 10, 50058, -6939, 54080, -1544);
    turn(24, 10, 11, 54080, -1544, 57574, 3695);
    turn(24, 11, 12, 57574, 3695, 60480, 8640);
    turn(24, 11, 13, 57574, 3695, 56386, 8866);
    turn(24, 11, 14, 57574, 3695, 51920, 8720);
    turn(24, 11, 15, 57574, 3695, 47142, 8262);
    turn(24, 11, 16, 57574, 3695, 42112, 7552);
    turn(24, 11, 17, 57574, 3695, 36890, 6650);
    turn(24, 11, 18, 57574, 3695, 31536, 5616);
    turn(24, 11, 19, 57574, 3695, 26110, 4510);
    turn(24, 11, 20, 57574, 3695, 20672, 3392);
    turn(24, 11, 21, 57574, 3695, 15282, 2322);
    turn(24, 11, 22, 57574, 3695, 10000, 1360);
    turn(24, 11, 23, 57574, 3695, 4886, 566);
}

/// Turns of the fin, as seen from its tip.
proof fn fin_about_the_tip()
    ensures
        forall|k: int|
            12 < k <= 24 ==> polygon::cross(
                surface::fin_point(11),
                surface::fin_point(k - 1),
                #[trigger] surface::fin_point(k),
            ) > 0,
{
    fin_corners();
    turn(11, 12, 13, 2906, 4945, -1188, 5171);
    turn(11, 13, 14, -1188, 5171, -5654, 5025);
    turn(11, 14, 15, -5654, 5025, -10432, 4567);
    turn(11, 15, 16, -10432, 4567, -15462, 3857);
    turn(11, 16, 17, -15462, 3857, -20684, 2955);
    turn(11, 17, 18, -20684, 2955, -26038, 1921);
    turn(11, 18, 19, -26038, 1921, -31464, 815);
    turn(11, 19, 20, -31464, 815, -36902, -303);
    turn(11, 20, 21, -36902, -303, -42292, -1373);
    turn(11, 21, 22, -42292, -1373, -47574, -2335);
    turn(11, 22, 23, -47574, -2335, -52688, -3129);
    turn(11, 23, 24, -52688, -3129, -57574, -3695);
}

/// Turns of the fin, as seen from its first corner.
proof fn fin_about_the_nose()
    ensures
        forall|k: int|
            1 < k <= 24 ==> polygon::cross(
                surface::fin_point(0),
                surface::fin_point(k - 1),
                #[trigger] surface::fin_point(k),
            ) > 0,
{
    fin_corners();
    turn(0, 1, 2, 6074, 589, 12160, 2264);
    turn(0, 2, 3, 12160, 2264, 18198, 4887);
    turn(0, 3, 4, 18198, 4887, 24128, 8320);
    turn(0, 4, 5, 24128, 8320, 29890, 12425);
    turn(0, 5, 6, 29890, 12425, 35424, 17064);
    turn(0, 6, 7, 35424, 17064, 40670, 22099);
    turn(0, 7, 8, 40670, 22099, 45568, 27392);
    turn(0, 8, 9, 45568, 27392, 50058, 32805);
    turn(0, 9, 10, 50058, 32805, 54080, 38200);
    turn(0, 10, 11, 54080, 38200, 57574, 43439);
    turn(0, 11, 12, 57574, 43439, 60480, 48384);
    turn(0, 12, 13, 60480, 48384, 56386, 48610);
    turn(0, 13, 14, 56386, 48610, 51920, 48464);
    turn(0, 14, 15, 51920, 48464, 47142, 48006);
    turn(0, 15, 16, 47142, 48006, 42112, 47296);
    turn(0, 16, 17, 42112, 47296, 36890, 46394);
    turn(0, 17, 18, 36890, 46394, 31536, 45360);
    turn(0, 18, 19, 31536, 45360, 26110, 44254);
    turn(0, 19, 20, 26110, 44254, 20672, 43136);
    turn(0, 20, 21, 20672, 43136, 15282, 42066);
    turn(0, 21, 22, 15282, 42066, 10000, 41104);
    turn(0, 22, 23, 10000, 41104, 4886, 40310);
    turn(0, 23, 24, 4886, 40310, 0, 39744);
}

/// What a triangle holds, by the way from `c` to each corner and to `p`.
proof fn holds(
    p: Point,
    a: Point,
    b: Point,
    c: Point,
    px: int,
    py: int,
    ax: int,
    ay: int,
    bx: int,
    by: int,
)
    requires
        p.x - c.x == px && p.y - c.y == py,
        a.x - c.x == ax && a.y - c.y == ay,
        b.x - c.x == bx && b.y - c.y == by,
        by * ax - bx * ay > 1,
        by * px - bx * py > 0,
        ax * py - ay * px > 0,
        (by * px - bx * py) + (ax * py - ay * px) < by * ax - bx * ay,
    ensures
        polygon::in_triangle(p, a, b, c),
{
    assert((c.x - b.x) * (a.y - c.y) == -(bx * ay)) by (nonlinear_arith)
        requires
            b.x - c.x == bx,
            a.y - c.y == ay,
    ;
    assert((c.x - b.x) * (p.y - c.y) == -(bx * py)) by (nonlinear_arith)
        requires
            b.x - c.x == bx,
            p.y - c.y == py,
    ;
    assert((c.y - a.y) * (p.x - c.x) == -(ay * px)) by (nonlinear_arith)
        requires
            a.y - c.y == ay,
            p.x - c.x == px,
    ;
}

/// The triangle between the root, the tip and corner `m` holds the corner next
/// to the root, by the way from `m` to that corner, the root and the tip.
proof fn kept(m: int, px: int, py: int, ax: int, ay: int, bx: int, by: int)
    requires
        surface::fin_point(23).x - surface::fin_point(m).x == px,
        surface::fin_point(23).y - surface::fin_point(m).y == py,
        surface::fin_point(24).x - surface::fin_point(m).x == ax,
        surface::fin_point(24).y - surface::fin_point(m).y == ay,
        surface::fin_point(11).x - surface::fin_point(m).x == bx,
        surface::fin_point(11).y - surface::fin_point(m).y == by,
        by * ax - bx * ay > 1,
        by * px - bx * py > 0,
        ax * py - ay * px > 0,
        (by * px - bx * py) + (ax * py - ay * px) < by * ax - bx * ay,
    ensures
        polygon::in_triangle(
            surface::fin_point(23),
            surface::fin_point(24),
            surface::fin_point(11),
            surface::fin_point(m),
        ),
{
    holds(
        surface::fin_point(23),
        surface::fin_point(24),
        surface::fin_point(11),
        surface::fin_point(m),
        px,
        py,
        ax,
        ay,
        bx,
        by,
    );
}

/// The triangle between the root, the tip and a corner of the trailing edge
/// holds the corner next to the root.
proof fn fin_tip_is_kept()
    ensures
        forall|m: int|
            12 <= m <= 22 ==> polygon::in_triangle(
                surface::fin_point(23),
                surface::fin_point(24),
                surface::fin_point(11),
                #[trigger] surface::fin_point(m),
            ),
{
    fin_corners();
    kept(12, -55594, -8074, -60480, -8640, -2906, -4945);
    kept(13, -51500, -8300, -56386, -8866, 1188, -5171);
    kept(14, -47034, -8154, -51920, -8720, 5654, -5025);
    kept(15, -42256, -7696, -47142, -8262, 10432, -4567);
    kept(16, -37226, -6986, -42112, -7552, 15462, -3857);
    kept(17, -32004, -6084, -36890, -6650, 20684, -2955);
    kept(18, -26650, -5050, -31536, -5616, 26038, -1921);
    kept(19, -21224, -3944, -26110, -4510, 31464, -815);
    kept(20, -15786, -2826, -20672, -3392, 36902, 303);
    kept(21, -10396, -1756, -15282, -2322, 42292, 1373);
    kept(22, -5114, -794, -10000, -1360, 47574, 2335);
}

/// Corners of the fin between the tip and the root, as seen from the tip.
proof fn tip_turns(i: int, j: int)
    requires
        13 <= i < j <= 24,
    ensures
        polygon::cross(surface::fin()[11], surface::fin()[i], surface::fin()[j]) > 0,
{
    fin_about_the_tip();
    fin_sides();
    chain_turns(surface::fin()[11], surface::fin(), 13, 24, i, j);
}

/// Corners of the fin on both sides of the tip, as seen from the root.
proof fn root_turns(i: int, j: int)
    requires
        0 <= i <= 11,
        i < j <= 23,
    ensures
        polygon::cross(surface::fin()[24], surface::fin()[i], surface::fin()[j]) > 0,
{
    let poly = surface::fin();
    fin_about_the_root();
    fin_sides();
    if j <= 11 {
        chain_turns(poly[24], poly, 0, 11, i, j);
    } else if i < 11 {
        chain_turns(poly[24], poly, 0, 11, i, 11);
        turns_add_up(poly[24], poly[i], poly[11], poly[j]);
    }
}

/// All other corners of the fin, as seen from the first.
proof fn nose_turns(i: int, j: int)
    requires
        1 <= i < j <= 24,
    ensures
        polygon::cross(surface::fin()[0], surface::fin()[i], surface::fin()[j]) > 0,
{
    fin_about_the_nose();
    fin_sides();
    chain_turns(surface::fin()[0], surface::fin(), 1, 24, i, j);
}

/// On which side of the first corner, the tip and the last corner the others
/// lie.
proof fn fin_sides()
    ensures
        on_one_side(surface::fin()[11], surface::fin(), 13, 24),
        on_one_side(surface::fin()[24], surface::fin(), 0, 11),
        on_one_side(surface::fin()[0], surface::fin(), 1, 24),
        forall|k: int| 0 < k < 24 ==> (#[trigger] surface::fin()[k]).x > 0,
        surface::fin()[0].x == 0 && surface::fin()[24].x == 0,
{
    fin_corners();
    assert forall|k: int| 0 < k < 24 implies (#[trigger] surface::fin()[k]).x > 0 by {
        assert(surface::fin()[k] == surface::fin_point(k));
    }
    assert forall|k: int| 13 < k < 24 implies (#[trigger] surface::fin()[k]).x < 57574 by {
        assert(surface::fin()[k] == surface::fin_point(k));
    }
}

/// Once one side of an outline is cut, the rest is cut about its tip `f`: the
/// triangle at the tip holds a corner all the while.
proof fn tip_cut(poly: Seq<Point>, f: int, m: int)
    requires
        0 <= f,
        f + 1 <= m <= poly.len() - 2,
        forall|i: int, j: int|
            f + 1 < i < j < poly.len() ==> polygon::cross(
                poly[f],
                #[trigger] poly[i],
                #[trigger] poly[j],
            ) > 0,
        polygon::cross(poly[f], poly[f + 1], poly[f + 2]) > 0,
        forall|k: int|
            f < k < poly.len() - 2 ==> polygon::in_triangle(
                poly[poly.len() - 2],
                poly[poly.len() - 1],
                poly[f],
                #[trigger] poly[k],
            ),
    ensures
        polygon::cuts_whole(poly, seq![f] + polygon::corners_from(m, poly.len() as int)),
    decreases poly.len() - m,
{
    assert(polygon::cross(poly[f], poly[m], poly[m + 1]) > 0);
    if m == poly.len() - 2 {
        polygon::last_cut(poly, f, m);
    } else {
        tip_cut(poly, f, m + 1);
        polygon::cut_about_first(poly, f, m, poly.len() - 2);
    }
}

/// One side of an outline is cut about the last corner, up to the tip `f`.
proof fn root_cut(poly: Seq<Point>, f: int, k: int)
    requires
        0 <= k <= f,
        f + 2 < poly.len(),
        forall|i: int, j: int|
            0 <= i <= f && i < j < poly.len() - 1 ==> polygon::cross(
                poly[poly.len() - 1],
                #[trigger] poly[i],
                #[trigger] poly[j],
            ) > 0,
        polygon::cuts_whole(poly, polygon::corners_from(f, poly.len() as int)),
    ensures
        polygon::cuts_whole(poly, polygon::corners_from(k, poly.len() as int)),
    decreases f - k,
{
    if k < f {
        root_cut(poly, f, k + 1);
        assert(polygon::cross(poly[poly.len() - 1], poly[k], poly[k + 1]) > 0);
        polygon::cut_about_last(poly, k);
    }
}

/// All corners between the tip and the root, as seen from the tip.
proof fn tip_fan()
    ensures
        forall|i: int, j: int|
            12 < i < j < 25 ==> polygon::cross(
                surface::fin()[11],
                #[trigger] surface::fin()[i],
                #[trigger] surface::fin()[j],
            ) > 0,
        polygon::cross(surface::fin()[11], surface::fin()[12], surface::fin()[13]) > 0,
{
    assert forall|i: int, j: int| 12 < i < j < 25 implies polygon::cross(
        surface::fin()[11],
        #[trigger] surface::fin()[i],
        #[trigger] surface::fin()[j],
    ) > 0 by {
        tip_turns(i, j);
    }
    fin_about_the_tip();
    assert(surface::fin()[13] == surface::fin_point(13));
}

/// All corners after one before the tip, as seen from the root.
proof fn root_fan()
    ensures
        forall|i: int, j: int|
            0 <= i <= 11 && i < j < 24 ==> polygon::cross(
                surface::fin()[24],
                #[trigger] surface::fin()[i],
                #[trigger] surface::fin()[j],
            ) > 0,
{
    assert forall|i: int, j: int| 0 <= i <= 11 && i < j < 24 implies polygon::cross(
        surface::fin()[24],
        #[trigger] surface::fin()[i],
        #[trigger] surface::fin()[j],
    ) > 0 by {
        root_turns(i, j);
    }
}

/// What the triangles at the tip hold.
proof fn tip_holds()
    ensures
        forall|k: int|
            11 < k < 23 ==> polygon::in_triangle(
                surface::fin()[23],
                surface::fin()[24],
                surface::fin()[11],
                #[trigger] surface::fin()[k],
            ),
{
    fin_tip_is_kept();
    assert forall|k: int| 11 < k < 23 implies polygon::in_triangle(
        surface::fin()[23],
        surface::fin()[24],
        surface::fin()[11],
        #[trigger] surface::fin()[k],
    ) by {
        assert(surface::fin()[k] == surface::fin_point(k));
    }
}

/// An outline like that of the fin is cut whole.
proof fn cut_like_a_fin(poly: Seq<Point>)
    requires
        poly.len() == 25,
        forall|i: int, j: int|
            12 < i < j < 25 ==> polygon::cross(
                poly[11],
                #[trigger] poly[i],
                #[trigger] poly[j],
            ) > 0,
        polygon::cross(poly[11], poly[12], poly[13]) > 0,
        forall|i: int, j: int|
            0 <= i <= 11 && i < j < 24 ==> polygon::cross(
                poly[24],
                #[trigger] poly[i],
                #[trigger] poly[j],
            ) > 0,
        forall|k: int|
            11 < k < 23 ==> polygon::in_triangle(
                poly[23],
                poly[24],
                poly[11],
                #[trigger] poly[k],
            ),
    ensures
        polygon::cuts_whole(poly, polygon::all_corners(25)),
{
    tip_cut(poly, 11, 12);
    assert(seq![11int] + polygon::corners_from(12, 25) =~= polygon::corners_from(11, 25));
    root_cut(poly, 11, 0);
    assert(polygon::corners_from(0, 25) =~= polygon::all_corners(25));
}

/// The fin is cut whole.
proof fn fin_cut()
    ensures
        polygon::cuts_whole(surface::fin(), polygon::all_corners(25)),
{
    tip_fan();
    root_fan();
    tip_holds();
    cut_like_a_fin(surface::fin());
}

proof fn chain_across(poly: Seq<Point>, other: Seq<Point>, at: Seq<int>)
    requires
        forall|k: int| 0 <= k < at.len() ==> {
            let p = poly[#[trigger] at[k]];
            let q = other[at[k]];
            q.x == -p.x && q.y == p.y
        },
    ensures
        polygon::chain(other, at) == -polygon::chain(poly, at),
    decreases at.len(),
{
    if at.len() > 1 {
        let rest = at.drop_last();
        assert forall|k: int| 0 <= k < rest.len() implies {
            let p = poly[#[trigger] rest[k]];
            let q = other[rest[k]];
            q.x == -p.x && q.y == p.y
        } by {
            assert(rest[k] == at[k]);
        }
        chain_across(poly, other, rest);
        swept_across(
            poly[at[at.len() - 2]],
            poly[at.last()],
            other[at[at.len() - 2]],
            other[at.last()],
        );
    }
}

proof fn swept_across(p: Point, q: Point, r: Point, s: Point)
    requires
        r.x == -p.x && r.y == p.y,
        s.x == -q.x && s.y == q.y,
    ensures
        polygon::swept(r, s) == -polygon::swept(p, q),
{
    assert(r.x * s.y - s.x * r.y == -(p.x * q.y - q.x * p.y)) by (nonlinear_arith)
        requires
            r.x == -p.x && r.y == p.y,
            s.x == -q.x && s.y == q.y,
    ;
}

proof fn cross_across(a: Point, b: Point, c: Point, d: Point, e: Point, f: Point)
    requires
        d.x == -a.x && d.y == a.y,
        e.x == -b.x && e.y == b.y,
        f.x == -c.x && f.y == c.y,
    ensures
        polygon::cross(d, f, e) == polygon::cross(a, b, c),
{
    assert((f.x - d.x) * (e.y - d.y) - (f.y - d.y) * (e.x - d.x) == (b.x - a.x) * (c.y - a.y) - (b.y
        - a.y) * (c.x - a.x)) by (nonlinear_arith)
        requires
            d.x == -a.x && d.y == a.y,
            e.x == -b.x && e.y == b.y,
            f.x == -c.x && f.y == c.y,
    ;
}

/// The ear clipper leaves nothing over of a fin, on either side of the
/// aircraft: no corner is left to cut, and there are two triangles fewer than
/// corners.
pub proof fn fins_leave_nothing_over(mirrored: bool)
    ensures
        surface::plate(mirrored).len() == FIN_POINTS,
        polygon::left_over(surface::plate(mirrored), polygon::all_corners(FIN_POINTS as nat))
            == Seq::<int>::empty(),
        polygon::clipped(surface::plate(mirrored), polygon::all_corners(FIN_POINTS as nat)).len()
            == FIN_POINTS - 2,
{
    let poly = surface::fin();
    let all = polygon::all_corners(25);
    fin_cut();
    polygon::whole_cuts(poly);
    if mirrored {
        let side = Seq::new(
            FIN_POINTS as nat,
            |i: int| Point { x: (-surface::fin_point(i).x) as i64, y: surface::fin_point(i).y },
        );
        assert forall|k: int| 0 <= k < 25 implies {
            let q = #[trigger] side[k];
            q.x == -poly[k].x && q.y == poly[k].y
        } by {
            fin_sides();
            assert(poly[k] == surface::fin_point(k));
        }
        other_side_leaves_nothing_over(poly, side);
    }
}

/// What holds of the fin holds of its mirror image, once that is turned round.
proof fn other_side_leaves_nothing_over(poly: Seq<Point>, side: Seq<Point>)
    requires
        poly == surface::fin(),
        side.len() == 25,
        polygon::area(poly, polygon::all_corners(25)) > 0,
        forall|k: int|
            0 <= k < 25 ==> {
                let q = #[trigger] side[k];
                q.x == -poly[k].x && q.y == poly[k].y
            },
    ensures
        polygon::area(side, polygon::all_corners(25)) < 0,
        side.reverse().len() == 25,
        polygon::left_over(side.reverse(), polygon::all_corners(25)) == Seq::<int>::empty(),
        polygon::clipped(side.reverse(), polygon::all_corners(25)).len() == 23,
{
    let all = polygon::all_corners(25);
    assert forall|k: int| 0 <= k < all.len() implies {
        let p = poly[#[trigger] all[k]];
        let q = side[all[k]];
        q.x == -p.x && q.y == p.y
    } by {
        assert(side[k].y == poly[k].y);
    }
    chain_across(poly, side, all);
    assert(side[24].y == poly[24].y && side[0].y == poly[0].y);
    swept_across(poly[24], poly[0], side[24], side[0]);
    let turned = side.reverse();
    assert forall|i: int, j: int| 0 <= i < j < 24 implies polygon::cross(
        turned[24],
        #[trigger] turned[i],
        #[trigger] turned[j],
    ) > 0 by {
        let (b, c) = (24 - j, 24 - i);
        nose_turns(b, c);
        assert(turned[i] == side[c] && turned[j] == side[b] && turned[24] == side[0]);
        cross_across(poly[0], poly[b], poly[c], side[0], side[b], side[c]);
    }
    polygon::outlines_about_a_corner_leave_nothing_over(turned);
}

} // verus!
