//! Triangles of flat outlines, in whole units of length.
use vstd::prelude::*;

verus! {

/// Units of an outline in a metre.
pub const OUTLINE_UNITS: i64 = 34560;

/// Largest coordinate of an outline, either way: the largest for which the
/// doubled area of an outline with the most points is sure to fit 64 bits.
pub const OUTLINE_LIMIT: i64 = 8388607;

/// Most points of an outline.
pub const OUTLINE_POINTS: usize = 65536;

/// A corner of an outline.
#[derive(Clone, Copy, Debug, PartialEq, Eq, Structural)]
pub struct Point {
    pub x: i64,
    pub y: i64,
}

/// Corners of a triangle, by their places in an outline.
#[derive(Clone, Copy, Debug, PartialEq, Eq, Structural)]
pub struct Ear {
    pub a: u32,
    pub b: u32,
    pub c: u32,
}

/// Every coordinate is small enough to be multiplied, and every place fits.
pub open spec fn is_outline(poly: Seq<Point>) -> bool {
    &&& poly.len() <= OUTLINE_POINTS
    &&& forall|i: int|
        0 <= i < poly.len() ==> -OUTLINE_LIMIT <= (#[trigger] poly[i]).x <= OUTLINE_LIMIT
            && -OUTLINE_LIMIT <= poly[i].y <= OUTLINE_LIMIT
}

/// Twice the area that the side from `p` to `q` sweeps about the origin.
pub open spec fn swept(p: Point, q: Point) -> int {
    p.x * q.y - q.x * p.y
}

/// Twice the signed area of a triangle: positive where its corners go round
/// counter-clockwise.
pub open spec fn cross(a: Point, b: Point, c: Point) -> int {
    (b.x - a.x) * (c.y - a.y) - (b.y - a.y) * (c.x - a.x)
}

/// Twice the area that an open chain of corners sweeps.
pub open spec fn chain(poly: Seq<Point>, at: Seq<int>) -> int
    decreases at.len(),
{
    if at.len() <= 1 {
        0
    } else {
        chain(poly, at.drop_last()) + swept(poly[at[at.len() - 2]], poly[at.last()])
    }
}

/// Twice the signed area of the polygon through some corners of an outline.
pub open spec fn area(poly: Seq<Point>, at: Seq<int>) -> int {
    if at.len() == 0 {
        0
    } else {
        chain(poly, at) + swept(poly[at.last()], poly[at[0]])
    }
}

/// All corners of an outline.
pub open spec fn all_corners(n: nat) -> Seq<int> {
    Seq::new(n, |i: int| i)
}

/// `p` lies within the triangle, off its sides. A triangle of at most half a
/// square unit has no whole point within.
pub open spec fn in_triangle(p: Point, a: Point, b: Point, c: Point) -> bool {
    let d = (b.y - c.y) * (a.x - c.x) + (c.x - b.x) * (a.y - c.y);
    let u = (b.y - c.y) * (p.x - c.x) + (c.x - b.x) * (p.y - c.y);
    let v = (c.y - a.y) * (p.x - c.x) + (a.x - c.x) * (p.y - c.y);
    if d > 1 {
        u > 0 && v > 0 && u + v < d
    } else if d < -1 {
        u < 0 && v < 0 && u + v > d
    } else {
        false
    }
}

/// Place before `i`, going round.
pub open spec fn before(i: int, n: int) -> int {
    if i == 0 {
        n - 1
    } else {
        i - 1
    }
}

/// Place after `i`, going round.
pub open spec fn after(i: int, n: int) -> int {
    if i == n - 1 {
        0
    } else {
        i + 1
    }
}

/// The triangle at corner `i` of what remains.
pub open spec fn ear_at(at: Seq<int>, i: int) -> (int, int, int) {
    (at[before(i, at.len() as int)], at[i], at[after(i, at.len() as int)])
}

/// The triangle at corner `i` turns the right way, and holds no other corner.
pub open spec fn is_ear(poly: Seq<Point>, at: Seq<int>, i: int) -> bool {
    let (a, b, c) = ear_at(at, i);
    &&& cross(poly[a], poly[b], poly[c]) > 0
    &&& forall|k: int|
        0 <= k < at.len() ==> {
            let p = #[trigger] at[k];
            p == a || p == b || p == c || !in_triangle(poly[p], poly[a], poly[b], poly[c])
        }
}

/// First ear at or after corner `i`.
pub open spec fn first_ear(poly: Seq<Point>, at: Seq<int>, i: int) -> Option<int>
    decreases at.len() - i,
{
    if i >= at.len() {
        None
    } else if is_ear(poly, at, i) {
        Some(i)
    } else {
        first_ear(poly, at, i + 1)
    }
}

/// Triangles of what remains: the first ear is cut again and again until a
/// triangle is left, or none is found.
pub open spec fn clipped(poly: Seq<Point>, at: Seq<int>) -> Seq<(int, int, int)>
    decreases at.len(),
{
    if at.len() == 3 {
        seq![(at[0], at[1], at[2])]
    } else if at.len() < 3 {
        Seq::empty()
    } else {
        match first_ear(poly, at, 0) {
            Some(i) => if 0 <= i < at.len() {
                seq![ear_at(at, i)] + clipped(poly, at.remove(i))
            } else {
                Seq::empty()
            },
            None => Seq::empty(),
        }
    }
}

/// Corners that are left when no further ear is found.
pub open spec fn left_over(poly: Seq<Point>, at: Seq<int>) -> Seq<int>
    decreases at.len(),
{
    if at.len() <= 3 {
        Seq::empty()
    } else {
        match first_ear(poly, at, 0) {
            Some(i) => if 0 <= i < at.len() {
                left_over(poly, at.remove(i))
            } else {
                at
            },
            None => at,
        }
    }
}

pub open spec fn ear_view(e: Ear) -> (int, int, int) {
    (e.a as int, e.b as int, e.c as int)
}

fn swept_of(p: Point, q: Point) -> (r: i64)
    requires
        -OUTLINE_LIMIT <= p.x <= OUTLINE_LIMIT,
        -OUTLINE_LIMIT <= p.y <= OUTLINE_LIMIT,
        -OUTLINE_LIMIT <= q.x <= OUTLINE_LIMIT,
        -OUTLINE_LIMIT <= q.y <= OUTLINE_LIMIT,
    ensures
        r == swept(p, q),
        -140737454800898 <= r <= 140737454800898,
{
    proof {
        product_bound(p.x as int, q.y as int, 8388607);
        product_bound(q.x as int, p.y as int, 8388607);
    }
    p.x * q.y - q.x * p.y
}

proof fn product_bound(a: int, b: int, m: int)
    requires
        -m <= a <= m,
        -m <= b <= m,
    ensures
        -(m * m) <= a * b <= m * m,
{
    assert(-(m * m) <= a * b <= m * m) by (nonlinear_arith)
        requires
            -m <= a <= m,
            -m <= b <= m,
    ;
}

/// Twice the signed area of an outline: positive where it goes round
/// counter-clockwise.
pub fn signed_area(poly: &Vec<Point>) -> (r: i64)
    requires
        is_outline(poly@),
    ensures
        r == area(poly@, all_corners(poly@.len())),
{
    let n: usize = poly.len();
    if n == 0 {
        return 0;
    }
    let mut total: i64 = 0;
    let mut i: usize = 1;
    assert(all_corners(1).len() == 1);
    while i < n
        invariant
            1 <= i <= n,
            n == poly.len(),
            is_outline(poly@),
            total == chain(poly@, all_corners(i as nat)),
            -((i - 1) * 140737454800898) <= total <= (i - 1) * 140737454800898,
        decreases n - i,
    {
        let s: i64 = swept_of(poly[i - 1], poly[i]);
        assert(all_corners((i + 1) as nat).drop_last() =~= all_corners(i as nat));
        total = total + s;
        i += 1;
    }
    let s: i64 = swept_of(poly[n - 1], poly[0]);
    total + s
}

fn cross_of(a: Point, b: Point, c: Point) -> (r: i64)
    requires
        -OUTLINE_LIMIT <= a.x <= OUTLINE_LIMIT,
        -OUTLINE_LIMIT <= a.y <= OUTLINE_LIMIT,
        -OUTLINE_LIMIT <= b.x <= OUTLINE_LIMIT,
        -OUTLINE_LIMIT <= b.y <= OUTLINE_LIMIT,
        -OUTLINE_LIMIT <= c.x <= OUTLINE_LIMIT,
        -OUTLINE_LIMIT <= c.y <= OUTLINE_LIMIT,
    ensures
        r == cross(a, b, c),
{
    proof {
        product_bound(b.x - a.x, c.y - a.y, 16777214);
        product_bound(b.y - a.y, c.x - a.x, 16777214);
    }
    (b.x - a.x) * (c.y - a.y) - (b.y - a.y) * (c.x - a.x)
}

/// Whether a point lies within a triangle.
pub fn point_in_tri(p: Point, a: Point, b: Point, c: Point) -> (r: bool)
    requires
        is_outline(seq![p, a, b, c]),
    ensures
        r == in_triangle(p, a, b, c),
{
    proof {
        let s = seq![p, a, b, c];
        assert(s[0] == p && s[1] == a && s[2] == b && s[3] == c);
        product_bound(b.y - c.y, a.x - c.x, 16777214);
        product_bound(c.x - b.x, a.y - c.y, 16777214);
        product_bound(b.y - c.y, p.x - c.x, 16777214);
        product_bound(c.x - b.x, p.y - c.y, 16777214);
        product_bound(c.y - a.y, p.x - c.x, 16777214);
        product_bound(a.x - c.x, p.y - c.y, 16777214);
    }
    let d: i64 = (b.y - c.y) * (a.x - c.x) + (c.x - b.x) * (a.y - c.y);
    let u: i64 = (b.y - c.y) * (p.x - c.x) + (c.x - b.x) * (p.y - c.y);
    let v: i64 = (c.y - a.y) * (p.x - c.x) + (a.x - c.x) * (p.y - c.y);
    if d > 1 {
        u > 0 && v > 0 && u + v < d
    } else if d < -1 {
        u < 0 && v < 0 && u + v > d
    } else {
        false
    }
}

/// Places that name corners of an outline.
spec fn places(poly: Seq<Point>, at: Seq<usize>) -> bool {
    forall|k: int| 0 <= k < at.len() ==> (#[trigger] at[k]) < poly.len()
}

spec fn ints(at: Seq<usize>) -> Seq<int> {
    at.map_values(|i: usize| i as int)
}

fn holds_corner(poly: &Vec<Point>, at: &Vec<usize>, a: usize, b: usize, c: usize) -> (r: bool)
    requires
        is_outline(poly@),
        places(poly@, at@),
        a < poly.len(),
        b < poly.len(),
        c < poly.len(),
    ensures
        !r <==> forall|k: int|
            0 <= k < ints(at@).len() ==> {
                let p = #[trigger] ints(at@)[k];
                p == a || p == b || p == c || !in_triangle(
                    poly[p],
                    poly[a as int],
                    poly[b as int],
                    poly[c as int],
                )
            },
{
    let mut k: usize = 0;
    while k < at.len()
        invariant
            k <= at.len(),
            is_outline(poly@),
            places(poly@, at@),
            a < poly.len(),
            b < poly.len(),
            c < poly.len(),
            forall|j: int|
                0 <= j < k ==> {
                    let p = #[trigger] ints(at@)[j];
                    p == a || p == b || p == c || !in_triangle(
                        poly[p],
                        poly[a as int],
                        poly[b as int],
                        poly[c as int],
                    )
                },
        decreases at.len() - k,
    {
        let p: usize = at[k];
        assert(ints(at@)[k as int] == p);
        if p != a && p != b && p != c {
            if point_in_tri(poly[p], poly[a], poly[b], poly[c]) {
                return true;
            }
        }
        k += 1;
    }
    false
}

fn find_ear(poly: &Vec<Point>, at: &Vec<usize>) -> (r: Option<usize>)
    requires
        is_outline(poly@),
        places(poly@, at@),
        at.len() >= 3,
    ensures
        match r {
            Some(i) => i < at.len() && first_ear(poly@, ints(at@), 0) == Some(i as int),
            None => first_ear(poly@, ints(at@), 0) is None,
        },
{
    let n: usize = at.len();
    let mut i: usize = 0;
    while i < n
        invariant
            i <= n,
            n == at.len(),
            n >= 3,
            is_outline(poly@),
            places(poly@, at@),
            first_ear(poly@, ints(at@), 0) == first_ear(poly@, ints(at@), i as int),
        decreases n - i,
    {
        let a: usize = at[if i == 0 {
            n - 1
        } else {
            i - 1
        }];
        let b: usize = at[i];
        let c: usize = at[if i == n - 1 {
            0
        } else {
            i + 1
        }];
        assert(ear_at(ints(at@), i as int) == (a as int, b as int, c as int));
        if cross_of(poly[a], poly[b], poly[c]) > 0 && !holds_corner(poly, at, a, b, c) {
            assert(is_ear(poly@, ints(at@), i as int));
            return Some(i);
        }
        assert(!is_ear(poly@, ints(at@), i as int));
        i += 1;
    }
    None
}

/// Cut a simple outline that goes round counter-clockwise into triangles.
pub fn ear_clip(poly: &Vec<Point>) -> (r: Vec<Ear>)
    requires
        is_outline(poly@),
    ensures
        r@.map_values(|e: Ear| ear_view(e)) == clipped(poly@, all_corners(poly@.len())),
{
    let mut at: Vec<usize> = Vec::new();
    let mut k: usize = 0;
    while k < poly.len()
        invariant
            k <= poly.len(),
            ints(at@) == all_corners(k as nat),
            places(poly@, at@),
        decreases poly.len() - k,
    {
        let ghost seen = at@;
        at.push(k);
        assert(ints(at@) =~= ints(seen).push(k as int));
        k += 1;
        assert(all_corners(k as nat) =~= all_corners((k - 1) as nat).push(k - 1));
    }
    let mut out: Vec<Ear> = Vec::new();
    let ghost whole = clipped(poly@, ints(at@));
    assert(out@.map_values(|e: Ear| ear_view(e)) + whole =~= whole);
    while at.len() > 3
        invariant
            is_outline(poly@),
            places(poly@, at@),
            out@.map_values(|e: Ear| ear_view(e)) + clipped(poly@, ints(at@)) == whole,
        ensures
            places(poly@, at@),
            out@.map_values(|e: Ear| ear_view(e)) + (if at.len() > 3 {
                Seq::empty()
            } else {
                clipped(poly@, ints(at@))
            }) == whole,
        decreases at.len(),
    {
        let n: usize = at.len();
        match find_ear(poly, &at) {
            None => {
                assert(clipped(poly@, ints(at@)) =~= Seq::empty());
                break;
            },
            Some(i) => {
                let a: usize = at[if i == 0 {
                    n - 1
                } else {
                    i - 1
                }];
                let b: usize = at[i];
                let c: usize = at[if i == n - 1 {
                    0
                } else {
                    i + 1
                }];
                let ghost before_out = out@;
                let ghost before_at = at@;
                let ear = Ear { a: a as u32, b: b as u32, c: c as u32 };
                out.push(ear);
                at.remove(i);
                proof {
                    assert(ear_view(ear) == ear_at(ints(before_at), i as int));
                    assert(ints(at@) =~= ints(before_at).remove(i as int));
                    let rest = clipped(poly@, ints(at@));
                    assert(clipped(poly@, ints(before_at)) == seq![ear_view(ear)] + rest);
                    let seen = before_out.map_values(|e: Ear| ear_view(e));
                    assert(out@.map_values(|e: Ear| ear_view(e)) =~= seen.push(ear_view(ear)));
                    assert(seen.push(ear_view(ear)) + rest =~= seen + (seq![ear_view(ear)] + rest));
                    assert forall|k: int| 0 <= k < at.len() implies (#[trigger] at[k])
                        < poly.len() by {
                        assert(at[k] == before_at[if k < i { k } else { k + 1 }]);
                    }
                }
            },
        }
    }
    if at.len() == 3 {
        let ghost seen = out@.map_values(|e: Ear| ear_view(e));
        let last = Ear { a: at[0] as u32, b: at[1] as u32, c: at[2] as u32 };
        out.push(last);
        assert(clipped(poly@, ints(at@)) =~= seq![ear_view(last)]);
        assert(out@.map_values(|e: Ear| ear_view(e)) =~= seen + seq![ear_view(last)]);
    } else {
        assert(out@.map_values(|e: Ear| ear_view(e)) =~= whole);
    }
    out
}

// ---------------------------------------------------------------------------
// What a triangulation keeps
// ---------------------------------------------------------------------------

/// Twice the signed area of a list of triangles.
pub open spec fn total_area(poly: Seq<Point>, ears: Seq<(int, int, int)>) -> int
    decreases ears.len(),
{
    if ears.len() == 0 {
        0
    } else {
        cross(poly[ears[0].0], poly[ears[0].1], poly[ears[0].2]) + total_area(
            poly,
            ears.drop_first(),
        )
    }
}

pub proof fn chain_joins(poly: Seq<Point>, a: Seq<int>, b: Seq<int>)
    requires
        a.len() > 0,
        b.len() > 0,
    ensures
        chain(poly, a + b) == chain(poly, a) + swept(poly[a.last()], poly[b[0]]) + chain(poly, b),
    decreases b.len(),
{
    let ab = a + b;
    assert(ab.drop_last() =~= a + b.drop_last());
    if b.len() == 1 {
        assert(a + b.drop_last() =~= a);
        assert(ab[ab.len() - 2] == a.last());
    } else {
        chain_joins(poly, a, b.drop_last());
        assert(ab[ab.len() - 2] == b[b.len() - 2]);
    }
}

proof fn product_of_differences(p: int, q: int, r: int, s: int)
    ensures
        (p - q) * (r - s) == p * r - p * s - q * r + q * s,
{
    vstd::arithmetic::mul::lemma_mul_is_distributive_sub(p - q, r, s);
    vstd::arithmetic::mul::lemma_mul_is_distributive_sub_other_way(r, p, q);
    vstd::arithmetic::mul::lemma_mul_is_distributive_sub_other_way(s, p, q);
}

proof fn triangle_swept(a: Point, b: Point, c: Point)
    ensures
        cross(a, b, c) == swept(a, b) + swept(b, c) - swept(a, c),
{
    let (ax, ay, bx, by, cx, cy) = (
        a.x as int,
        a.y as int,
        b.x as int,
        b.y as int,
        c.x as int,
        c.y as int,
    );
    product_of_differences(bx, ax, cy, ay);
    product_of_differences(by, ay, cx, ax);
    vstd::arithmetic::mul::lemma_mul_is_commutative(by, cx);
    vstd::arithmetic::mul::lemma_mul_is_commutative(by, ax);
    vstd::arithmetic::mul::lemma_mul_is_commutative(ay, cx);
    vstd::arithmetic::mul::lemma_mul_is_commutative(ay, ax);
}

/// Cutting a corner takes away the area of the triangle at it.
proof fn cutting_takes_the_triangle(poly: Seq<Point>, at: Seq<int>, i: int)
    requires
        at.len() >= 3,
        0 <= i < at.len(),
    ensures
        ({
            let (a, b, c) = ear_at(at, i);
            area(poly, at) == area(poly, at.remove(i)) + cross(poly[a], poly[b], poly[c])
        }),
{
    let n = at.len() as int;
    let (a, b, c) = ear_at(at, i);
    let cut = at.remove(i);
    triangle_swept(poly[a], poly[b], poly[c]);
    let one = seq![b];
    assert(chain(poly, one) == 0);
    if i == 0 {
        let rest = at.subrange(1, n);
        assert(at =~= one + rest);
        assert(cut =~= rest);
        chain_joins(poly, one, rest);
        assert(rest.last() == a && rest[0] == c);
    } else if i == n - 1 {
        let rest = at.subrange(0, n - 1);
        assert(at =~= rest + one);
        assert(cut =~= rest);
        chain_joins(poly, rest, one);
        assert(rest.last() == a && rest[0] == c);
    } else {
        let left = at.subrange(0, i);
        let right = at.subrange(i + 1, n);
        assert(at =~= (left + one) + right);
        assert(cut =~= left + right);
        chain_joins(poly, left, one);
        chain_joins(poly, left + one, right);
        chain_joins(poly, left, right);
        assert(left.last() == a && right[0] == c && (left + one).last() == b);
        assert(at.last() == right.last() && at[0] == left[0]);
        assert(cut.last() == right.last() && cut[0] == left[0]);
    }
}

/// Cutting an outline into triangles keeps its area: the triangles and what
/// is left over have the area of the outline between them.
pub proof fn triangles_cover_the_outline(poly: Seq<Point>, at: Seq<int>)
    requires
        at.len() >= 3,
    ensures
        total_area(poly, clipped(poly, at)) + area(poly, left_over(poly, at)) == area(poly, at),
    decreases at.len(),
{
    let ears = clipped(poly, at);
    if at.len() == 3 {
        triangle_swept(poly[at[0]], poly[at[1]], poly[at[2]]);
        assert(total_area(poly, ears.drop_first()) == 0);
        let two = at.drop_last();
        assert(chain(poly, two.drop_last()) == 0);
        assert(chain(poly, two) == swept(poly[at[0]], poly[at[1]]));
        assert(swept(poly[at[2]], poly[at[0]]) == -swept(poly[at[0]], poly[at[2]])) by {
            let (p, q) = (poly[at[0]], poly[at[2]]);
            vstd::arithmetic::mul::lemma_mul_is_commutative(p.x as int, q.y as int);
            vstd::arithmetic::mul::lemma_mul_is_commutative(q.x as int, p.y as int);
        }
    } else {
        match first_ear(poly, at, 0) {
            Some(i) => {
                first_ear_is_ear(poly, at, 0);
                let rest = at.remove(i);
                triangles_cover_the_outline(poly, rest);
                cutting_takes_the_triangle(poly, at, i);
                assert(ears.drop_first() =~= clipped(poly, rest));
            },
            None => {
                assert(total_area(poly, ears) == 0);
            },
        }
    }
}

proof fn first_ear_is_ear(poly: Seq<Point>, at: Seq<int>, i: int)
    requires
        0 <= i,
    ensures
        first_ear(poly, at, i) matches Some(j) ==> i <= j < at.len() && is_ear(poly, at, j),
    decreases at.len() - i,
{
    if i < at.len() && !is_ear(poly, at, i) {
        first_ear_is_ear(poly, at, i + 1);
    }
}

/// Every triangle has its corners among those of the outline. Where nothing
/// is left over there are two triangles fewer than corners, and otherwise one
/// for each corner that was cut.
pub proof fn triangles_use_the_corners(poly: Seq<Point>, at: Seq<int>)
    requires
        at.len() >= 3,
        forall|k: int| 0 <= k < at.len() ==> 0 <= #[trigger] at[k] < poly.len(),
    ensures
        forall|t: int|
            0 <= t < clipped(poly, at).len() ==> {
                let e = #[trigger] clipped(poly, at)[t];
                0 <= e.0 < poly.len() && 0 <= e.1 < poly.len() && 0 <= e.2 < poly.len()
            },
        left_over(poly, at).len() == 0 ==> clipped(poly, at).len() == at.len() - 2,
        left_over(poly, at).len() > 0 ==> clipped(poly, at).len() == at.len() - left_over(
            poly,
            at,
        ).len(),
    decreases at.len(),
{
    if at.len() > 3 {
        match first_ear(poly, at, 0) {
            Some(i) => {
                first_ear_is_ear(poly, at, 0);
                let rest = at.remove(i);
                assert forall|k: int| 0 <= k < rest.len() implies 0 <= #[trigger] rest[k]
                    < poly.len() by {
                    assert(rest[k] == at[if k < i { k } else { k + 1 }]);
                }
                triangles_use_the_corners(poly, rest);
                assert forall|t: int| 0 <= t < clipped(poly, at).len() implies {
                    let e = #[trigger] clipped(poly, at)[t];
                    0 <= e.0 < poly.len() && 0 <= e.1 < poly.len() && 0 <= e.2 < poly.len()
                } by {
                    if t > 0 {
                        assert(clipped(poly, at)[t] == clipped(poly, rest)[t - 1]);
                    }
                }
            },
            None => {},
        }
    }
}

// ---------------------------------------------------------------------------
// Outlines that leave nothing over
// ---------------------------------------------------------------------------

/// What remains is cut into triangles to the end, and they have an area.
pub open spec fn cuts_whole(poly: Seq<Point>, at: Seq<int>) -> bool {
    &&& at.len() >= 3
    &&& left_over(poly, at).len() == 0
    &&& total_area(poly, clipped(poly, at)) > 0
}

/// The corners of an outline from corner `k` on.
pub open spec fn corners_from(k: int, n: int) -> Seq<int> {
    Seq::new((n - k) as nat, |i: int| k + i)
}

/// A corner beyond the side from `c` to `a` is not within the triangle.
proof fn beyond_is_outside(p: Point, a: Point, b: Point, c: Point)
    requires
        cross(a, b, c) > 0,
        cross(a, c, p) > 0,
    ensures
        !in_triangle(p, a, b, c),
{
    let d = (b.y - c.y) * (a.x - c.x) + (c.x - b.x) * (a.y - c.y);
    let v = (c.y - a.y) * (p.x - c.x) + (a.x - c.x) * (p.y - c.y);
    let (ax, ay, bx, by, cx, cy, px, py) = (
        a.x as int,
        a.y as int,
        b.x as int,
        b.y as int,
        c.x as int,
        c.y as int,
        p.x as int,
        p.y as int,
    );
    assert((by - cy) * (ax - cx) + (cx - bx) * (ay - cy) == (bx - ax) * (cy - ay) - (by - ay) * (cx
        - ax)) by (nonlinear_arith);
    assert((cy - ay) * (px - cx) + (ax - cx) * (py - cy) == -((cx - ax) * (py - ay) - (cy - ay) * (
    px - ax))) by (nonlinear_arith);
}

/// A single triangle that turns the right way.
pub proof fn one_triangle(poly: Seq<Point>, at: Seq<int>)
    requires
        at.len() == 3,
        cross(poly[at[0]], poly[at[1]], poly[at[2]]) > 0,
    ensures
        cuts_whole(poly, at),
{
    let ears = clipped(poly, at);
    assert(total_area(poly, ears.drop_first()) == 0);
}

/// Cutting the first ear, where the rest is cut to the end.
pub proof fn first_cut(poly: Seq<Point>, at: Seq<int>, i: int)
    requires
        at.len() > 3,
        first_ear(poly, at, 0) == Some(i),
        cuts_whole(poly, at.remove(i)),
    ensures
        cuts_whole(poly, at),
{
    first_ear_is_ear(poly, at, 0);
    let ears = clipped(poly, at);
    assert(ears.drop_first() =~= clipped(poly, at.remove(i)));
}

/// Where the corners after `k` go round the last one, corner `k` is cut
/// first.
pub proof fn cut_about_last(poly: Seq<Point>, k: int)
    requires
        0 <= k,
        k + 3 < poly.len(),
        cross(poly[poly.len() - 1], poly[k], poly[k + 1]) > 0,
        forall|j: int|
            k + 1 < j < poly.len() - 1 ==> cross(
                poly[poly.len() - 1],
                poly[k + 1],
                #[trigger] poly[j],
            ) > 0,
        cuts_whole(poly, corners_from(k + 1, poly.len() as int)),
    ensures
        cuts_whole(poly, corners_from(k, poly.len() as int)),
{
    let n = poly.len() as int;
    let at = corners_from(k, n);
    let (a, b, c) = (n - 1, k, k + 1);
    assert(ear_at(at, 0) == (a, b, c));
    assert forall|i: int| 0 <= i < at.len() implies {
        let p = #[trigger] at[i];
        p == a || p == b || p == c || !in_triangle(poly[p], poly[a], poly[b], poly[c])
    } by {
        let p = at[i];
        if p != a && p != b && p != c {
            assert(cross(poly[a], poly[c], poly[p]) > 0);
            beyond_is_outside(poly[p], poly[a], poly[b], poly[c]);
        }
    }
    assert(is_ear(poly, at, 0));
    assert(at.remove(0) =~= corners_from(k + 1, n));
    first_cut(poly, at, 0);
}

/// Where the triangle at corner `f` holds a corner, and the corners from `m`
/// on go round `f`, corner `m` is cut first.
pub proof fn cut_about_first(poly: Seq<Point>, f: int, m: int, held: int)
    requires
        0 <= f < m,
        m + 2 < poly.len(),
        m < held < poly.len() - 1,
        in_triangle(poly[held], poly[poly.len() - 1], poly[f], poly[m]),
        cross(poly[f], poly[m], poly[m + 1]) > 0,
        forall|j: int|
            m + 1 < j < poly.len() ==> cross(poly[f], poly[m + 1], #[trigger] poly[j]) > 0,
        cuts_whole(poly, seq![f] + corners_from(m + 1, poly.len() as int)),
    ensures
        cuts_whole(poly, seq![f] + corners_from(m, poly.len() as int)),
{
    let n = poly.len() as int;
    let at = seq![f] + corners_from(m, n);
    assert(ear_at(at, 0) == (n - 1, f, m));
    assert(at[1 + held - m] == held);
    assert(!is_ear(poly, at, 0));
    let (a, b, c) = (f, m, m + 1);
    assert(ear_at(at, 1) == (a, b, c));
    assert forall|i: int| 0 <= i < at.len() implies {
        let p = #[trigger] at[i];
        p == a || p == b || p == c || !in_triangle(poly[p], poly[a], poly[b], poly[c])
    } by {
        let p = at[i];
        if p != a && p != b && p != c {
            assert(cross(poly[a], poly[c], poly[p]) > 0);
            beyond_is_outside(poly[p], poly[a], poly[b], poly[c]);
        }
    }
    assert(is_ear(poly, at, 1));
    assert(first_ear(poly, at, 0) == Some(1int)) by {
        reveal_with_fuel(first_ear, 3);
    }
    assert(at.remove(1) =~= seq![f] + corners_from(m + 1, n));
    first_cut(poly, at, 1);
}

/// The last triangle where the corners go round `f`.
pub proof fn last_cut(poly: Seq<Point>, f: int, m: int)
    requires
        m + 2 == poly.len(),
        cross(poly[f], poly[m], poly[m + 1]) > 0,
    ensures
        cuts_whole(poly, seq![f] + corners_from(m, poly.len() as int)),
{
    let at = seq![f] + corners_from(m, poly.len() as int);
    one_triangle(poly, at);
}

proof fn cut_from(poly: Seq<Point>, k: int)
    requires
        0 <= k,
        k + 3 <= poly.len(),
        forall|i: int, j: int|
            0 <= i < j < poly.len() - 1 ==> cross(
                poly[poly.len() - 1],
                #[trigger] poly[i],
                #[trigger] poly[j],
            ) > 0,
    ensures
        cuts_whole(poly, corners_from(k, poly.len() as int)),
    decreases poly.len() - k,
{
    let n = poly.len() as int;
    assert(cross(poly[n - 1], poly[k], poly[k + 1]) > 0);
    if k + 3 == n {
        triangle_turns(poly[n - 1], poly[k], poly[k + 1]);
        one_triangle(poly, corners_from(k, n));
    } else {
        cut_from(poly, k + 1);
        cut_about_last(poly, k);
    }
}

/// A triangle may be named from any of its corners.
proof fn triangle_turns(a: Point, b: Point, c: Point)
    ensures
        cross(a, b, c) == cross(b, c, a),
{
    let (ax, ay, bx, by, cx, cy) = (
        a.x as int,
        a.y as int,
        b.x as int,
        b.y as int,
        c.x as int,
        c.y as int,
    );
    assert((bx - ax) * (cy - ay) - (by - ay) * (cx - ax) == (cx - bx) * (ay - by) - (cy - by) * (ax
        - bx)) by (nonlinear_arith);
}

/// An outline that is cut to the end has two triangles fewer than corners,
/// and goes round counter-clockwise.
pub proof fn whole_cuts(poly: Seq<Point>)
    requires
        cuts_whole(poly, all_corners(poly.len())),
    ensures
        left_over(poly, all_corners(poly.len())) == Seq::<int>::empty(),
        clipped(poly, all_corners(poly.len())).len() == poly.len() - 2,
        area(poly, all_corners(poly.len())) > 0,
{
    let at = all_corners(poly.len());
    triangles_use_the_corners(poly, at);
    triangles_cover_the_outline(poly, at);
    assert(left_over(poly, at) =~= Seq::<int>::empty());
}

/// An outline whose corners go round the last one, as seen from there, leaves
/// nothing over: it is cut into two triangles fewer than it has corners.
pub proof fn outlines_about_a_corner_leave_nothing_over(poly: Seq<Point>)
    requires
        poly.len() >= 3,
        forall|i: int, j: int|
            0 <= i < j < poly.len() - 1 ==> cross(
                poly[poly.len() - 1],
                #[trigger] poly[i],
                #[trigger] poly[j],
            ) > 0,
    ensures
        left_over(poly, all_corners(poly.len())) == Seq::<int>::empty(),
        clipped(poly, all_corners(poly.len())).len() == poly.len() - 2,
{
    cut_from(poly, 0);
    assert(corners_from(0, poly.len() as int) =~= all_corners(poly.len()));
    whole_cuts(poly);
}

/// A convex outline that goes round counter-clockwise leaves nothing over.
pub proof fn convex_outlines_leave_nothing_over(poly: Seq<Point>)
    requires
        poly.len() >= 3,
        forall|i: int, j: int, k: int|
            0 <= i < j < k < poly.len() ==> cross(
                #[trigger] poly[i],
                #[trigger] poly[j],
                #[trigger] poly[k],
            ) > 0,
    ensures
        left_over(poly, all_corners(poly.len())) == Seq::<int>::empty(),
        clipped(poly, all_corners(poly.len())).len() == poly.len() - 2,
{
    let last = poly.len() - 1;
    assert forall|i: int, j: int| 0 <= i < j < last implies cross(
        poly[last],
        #[trigger] poly[i],
        #[trigger] poly[j],
    ) > 0 by {
        triangle_turns(poly[last], poly[i], poly[j]);
        assert(cross(poly[i], poly[j], poly[last]) > 0);
    }
    outlines_about_a_corner_leave_nothing_over(poly);
}

} // verus!
