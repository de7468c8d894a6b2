//! Triangles of the surfaces that the aircraft is made of. Surfaces are
//! mirrored along the aircraft's axis, and the winding with them.
use crate::polygon;
use crate::polygon::{ear_clip, signed_area, Ear, Point};
use vstd::prelude::*;

verus! {

/// Samples along each curve of the fin outline.
pub const FIN_STEPS: u32 = 12;

/// Points of the fin outline.
pub const FIN_POINTS: u32 = 25;

/// A surface, by how its vertices are joined.
#[derive(Clone, Copy, Debug, PartialEq, Eq, Structural)]
pub enum Shape {
    /// A sheet of `rows` by `cols` cells, seen from its first side.
    Grid { rows: u32, cols: u32 },
    /// A sheet of `rows` by `cols` cells, seen from its second side: rings
    /// along a curve, or a profile that is turned about an axis.
    Rings { rows: u32, cols: u32 },
    /// A single cell of four vertices, in the order round it.
    Quad,
    /// A fin: its outline twice, the faces between, and the rim.
    Plate { mirrored: bool },
}

/// Vertices of a surface.
pub open spec fn shape_verts(s: Shape) -> int {
    match s {
        Shape::Grid { rows, cols } => (rows + 1) * (cols + 1),
        Shape::Rings { rows, cols } => (rows + 1) * (cols + 1),
        Shape::Quad => 4,
        Shape::Plate { mirrored } => 50,
    }
}

// ---------------------------------------------------------------------------
// Sheets
// ---------------------------------------------------------------------------

/// First corner of cell `k` of a sheet.
pub open spec fn cell(base: int, cols: int, k: int) -> int {
    base + (k / cols) * (cols + 1) + k % cols
}

/// Corner `e` of the two triangles of a cell whose first corner is `a`. The
/// other corners are the next in its row, the one below, and the one below
/// the next.
pub open spec fn cell_corner(a: int, cols: int, rings: bool, e: int) -> int {
    let b = a + 1;
    let c = a + cols + 1;
    let d = a + cols + 2;
    if e == 0 || e == 3 {
        a
    } else if e == 1 || e == 5 {
        d
    } else if (e == 2) == rings {
        c
    } else {
        b
    }
}

/// Indices of a sheet.
pub open spec fn sheet(base: int, rows: int, cols: int, rings: bool) -> Seq<u32> {
    Seq::new(
        (6 * (rows * cols)) as nat,
        |i: int| cell_corner(cell(base, cols, i / 6), cols, rings, i % 6) as u32,
    )
}

proof fn cell_parts(row: int, col: int, cols: int)
    requires
        0 <= row,
        0 <= col < cols,
    ensures
        0 <= row * cols + col,
        (row * cols + col) / cols == row,
        (row * cols + col) % cols == col,
{
    assert(0 <= row * cols) by (nonlinear_arith)
        requires
            0 <= row,
            0 < cols,
    ;
    vstd::arithmetic::div_mod::lemma_fundamental_div_mod_converse(row * cols + col, cols, row, col);
}

proof fn cell_in_range(base: int, rows: int, cols: int, k: int)
    requires
        0 <= k < rows * cols,
        0 < cols,
        0 <= base,
    ensures
        base <= cell(base, cols, k),
        cell(base, cols, k) + cols + 2 < base + (rows + 1) * (cols + 1),
        0 <= k / cols < rows,
        0 <= k % cols < cols,
{
    let row = k / cols;
    let col = k % cols;
    vstd::arithmetic::div_mod::lemma_fundamental_div_mod(k, cols);
    vstd::arithmetic::div_mod::lemma_mod_bound(k, cols);
    assert(0 <= row < rows) by (nonlinear_arith)
        requires
            k == cols * row + col,
            0 <= col < cols,
            0 <= k < rows * cols,
    ;
    assert(0 <= row * (cols + 1)) by (nonlinear_arith)
        requires
            0 <= row,
            0 < cols,
    ;
    assert(row * (cols + 1) + 2 * (cols + 1) <= (rows + 1) * (cols + 1)) by (nonlinear_arith)
        requires
            row + 1 <= rows,
            0 < cols,
    ;
}

fn push_cell(idx: &mut Vec<u32>, a: u32, cols: u32, rings: bool)
    requires
        a + cols + 2 <= u32::MAX,
    ensures
        final(idx)@ == old(idx)@ + Seq::new(
            6,
            |e: int| cell_corner(a as int, cols as int, rings, e) as u32,
        ),
{
    let b: u32 = a + 1;
    let c: u32 = a + cols + 1;
    let d: u32 = c + 1;
    idx.push(a);
    idx.push(d);
    idx.push(if rings {
        c
    } else {
        b
    });
    idx.push(a);
    idx.push(if rings {
        b
    } else {
        c
    });
    idx.push(d);
    assert(idx@ =~= old(idx)@ + Seq::new(
        6,
        |e: int| cell_corner(a as int, cols as int, rings, e) as u32,
    ));
}

/// Append the indices of a sheet whose vertices start at `base`.
pub fn push_sheet(idx: &mut Vec<u32>, base: u32, rows: u32, cols: u32, rings: bool)
    requires
        base + (rows + 1) * (cols + 1) <= u32::MAX,
    ensures
        final(idx)@ == old(idx)@ + sheet(base as int, rows as int, cols as int, rings),
{
    let mut row: u32 = 0;
    let ghost whole = sheet(base as int, rows as int, cols as int, rings);
    assert(whole.take(0) =~= Seq::empty());
    assert(old(idx)@ + whole.take(0) =~= old(idx)@);
    while row < rows
        invariant
            row <= rows,
            base + (rows + 1) * (cols + 1) <= u32::MAX,
            whole == sheet(base as int, rows as int, cols as int, rings),
            0 <= 6 * (row * cols) <= whole.len(),
            idx@ == old(idx)@ + whole.take(6 * (row * cols)),
        decreases rows - row,
    {
        let mut col: u32 = 0;
        assert(row * cols + cols <= rows * cols) by (nonlinear_arith)
            requires
                row + 1 <= rows,
        ;
        assert(0 <= row * cols) by (nonlinear_arith);
        while col < cols
            invariant
                row < rows,
                col <= cols,
                base + (rows + 1) * (cols + 1) <= u32::MAX,
                whole == sheet(base as int, rows as int, cols as int, rings),
                0 <= row * cols,
                row * cols + cols <= rows * cols,
                idx@ == old(idx)@ + whole.take(6 * (row * cols + col)),
            decreases cols - col,
        {
            let ghost k = row * cols + col;
            proof {
                cell_parts(row as int, col as int, cols as int);
                cell_in_range(base as int, rows as int, cols as int, k);
                assert(row * (cols + 1) <= u32::MAX) by (nonlinear_arith)
                    requires
                        row * (cols + 1) + col <= u32::MAX,
                ;
            }
            let a: u32 = base + row * (cols + 1) + col;
            let ghost before = idx@;
            push_cell(idx, a, cols, rings);
            proof {
                let six = Seq::new(
                    6,
                    |e: int| cell_corner(a as int, cols as int, rings, e) as u32,
                );
                assert forall|e: int| 0 <= e < 6 implies whole[6 * k + e] == #[trigger] six[e] by {
                    assert((6 * k + e) / 6 == k && (6 * k + e) % 6 == e);
                }
                assert(whole.take(6 * (k + 1)) =~= whole.take(6 * k) + six);
                assert(idx@ =~= old(idx)@ + whole.take(6 * (k + 1)));
            }
            col += 1;
        }
        assert((row + 1) * cols == row * cols + cols) by (nonlinear_arith);
        row += 1;
    }
    assert(whole.take(6 * (row * cols)) =~= whole);
}

/// Neighbouring cells of a sheet agree on which side is out: the side that
/// two of them share is gone along once in each direction.
pub proof fn sheets_are_oriented(base: int, rows: int, cols: int, rings: bool, row: int, col: int)
    requires
        0 <= base,
        0 <= row < rows,
        0 <= col < cols,
        base + (rows + 1) * (cols + 1) <= u32::MAX,
    ensures
        ({
            let s = sheet(base, rows, cols, rings);
            let k = row * cols + col;
            // The side towards the next cell of the row.
            &&& col + 1 < cols ==> if rings {
                s[6 * k + 4] == s[6 * (k + 1)] && s[6 * k + 5] == s[6 * (k + 1) + 2]
            } else {
                s[6 * k + 1] == s[6 * (k + 1) + 4] && s[6 * k + 2] == s[6 * (k + 1) + 3]
            }
            // The side towards the cell below.
            &&& row + 1 < rows ==> if rings {
                s[6 * k + 1] == s[6 * (k + cols) + 4] && s[6 * k + 2] == s[6 * (k + cols) + 3]
            } else {
                s[6 * k + 4] == s[6 * (k + cols)] && s[6 * k + 5] == s[6 * (k + cols) + 2]
            }
        }),
{
    let k = row * cols + col;
    cell_parts(row, col, cols);
    cell_below(rows, cols, row, col);
    sheet_at(base, rows, cols, rings, k);
    if col + 1 < cols {
        cell_parts(row, col + 1, cols);
        cell_below(rows, cols, row, col + 1);
        sheet_at(base, rows, cols, rings, k + 1);
    }
    if row + 1 < rows {
        assert((row + 1) * cols + col == k + cols) by (nonlinear_arith)
            requires
                k == row * cols + col,
        ;
        cell_parts(row + 1, col, cols);
        cell_below(rows, cols, row + 1, col);
        sheet_at(base, rows, cols, rings, k + cols);
        assert((row + 1) * (cols + 1) == row * (cols + 1) + cols + 1) by (nonlinear_arith);
    }
}

proof fn cell_below(rows: int, cols: int, row: int, col: int)
    requires
        0 <= row < rows,
        0 <= col < cols,
    ensures
        0 <= row * cols + col < rows * cols,
{
    assert(0 <= row * cols + col < rows * cols) by (nonlinear_arith)
        requires
            0 <= row < rows,
            0 <= col < cols,
    ;
}

/// The six indices of cell `k`.
proof fn sheet_at(base: int, rows: int, cols: int, rings: bool, k: int)
    requires
        0 <= base,
        0 < cols,
        0 <= k < rows * cols,
        base + (rows + 1) * (cols + 1) <= u32::MAX,
    ensures
        forall|e: int|
            0 <= e < 6 ==> #[trigger] sheet(base, rows, cols, rings)[6 * k + e] == cell_corner(
                cell(base, cols, k),
                cols,
                rings,
                e,
            ),
        sheet(base, rows, cols, rings)[6 * k] == cell_corner(cell(base, cols, k), cols, rings, 0),
{
    cell_in_range(base, rows, cols, k);
    assert forall|e: int| 0 <= e < 6 implies #[trigger] sheet(base, rows, cols, rings)[6 * k + e]
        == cell_corner(cell(base, cols, k), cols, rings, e) by {
        assert((6 * k + e) / 6 == k && (6 * k + e) % 6 == e);
    }
    assert((6 * k) / 6 == k && (6 * k) % 6 == 0);
}

// ---------------------------------------------------------------------------
// Fins
// ---------------------------------------------------------------------------

/// Coordinate of a cubic curve, `i` of twelve steps along it. Control points
/// are in twentieths of a metre, so a full turn of the steps gives whole
/// units of an outline.
pub open spec fn curve(p0: int, p1: int, p2: int, p3: int, i: int) -> int {
    let u = 12 - i;
    (u * u * u) * p0 + 3 * (u * u * i) * p1 + 3 * (u * i * i) * p2 + (i * i * i) * p3
}

/// Point `i` of the fin outline: the leading edge, then the trailing edge.
pub open spec fn fin_point(i: int) -> Point {
    if i <= 12 {
        Point { x: curve(0, 14, 29, 35, i) as i64, y: curve(-12, -12, 5, 16, i) as i64 }
    } else {
        Point { x: curve(35, 26, 11, 0, i - 12) as i64, y: curve(16, 17, 12, 11, i - 12) as i64 }
    }
}

/// The fin outline.
pub open spec fn fin() -> Seq<Point> {
    Seq::new(FIN_POINTS as nat, |i: int| fin_point(i))
}

/// The outline of a fin, on either side of the aircraft, counter-clockwise.
pub open spec fn plate(mirrored: bool) -> Seq<Point> {
    let side = if mirrored {
        Seq::new(FIN_POINTS as nat, |i: int| Point { x: (-fin_point(i).x) as i64, y: fin_point(i).y })
    } else {
        fin()
    };
    if polygon::area(side, polygon::all_corners(FIN_POINTS as nat)) < 0 {
        side.reverse()
    } else {
        side
    }
}

proof fn curve_bound(p0: int, p1: int, p2: int, p3: int, i: int)
    requires
        0 <= i <= 12,
        -40 <= p0 <= 40,
        -40 <= p1 <= 40,
        -40 <= p2 <= 40,
        -40 <= p3 <= 40,
    ensures
        -829440 <= curve(p0, p1, p2, p3, i) <= 829440,
        ({
            let u = 12 - i;
            &&& 0 <= u * u <= 144
            &&& 0 <= i * i <= 144
            &&& 0 <= u * i <= 144
            &&& 0 <= u * u * u <= 1728
            &&& 0 <= u * u * i <= 1728
            &&& 0 <= u * i * i <= 1728
            &&& 0 <= i * i * i <= 1728
            &&& -69120 <= (u * u * u) * p0 <= 69120
            &&& -207360 <= 3 * (u * u * i) * p1 <= 207360
            &&& -207360 <= 3 * (u * i * i) * p2 <= 207360
            &&& -69120 <= (i * i * i) * p3 <= 69120
        }),
{
    let u = 12 - i;
    assert(0 <= u * u <= 144 && 0 <= i * i <= 144 && 0 <= u * i <= 144) by (nonlinear_arith)
        requires
            0 <= u <= 12,
            0 <= i <= 12,
    ;
    let (uu, ii, ui) = (u * u, i * i, u * i);
    assert(0 <= uu * u <= 1728) by (nonlinear_arith)
        requires
            0 <= uu <= 144,
            0 <= u <= 12,
    ;
    assert(0 <= uu * i <= 1728) by (nonlinear_arith)
        requires
            0 <= uu <= 144,
            0 <= i <= 12,
    ;
    assert(0 <= ui * i <= 1728) by (nonlinear_arith)
        requires
            0 <= ui <= 144,
            0 <= i <= 12,
    ;
    assert(0 <= ii * i <= 1728) by (nonlinear_arith)
        requires
            0 <= ii <= 144,
            0 <= i <= 12,
    ;
    let (w0, w1, w2, w3) = (uu * u, 3 * (uu * i), 3 * (ui * i), ii * i);
    assert(-69120 <= w0 * p0 <= 69120) by (nonlinear_arith)
        requires
            0 <= w0 <= 1728,
            -40 <= p0 <= 40,
    ;
    assert(-207360 <= w1 * p1 <= 207360) by (nonlinear_arith)
        requires
            0 <= w1 <= 5184,
            -40 <= p1 <= 40,
    ;
    assert(-207360 <= w2 * p2 <= 207360) by (nonlinear_arith)
        requires
            0 <= w2 <= 5184,
            -40 <= p2 <= 40,
    ;
    assert(-69120 <= w3 * p3 <= 69120) by (nonlinear_arith)
        requires
            0 <= w3 <= 1728,
            -40 <= p3 <= 40,
    ;
}

fn curve_at(p0: i64, p1: i64, p2: i64, p3: i64, i: u32) -> (r: i64)
    requires
        i <= 12,
        -40 <= p0 <= 40,
        -40 <= p1 <= 40,
        -40 <= p2 <= 40,
        -40 <= p3 <= 40,
    ensures
        r == curve(p0 as int, p1 as int, p2 as int, p3 as int, i as int),
        -829440 <= r <= 829440,
{
    proof {
        curve_bound(p0 as int, p1 as int, p2 as int, p3 as int, i as int);
    }
    let t: i64 = i as i64;
    let u: i64 = 12 - t;
    (u * u * u) * p0 + 3 * (u * u * t) * p1 + 3 * (u * t * t) * p2 + (t * t * t) * p3
}

/// Sample the outline of a fin.
pub fn fin_outline() -> (r: Vec<Point>)
    ensures
        r@ == fin(),
        polygon::is_outline(r@),
{
    let mut out: Vec<Point> = Vec::new();
    let mut i: u32 = 0;
    while i < FIN_POINTS
        invariant
            i <= FIN_POINTS,
            out@ == Seq::new(i as nat, |j: int| fin_point(j)),
            polygon::is_outline(out@),
        decreases FIN_POINTS - i,
    {
        let p = if i <= FIN_STEPS {
            Point { x: curve_at(0, 14, 29, 35, i), y: curve_at(-12, -12, 5, 16, i) }
        } else {
            Point {
                x: curve_at(35, 26, 11, 0, i - FIN_STEPS),
                y: curve_at(16, 17, 12, 11, i - FIN_STEPS),
            }
        };
        assert(p == fin_point(i as int));
        out.push(p);
        i += 1;
        assert(out@ =~= Seq::new(i as nat, |j: int| fin_point(j)));
    }
    out
}

/// The outline of a fin on its side, counter-clockwise.
pub fn fin_plate(mirrored: bool) -> (r: Vec<Point>)
    ensures
        r@ == plate(mirrored),
        r.len() == FIN_POINTS,
        polygon::is_outline(r@),
{
    let outline: Vec<Point> = fin_outline();
    let mut side: Vec<Point> = Vec::new();
    let mut i: usize = 0;
    let ghost whole = if mirrored {
        Seq::new(FIN_POINTS as nat, |i: int| Point { x: (-fin_point(i).x) as i64, y: fin_point(i).y })
    } else {
        fin()
    };
    while i < outline.len()
        invariant
            i <= outline.len(),
            outline@ == fin(),
            polygon::is_outline(outline@),
            whole == (if mirrored {
                Seq::new(
                    FIN_POINTS as nat,
                    |i: int| Point { x: (-fin_point(i).x) as i64, y: fin_point(i).y },
                )
            } else {
                fin()
            }),
            side@ == whole.take(i as int),
            polygon::is_outline(side@),
        decreases outline.len() - i,
    {
        let p: Point = outline[i];
        let q = Point {
            x: if mirrored {
                -p.x
            } else {
                p.x
            },
            y: p.y,
        };
        assert(q == whole[i as int]);
        side.push(q);
        i += 1;
        assert(side@ =~= whole.take(i as int));
    }
    assert(whole.take(i as int) =~= whole);
    if signed_area(&side) < 0 {
        let mut turned: Vec<Point> = Vec::new();
        let mut k: usize = side.len();
        while k > 0
            invariant
                k <= side.len(),
                side.len() == FIN_POINTS,
                polygon::is_outline(side@),
                turned@ == side@.reverse().take(side.len() - k),
                polygon::is_outline(turned@),
            decreases k,
        {
            k -= 1;
            turned.push(side[k]);
            assert(turned@ =~= side@.reverse().take(side.len() - k));
        }
        assert(turned@ =~= side@.reverse());
        turned
    } else {
        side
    }
}

/// Indices of the two faces of a plate.
pub open spec fn faces(ears: Seq<(int, int, int)>, base: int, n: int) -> Seq<u32>
    decreases ears.len(),
{
    if ears.len() == 0 {
        Seq::empty()
    } else {
        let (a, b, c) = ears.last();
        faces(ears.drop_last(), base, n) + seq![
            (base + a) as u32,
            (base + c) as u32,
            (base + b) as u32,
            (base + n + a) as u32,
            (base + n + b) as u32,
            (base + n + c) as u32,
        ]
    }
}

/// Corner `e` of the two rim triangles at side `i` of an outline of `n` points.
pub open spec fn rim_corner(base: int, n: int, i: int, e: int) -> int {
    let j = if i == n - 1 {
        0
    } else {
        i + 1
    };
    if e == 0 || e == 3 {
        base + i
    } else if e == 1 || e == 5 {
        base + n + j
    } else if e == 2 {
        base + n + i
    } else {
        base + j
    }
}

/// Indices of the rim of a plate.
pub open spec fn rim(base: int, n: int) -> Seq<u32> {
    Seq::new((6 * n) as nat, |i: int| rim_corner(base, n, i / 6, i % 6) as u32)
}

/// Append the indices of a plate: its faces, then its rim.
fn push_plate(idx: &mut Vec<u32>, base: u32, mirrored: bool)
    requires
        base + 50 <= u32::MAX,
    ensures
        final(idx)@ == old(idx)@ + shape_indices(Shape::Plate { mirrored }, base as int),
{
    let poly: Vec<Point> = fin_plate(mirrored);
    let ears: Vec<Ear> = ear_clip(&poly);
    let n: u32 = FIN_POINTS;
    let ghost views = ears@.map_values(|e: Ear| polygon::ear_view(e));
    proof {
        polygon::triangles_use_the_corners(poly@, polygon::all_corners(25));
    }
    let mut t: usize = 0;
    assert(faces(views.take(0), base as int, 25) =~= Seq::empty());
    assert(idx@ =~= old(idx)@ + faces(views.take(0), base as int, 25));
    while t < ears.len()
        invariant
            t <= ears.len(),
            n == 25,
            base + 50 <= u32::MAX,
            views == ears@.map_values(|e: Ear| polygon::ear_view(e)),
            forall|k: int|
                0 <= k < views.len() ==> {
                    let e = #[trigger] views[k];
                    0 <= e.0 < 25 && 0 <= e.1 < 25 && 0 <= e.2 < 25
                },
            idx@ == old(idx)@ + faces(views.take(t as int), base as int, 25),
        decreases ears.len() - t,
    {
        let e: Ear = ears[t];
        assert(views[t as int] == polygon::ear_view(e));
        let ghost before = idx@;
        idx.push(base + e.a);
        idx.push(base + e.c);
        idx.push(base + e.b);
        idx.push(base + n + e.a);
        idx.push(base + n + e.b);
        idx.push(base + n + e.c);
        proof {
            let more = views.take(t + 1);
            assert(more.drop_last() =~= views.take(t as int));
            assert(more.last() == polygon::ear_view(e));
            assert(idx@ =~= old(idx)@ + faces(more, base as int, 25));
        }
        t += 1;
    }
    assert(views.take(t as int) =~= views);
    let ghost faced = idx@;
    let mut i: u32 = 0;
    assert(rim(base as int, 25).take(0) =~= Seq::empty());
    assert(idx@ =~= faced + rim(base as int, 25).take(0));
    while i < n
        invariant
            i <= n,
            n == 25,
            base + 50 <= u32::MAX,
            idx@ == faced + rim(base as int, 25).take(6 * i),
        decreases n - i,
    {
        let j: u32 = if i == n - 1 {
            0
        } else {
            i + 1
        };
        let ghost before = idx@;
        idx.push(base + i);
        idx.push(base + n + j);
        idx.push(base + n + i);
        idx.push(base + i);
        idx.push(base + j);
        idx.push(base + n + j);
        proof {
            let r = rim(base as int, 25);
            let six = Seq::new(6, |e: int| rim_corner(base as int, 25, i as int, e) as u32);
            assert(idx@ =~= before + six);
            assert forall|e: int| 0 <= e < 6 implies r[6 * i + e] == #[trigger] six[e] by {
                assert((6 * i + e) / 6 == i && (6 * i + e) % 6 == e);
            }
            assert(r.take(6 * (i + 1)) =~= r.take(6 * i) + six);
            assert(idx@ =~= faced + r.take(6 * (i + 1)));
        }
        i += 1;
    }
    assert(rim(base as int, 25).take(150) =~= rim(base as int, 25));
    assert(idx@ =~= old(idx)@ + (faces(views, base as int, 25) + rim(base as int, 25)));
}

/// Indices of a surface whose vertices start at `base`.
pub open spec fn shape_indices(s: Shape, base: int) -> Seq<u32> {
    match s {
        Shape::Grid { rows, cols } => sheet(base, rows as int, cols as int, false),
        Shape::Rings { rows, cols } => sheet(base, rows as int, cols as int, true),
        Shape::Quad => seq![
            base as u32,
            (base + 2) as u32,
            (base + 1) as u32,
            base as u32,
            (base + 3) as u32,
            (base + 2) as u32,
        ],
        Shape::Plate { mirrored } => faces(
            polygon::clipped(plate(mirrored), polygon::all_corners(25)),
            base,
            25,
        ) + rim(base, 25),
    }
}

/// Append the indices of a surface whose vertices start at `base`.
pub fn push_shape(idx: &mut Vec<u32>, base: u32, s: Shape)
    requires
        base + shape_verts(s) <= u32::MAX,
    ensures
        final(idx)@ == old(idx)@ + shape_indices(s, base as int),
{
    match s {
        Shape::Grid { rows, cols } => push_sheet(idx, base, rows, cols, false),
        Shape::Rings { rows, cols } => push_sheet(idx, base, rows, cols, true),
        Shape::Quad => {
            idx.push(base);
            idx.push(base + 2);
            idx.push(base + 1);
            idx.push(base);
            idx.push(base + 3);
            idx.push(base + 2);
            assert(idx@ =~= old(idx)@ + shape_indices(s, base as int));
        },
        Shape::Plate { mirrored } => push_plate(idx, base, mirrored),
    }
}

proof fn faces_in_range(ears: Seq<(int, int, int)>, base: int)
    requires
        0 <= base,
        base + 50 <= u32::MAX,
        forall|k: int|
            0 <= k < ears.len() ==> {
                let e = #[trigger] ears[k];
                0 <= e.0 < 25 && 0 <= e.1 < 25 && 0 <= e.2 < 25
            },
    ensures
        faces(ears, base, 25).len() == 6 * ears.len(),
        forall|i: int|
            0 <= i < faces(ears, base, 25).len() ==> base <= #[trigger] faces(ears, base, 25)[i]
                < base + 50,
    decreases ears.len(),
{
    if ears.len() > 0 {
        let fewer = ears.drop_last();
        assert forall|k: int| 0 <= k < fewer.len() implies {
            let e = #[trigger] fewer[k];
            0 <= e.0 < 25 && 0 <= e.1 < 25 && 0 <= e.2 < 25
        } by {
            assert(fewer[k] == ears[k]);
        }
        faces_in_range(fewer, base);
        let e = ears[ears.len() - 1];
        assert(ears.last() == e);
    }
}

/// A surface is made of whole triangles, and joins its own vertices only.
pub proof fn surfaces_join_their_own_vertices(s: Shape, base: int)
    requires
        0 <= base,
        base + shape_verts(s) <= u32::MAX,
    ensures
        shape_indices(s, base).len() % 3 == 0,
        shape_indices(s, base).len() <= 6 * shape_verts(s),
        forall|i: int|
            0 <= i < shape_indices(s, base).len() ==> base <= #[trigger] shape_indices(s, base)[i]
                < base + shape_verts(s),
{
    match s {
        Shape::Grid { rows, cols } => sheet_in_range(base, rows as int, cols as int, false),
        Shape::Rings { rows, cols } => sheet_in_range(base, rows as int, cols as int, true),
        Shape::Quad => {},
        Shape::Plate { mirrored } => {
            let poly = plate(mirrored);
            let at = polygon::all_corners(25);
            assert(poly.len() == 25);
            polygon::triangles_use_the_corners(poly, at);
            faces_in_range(polygon::clipped(poly, at), base);
        },
    }
}

proof fn sheet_in_range(base: int, rows: int, cols: int, rings: bool)
    requires
        0 <= base,
        0 <= rows,
        0 <= cols,
        base + (rows + 1) * (cols + 1) <= u32::MAX,
    ensures
        sheet(base, rows, cols, rings).len() % 3 == 0,
        sheet(base, rows, cols, rings).len() <= 6 * ((rows + 1) * (cols + 1)),
        forall|i: int|
            0 <= i < sheet(base, rows, cols, rings).len() ==> base <= #[trigger] sheet(
                base,
                rows,
                cols,
                rings,
            )[i] < base + (rows + 1) * (cols + 1),
{
    assert(0 <= rows * cols) by (nonlinear_arith)
        requires
            0 <= rows,
            0 <= cols,
    ;
    assert(rows * cols <= (rows + 1) * (cols + 1)) by (nonlinear_arith)
        requires
            0 <= rows,
            0 <= cols,
    ;
    let s = sheet(base, rows, cols, rings);
    assert((6 * (rows * cols)) % 3 == 0);
    assert forall|i: int| 0 <= i < s.len() implies base <= #[trigger] s[i] < base + (rows + 1) * (
    cols + 1) by {
        let k = i / 6;
        assert(0 <= k < rows * cols);
        assert(cols != 0) by (nonlinear_arith)
            requires
                0 <= k < rows * cols,
        ;
        cell_in_range(base, rows, cols, k);
    }
}

/// A triangle of indices has a side from `u` to `v`.
pub open spec fn runs_along(s: Seq<u32>, at: int, u: int, v: int) -> bool {
    ||| s[at] == u && s[at + 1] == v
    ||| s[at + 1] == u && s[at + 2] == v
    ||| s[at + 2] == u && s[at] == v
}

/// The two triangles of a cell of a sheet cover it: they run along the diagonal
/// from its first corner to the one across in opposite directions, and have
/// the other two corners between them. Seen from its second side, the cell is
/// gone round the other way.
pub proof fn cells_are_covered(base: int, rows: int, cols: int, rings: bool, row: int, col: int)
    requires
        0 <= base,
        0 <= row < rows,
        0 <= col < cols,
        base + (rows + 1) * (cols + 1) <= u32::MAX,
    ensures
        ({
            let s = sheet(base, rows, cols, rings);
            let i = 6 * (row * cols + col);
            let first = base + row * (cols + 1) + col;
            let (next, below, across) = (first + 1, first + cols + 1, first + cols + 2);
            let (one, other) = if rings {
                (below, next)
            } else {
                (next, below)
            };
            &&& 0 <= i && i + 6 <= s.len()
            &&& runs_along(s, i, first, across) && runs_along(s, i, across, one) && runs_along(
                s,
                i,
                one,
                first,
            )
            &&& runs_along(s, i + 3, across, first) && runs_along(s, i + 3, first, other)
                && runs_along(s, i + 3, other, across)
        }),
{
    let k = row * cols + col;
    cell_parts(row, col, cols);
    cell_below(rows, cols, row, col);
    cell_in_range(base, rows, cols, k);
    sheet_at(base, rows, cols, rings, k);
    let s = sheet(base, rows, cols, rings);
    assert(s[6 * k + 1] == cell_corner(cell(base, cols, k), cols, rings, 1));
    assert(s[6 * k + 2] == cell_corner(cell(base, cols, k), cols, rings, 2));
    assert(s[6 * k + 3] == cell_corner(cell(base, cols, k), cols, rings, 3));
    assert(s[6 * k + 4] == cell_corner(cell(base, cols, k), cols, rings, 4));
    assert(s[6 * k + 5] == cell_corner(cell(base, cols, k), cols, rings, 5));
}

/// The rim of a plate closes it: along each side of the outline two triangles
/// join the faces. They run along the bottom in the order of the outline and
/// along the top against it, share a diagonal in opposite directions, and meet
/// the rim of the next side along the edge between the faces.
pub proof fn rims_join_the_faces(base: int, n: int, i: int)
    requires
        0 <= base,
        1 < n,
        base + 2 * n <= u32::MAX,
        0 <= i < n,
    ensures
        ({
            let r = rim(base, n);
            let j = (i + 1) % n;
            let (a, b) = (base + i, base + j);
            &&& r.len() == 6 * n
            &&& runs_along(r, 6 * i + 3, a, b)
            &&& runs_along(r, 6 * i, b + n, a + n)
            &&& runs_along(r, 6 * i, a, b + n) && runs_along(r, 6 * i + 3, b + n, a)
            &&& runs_along(r, 6 * i, a + n, a) && runs_along(r, 6 * i + 3, b, b + n)
            &&& runs_along(r, 6 * j, b + n, b)
        }),
{
    let j = (i + 1) % n;
    if i == n - 1 {
        vstd::arithmetic::div_mod::lemma_mod_self_0(n);
    } else {
        vstd::arithmetic::div_mod::lemma_small_mod((i + 1) as nat, n as nat);
    }
    let r = rim(base, n);
    assert forall|k: int, e: int| 0 <= k < n && 0 <= e < 6 implies #[trigger] r[6 * k + e]
        == rim_corner(base, n, k, e) as u32 by {
        assert((6 * k + e) / 6 == k && (6 * k + e) % 6 == e);
    }
    assert(r[6 * i + 0] == r[6 * i] && r[6 * j + 0] == r[6 * j]);
    assert(r[6 * i + 1] == (base + n + j) as u32);
    assert(r[6 * i + 2] == (base + n + i) as u32);
    assert(r[6 * i + 3] == (base + i) as u32);
    assert(r[6 * i + 4] == (base + j) as u32);
    assert(r[6 * i + 5] == (base + n + j) as u32);
    assert(r[6 * j + 2] == (base + n + j) as u32);
}

/// The faces of a plate are turned away from one another: each triangle of the
/// outline is drawn on the top as it is and on the bottom the other way round,
/// in its own place.
pub proof fn faces_are_turned_away(ears: Seq<(int, int, int)>, base: int, n: int, t: int)
    requires
        0 <= base,
        base + 2 * n <= u32::MAX,
        0 <= t < ears.len(),
        0 <= ears[t].0 < n && 0 <= ears[t].1 < n && 0 <= ears[t].2 < n,
    ensures
        ({
            let s = faces(ears, base, n);
            let (a, b, c) = ears[t];
            &&& s.len() == 6 * ears.len()
            &&& runs_along(s, 6 * t, base + b, base + a) && runs_along(s, 6 * t, base + c, base + b)
                && runs_along(s, 6 * t, base + a, base + c)
            &&& runs_along(s, 6 * t + 3, base + n + a, base + n + b) && runs_along(
                s,
                6 * t + 3,
                base + n + b,
                base + n + c,
            ) && runs_along(s, 6 * t + 3, base + n + c, base + n + a)
        }),
    decreases ears.len(),
{
    let less = ears.drop_last();
    faces_length(ears, base, n);
    faces_length(less, base, n);
    if t < less.len() {
        faces_are_turned_away(less, base, n, t);
    }
}

proof fn faces_length(ears: Seq<(int, int, int)>, base: int, n: int)
    ensures
        faces(ears, base, n).len() == 6 * ears.len(),
    decreases ears.len(),
{
    if ears.len() > 0 {
        faces_length(ears.drop_last(), base, n);
    }
}

/// A blade is covered by two triangles, which run along its diagonal in opposite
/// directions.
pub proof fn blades_are_covered(base: int)
    requires
        0 <= base,
        base + 4 <= u32::MAX,
    ensures
        ({
            let s = shape_indices(Shape::Quad, base);
            &&& s.len() == 6 && shape_verts(Shape::Quad) == 4
            &&& runs_along(s, 0, base + 2, base + 1) && runs_along(s, 0, base + 1, base)
            &&& runs_along(s, 3, base, base + 3) && runs_along(s, 3, base + 3, base + 2)
            &&& runs_along(s, 0, base, base + 2) && runs_along(s, 3, base + 2, base)
        }),
{
}

/// A sheet has a vertex at every crossing of its lines, and two triangles to
/// every cell.
pub proof fn sheets_have_a_vertex_at_every_crossing(rows: u32, cols: u32)
    ensures
        shape_verts(Shape::Grid { rows, cols }) == rows * cols + rows + cols + 1,
        shape_verts(Shape::Rings { rows, cols }) == shape_verts(Shape::Grid { rows, cols }),
{
    assert((rows + 1) * (cols + 1) == rows * cols + rows + cols + 1) by (nonlinear_arith);
}

/// Weights of the control points of a curve, `i` of twelve steps along it.
proof fn curve_weights(i: int)
    requires
        0 <= i <= 12,
    ensures
        ({
            let u = 12 - i;
            let (a, b, c, d) = (u * u * u, 3 * (u * u * i), 3 * (u * i * i), i * i * i);
            &&& a + b + c + d == 1728
            &&& b + 2 * c + 3 * d == 432 * i
            &&& c + 3 * d == 36 * (i * i)
            &&& i == 0 ==> a == 1728 && b == 0 && c == 0 && d == 0
            &&& i == 12 ==> a == 0 && b == 0 && c == 0 && d == 1728
        }),
{
    let u = 12 - i;
    let (uu, ii, ui) = (u * u, i * i, u * i);
    assert(uu == 144 - 24 * i + ii) by (nonlinear_arith)
        requires
            uu == u * u,
            ii == i * i,
            u == 12 - i,
    ;
    assert(ui == 12 * i - ii) by (nonlinear_arith)
        requires
            ui == u * i,
            ii == i * i,
            u == 12 - i,
    ;
    let iii = ii * i;
    assert(uu * u == 12 * uu - uu * i) by (nonlinear_arith)
        requires
            u == 12 - i,
    ;
    assert(uu * i == 144 * i - 24 * ii + iii) by (nonlinear_arith)
        requires
            uu == 144 - 24 * i + ii,
            ii == i * i,
            iii == ii * i,
    ;
    assert(ui * i == 12 * ii - iii) by (nonlinear_arith)
        requires
            ui == 12 * i - ii,
            ii == i * i,
            iii == ii * i,
    ;
    if i == 0 {
        assert(ii == 0 && iii == 0);
    } else if i == 12 {
        assert(ii == 144) by (nonlinear_arith)
            requires
                i == 12,
                ii == i * i,
        ;
        assert(iii == 1728) by (nonlinear_arith)
            requires
                i == 12,
                ii == 144,
                iii == ii * i,
        ;
    }
}

/// A weight of several control points together.
proof fn weighted(w: int, p: int, d: int, n: int)
    ensures
        w * (p + n * d) == w * p + n * (w * d),
        w * (n * d) == n * (w * d),
        w * (p + d) == w * p + w * d,
{
    assert(w * (p + n * d) == w * p + n * (w * d)) by (nonlinear_arith);
    assert(w * (n * d) == n * (w * d)) by (nonlinear_arith);
    assert(w * (p + d) == w * p + w * d) by (nonlinear_arith);
}

/// Weights that are taken together.
proof fn weights_joined(a: int, b: int, c: int, d: int, p: int)
    ensures
        a * p + b * p + c * p + d * p == (a + b + c + d) * p,
        b * p + 2 * (c * p) + 3 * (d * p) == (b + 2 * c + 3 * d) * p,
        c * p + 3 * (d * p) == (c + 3 * d) * p,
{
    assert(a * p + b * p + c * p + d * p == (a + b + c + d) * p) by (nonlinear_arith);
    assert(b * p + 2 * (c * p) + 3 * (d * p) == (b + 2 * c + 3 * d) * p) by (nonlinear_arith);
    assert(c * p + 3 * (d * p) == (c + 3 * d) * p) by (nonlinear_arith);
}

/// A cubic curve goes from its first control point to its last, bends towards
/// the others, and runs back where they are taken in reverse. Control points on
/// a line, a parabola or a cubic give that line, parabola or cubic, and what is
/// added to the control points is added to the curve.
pub proof fn curves_follow_their_control_points(p: int, q: int, r: int, s: int, d: int, i: int)
    requires
        0 <= i <= 12,
    ensures
        curve(p, q, r, s, 0) == 1728 * p,
        curve(p, q, r, s, 12) == 1728 * s,
        curve(p, q, r, s, i) == curve(s, r, q, p, 12 - i),
        curve(p, p, p, p, i) == 1728 * p,
        curve(p, p + d, p + 2 * d, p + 3 * d, i) == 1728 * p + 432 * (d * i),
        curve(0, 0, d, 3 * d, i) == 36 * (d * (i * i)),
        curve(0, 0, 0, d, i) == d * (i * i * i),
        curve(p + d, q + d, r + d, s + d, i) == curve(p, q, r, s, i) + 1728 * d,
{
    let u = 12 - i;
    let (w0, w1, w2, w3) = (u * u * u, 3 * (u * u * i), 3 * (u * i * i), i * i * i);
    curve_weights(i);
    curve_weights(0);
    curve_weights(12);
    assert(0 * p == 0 && 0 * q == 0 && 0 * r == 0 && 0 * s == 0);
    weights_joined(w0, w1, w2, w3, p);
    weights_joined(w0, w1, w2, w3, d);
    weighted(w1, p, d, 1);
    weighted(w2, p, d, 2);
    weighted(w3, p, d, 3);
    weighted(w0, p, d, 1);
    weighted(w1, q, d, 1);
    weighted(w2, r, d, 1);
    weighted(w3, s, d, 1);
    weighted(w3, 0, d, 3);
    assert(432 * i * d == 432 * (d * i)) by (nonlinear_arith);
    assert(36 * (i * i) * d == 36 * (d * (i * i))) by (nonlinear_arith);
    assert(w3 * d == d * w3) by (nonlinear_arith);
    assert(i * i * u == u * i * i && i * u * u == u * u * i) by (nonlinear_arith);
}

/// The outline of a fin is closed by its two curves: the trailing edge starts
/// where the leading one ends, at the tip, and both roots lie on the boom, the
/// leading one ahead of the other. The other side of the aircraft has the mirror
/// image.
pub proof fn fins_have_two_edges(i: int)
    requires
        0 <= i < 25,
    ensures
        fin_point(12).x == curve(35, 26, 11, 0, 0),
        fin_point(12).y == curve(16, 17, 12, 11, 0),
        fin_point(0).x == 0 && fin_point(24).x == 0,
        fin_point(0).y < fin_point(24).y,
        plate(true).len() == 25 && plate(false).len() == 25,
        plate(true).contains(Point { x: (-fin_point(i).x) as i64, y: fin_point(i).y }),
        plate(false).contains(fin_point(i)),
{
    curves_follow_their_control_points(0, 14, 29, 35, 0, 0);
    curves_follow_their_control_points(-12, -12, 5, 16, 0, 0);
    curves_follow_their_control_points(35, 26, 11, 0, 0, 0);
    curves_follow_their_control_points(16, 17, 12, 11, 0, 0);
    if i <= 12 {
        curve_bound(0, 14, 29, 35, i);
    } else {
        curve_bound(35, 26, 11, 0, i - 12);
    }
    let mirror = Point { x: (-fin_point(i).x) as i64, y: fin_point(i).y };
    let sides = Seq::new(
        FIN_POINTS as nat,
        |i: int| Point { x: (-fin_point(i).x) as i64, y: fin_point(i).y },
    );
    assert(sides[i] == mirror && sides.reverse()[24 - i] == mirror);
    assert(fin()[i] == fin_point(i) && fin().reverse()[24 - i] == fin_point(i));
    if polygon::area(sides, polygon::all_corners(FIN_POINTS as nat)) < 0 {
        assert(plate(true)[24 - i] == mirror);
    } else {
        assert(plate(true)[i] == mirror);
    }
    if polygon::area(fin(), polygon::all_corners(FIN_POINTS as nat)) < 0 {
        assert(plate(false)[24 - i] == fin_point(i));
    } else {
        assert(plate(false)[i] == fin_point(i));
    }
}

} // verus!
