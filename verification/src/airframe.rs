//! The aircraft as a list of parts: node, material, vertex count and
//! triangles. Where the vertices lie in space is for the caller to say; they
//! come in the order in which the surfaces list them.
use crate::mesh;
use crate::mesh::MeshPart;
use crate::plane;
use crate::plane::{MatId, Node};
use crate::surface;
use crate::surface::{push_shape, Shape};
use vstd::prelude::*;

verus! {

/// Most vertices that 16 bit indices can name.
pub const VERTEX_LIMIT: u32 = 65536;

/// Vertices of the whole aircraft.
pub const AIRFRAME_VERTS: u32 = 25052;

/// Parts of the whole aircraft.
pub const AIRFRAME_PARTS: usize = 48;

/// A part that moves as one and has one material.
pub struct RawPart {
    pub node: Node,
    pub mat: MatId,
    /// Number of vertices.
    pub verts: u32,
    /// Corners of the triangles.
    pub idx: Vec<u32>,
}

/// What a part is.
#[verifier::ext_equal]
pub struct PartView {
    pub node: Node,
    pub mat: MatId,
    pub verts: int,
    pub idx: Seq<u32>,
}

impl View for RawPart {
    type V = PartView;

    open spec fn view(&self) -> PartView {
        PartView { node: self.node, mat: self.mat, verts: self.verts as int, idx: self.idx@ }
    }
}

/// A part made of surfaces, one after the other.
pub open spec fn made_of(node: Node, mat: MatId, shapes: Seq<Shape>) -> PartView
    decreases shapes.len(),
{
    if shapes.len() == 0 {
        PartView { node, mat, verts: 0, idx: Seq::empty() }
    } else {
        let rest = made_of(node, mat, shapes.drop_last());
        PartView {
            node,
            mat,
            verts: rest.verts + surface::shape_verts(shapes.last()),
            idx: rest.idx + surface::shape_indices(shapes.last(), rest.verts),
        }
    }
}

pub open spec fn views(parts: Seq<RawPart>) -> Seq<PartView> {
    parts.map_values(|p: RawPart| p@)
}

/// Vertices of a list of parts.
pub open spec fn vertex_total(parts: Seq<PartView>) -> int
    decreases parts.len(),
{
    if parts.len() == 0 {
        0
    } else {
        vertex_total(parts.drop_last()) + parts.last().verts
    }
}

/// A part of the aircraft: it belongs to a node that exists, and its
/// triangles are whole, join its own vertices, and are at most two to a vertex.
pub open spec fn sound(p: PartView) -> bool {
    &&& plane::node_exists(p.node)
    &&& p.idx.len() % 3 == 0
    &&& p.idx.len() <= 6 * p.verts
    &&& forall|i: int| 0 <= i < p.idx.len() ==> (#[trigger] p.idx[i]) < p.verts
}

pub open spec fn all_sound(parts: Seq<PartView>) -> bool {
    forall|k: int| 0 <= k < parts.len() ==> sound(#[trigger] parts[k])
}

// ---------------------------------------------------------------------------
// Parts in the making
// ---------------------------------------------------------------------------

/// A part, with the surfaces that it is made of so far.
struct Maker {
    part: RawPart,
    shapes: Ghost<Seq<Shape>>,
}

impl Maker {
    spec fn wf(self) -> bool {
        &&& self.part@ == made_of(self.part.node, self.part.mat, self.shapes@)
        &&& self.part.verts <= VERTEX_LIMIT
    }

    fn new(node: Node, mat: MatId) -> (r: Self)
        ensures
            r.wf(),
            r.part.node == node,
            r.part.mat == mat,
            r.part.verts == 0,
            r.shapes@ == Seq::<Shape>::empty(),
    {
        let r = Maker {
            part: RawPart { node, mat, verts: 0, idx: Vec::new() },
            shapes: Ghost(Seq::empty()),
        };
        assert(r.part@ =~= made_of(node, mat, Seq::empty()));
        r
    }

    fn shape(&mut self, s: Shape, verts: u32)
        requires
            old(self).wf(),
            verts == surface::shape_verts(s),
            old(self).part.verts + verts <= VERTEX_LIMIT,
        ensures
            final(self).wf(),
            final(self).part.node == old(self).part.node,
            final(self).part.mat == old(self).part.mat,
            final(self).part.verts == old(self).part.verts + verts,
            final(self).shapes@ == old(self).shapes@.push(s),
    {
        push_shape(&mut self.part.idx, self.part.verts, s);
        self.part.verts = self.part.verts + verts;
        proof {
            let before = self.shapes@;
            self.shapes@ = before.push(s);
            assert(self.shapes@.drop_last() =~= before);
            assert(self.part@ =~= made_of(self.part.node, self.part.mat, self.shapes@));
        }
    }

    fn grid(&mut self, rows: u32, cols: u32)
        requires
            old(self).wf(),
            old(self).part.verts + (rows + 1) * (cols + 1) <= VERTEX_LIMIT,
        ensures
            final(self).wf(),
            final(self).part.node == old(self).part.node,
            final(self).part.mat == old(self).part.mat,
            final(self).part.verts == old(self).part.verts + (rows + 1) * (cols + 1),
            final(self).shapes@ == old(self).shapes@.push(Shape::Grid { rows, cols }),
    {
        let verts: u32 = sheet_verts(rows, cols);
        self.shape(Shape::Grid { rows, cols }, verts);
    }

    fn rings(&mut self, rows: u32, cols: u32)
        requires
            old(self).wf(),
            old(self).part.verts + (rows + 1) * (cols + 1) <= VERTEX_LIMIT,
        ensures
            final(self).wf(),
            final(self).part.node == old(self).part.node,
            final(self).part.mat == old(self).part.mat,
            final(self).part.verts == old(self).part.verts + (rows + 1) * (cols + 1),
            final(self).shapes@ == old(self).shapes@.push(Shape::Rings { rows, cols }),
    {
        let verts: u32 = sheet_verts(rows, cols);
        self.shape(Shape::Rings { rows, cols }, verts);
    }

    /// Several rings of the same size.
    fn rings_times(&mut self, times: u32, rows: u32, cols: u32)
        requires
            old(self).wf(),
            times <= 64,
            rows <= 64,
            cols <= 64,
            old(self).part.verts + times * ((rows + 1) * (cols + 1)) <= VERTEX_LIMIT,
        ensures
            final(self).wf(),
            final(self).part.node == old(self).part.node,
            final(self).part.mat == old(self).part.mat,
            final(self).part.verts == old(self).part.verts + times * ((rows + 1) * (cols + 1)),
            final(self).shapes@ == old(self).shapes@ + repeated(
                times as nat,
                Shape::Rings { rows, cols },
            ),
    {
        let ghost before = self.shapes@;
        let ghost each = (rows + 1) * (cols + 1);
        let mut i: u32 = 0;
        assert(before + repeated(0, Shape::Rings { rows, cols }) =~= before);
        while i < times
            invariant
                i <= times,
                self.wf(),
                each == (rows + 1) * (cols + 1),
                old(self).part.verts + times * each <= VERTEX_LIMIT,
                self.part.node == old(self).part.node,
                self.part.mat == old(self).part.mat,
                self.part.verts == old(self).part.verts + i * each,
                self.shapes@ == before + repeated(i as nat, Shape::Rings { rows, cols }),
            decreases times - i,
        {
            assert(i * each + each <= times * each) by (nonlinear_arith)
                requires
                    i + 1 <= times,
                    each == (rows + 1) * (cols + 1),
            ;
            assert((i + 1) * each == i * each + each) by (nonlinear_arith);
            self.rings(rows, cols);
            i += 1;
            assert(self.shapes@ =~= before + repeated(i as nat, Shape::Rings { rows, cols }));
        }
    }

    fn done(self, parts: &mut Vec<RawPart>)
        requires
            self.wf(),
            plane::node_exists(self.part.node),
            all_sound(views(old(parts)@)),
        ensures
            all_sound(views(final(parts)@)),
            views(final(parts)@) == views(old(parts)@).push(
                made_of(self.part.node, self.part.mat, self.shapes@),
            ),
            vertex_total(views(final(parts)@)) == vertex_total(views(old(parts)@))
                + self.part.verts,
    {
        let ghost v = self.part@;
        parts.push(self.part);
        proof {
            let before = views(old(parts)@);
            assert(views(parts@) =~= before.push(v));
            parts_join_their_own_vertices(v.node, v.mat, self.shapes@);
            assert(before.push(v).drop_last() =~= before);
        }
    }
}

/// The same surface several times.
pub open spec fn repeated(n: nat, s: Shape) -> Seq<Shape> {
    Seq::new(n, |i: int| s)
}

fn sheet_verts(rows: u32, cols: u32) -> (r: u32)
    requires
        (rows + 1) * (cols + 1) <= VERTEX_LIMIT,
    ensures
        r == (rows + 1) * (cols + 1),
{
    assert(rows + 1 <= (rows + 1) * (cols + 1)) by (nonlinear_arith);
    assert(cols + 1 <= (rows + 1) * (cols + 1)) by (nonlinear_arith);
    (rows + 1) * (cols + 1)
}

/// Rows of a sail between two places along the span, in thousandths of it:
/// thirty six to the full span, and no fewer than four.
pub open spec fn rows_between(start: int, end: int) -> int {
    let whole = ((end - start) * 36 + 999) / 1000;
    if whole < 4 {
        4
    } else {
        whole
    }
}

/// Rows of a sail between two places along the span, in thousandths of it.
pub fn sail_rows(start: u32, end: u32) -> (r: u32)
    requires
        start <= end <= 1000,
    ensures
        r == rows_between(start as int, end as int),
{
    let whole: u32 = ((end - start) * 36 + 999) / 1000;
    if whole < 4 {
        4
    } else {
        whole
    }
}

/// The hull: shell, fairings, rails and ribs.
pub open spec fn hull() -> Seq<PartView> {
    seq![
        made_of(Node::Hull, MatId::Composite, seq![Shape::Rings { rows: 64, cols: 48 }]),
        made_of(Node::Hull, MatId::Graphite, seq![Shape::Rings { rows: 12, cols: 20 }] + repeated(2, Shape::Rings { rows: 10, cols: 16 })),
        made_of(Node::Hull, MatId::Titanium, repeated(2, Shape::Rings { rows: 30, cols: 6 })),
        made_of(Node::Hull, MatId::Dark, repeated(14, Shape::Rings { rows: 8, cols: 5 })),
    ]
}

fn build_hull(parts: &mut Vec<RawPart>)
    requires
        all_sound(views(old(parts)@)),
    ensures
        all_sound(views(final(parts)@)),
        views(final(parts)@) == views(old(parts)@) + hull(),
        vertex_total(views(final(parts)@)) == vertex_total(views(old(parts)@)) + 5022,
{
    let mut shell = Maker::new(Node::Hull, MatId::Composite);
    shell.rings(64, 48);
    assert(shell.shapes@ =~= seq![Shape::Rings { rows: 64, cols: 48 }]);
    shell.done(parts);
    let mut fairings = Maker::new(Node::Hull, MatId::Graphite);
    fairings.rings(12, 20);
    fairings.rings_times(2, 10, 16);
    assert(fairings.shapes@ =~= seq![Shape::Rings { rows: 12, cols: 20 }] + repeated(2, Shape::Rings { rows: 10, cols: 16 }));
    fairings.done(parts);
    let mut rails = Maker::new(Node::Hull, MatId::Titanium);
    rails.rings_times(2, 30, 6);
    assert(rails.shapes@ =~= repeated(2, Shape::Rings { rows: 30, cols: 6 }));
    rails.done(parts);
    let mut ribs = Maker::new(Node::Hull, MatId::Dark);
    ribs.rings_times(14, 8, 5);
    assert(ribs.shapes@ =~= repeated(14, Shape::Rings { rows: 8, cols: 5 }));
    ribs.done(parts);
    assert(views(parts@) =~= views(old(parts)@) + hull());
}

/// The canopy: cockpit, seat, lamps, glass and frame.
pub open spec fn canopy() -> Seq<PartView> {
    seq![
        made_of(Node::Canopy, MatId::Dark, seq![Shape::Rings { rows: 12, cols: 18 }, Shape::Rings { rows: 10, cols: 14 }]),
        made_of(Node::Canopy, MatId::Seat, seq![Shape::Rings { rows: 8, cols: 12 }]),
        made_of(Node::Canopy, MatId::Glow, repeated(3, Shape::Rings { rows: 6, cols: 8 })),
        made_of(Node::Canopy, MatId::Glass, seq![Shape::Rings { rows: 14, cols: 24 }]),
        made_of(Node::Canopy, MatId::Titanium, repeated(2, Shape::Rings { rows: 24, cols: 6 }) + seq![Shape::Rings { rows: 30, cols: 6 }, Shape::Rings { rows: 24, cols: 5 }]),
    ]
}

fn build_canopy(parts: &mut Vec<RawPart>)
    requires
        all_sound(views(old(parts)@)),
    ensures
        all_sound(views(final(parts)@)),
        views(final(parts)@) == views(old(parts)@) + canopy(),
        vertex_total(views(final(parts)@)) == vertex_total(views(old(parts)@)) + 1810,
{
    let mut cockpit = Maker::new(Node::Canopy, MatId::Dark);
    cockpit.rings(12, 18);
    cockpit.rings(10, 14);
    assert(cockpit.shapes@ =~= seq![Shape::Rings { rows: 12, cols: 18 }, Shape::Rings { rows: 10, cols: 14 }]);
    cockpit.done(parts);
    let mut seat = Maker::new(Node::Canopy, MatId::Seat);
    seat.rings(8, 12);
    assert(seat.shapes@ =~= seq![Shape::Rings { rows: 8, cols: 12 }]);
    seat.done(parts);
    let mut lamps = Maker::new(Node::Canopy, MatId::Glow);
    lamps.rings_times(3, 6, 8);
    assert(lamps.shapes@ =~= repeated(3, Shape::Rings { rows: 6, cols: 8 }));
    lamps.done(parts);
    let mut glass = Maker::new(Node::Canopy, MatId::Glass);
    glass.rings(14, 24);
    assert(glass.shapes@ =~= seq![Shape::Rings { rows: 14, cols: 24 }]);
    glass.done(parts);
    let mut frame = Maker::new(Node::Canopy, MatId::Titanium);
    frame.rings_times(2, 24, 6);
    frame.rings(30, 6);
    frame.rings(24, 5);
    assert(frame.shapes@ =~= repeated(2, Shape::Rings { rows: 24, cols: 6 }) + seq![Shape::Rings { rows: 30, cols: 6 }, Shape::Rings { rows: 24, cols: 5 }]);
    frame.done(parts);
    assert(views(parts@) =~= views(old(parts)@) + canopy());
}

/// One wing: sail, spars, tip lamp, and three flaps.
pub open spec fn wing(right: bool) -> Seq<PartView> {
    let node = if right {
        Node::WingR
    } else {
        Node::WingL
    };
    seq![
        made_of(
            node,
            MatId::Sail,
            seq![Shape::Grid { rows: 33, cols: 12 }, Shape::Grid { rows: 16, cols: 12 }],
        ),
        made_of(
            node,
            MatId::Graphite,
            seq![
                Shape::Grid { rows: 36, cols: 12 },
                Shape::Grid { rows: 4, cols: 12 },
                Shape::Grid { rows: 36, cols: 12 },
            ] + repeated(8, Shape::Rings { rows: 36, cols: 5 }),
        ),
        made_of(node, MatId::Glow, seq![Shape::Rings { rows: 7, cols: 10 }]),
    ] + flaps(right, 3)
}

/// The first `n` flaps of a wing.
pub open spec fn flaps(right: bool, n: nat) -> Seq<PartView> {
    Seq::new(
        n,
        |i: int|
            made_of(
                Node::Flap(
                    (if right {
                        3 + i
                    } else {
                        i
                    }) as u8,
                ),
                MatId::Graphite,
                seq![
                    Shape::Grid { rows: 6, cols: 6 },
                    Shape::Rings { rows: 24, cols: 6 },
                    Shape::Rings { rows: 7, cols: 10 },
                ],
            ),
    )
}

fn build_wing(parts: &mut Vec<RawPart>, right: bool)
    requires
        all_sound(views(old(parts)@)),
    ensures
        all_sound(views(final(parts)@)),
        views(final(parts)@) == views(old(parts)@) + wing(right),
        vertex_total(views(final(parts)@)) == vertex_total(views(old(parts)@)) + 4490,
{
    let node = if right {
        Node::WingR
    } else {
        Node::WingL
    };
    let mut sail = Maker::new(node, MatId::Sail);
    sail.grid(sail_rows(0, 890), 12);
    sail.grid(sail_rows(0, 420), 12);
    assert(sail.shapes@ =~= seq![
        Shape::Grid { rows: 33, cols: 12 },
        Shape::Grid { rows: 16, cols: 12 },
    ]);
    sail.done(parts);
    let mut dark = Maker::new(node, MatId::Graphite);
    dark.grid(sail_rows(0, 1000), 12);
    dark.grid(sail_rows(890, 1000), 12);
    dark.grid(sail_rows(0, 1000), 12);
    dark.rings_times(8, 36, 5);
    assert(dark.shapes@ =~= seq![
        Shape::Grid { rows: 36, cols: 12 },
        Shape::Grid { rows: 4, cols: 12 },
        Shape::Grid { rows: 36, cols: 12 },
    ] + repeated(8, Shape::Rings { rows: 36, cols: 5 }));
    dark.done(parts);
    let mut lamp = Maker::new(node, MatId::Glow);
    lamp.rings(7, 10);
    assert(lamp.shapes@ =~= seq![Shape::Rings { rows: 7, cols: 10 }]);
    lamp.done(parts);
    let ghost fixed = views(parts@);
    let ghost fixed_verts = vertex_total(fixed);
    assert(fixed + flaps(right, 0) =~= fixed);
    assert(fixed =~= views(old(parts)@) + (wing(right).take(3)));
    let mut i: u8 = 0;
    while i < 3
        invariant
            i <= 3,
            all_sound(views(parts@)),
            views(parts@) == fixed + flaps(right, i as nat),
            vertex_total(views(parts@)) == fixed_verts + 312 * i,
        decreases 3 - i,
    {
        let mut flap = Maker::new(
            Node::Flap(
                if right {
                    3 + i
                } else {
                    i
                },
            ),
            MatId::Graphite,
        );
        flap.grid(sail_rows(425, 575), 6);
        flap.rings(24, 6);
        flap.rings(7, 10);
        assert(flap.shapes@ =~= seq![
            Shape::Grid { rows: 6, cols: 6 },
            Shape::Rings { rows: 24, cols: 6 },
            Shape::Rings { rows: 7, cols: 10 },
        ]);
        flap.done(parts);
        i += 1;
        assert(views(parts@) =~= fixed + flaps(right, i as nat));
    }
    assert(views(parts@) =~= views(old(parts)@) + wing(right));
}

/// The engine: casing, rings, glow, fairing, struts, knobs, rotor, liner and
/// ten petals.
pub open spec fn engine() -> Seq<PartView> {
    seq![
        made_of(Node::Hull, MatId::Dark, seq![Shape::Rings { rows: 40, cols: 1 }]),
        made_of(Node::Hull, MatId::Titanium, repeated(3, Shape::Rings { rows: 8, cols: 40 })),
        made_of(Node::Hull, MatId::Glow, seq![Shape::Rings { rows: 6, cols: 32 }]),
        made_of(Node::Hull, MatId::Graphite, seq![Shape::Rings { rows: 4, cols: 48 }]),
        made_of(Node::Hull, MatId::Dark, repeated(32, Shape::Rings { rows: 6, cols: 4 })),
        made_of(Node::Hull, MatId::Titanium, repeated(32, Shape::Rings { rows: 4, cols: 6 })),
        made_of(
            Node::Rotor,
            MatId::Glow,
            seq![Shape::Rings { rows: 8, cols: 12 }, Shape::Rings { rows: 6, cols: 28 }],
        ),
        made_of(Node::Rotor, MatId::Titanium, blades(24).push(Shape::Rings { rows: 8, cols: 12 })),
        made_of(Node::Hull, MatId::Dark, seq![Shape::Grid { rows: 40, cols: 1 }]),
    ] + petals(10)
}

/// Rods and vanes of the first `n` rotor blades.
pub open spec fn blades(n: nat) -> Seq<Shape> {
    Seq::new(
        2 * n,
        |i: int|
            if i % 2 == 0 {
                Shape::Rings { rows: 12, cols: 5 }
            } else {
                Shape::Quad
            },
    )
}

/// The first `n` petals of the nozzle.
pub open spec fn petals(n: nat) -> Seq<PartView> {
    Seq::new(
        n,
        |i: int|
            made_of(
                Node::Petal(i as u8),
                MatId::Titanium,
                seq![Shape::Rings { rows: 7, cols: 10 }, Shape::Rings { rows: 12, cols: 5 }],
            ),
    )
}

fn build_rotor(parts: &mut Vec<RawPart>)
    requires
        all_sound(views(old(parts)@)),
    ensures
        all_sound(views(final(parts)@)),
        views(final(parts)@) == views(old(parts)@).push(engine()[7]),
        vertex_total(views(final(parts)@)) == vertex_total(views(old(parts)@)) + 2085,
{
    let mut rotor = Maker::new(Node::Rotor, MatId::Titanium);
    let mut i: u32 = 0;
    assert(rotor.shapes@ =~= blades(0));
    while i < 24
        invariant
            i <= 24,
            rotor.wf(),
            rotor.part.node == Node::Rotor,
            rotor.part.mat == MatId::Titanium,
            rotor.part.verts == 82 * i,
            rotor.shapes@ == blades(i as nat),
        decreases 24 - i,
    {
        rotor.rings(12, 5);
        rotor.shape(Shape::Quad, 4);
        i += 1;
        assert(rotor.shapes@ =~= blades(i as nat));
    }
    rotor.rings(8, 12);
    rotor.done(parts);
}

fn build_petals(parts: &mut Vec<RawPart>)
    requires
        all_sound(views(old(parts)@)),
    ensures
        all_sound(views(final(parts)@)),
        views(final(parts)@) == views(old(parts)@) + petals(10),
        vertex_total(views(final(parts)@)) == vertex_total(views(old(parts)@)) + 1660,
{
    let ghost before = views(parts@);
    let ghost verts = vertex_total(before);
    assert(before + petals(0) =~= before);
    let mut i: u8 = 0;
    while i < 10
        invariant
            i <= 10,
            all_sound(views(parts@)),
            views(parts@) == before + petals(i as nat),
            vertex_total(views(parts@)) == verts + 166 * i,
        decreases 10 - i,
    {
        let mut petal = Maker::new(Node::Petal(i), MatId::Titanium);
        petal.rings(7, 10);
        petal.rings(12, 5);
        assert(petal.shapes@ =~= seq![
            Shape::Rings { rows: 7, cols: 10 },
            Shape::Rings { rows: 12, cols: 5 },
        ]);
        petal.done(parts);
        i += 1;
        assert(views(parts@) =~= before + petals(i as nat));
    }
}

fn build_engine(parts: &mut Vec<RawPart>)
    requires
        all_sound(views(old(parts)@)),
    ensures
        all_sound(views(final(parts)@)),
        views(final(parts)@) == views(old(parts)@) + engine(),
        vertex_total(views(final(parts)@)) == vertex_total(views(old(parts)@)) + 8052,
{
    let mut casing = Maker::new(Node::Hull, MatId::Dark);
    casing.rings(40, 1);
    assert(casing.shapes@ =~= seq![Shape::Rings { rows: 40, cols: 1 }]);
    casing.done(parts);
    let mut hoops = Maker::new(Node::Hull, MatId::Titanium);
    hoops.rings_times(3, 8, 40);
    assert(hoops.shapes@ =~= repeated(3, Shape::Rings { rows: 8, cols: 40 }));
    hoops.done(parts);
    let mut glow = Maker::new(Node::Hull, MatId::Glow);
    glow.rings(6, 32);
    assert(glow.shapes@ =~= seq![Shape::Rings { rows: 6, cols: 32 }]);
    glow.done(parts);
    let mut fairing = Maker::new(Node::Hull, MatId::Graphite);
    fairing.rings(4, 48);
    assert(fairing.shapes@ =~= seq![Shape::Rings { rows: 4, cols: 48 }]);
    fairing.done(parts);
    let mut struts = Maker::new(Node::Hull, MatId::Dark);
    struts.rings_times(32, 6, 4);
    assert(struts.shapes@ =~= repeated(32, Shape::Rings { rows: 6, cols: 4 }));
    struts.done(parts);
    let mut knobs = Maker::new(Node::Hull, MatId::Titanium);
    knobs.rings_times(32, 4, 6);
    assert(knobs.shapes@ =~= repeated(32, Shape::Rings { rows: 4, cols: 6 }));
    knobs.done(parts);
    let mut hub = Maker::new(Node::Rotor, MatId::Glow);
    hub.rings(8, 12);
    hub.rings(6, 28);
    assert(hub.shapes@ =~= seq![
        Shape::Rings { rows: 8, cols: 12 },
        Shape::Rings { rows: 6, cols: 28 },
    ]);
    hub.done(parts);
    build_rotor(parts);
    let mut liner = Maker::new(Node::Hull, MatId::Dark);
    liner.grid(40, 1);
    assert(liner.shapes@ =~= seq![Shape::Grid { rows: 40, cols: 1 }]);
    liner.done(parts);
    assert(views(parts@) =~= views(old(parts)@) + engine().take(9));
    build_petals(parts);
    assert(views(parts@) =~= views(old(parts)@) + engine());
}

/// One side of the tail: boom, brace, fin and spars.
pub open spec fn tail(right: bool) -> Seq<PartView> {
    let fin = Node::Fin(
        if right {
            1
        } else {
            0
        },
    );
    seq![
        made_of(Node::Hull, MatId::Graphite, seq![Shape::Rings { rows: 24, cols: 7 }]),
        made_of(Node::Hull, MatId::Titanium, seq![Shape::Rings { rows: 16, cols: 5 }]),
        made_of(fin, MatId::Graphite, seq![Shape::Plate { mirrored: !right }]),
        made_of(
            fin,
            MatId::Titanium,
            seq![Shape::Rings { rows: 16, cols: 5 }] + repeated(
                4,
                Shape::Rings { rows: 6, cols: 4 },
            ),
        ),
    ]
}

fn build_tail(parts: &mut Vec<RawPart>, right: bool)
    requires
        all_sound(views(old(parts)@)),
    ensures
        all_sound(views(final(parts)@)),
        views(final(parts)@) == views(old(parts)@) + tail(right),
        vertex_total(views(final(parts)@)) == vertex_total(views(old(parts)@)) + 594,
{
    let fin = Node::Fin(
        if right {
            1
        } else {
            0
        },
    );
    let mut boom = Maker::new(Node::Hull, MatId::Graphite);
    boom.rings(24, 7);
    assert(boom.shapes@ =~= seq![Shape::Rings { rows: 24, cols: 7 }]);
    boom.done(parts);
    let mut brace = Maker::new(Node::Hull, MatId::Titanium);
    brace.rings(16, 5);
    assert(brace.shapes@ =~= seq![Shape::Rings { rows: 16, cols: 5 }]);
    brace.done(parts);
    let mut blade = Maker::new(fin, MatId::Graphite);
    blade.shape(Shape::Plate { mirrored: !right }, 50);
    assert(blade.shapes@ =~= seq![Shape::Plate { mirrored: !right }]);
    blade.done(parts);
    let mut spars = Maker::new(fin, MatId::Titanium);
    spars.rings(16, 5);
    spars.rings_times(4, 6, 4);
    assert(spars.shapes@ =~= seq![Shape::Rings { rows: 16, cols: 5 }] + repeated(
        4,
        Shape::Rings { rows: 6, cols: 4 },
    ));
    spars.done(parts);
    assert(views(parts@) =~= views(old(parts)@) + tail(right));
}

/// The whole aircraft.
pub open spec fn airframe() -> Seq<PartView> {
    hull() + canopy() + wing(false) + wing(true) + engine() + tail(false) + tail(true)
}

/// Build the parts of the aircraft. Their vertices can be named by 16 bits
/// even when all parts are merged.
pub fn build_airframe() -> (r: Vec<RawPart>)
    ensures
        views(r@) == airframe(),
        all_sound(views(r@)),
        r.len() == AIRFRAME_PARTS,
        vertex_total(views(r@)) == AIRFRAME_VERTS,
{
    let mut parts: Vec<RawPart> = Vec::new();
    assert(views(parts@) =~= Seq::empty());
    build_hull(&mut parts);
    build_canopy(&mut parts);
    build_wing(&mut parts, false);
    build_wing(&mut parts, true);
    build_engine(&mut parts);
    build_tail(&mut parts, false);
    build_tail(&mut parts, true);
    assert(views(parts@) =~= airframe());
    assert(views(parts@).len() == parts.len());
    parts
}

/// Every part is made of whole triangles that join its own vertices.
pub proof fn parts_join_their_own_vertices(node: Node, mat: MatId, shapes: Seq<Shape>)
    requires
        made_of(node, mat, shapes).verts <= VERTEX_LIMIT,
    ensures
        0 <= made_of(node, mat, shapes).verts,
        made_of(node, mat, shapes).idx.len() % 3 == 0,
        made_of(node, mat, shapes).idx.len() <= 6 * made_of(node, mat, shapes).verts,
        forall|i: int|
            0 <= i < made_of(node, mat, shapes).idx.len() ==> (#[trigger] made_of(
                node,
                mat,
                shapes,
            ).idx[i]) < made_of(node, mat, shapes).verts,
    decreases shapes.len(),
{
    if shapes.len() > 0 {
        let s = shapes.last();
        assert(0 <= surface::shape_verts(s)) by {
            match s {
                Shape::Grid { rows, cols } | Shape::Rings { rows, cols } => {
                    assert(0 <= (rows + 1) * (cols + 1)) by (nonlinear_arith);
                },
                _ => {},
            }
        }
        parts_join_their_own_vertices(node, mat, shapes.drop_last());
        let rest = made_of(node, mat, shapes.drop_last());
        surface::surfaces_join_their_own_vertices(s, rest.verts);
        let whole = made_of(node, mat, shapes);
        let more = surface::shape_indices(s, rest.verts);
        assert forall|i: int| 0 <= i < whole.idx.len() implies (#[trigger] whole.idx[i])
            < whole.verts by {
            if i >= rest.idx.len() {
                assert(whole.idx[i] == more[i - rest.idx.len()]);
            } else {
                assert(whole.idx[i] == rest.idx[i]);
            }
        }
    }
}

/// Corners of the triangles that a list of indices joins, in threes.
pub open spec fn triangles(idx: Seq<u32>) -> Seq<(u32, u32, u32)> {
    Seq::new(idx.len() / 3, |t: int| (idx[3 * t], idx[3 * t + 1], idx[3 * t + 2]))
}

/// `mesh` is `part` with its triangles in any order: each occurs as often in
/// the one as in the other, with its corners in the same order.
pub open spec fn reorders(mesh: MeshPart, part: PartView) -> bool {
    &&& mesh.node == part.node
    &&& mesh.mat == part.mat
    &&& mesh.verts@.len() == part.verts
    &&& mesh.idx@.len() == part.idx.len()
    &&& triangles(mesh.idx@).to_multiset() == triangles(part.idx).to_multiset()
}

/// A reordered part joins no vertex that the part does not join.
proof fn reordered_corners(mesh: MeshPart, part: PartView, j: int)
    requires
        reorders(mesh, part),
        part.idx.len() % 3 == 0,
        0 <= j < mesh.idx@.len(),
    ensures
        part.idx.contains(mesh.idx@[j]),
{
    let ours = triangles(mesh.idx@);
    let theirs = triangles(part.idx);
    let corners = ours[j / 3];
    ours.to_multiset_ensures();
    theirs.to_multiset_ensures();
    assert(ours.contains(corners));
    assert(theirs.to_multiset().count(corners) > 0);
    assert(theirs.contains(corners));
    let t = choose|t: int| 0 <= t < theirs.len() && theirs[t] == corners;
    assert(part.idx[3 * t] == corners.0);
    assert(part.idx[3 * t + 1] == corners.1);
    assert(part.idx[3 * t + 2] == corners.2);
    assert(j == 3 * (j / 3) || j == 3 * (j / 3) + 1 || j == 3 * (j / 3) + 2);
}

/// Sound parts within the vertex limit can be merged, in whatever order the
/// triangles of each come.
pub proof fn sound_parts_can_be_merged(parts: Seq<PartView>, meshes: Seq<MeshPart>)
    requires
        all_sound(parts),
        vertex_total(parts) <= VERTEX_LIMIT,
        meshes.len() == parts.len(),
        forall|k: int| 0 <= k < parts.len() ==> reorders(#[trigger] meshes[k], parts[k]),
    ensures
        mesh::mergeable(meshes),
{
    totals_agree(parts, meshes, parts.len());
    assert(parts.take(parts.len() as int) =~= parts);
    assert forall|k: int| 0 <= k < meshes.len() implies plane::node_exists(
        (#[trigger] meshes[k]).node,
    ) by {
        assert(sound(parts[k]));
    }
    assert forall|k: int, j: int|
        0 <= k < meshes.len() && 0 <= j < meshes[k].idx@.len() implies (
    #[trigger] meshes[k].idx@[j]) < meshes[k].verts@.len() by {
        assert(sound(parts[k]) && reorders(meshes[k], parts[k]));
        reordered_corners(meshes[k], parts[k], j);
    }
}

proof fn totals_agree(parts: Seq<PartView>, meshes: Seq<MeshPart>, n: nat)
    requires
        all_sound(parts),
        n <= parts.len(),
        meshes.len() == parts.len(),
        forall|k: int| 0 <= k < parts.len() ==> reorders(#[trigger] meshes[k], parts[k]),
    ensures
        mesh::vertex_base(meshes, n) == vertex_total(parts.take(n as int)),
        mesh::index_total(meshes, n) <= 6 * mesh::vertex_base(meshes, n),
    decreases n,
{
    let taken = parts.take(n as int);
    if n > 0 {
        totals_agree(parts, meshes, (n - 1) as nat);
        assert(taken.drop_last() =~= parts.take(n - 1));
        assert(reorders(meshes[n - 1], parts[n - 1]) && sound(parts[n - 1]));
    }
}

// ---------------------------------------------------------------------------
// What belongs to what
// ---------------------------------------------------------------------------

/// Node and material of a part, by its place in the list.
proof fn part_kinds(k: int)
    requires
        0 <= k < airframe().len(),
    ensures
        airframe().len() == 48,
        9 <= k < 12 ==> airframe()[k].node == Node::WingL,
        12 <= k < 15 ==> airframe()[k].node == Node::Flap((k - 12) as u8),
        15 <= k < 18 ==> airframe()[k].node == Node::WingR,
        18 <= k < 21 ==> airframe()[k].node == Node::Flap((k - 15) as u8),
        9 <= k < 15 ==> airframe()[k] == wing(false)[k - 9],
        15 <= k < 21 ==> airframe()[k] == wing(true)[k - 15],
        k < 4 ==> airframe()[k] == hull()[k] && airframe()[k].node == Node::Hull,
        4 <= k < 9 ==> airframe()[k] == canopy()[k - 4] && airframe()[k].node == Node::Canopy,
        21 <= k < 40 ==> airframe()[k] == engine()[k - 21],
        30 <= k < 40 ==> airframe()[k].node == Node::Petal((k - 30) as u8) && airframe()[k].mat
            == MatId::Titanium,
        k == 27 || k == 28 ==> airframe()[k].node == Node::Rotor,
        21 <= k < 27 || k == 29 ==> airframe()[k].node == Node::Hull,
        40 <= k < 44 ==> airframe()[k] == tail(false)[k - 40],
        44 <= k < 48 ==> airframe()[k] == tail(true)[k - 44],
        40 <= k < 42 || 44 <= k < 46 ==> airframe()[k].node == Node::Hull,
        42 <= k < 44 ==> airframe()[k].node == Node::Fin(0),
        46 <= k < 48 ==> airframe()[k].node == Node::Fin(1),
{
    assert(hull().len() == 4 && canopy().len() == 5 && engine().len() == 19);
    assert(wing(false).len() == 6 && wing(true).len() == 6);
    assert(tail(false).len() == 4 && tail(true).len() == 4);
}

/// A flap is built with the wing that it is hinged to: the parts right before
/// it, up to the nearest wing, are flaps, and that wing is the left one for the
/// first three flaps and the right one for the others. So a flap throws its
/// shadow together with its wing.
pub proof fn flaps_belong_to_their_wings(k: int) -> (j: int)
    requires
        0 <= k < airframe().len(),
        airframe()[k].node is Flap,
    ensures
        0 <= j < k,
        airframe()[j].node == (if airframe()[k].node->Flap_0 < 3 {
            Node::WingL
        } else {
            Node::WingR
        }),
        forall|i: int| j < i < k ==> (#[trigger] airframe()[i]).node is Flap,
        plane::shadow_mask(plane::node_place(airframe()[k].node) as u32) == plane::shadow_mask(
            plane::node_place(airframe()[j].node) as u32,
        ),
{
    part_kinds(k);
    let j = if k < 15 {
        11int
    } else {
        17
    };
    part_kinds(j);
    assert forall|i: int| j < i < k implies (#[trigger] airframe()[i]).node is Flap by {
        part_kinds(i);
    }
    j
}

/// The two wings are alike, part by part: what the left one has, the right one
/// has six places on, with the same material and triangles. Flap `i` of the
/// one answers to flap `i + 3` of the other.
pub proof fn wings_are_alike(k: int)
    requires
        0 <= k < airframe().len(),
        airframe()[k].node == Node::WingL || (airframe()[k].node is Flap
            && airframe()[k].node->Flap_0 < 3),
    ensures
        k + 6 < airframe().len(),
        airframe()[k + 6].mat == airframe()[k].mat,
        airframe()[k + 6].verts == airframe()[k].verts,
        airframe()[k + 6].idx == airframe()[k].idx,
        airframe()[k].node == Node::WingL ==> airframe()[k + 6].node == Node::WingR,
        airframe()[k].node is Flap ==> airframe()[k + 6].node == Node::Flap(
            (airframe()[k].node->Flap_0 + 3) as u8,
        ),
{
    part_kinds(k);
    part_kinds(k + 6);
    if k < 12 {
        let i = k - 9;
        let shapes = if i == 0 {
            seq![Shape::Grid { rows: 33, cols: 12 }, Shape::Grid { rows: 16, cols: 12 }]
        } else if i == 1 {
            seq![
                Shape::Grid { rows: 36, cols: 12 },
                Shape::Grid { rows: 4, cols: 12 },
                Shape::Grid { rows: 36, cols: 12 },
            ] + repeated(8, Shape::Rings { rows: 36, cols: 5 })
        } else {
            seq![Shape::Rings { rows: 7, cols: 10 }]
        };
        let mat = airframe()[k].mat;
        assert(wing(false)[i] == made_of(Node::WingL, mat, shapes));
        assert(wing(true)[i] == made_of(Node::WingR, mat, shapes));
        same_surfaces(Node::WingL, Node::WingR, mat, shapes);
    } else {
        let shapes = seq![
            Shape::Grid { rows: 6, cols: 6 },
            Shape::Rings { rows: 24, cols: 6 },
            Shape::Rings { rows: 7, cols: 10 },
        ];
        let (a, b) = (Node::Flap((k - 12) as u8), Node::Flap((k - 9) as u8));
        assert(wing(false)[k - 9] == flaps(false, 3)[k - 12]);
        assert(wing(true)[k - 9] == flaps(true, 3)[k - 12]);
        same_surfaces(a, b, MatId::Graphite, shapes);
    }
}

proof fn same_surfaces(a: Node, b: Node, mat: MatId, shapes: Seq<Shape>)
    ensures
        made_of(a, mat, shapes).mat == made_of(b, mat, shapes).mat,
        made_of(a, mat, shapes).verts == made_of(b, mat, shapes).verts,
        made_of(a, mat, shapes).idx == made_of(b, mat, shapes).idx,
        made_of(a, mat, shapes).node == a,
        made_of(a, mat, shapes).mat == mat,
    decreases shapes.len(),
{
    if shapes.len() > 0 {
        same_surfaces(a, b, mat, shapes.drop_last());
    }
}

/// Every node of the aircraft has a part. A flap has just one, and so has a
/// petal.
pub proof fn every_node_has_a_part(node: Node) -> (k: int)
    requires
        plane::node_exists(node),
    ensures
        0 <= k < airframe().len(),
        airframe()[k].node == node,
        node is Flap || node is Petal ==> forall|i: int|
            0 <= i < airframe().len() && (#[trigger] airframe()[i]).node == node ==> i == k,
{
    let k = match node {
        Node::Hull => 0int,
        Node::Canopy => 4,
        Node::WingL => 9,
        Node::WingR => 15,
        Node::Flap(id) => if id < 3 {
            12 + id
        } else {
            15 + id
        },
        Node::Rotor => 27,
        Node::Petal(i) => 30 + i,
        Node::Fin(i) => 42 + 4 * i,
    };
    part_kinds(0);
    part_kinds(k);
    assert forall|i: int|
        0 <= i < airframe().len() && (#[trigger] airframe()[i]).node == node && (node is Flap
            || node is Petal) implies i == k by {
        part_kinds(i);
    }
    k
}

/// Cloth is on the wings alone, the painted shell on the hull, the seat and
/// the glass in the canopy. Flaps and fins show graphite, a wing cloth,
/// graphite and a lamp, a petal bare metal, and the rotor metal and glow.
pub proof fn materials_are_where_they_belong(k: int)
    requires
        0 <= k < airframe().len(),
    ensures
        ({
            let p = airframe()[k];
            &&& p.mat == MatId::Sail ==> p.node == Node::WingL || p.node == Node::WingR
            &&& p.mat == MatId::Composite ==> p.node == Node::Hull
            &&& p.mat == MatId::Seat || p.mat == MatId::Glass ==> p.node == Node::Canopy
            &&& p.mat == MatId::Dark ==> p.node == Node::Hull || p.node == Node::Canopy
            &&& p.node is Flap ==> p.mat == MatId::Graphite
            &&& p.node is Petal ==> p.mat == MatId::Titanium
            &&& p.node is Fin ==> p.mat == MatId::Graphite || p.mat == MatId::Titanium
            &&& p.node == Node::Rotor ==> p.mat == MatId::Glow || p.mat == MatId::Titanium
            &&& p.node == Node::WingL || p.node == Node::WingR ==> p.mat == MatId::Sail || p.mat
                == MatId::Graphite || p.mat == MatId::Glow
        }),
{
    part_kinds(k);
}

/// A node does not show one material in two parts, but for the hull, whose
/// engine and tail are made apart from its shell: no two parts of the same
/// node and material follow one another.
pub proof fn parts_of_a_node_differ(i: int, k: int)
    requires
        0 <= i < k < airframe().len(),
        airframe()[i].node == airframe()[k].node,
        airframe()[i].mat == airframe()[k].mat,
    ensures
        airframe()[i].node == Node::Hull,
{
    part_kinds(i);
    part_kinds(k);
}

/// A sail has just enough rows: thirty six to the full span, or more than that
/// where it would have fewer than four. Longer sails have no fewer.
pub proof fn sails_have_enough_rows(start: int, end: int, longer: int)
    requires
        0 <= start <= end <= longer <= 1000,
    ensures
        ({
            let r = rows_between(start, end);
            &&& r >= 4
            &&& 1000 * r >= 36 * (end - start)
            &&& r > 4 ==> 1000 * (r - 1) < 36 * (end - start)
            &&& r <= rows_between(start, longer)
            &&& r <= 36
        }),
{
}

/// The petals are alike, and so are the flaps.
pub proof fn petals_are_alike(i: int, k: int)
    requires
        0 <= i < airframe().len(),
        0 <= k < airframe().len(),
        airframe()[i].node is Petal && airframe()[k].node is Petal || airframe()[i].node is Flap
            && airframe()[k].node is Flap,
    ensures
        airframe()[i].mat == airframe()[k].mat,
        airframe()[i].verts == airframe()[k].verts,
        airframe()[i].idx == airframe()[k].idx,
{
    part_kinds(i);
    part_kinds(k);
    let (a, b) = (airframe()[i].node, airframe()[k].node);
    if a is Petal {
        let shapes = seq![Shape::Rings { rows: 7, cols: 10 }, Shape::Rings { rows: 12, cols: 5 }];
        assert(engine()[i - 21] == petals(10)[i - 30]);
        assert(engine()[k - 21] == petals(10)[k - 30]);
        same_surfaces(a, b, MatId::Titanium, shapes);
    } else {
        let shapes = seq![
            Shape::Grid { rows: 6, cols: 6 },
            Shape::Rings { rows: 24, cols: 6 },
            Shape::Rings { rows: 7, cols: 10 },
        ];
        let at = |n: int| if n < 15 {
            flaps(false, 3)[n - 12]
        } else {
            flaps(true, 3)[n - 18]
        };
        assert(airframe()[i] == at(i));
        assert(airframe()[k] == at(k));
        same_surfaces(a, b, MatId::Graphite, shapes);
    }
}

// ---------------------------------------------------------------------------
// How finely the parts are divided
// ---------------------------------------------------------------------------

/// The two sides of the tail are alike: boom, brace, fin and spars have the same
/// material and as many vertices, and all but the fin, which is mirrored, the
/// same triangles.
pub proof fn tails_are_alike(k: int)
    requires
        0 <= k < airframe().len() - 4,
        airframe()[k + 4].node == Node::Fin(1) || k >= 40,
    ensures
        airframe()[k + 4].mat == airframe()[k].mat,
        airframe()[k + 4].verts == airframe()[k].verts,
        airframe()[k].node == Node::Fin(0) <==> airframe()[k + 4].node == Node::Fin(1),
        airframe()[k].node == Node::Hull <==> airframe()[k + 4].node == Node::Hull,
        airframe()[k].node == Node::Fin(0) && airframe()[k].mat == MatId::Graphite || airframe()[k
            + 4].idx == airframe()[k].idx,
{
    part_kinds(k);
    part_kinds(k + 4);
    let one = Shape::Rings { rows: 16, cols: 5 };
    let more = seq![one] + repeated(4, Shape::Rings { rows: 6, cols: 4 });
    same_surfaces(Node::Fin(0), Node::Fin(1), MatId::Titanium, more);
    let (left, right) = (Shape::Plate { mirrored: true }, Shape::Plate { mirrored: false });
    assert(seq![left].drop_last() =~= Seq::empty() && seq![right].drop_last() =~= Seq::empty());
    same_surfaces(Node::Fin(0), Node::Fin(1), MatId::Graphite, Seq::empty());
    reveal_with_fuel(made_of, 2);
}

/// The first cell of a part is the first of a surface with so many cells to a
/// row, turned as a grid or, the other way, as rings.
#[verifier::opaque]
pub open spec fn starts_with(p: PartView, cols: int, rings: bool) -> bool {
    &&& p.idx[0] == 0
    &&& p.idx[1] == cols + 2
    &&& p.idx[2] == if rings {
        cols + 1
    } else {
        1
    }
}

proof fn first_cell(node: Node, mat: MatId, shapes: Seq<Shape>, rows: u32, cols: u32, rings: bool)
    requires
        shapes.len() > 0,
        shapes[0] == (if rings {
            Shape::Rings { rows, cols }
        } else {
            Shape::Grid { rows, cols }
        }),
        0 < rows <= 100,
        0 < cols <= 100,
    ensures
        made_of(node, mat, shapes).idx.len() >= 6,
        starts_with(made_of(node, mat, shapes), cols as int, rings),
    decreases shapes.len(),
{
    let rest = shapes.drop_last();
    reveal(starts_with);
    if shapes.len() > 1 {
        first_cell(node, mat, rest, rows, cols, rings);
    } else {
        assert(rest =~= Seq::empty());
        assert(rows * cols >= 1) by (nonlinear_arith)
            requires
                rows >= 1,
                cols >= 1,
        ;
        assert((rows + 1) * (cols + 1) <= 101 * 101) by (nonlinear_arith)
            requires
                rows <= 100,
                cols <= 100,
        ;
        let s = surface::shape_indices(shapes.last(), 0);
        reveal_with_fuel(made_of, 2);
        assert(made_of(node, mat, rest).verts == 0 && made_of(node, mat, rest).idx.len() == 0);
        assert(made_of(node, mat, shapes).idx =~= s);
        assert(0int / (cols as int) == 0 && 0int % (cols as int) == 0) by (nonlinear_arith)
            requires
                cols > 0,
        ;
        assert(0 * (cols + 1) == 0) by (nonlinear_arith);
    }
}

/// How many cells the first surface of each part has to a row, and which way it
/// is turned: wings, flaps and the liner of the engine are grids, and all that
/// is round is turned the other way.
pub proof fn parts_start_with_their_first_cell(k: int)
    requires
        0 <= k < airframe().len(),
    ensures
        k == 0 || k == 24 ==> starts_with(airframe()[k], 48, true),
        k == 1 ==> starts_with(airframe()[k], 20, true),
        k == 2 || k == 8 || k == 26 ==> starts_with(airframe()[k], 6, true),
        k == 3 || k == 28 || k == 41 || k == 43 || k == 45 || k == 47 ==> starts_with(
            airframe()[k],
            5,
            true,
        ),
        k == 4 ==> starts_with(airframe()[k], 18, true),
        k == 5 || k == 27 ==> starts_with(airframe()[k], 12, true),
        k == 6 ==> starts_with(airframe()[k], 8, true),
        k == 7 ==> starts_with(airframe()[k], 24, true),
        k == 9 || k == 10 || k == 15 || k == 16 ==> starts_with(airframe()[k], 12, false),
        k == 11 || k == 17 || 30 <= k < 40 ==> starts_with(airframe()[k], 10, true),
        12 <= k < 15 || 18 <= k < 21 ==> starts_with(airframe()[k], 6, false),
        k == 21 ==> starts_with(airframe()[k], 1, true),
        k == 22 ==> starts_with(airframe()[k], 40, true),
        k == 23 ==> starts_with(airframe()[k], 32, true),
        k == 25 ==> starts_with(airframe()[k], 4, true),
        k == 29 ==> starts_with(airframe()[k], 1, false),
        k == 40 || k == 44 ==> starts_with(airframe()[k], 7, true),
{
    part_kinds(k);
    if k < 4 {
        hull_starts(k);
    } else if k < 9 {
        canopy_starts(k - 4);
    } else if k < 15 {
        wing_starts(false, k - 9);
    } else if k < 21 {
        wing_starts(true, k - 15);
    } else if k < 40 {
        engine_starts(k - 21);
    } else if k < 44 {
        tail_starts(false, k - 40);
    } else {
        tail_starts(true, k - 44);
    }
}

proof fn hull_starts(i: int)
    requires
        0 <= i < 4,
    ensures
        i == 0 ==> starts_with(hull()[i], 48, true),
        i == 1 ==> starts_with(hull()[i], 20, true),
        i == 2 ==> starts_with(hull()[i], 6, true),
        i == 3 ==> starts_with(hull()[i], 5, true),
{
    let n = Node::Hull;
    if i == 0 {
        first_cell(n, MatId::Composite, seq![Shape::Rings { rows: 64, cols: 48 }], 64, 48, true);
    } else if i == 1 {
        let shapes = seq![Shape::Rings { rows: 12, cols: 20 }] + repeated(
            2,
            Shape::Rings { rows: 10, cols: 16 },
        );
        first_cell(n, MatId::Graphite, shapes, 12, 20, true);
    } else if i == 2 {
        let shapes = repeated(2, Shape::Rings { rows: 30, cols: 6 });
        first_cell(n, MatId::Titanium, shapes, 30, 6, true);
    } else {
        first_cell(n, MatId::Dark, repeated(14, Shape::Rings { rows: 8, cols: 5 }), 8, 5, true);
    }
}

proof fn canopy_starts(i: int)
    requires
        0 <= i < 5,
    ensures
        i == 0 ==> starts_with(canopy()[i], 18, true),
        i == 1 ==> starts_with(canopy()[i], 12, true),
        i == 2 ==> starts_with(canopy()[i], 8, true),
        i == 3 ==> starts_with(canopy()[i], 24, true),
        i == 4 ==> starts_with(canopy()[i], 6, true),
{
    let n = Node::Canopy;
    if i == 0 {
        let shapes = seq![
            Shape::Rings { rows: 12, cols: 18 },
            Shape::Rings { rows: 10, cols: 14 },
        ];
        first_cell(n, MatId::Dark, shapes, 12, 18, true);
    } else if i == 1 {
        first_cell(n, MatId::Seat, seq![Shape::Rings { rows: 8, cols: 12 }], 8, 12, true);
    } else if i == 2 {
        first_cell(n, MatId::Glow, repeated(3, Shape::Rings { rows: 6, cols: 8 }), 6, 8, true);
    } else if i == 3 {
        first_cell(n, MatId::Glass, seq![Shape::Rings { rows: 14, cols: 24 }], 14, 24, true);
    } else {
        let shapes = repeated(2, Shape::Rings { rows: 24, cols: 6 }) + seq![
            Shape::Rings { rows: 30, cols: 6 },
            Shape::Rings { rows: 24, cols: 5 },
        ];
        first_cell(n, MatId::Titanium, shapes, 24, 6, true);
    }
}

proof fn wing_starts(right: bool, i: int)
    requires
        0 <= i < 6,
    ensures
        i < 2 ==> starts_with(wing(right)[i], 12, false),
        i == 2 ==> starts_with(wing(right)[i], 10, true),
        i >= 3 ==> starts_with(wing(right)[i], 6, false),
{
    let n = if right { Node::WingR } else { Node::WingL };
    if i == 0 {
        let shapes = seq![Shape::Grid { rows: 33, cols: 12 }, Shape::Grid { rows: 16, cols: 12 }];
        first_cell(n, MatId::Sail, shapes, 33, 12, false);
    } else if i == 1 {
        let shapes = seq![
            Shape::Grid { rows: 36, cols: 12 },
            Shape::Grid { rows: 4, cols: 12 },
            Shape::Grid { rows: 36, cols: 12 },
        ] + repeated(8, Shape::Rings { rows: 36, cols: 5 });
        first_cell(n, MatId::Graphite, shapes, 36, 12, false);
    } else if i == 2 {
        first_cell(n, MatId::Glow, seq![Shape::Rings { rows: 7, cols: 10 }], 7, 10, true);
    } else {
        let shapes = seq![
            Shape::Grid { rows: 6, cols: 6 },
            Shape::Rings { rows: 24, cols: 6 },
            Shape::Rings { rows: 7, cols: 10 },
        ];
        let j = i - 3;
        let flap = Node::Flap(
            (if right {
                3 + j
            } else {
                j
            }) as u8,
        );
        assert(wing(right)[i] == flaps(right, 3)[j]);
        first_cell(flap, MatId::Graphite, shapes, 6, 6, false);
    }
}

proof fn engine_starts(i: int)
    requires
        0 <= i < 19,
    ensures
        i == 0 ==> starts_with(engine()[i], 1, true),
        i == 1 ==> starts_with(engine()[i], 40, true),
        i == 2 ==> starts_with(engine()[i], 32, true),
        i == 3 ==> starts_with(engine()[i], 48, true),
        i == 4 ==> starts_with(engine()[i], 4, true),
        i == 5 ==> starts_with(engine()[i], 6, true),
        i == 6 ==> starts_with(engine()[i], 12, true),
        i == 7 ==> starts_with(engine()[i], 5, true),
        i == 8 ==> starts_with(engine()[i], 1, false),
        i >= 9 ==> starts_with(engine()[i], 10, true),
{
    let n = Node::Hull;
    if i == 0 {
        first_cell(n, MatId::Dark, seq![Shape::Rings { rows: 40, cols: 1 }], 40, 1, true);
    } else if i == 1 {
        first_cell(
            n,
            MatId::Titanium,
            repeated(3, Shape::Rings { rows: 8, cols: 40 }),
            8,
            40,
            true,
        );
    } else if i == 2 {
        first_cell(n, MatId::Glow, seq![Shape::Rings { rows: 6, cols: 32 }], 6, 32, true);
    } else if i == 3 {
        first_cell(n, MatId::Graphite, seq![Shape::Rings { rows: 4, cols: 48 }], 4, 48, true);
    } else if i == 4 {
        first_cell(n, MatId::Dark, repeated(32, Shape::Rings { rows: 6, cols: 4 }), 6, 4, true);
    } else if i == 5 {
        first_cell(n, MatId::Titanium, repeated(32, Shape::Rings { rows: 4, cols: 6 }), 4, 6, true);
    } else if i == 6 {
        let shapes = seq![Shape::Rings { rows: 8, cols: 12 }, Shape::Rings { rows: 6, cols: 28 }];
        first_cell(Node::Rotor, MatId::Glow, shapes, 8, 12, true);
    } else if i == 7 {
        let shapes = blades(24).push(Shape::Rings { rows: 8, cols: 12 });
        first_cell(Node::Rotor, MatId::Titanium, shapes, 12, 5, true);
    } else if i == 8 {
        first_cell(n, MatId::Dark, seq![Shape::Grid { rows: 40, cols: 1 }], 40, 1, false);
    } else {
        let shapes = seq![Shape::Rings { rows: 7, cols: 10 }, Shape::Rings { rows: 12, cols: 5 }];
        assert(engine()[i] == petals(10)[i - 9]);
        first_cell(Node::Petal((i - 9) as u8), MatId::Titanium, shapes, 7, 10, true);
    }
}

proof fn tail_starts(right: bool, i: int)
    requires
        0 <= i < 4,
    ensures
        i == 0 ==> starts_with(tail(right)[i], 7, true),
        i == 1 || i == 3 ==> starts_with(tail(right)[i], 5, true),
{
    let fin = Node::Fin(
        if right {
            1
        } else {
            0
        },
    );
    if i == 0 {
        let shapes = seq![Shape::Rings { rows: 24, cols: 7 }];
        first_cell(Node::Hull, MatId::Graphite, shapes, 24, 7, true);
    } else if i == 1 {
        let shapes = seq![Shape::Rings { rows: 16, cols: 5 }];
        first_cell(Node::Hull, MatId::Titanium, shapes, 16, 5, true);
    } else if i == 3 {
        let shapes = seq![Shape::Rings { rows: 16, cols: 5 }] + repeated(
            4,
            Shape::Rings { rows: 6, cols: 4 },
        );
        first_cell(fin, MatId::Titanium, shapes, 16, 5, true);
    }
}

/// A surface has this many vertices.
#[verifier::opaque]
spec fn has_verts(s: Shape, v: int) -> bool {
    surface::shape_verts(s) == v
}

/// A part made of these surfaces has this many vertices.
#[verifier::opaque]
spec fn counts(node: Node, mat: MatId, shapes: Seq<Shape>, v: int) -> bool {
    made_of(node, mat, shapes).verts == v
}

proof fn sheet_counts(rows: u32, cols: u32, v: int)
    requires
        rows * cols + rows + cols + 1 == v,
    ensures
        has_verts(Shape::Rings { rows, cols }, v),
        has_verts(Shape::Grid { rows, cols }, v),
{
    reveal(has_verts);
    surface::sheets_have_a_vertex_at_every_crossing(rows, cols);
}

proof fn none_counts(node: Node, mat: MatId)
    ensures
        counts(node, mat, Seq::empty(), 0),
{
    reveal(counts);
}

proof fn with_one(node: Node, mat: MatId, shapes: Seq<Shape>, s: Shape, before: int, v: int)
    requires
        counts(node, mat, shapes, before),
        has_verts(s, v),
    ensures
        counts(node, mat, shapes.push(s), before + v),
{
    reveal(has_verts);
    reveal(counts);
    assert(shapes.push(s).drop_last() =~= shapes);
}

proof fn with_repeated(
    node: Node,
    mat: MatId,
    shapes: Seq<Shape>,
    n: nat,
    s: Shape,
    before: int,
    v: int,
)
    requires
        counts(node, mat, shapes, before),
        has_verts(s, v),
    ensures
        counts(node, mat, shapes + repeated(n, s), before + n * v),
    decreases n,
{
    if n == 0 {
        assert(shapes + repeated(0, s) =~= shapes);
        assert(0 * v == 0);
    } else {
        let m = (n - 1) as nat;
        with_repeated(node, mat, shapes, m, s, before, v);
        with_one(node, mat, shapes + repeated(m, s), s, before + m * v, v);
        assert((shapes + repeated(m, s)).push(s) =~= shapes + repeated(n, s));
        assert(m * v + v == n * v) by (nonlinear_arith)
            requires
                n == m + 1,
        ;
    }
}

proof fn with_blades(node: Node, mat: MatId, n: nat)
    ensures
        counts(node, mat, blades(n), 82 * n as int),
    decreases n,
{
    if n == 0 {
        none_counts(node, mat);
        assert(blades(0) =~= Seq::empty());
    } else {
        let m = (n - 1) as nat;
        let (rod, vane) = (Shape::Rings { rows: 12, cols: 5 }, Shape::Quad);
        with_blades(node, mat, m);
        sheet_counts(12, 5, 78);
        assert(has_verts(vane, 4)) by {
            reveal(has_verts);
        }
        with_one(node, mat, blades(m), rod, 82 * m as int, 78);
        with_one(node, mat, blades(m).push(rod), vane, 82 * m as int + 78, 4);
        assert(blades(n) =~= blades(m).push(rod).push(vane));
    }
}

proof fn hull_vertices(i: int)
    requires
        0 <= i < 4,
    ensures
        i == 0 ==> hull()[i].verts == 3185,
        i == 1 ==> hull()[i].verts == 647,
        i == 2 ==> hull()[i].verts == 434,
        i == 3 ==> hull()[i].verts == 756,
{
    if i == 0 {
        let s0 = Seq::<Shape>::empty();
        let s1 = s0.push(Shape::Rings { rows: 64, cols: 48 });
        none_counts(Node::Hull, MatId::Composite);
        sheet_counts(64, 48, 3185);
        with_one(Node::Hull, MatId::Composite, s0, Shape::Rings { rows: 64, cols: 48 }, 0, 3185);
        assert(s1 =~= seq![Shape::Rings { rows: 64, cols: 48 }]);
        reveal(counts);
    } else if i == 1 {
        let s0 = Seq::<Shape>::empty();
        let s1 = s0.push(Shape::Rings { rows: 12, cols: 20 });
        none_counts(Node::Hull, MatId::Graphite);
        sheet_counts(12, 20, 273);
        with_one(Node::Hull, MatId::Graphite, s0, Shape::Rings { rows: 12, cols: 20 }, 0, 273);
        let s2 = s1 + repeated(2, Shape::Rings { rows: 10, cols: 16 });
        sheet_counts(10, 16, 187);
        with_repeated(
            Node::Hull,
            MatId::Graphite,
            s1,
            2,
            Shape::Rings { rows: 10, cols: 16 },
            273,
            187,
        );
        assert(s2 =~= seq![Shape::Rings { rows: 12, cols: 20 }] + repeated(2, Shape::Rings { rows: 10, cols: 16 }));
        reveal(counts);
    } else if i == 2 {
        let s0 = Seq::<Shape>::empty();
        let s1 = s0 + repeated(2, Shape::Rings { rows: 30, cols: 6 });
        none_counts(Node::Hull, MatId::Titanium);
        sheet_counts(30, 6, 217);
        with_repeated(
            Node::Hull,
            MatId::Titanium,
            s0,
            2,
            Shape::Rings { rows: 30, cols: 6 },
            0,
            217,
        );
        assert(s1 =~= repeated(2, Shape::Rings { rows: 30, cols: 6 }));
        reveal(counts);
    } else {
        let s0 = Seq::<Shape>::empty();
        let s1 = s0 + repeated(14, Shape::Rings { rows: 8, cols: 5 });
        none_counts(Node::Hull, MatId::Dark);
        sheet_counts(8, 5, 54);
        with_repeated(Node::Hull, MatId::Dark, s0, 14, Shape::Rings { rows: 8, cols: 5 }, 0, 54);
        assert(s1 =~= repeated(14, Shape::Rings { rows: 8, cols: 5 }));
        reveal(counts);
    }
}

proof fn canopy_vertices(i: int)
    requires
        0 <= i < 5,
    ensures
        i == 0 ==> canopy()[i].verts == 412,
        i == 1 ==> canopy()[i].verts == 117,
        i == 2 ==> canopy()[i].verts == 189,
        i == 3 ==> canopy()[i].verts == 375,
        i == 4 ==> canopy()[i].verts == 717,
{
    if i == 0 {
        let s0 = Seq::<Shape>::empty();
        let s1 = s0.push(Shape::Rings { rows: 12, cols: 18 });
        none_counts(Node::Canopy, MatId::Dark);
        sheet_counts(12, 18, 247);
        with_one(Node::Canopy, MatId::Dark, s0, Shape::Rings { rows: 12, cols: 18 }, 0, 247);
        let s2 = s1.push(Shape::Rings { rows: 10, cols: 14 });
        sheet_counts(10, 14, 165);
        with_one(Node::Canopy, MatId::Dark, s1, Shape::Rings { rows: 10, cols: 14 }, 247, 165);
        assert(s2 =~= seq![Shape::Rings { rows: 12, cols: 18 }, Shape::Rings { rows: 10, cols: 14 }]);
        reveal(counts);
    } else if i == 1 {
        let s0 = Seq::<Shape>::empty();
        let s1 = s0.push(Shape::Rings { rows: 8, cols: 12 });
        none_counts(Node::Canopy, MatId::Seat);
        sheet_counts(8, 12, 117);
        with_one(Node::Canopy, MatId::Seat, s0, Shape::Rings { rows: 8, cols: 12 }, 0, 117);
        assert(s1 =~= seq![Shape::Rings { rows: 8, cols: 12 }]);
        reveal(counts);
    } else if i == 2 {
        let s0 = Seq::<Shape>::empty();
        let s1 = s0 + repeated(3, Shape::Rings { rows: 6, cols: 8 });
        none_counts(Node::Canopy, MatId::Glow);
        sheet_counts(6, 8, 63);
        with_repeated(Node::Canopy, MatId::Glow, s0, 3, Shape::Rings { rows: 6, cols: 8 }, 0, 63);
        assert(s1 =~= repeated(3, Shape::Rings { rows: 6, cols: 8 }));
        reveal(counts);
    } else if i == 3 {
        let s0 = Seq::<Shape>::empty();
        let s1 = s0.push(Shape::Rings { rows: 14, cols: 24 });
        none_counts(Node::Canopy, MatId::Glass);
        sheet_counts(14, 24, 375);
        with_one(Node::Canopy, MatId::Glass, s0, Shape::Rings { rows: 14, cols: 24 }, 0, 375);
        assert(s1 =~= seq![Shape::Rings { rows: 14, cols: 24 }]);
        reveal(counts);
    } else {
        let s0 = Seq::<Shape>::empty();
        let s1 = s0 + repeated(2, Shape::Rings { rows: 24, cols: 6 });
        none_counts(Node::Canopy, MatId::Titanium);
        sheet_counts(24, 6, 175);
        with_repeated(
            Node::Canopy,
            MatId::Titanium,
            s0,
            2,
            Shape::Rings { rows: 24, cols: 6 },
            0,
            175,
        );
        let s2 = s1.push(Shape::Rings { rows: 30, cols: 6 });
        sheet_counts(30, 6, 217);
        with_one(Node::Canopy, MatId::Titanium, s1, Shape::Rings { rows: 30, cols: 6 }, 350, 217);
        let s3 = s2.push(Shape::Rings { rows: 24, cols: 5 });
        sheet_counts(24, 5, 150);
        with_one(Node::Canopy, MatId::Titanium, s2, Shape::Rings { rows: 24, cols: 5 }, 567, 150);
        assert(s3 =~= repeated(2, Shape::Rings { rows: 24, cols: 6 }) + seq![Shape::Rings { rows: 30, cols: 6 }, Shape::Rings { rows: 24, cols: 5 }]);
        reveal(counts);
    }
}

proof fn wing_vertices(right: bool, i: int)
    requires
        0 <= i < 6,
    ensures
        i == 0 ==> wing(right)[i].verts == 663,
        i == 1 ==> wing(right)[i].verts == 2803,
        i == 2 ==> wing(right)[i].verts == 88,
        i >= 3 ==> wing(right)[i].verts == 312,
{
    let n = if right { Node::WingR } else { Node::WingL };
    if i == 0 {
        let s0 = Seq::<Shape>::empty();
        let s1 = s0.push(Shape::Grid { rows: 33, cols: 12 });
        none_counts(n, MatId::Sail);
        sheet_counts(33, 12, 442);
        with_one(n, MatId::Sail, s0, Shape::Grid { rows: 33, cols: 12 }, 0, 442);
        let s2 = s1.push(Shape::Grid { rows: 16, cols: 12 });
        sheet_counts(16, 12, 221);
        with_one(n, MatId::Sail, s1, Shape::Grid { rows: 16, cols: 12 }, 442, 221);
        assert(s2 =~= seq![Shape::Grid { rows: 33, cols: 12 }, Shape::Grid { rows: 16, cols: 12 }]);
        reveal(counts);
    } else if i == 1 {
        let s0 = Seq::<Shape>::empty();
        let s1 = s0.push(Shape::Grid { rows: 36, cols: 12 });
        none_counts(n, MatId::Graphite);
        sheet_counts(36, 12, 481);
        with_one(n, MatId::Graphite, s0, Shape::Grid { rows: 36, cols: 12 }, 0, 481);
        let s2 = s1.push(Shape::Grid { rows: 4, cols: 12 });
        sheet_counts(4, 12, 65);
        with_one(n, MatId::Graphite, s1, Shape::Grid { rows: 4, cols: 12 }, 481, 65);
        let s3 = s2.push(Shape::Grid { rows: 36, cols: 12 });
        sheet_counts(36, 12, 481);
        with_one(n, MatId::Graphite, s2, Shape::Grid { rows: 36, cols: 12 }, 546, 481);
        let s4 = s3 + repeated(8, Shape::Rings { rows: 36, cols: 5 });
        sheet_counts(36, 5, 222);
        with_repeated(n, MatId::Graphite, s3, 8, Shape::Rings { rows: 36, cols: 5 }, 1027, 222);
        assert(s4 =~= seq![Shape::Grid { rows: 36, cols: 12 }, Shape::Grid { rows: 4, cols: 12 }, Shape::Grid { rows: 36, cols: 12 }] + repeated(8, Shape::Rings { rows: 36, cols: 5 }));
        reveal(counts);
    } else if i == 2 {
        let s0 = Seq::<Shape>::empty();
        let s1 = s0.push(Shape::Rings { rows: 7, cols: 10 });
        none_counts(n, MatId::Glow);
        sheet_counts(7, 10, 88);
        with_one(n, MatId::Glow, s0, Shape::Rings { rows: 7, cols: 10 }, 0, 88);
        assert(s1 =~= seq![Shape::Rings { rows: 7, cols: 10 }]);
        reveal(counts);
    } else {
        let j = i - 3;
        let flap = Node::Flap(
            (if right {
                3 + j
            } else {
                j
            }) as u8,
        );
        assert(wing(right)[i] == flaps(right, 3)[j]);
        let s0 = Seq::<Shape>::empty();
        let s1 = s0.push(Shape::Grid { rows: 6, cols: 6 });
        none_counts(flap, MatId::Graphite);
        sheet_counts(6, 6, 49);
        with_one(flap, MatId::Graphite, s0, Shape::Grid { rows: 6, cols: 6 }, 0, 49);
        let s2 = s1.push(Shape::Rings { rows: 24, cols: 6 });
        sheet_counts(24, 6, 175);
        with_one(flap, MatId::Graphite, s1, Shape::Rings { rows: 24, cols: 6 }, 49, 175);
        let s3 = s2.push(Shape::Rings { rows: 7, cols: 10 });
        sheet_counts(7, 10, 88);
        with_one(flap, MatId::Graphite, s2, Shape::Rings { rows: 7, cols: 10 }, 224, 88);
        assert(s3 =~= seq![Shape::Grid { rows: 6, cols: 6 }, Shape::Rings { rows: 24, cols: 6 }, Shape::Rings { rows: 7, cols: 10 }]);
        reveal(counts);
    }
}

proof fn engine_vertices(i: int)
    requires
        0 <= i < 19,
    ensures
        i == 0 ==> engine()[i].verts == 82,
        i == 1 ==> engine()[i].verts == 1107,
        i == 2 ==> engine()[i].verts == 231,
        i == 3 ==> engine()[i].verts == 245,
        i == 4 ==> engine()[i].verts == 1120,
        i == 5 ==> engine()[i].verts == 1120,
        i == 6 ==> engine()[i].verts == 320,
        i == 7 ==> engine()[i].verts == 2085,
        i == 8 ==> engine()[i].verts == 82,
        i >= 9 ==> engine()[i].verts == 166,
{
    if i == 0 {
        let s0 = Seq::<Shape>::empty();
        let s1 = s0.push(Shape::Rings { rows: 40, cols: 1 });
        none_counts(Node::Hull, MatId::Dark);
        sheet_counts(40, 1, 82);
        with_one(Node::Hull, MatId::Dark, s0, Shape::Rings { rows: 40, cols: 1 }, 0, 82);
        assert(s1 =~= seq![Shape::Rings { rows: 40, cols: 1 }]);
        reveal(counts);
    } else if i == 1 {
        let s0 = Seq::<Shape>::empty();
        let s1 = s0 + repeated(3, Shape::Rings { rows: 8, cols: 40 });
        none_counts(Node::Hull, MatId::Titanium);
        sheet_counts(8, 40, 369);
        with_repeated(
            Node::Hull,
            MatId::Titanium,
            s0,
            3,
            Shape::Rings { rows: 8, cols: 40 },
            0,
            369,
        );
        assert(s1 =~= repeated(3, Shape::Rings { rows: 8, cols: 40 }));
        reveal(counts);
    } else if i == 2 {
        let s0 = Seq::<Shape>::empty();
        let s1 = s0.push(Shape::Rings { rows: 6, cols: 32 });
        none_counts(Node::Hull, MatId::Glow);
        sheet_counts(6, 32, 231);
        with_one(Node::Hull, MatId::Glow, s0, Shape::Rings { rows: 6, cols: 32 }, 0, 231);
        assert(s1 =~= seq![Shape::Rings { rows: 6, cols: 32 }]);
        reveal(counts);
    } else if i == 3 {
        let s0 = Seq::<Shape>::empty();
        let s1 = s0.push(Shape::Rings { rows: 4, cols: 48 });
        none_counts(Node::Hull, MatId::Graphite);
        sheet_counts(4, 48, 245);
        with_one(Node::Hull, MatId::Graphite, s0, Shape::Rings { rows: 4, cols: 48 }, 0, 245);
        assert(s1 =~= seq![Shape::Rings { rows: 4, cols: 48 }]);
        reveal(counts);
    } else if i == 4 {
        let s0 = Seq::<Shape>::empty();
        let s1 = s0 + repeated(32, Shape::Rings { rows: 6, cols: 4 });
        none_counts(Node::Hull, MatId::Dark);
        sheet_counts(6, 4, 35);
        with_repeated(Node::Hull, MatId::Dark, s0, 32, Shape::Rings { rows: 6, cols: 4 }, 0, 35);
        assert(s1 =~= repeated(32, Shape::Rings { rows: 6, cols: 4 }));
        reveal(counts);
    } else if i == 5 {
        let s0 = Seq::<Shape>::empty();
        let s1 = s0 + repeated(32, Shape::Rings { rows: 4, cols: 6 });
        none_counts(Node::Hull, MatId::Titanium);
        sheet_counts(4, 6, 35);
        with_repeated(
            Node::Hull,
            MatId::Titanium,
            s0,
            32,
            Shape::Rings { rows: 4, cols: 6 },
            0,
            35,
        );
        assert(s1 =~= repeated(32, Shape::Rings { rows: 4, cols: 6 }));
        reveal(counts);
    } else if i == 6 {
        let s0 = Seq::<Shape>::empty();
        let s1 = s0.push(Shape::Rings { rows: 8, cols: 12 });
        none_counts(Node::Rotor, MatId::Glow);
        sheet_counts(8, 12, 117);
        with_one(Node::Rotor, MatId::Glow, s0, Shape::Rings { rows: 8, cols: 12 }, 0, 117);
        let s2 = s1.push(Shape::Rings { rows: 6, cols: 28 });
        sheet_counts(6, 28, 203);
        with_one(Node::Rotor, MatId::Glow, s1, Shape::Rings { rows: 6, cols: 28 }, 117, 203);
        assert(s2 =~= seq![Shape::Rings { rows: 8, cols: 12 }, Shape::Rings { rows: 6, cols: 28 }]);
        reveal(counts);
    } else if i == 7 {
        with_blades(Node::Rotor, MatId::Titanium, 24);
        sheet_counts(8, 12, 117);
        with_one(
            Node::Rotor,
            MatId::Titanium,
            blades(24),
            Shape::Rings { rows: 8, cols: 12 },
            1968,
            117,
        );
        reveal(counts);
    } else if i == 8 {
        let s0 = Seq::<Shape>::empty();
        let s1 = s0.push(Shape::Grid { rows: 40, cols: 1 });
        none_counts(Node::Hull, MatId::Dark);
        sheet_counts(40, 1, 82);
        with_one(Node::Hull, MatId::Dark, s0, Shape::Grid { rows: 40, cols: 1 }, 0, 82);
        assert(s1 =~= seq![Shape::Grid { rows: 40, cols: 1 }]);
        reveal(counts);
    } else {
        let petal = Node::Petal((i - 9) as u8);
        assert(engine()[i] == petals(10)[i - 9]);
        let s0 = Seq::<Shape>::empty();
        let s1 = s0.push(Shape::Rings { rows: 7, cols: 10 });
        none_counts(petal, MatId::Titanium);
        sheet_counts(7, 10, 88);
        with_one(petal, MatId::Titanium, s0, Shape::Rings { rows: 7, cols: 10 }, 0, 88);
        let s2 = s1.push(Shape::Rings { rows: 12, cols: 5 });
        sheet_counts(12, 5, 78);
        with_one(petal, MatId::Titanium, s1, Shape::Rings { rows: 12, cols: 5 }, 88, 78);
        assert(s2 =~= seq![Shape::Rings { rows: 7, cols: 10 }, Shape::Rings { rows: 12, cols: 5 }]);
        reveal(counts);
    }
}

proof fn tail_vertices(right: bool, i: int)
    requires
        0 <= i < 4,
    ensures
        i == 0 ==> tail(right)[i].verts == 200,
        i == 1 ==> tail(right)[i].verts == 102,
        i == 2 ==> tail(right)[i].verts == 50,
        i == 3 ==> tail(right)[i].verts == 242,
{
    let fin = Node::Fin(
        if right {
            1
        } else {
            0
        },
    );
    if i == 0 {
        let s0 = Seq::<Shape>::empty();
        let s1 = s0.push(Shape::Rings { rows: 24, cols: 7 });
        none_counts(Node::Hull, MatId::Graphite);
        sheet_counts(24, 7, 200);
        with_one(Node::Hull, MatId::Graphite, s0, Shape::Rings { rows: 24, cols: 7 }, 0, 200);
        assert(s1 =~= seq![Shape::Rings { rows: 24, cols: 7 }]);
        reveal(counts);
    } else if i == 1 {
        let s0 = Seq::<Shape>::empty();
        let s1 = s0.push(Shape::Rings { rows: 16, cols: 5 });
        none_counts(Node::Hull, MatId::Titanium);
        sheet_counts(16, 5, 102);
        with_one(Node::Hull, MatId::Titanium, s0, Shape::Rings { rows: 16, cols: 5 }, 0, 102);
        assert(s1 =~= seq![Shape::Rings { rows: 16, cols: 5 }]);
        reveal(counts);
    } else if i == 2 {
        let s0 = Seq::<Shape>::empty();
        let plate = Shape::Plate { mirrored: !right };
        none_counts(fin, MatId::Graphite);
        assert(has_verts(plate, 50)) by {
            reveal(has_verts);
        }
        with_one(fin, MatId::Graphite, s0, plate, 0, 50);
        assert(s0.push(plate) =~= seq![plate]);
        reveal(counts);
    } else {
        let s0 = Seq::<Shape>::empty();
        let s1 = s0.push(Shape::Rings { rows: 16, cols: 5 });
        none_counts(fin, MatId::Titanium);
        sheet_counts(16, 5, 102);
        with_one(fin, MatId::Titanium, s0, Shape::Rings { rows: 16, cols: 5 }, 0, 102);
        let s2 = s1 + repeated(4, Shape::Rings { rows: 6, cols: 4 });
        sheet_counts(6, 4, 35);
        with_repeated(fin, MatId::Titanium, s1, 4, Shape::Rings { rows: 6, cols: 4 }, 102, 35);
        assert(s2 =~= seq![Shape::Rings { rows: 16, cols: 5 }] + repeated(4, Shape::Rings { rows: 6, cols: 4 }));
        reveal(counts);
    }
}

/// How many vertices each part has: those of all its surfaces, be it the shell of
/// the hull, its fourteen ribs, or the rods and vanes of twenty four blades.
pub proof fn parts_have_their_vertices(k: int)
    requires
        0 <= k < airframe().len(),
    ensures
        k == 0 ==> airframe()[k].verts == 3185,
        k == 1 ==> airframe()[k].verts == 647,
        k == 2 ==> airframe()[k].verts == 434,
        k == 3 ==> airframe()[k].verts == 756,
        k == 4 ==> airframe()[k].verts == 412,
        k == 5 ==> airframe()[k].verts == 117,
        k == 6 ==> airframe()[k].verts == 189,
        k == 7 ==> airframe()[k].verts == 375,
        k == 8 ==> airframe()[k].verts == 717,
        k == 9 || k == 15 ==> airframe()[k].verts == 663,
        k == 10 || k == 16 ==> airframe()[k].verts == 2803,
        k == 11 || k == 17 ==> airframe()[k].verts == 88,
        12 <= k < 15 || 18 <= k < 21 ==> airframe()[k].verts == 312,
        k == 21 ==> airframe()[k].verts == 82,
        k == 22 ==> airframe()[k].verts == 1107,
        k == 23 ==> airframe()[k].verts == 231,
        k == 24 ==> airframe()[k].verts == 245,
        k == 25 ==> airframe()[k].verts == 1120,
        k == 26 ==> airframe()[k].verts == 1120,
        k == 27 ==> airframe()[k].verts == 320,
        k == 28 ==> airframe()[k].verts == 2085,
        k == 29 ==> airframe()[k].verts == 82,
        30 <= k < 40 ==> airframe()[k].verts == 166,
        k == 40 || k == 44 ==> airframe()[k].verts == 200,
        k == 41 || k == 45 ==> airframe()[k].verts == 102,
        k == 42 || k == 46 ==> airframe()[k].verts == 50,
        k == 43 || k == 47 ==> airframe()[k].verts == 242,
{
    part_kinds(k);
    if k < 4 {
        hull_vertices(k);
    } else if k < 9 {
        canopy_vertices(k - 4);
    } else if k < 15 {
        wing_vertices(false, k - 9);
    } else if k < 21 {
        wing_vertices(true, k - 15);
    } else if k < 40 {
        engine_vertices(k - 21);
    } else if k < 44 {
        tail_vertices(false, k - 40);
    } else {
        tail_vertices(true, k - 44);
    }
}

/// The last cell of a part is the last of a surface with so many cells to a row,
/// turned as a grid or, the other way, as rings.
#[verifier::opaque]
pub open spec fn ends_with(p: PartView, cols: int, rings: bool) -> bool {
    let at = p.idx.len() - 3;
    let (across, first) = (p.verts - 1, p.verts - cols - 3);
    let other = if rings {
        first + 1
    } else {
        across - 1
    };
    &&& surface::runs_along(p.idx, at, across, first)
    &&& surface::runs_along(p.idx, at, first, other)
    &&& surface::runs_along(p.idx, at, other, across)
}

proof fn last_cell(node: Node, mat: MatId, shapes: Seq<Shape>, rows: u32, cols: u32, rings: bool)
    requires
        shapes.len() > 0,
        shapes.last() == (if rings {
            Shape::Rings { rows, cols }
        } else {
            Shape::Grid { rows, cols }
        }),
        0 < rows <= 100,
        0 < cols <= 100,
        made_of(node, mat, shapes).verts <= VERTEX_LIMIT,
    ensures
        ends_with(made_of(node, mat, shapes), cols as int, rings),
{
    reveal(ends_with);
    let rest = made_of(node, mat, shapes.drop_last());
    let whole = made_of(node, mat, shapes);
    surface::sheets_have_a_vertex_at_every_crossing(rows, cols);
    let (r, c) = (rows as int, cols as int);
    assert(r * c >= 1) by (nonlinear_arith)
        requires
            r >= 1,
            c >= 1,
    ;
    parts_join_their_own_vertices(node, mat, shapes.drop_last());
    assert((r + 1) * (c + 1) == r * c + r + c + 1) by (nonlinear_arith);
    assert((r - 1) * c + (c - 1) == r * c - 1) by (nonlinear_arith);
    assert((r - 1) * (c + 1) == r * c + r - c - 1) by (nonlinear_arith);
    surface::cells_are_covered(rest.verts, r, c, rings, r - 1, c - 1);
    let s = surface::sheet(rest.verts, r, c, rings);
    let at = 6 * (r * c) - 3;
    assert(s.len() == 6 * (r * c));
    assert(whole.idx == rest.idx + s);
    let n = rest.idx.len();
    assert(whole.idx[n + at] == s[at] && whole.idx[n + at + 1] == s[at + 1] && whole.idx[n + at + 2]
        == s[at + 2]);
}

proof fn hull_ends(i: int)
    requires
        0 <= i < 4,
    ensures
        i == 0 ==> ends_with(hull()[i], 48, true),
        i == 1 ==> ends_with(hull()[i], 16, true),
        i == 2 ==> ends_with(hull()[i], 6, true),
        i == 3 ==> ends_with(hull()[i], 5, true),
{
    hull_vertices(i);
    if i == 0 {
        let shapes = seq![Shape::Rings { rows: 64, cols: 48 }];
        last_cell(Node::Hull, MatId::Composite, shapes, 64, 48, true);
    } else if i == 1 {
        let shapes = seq![Shape::Rings { rows: 12, cols: 20 }] + repeated(2, Shape::Rings { rows: 10, cols: 16 });
        last_cell(Node::Hull, MatId::Graphite, shapes, 10, 16, true);
    } else if i == 2 {
        let shapes = repeated(2, Shape::Rings { rows: 30, cols: 6 });
        last_cell(Node::Hull, MatId::Titanium, shapes, 30, 6, true);
    } else if i == 3 {
        let shapes = repeated(14, Shape::Rings { rows: 8, cols: 5 });
        last_cell(Node::Hull, MatId::Dark, shapes, 8, 5, true);
    }
}

proof fn canopy_ends(i: int)
    requires
        0 <= i < 5,
    ensures
        i == 0 ==> ends_with(canopy()[i], 14, true),
        i == 1 ==> ends_with(canopy()[i], 12, true),
        i == 2 ==> ends_with(canopy()[i], 8, true),
        i == 3 ==> ends_with(canopy()[i], 24, true),
        i == 4 ==> ends_with(canopy()[i], 5, true),
{
    canopy_vertices(i);
    if i == 0 {
        let shapes = seq![Shape::Rings { rows: 12, cols: 18 }, Shape::Rings { rows: 10, cols: 14 }];
        last_cell(Node::Canopy, MatId::Dark, shapes, 10, 14, true);
    } else if i == 1 {
        let shapes = seq![Shape::Rings { rows: 8, cols: 12 }];
        last_cell(Node::Canopy, MatId::Seat, shapes, 8, 12, true);
    } else if i == 2 {
        let shapes = repeated(3, Shape::Rings { rows: 6, cols: 8 });
        last_cell(Node::Canopy, MatId::Glow, shapes, 6, 8, true);
    } else if i == 3 {
        let shapes = seq![Shape::Rings { rows: 14, cols: 24 }];
        last_cell(Node::Canopy, MatId::Glass, shapes, 14, 24, true);
    } else if i == 4 {
        let shapes = repeated(2, Shape::Rings { rows: 24, cols: 6 }) + seq![Shape::Rings { rows: 30, cols: 6 }, Shape::Rings { rows: 24, cols: 5 }];
        last_cell(Node::Canopy, MatId::Titanium, shapes, 24, 5, true);
    }
}

proof fn wing_ends(right: bool, i: int)
    requires
        0 <= i < 6,
    ensures
        i == 0 ==> ends_with(wing(right)[i], 12, false),
        i == 1 ==> ends_with(wing(right)[i], 5, true),
        i == 2 ==> ends_with(wing(right)[i], 10, true),
        i >= 3 ==> ends_with(wing(right)[i], 10, true),
{
    wing_vertices(right, i);
    if i == 0 {
        let n = if right { Node::WingR } else { Node::WingL };
        let shapes = seq![Shape::Grid { rows: 33, cols: 12 }, Shape::Grid { rows: 16, cols: 12 }];
        last_cell(n, MatId::Sail, shapes, 16, 12, false);
    } else if i == 1 {
        let n = if right { Node::WingR } else { Node::WingL };
        let shapes = seq![Shape::Grid { rows: 36, cols: 12 }, Shape::Grid { rows: 4, cols: 12 }, Shape::Grid { rows: 36, cols: 12 }] + repeated(8, Shape::Rings { rows: 36, cols: 5 });
        last_cell(n, MatId::Graphite, shapes, 36, 5, true);
    } else if i == 2 {
        let n = if right { Node::WingR } else { Node::WingL };
        let shapes = seq![Shape::Rings { rows: 7, cols: 10 }];
        last_cell(n, MatId::Glow, shapes, 7, 10, true);
    } else if i >= 3 {
        let j = i - 3;
        let flap = Node::Flap(
            (if right {
                3 + j
            } else {
                j
            }) as u8,
        );
        assert(wing(right)[i] == flaps(right, 3)[j]);
        let shapes = seq![
            Shape::Grid { rows: 6, cols: 6 },
            Shape::Rings { rows: 24, cols: 6 },
            Shape::Rings { rows: 7, cols: 10 },
        ];
        last_cell(flap, MatId::Graphite, shapes, 7, 10, true);
    }
}

proof fn engine_ends(i: int)
    requires
        0 <= i < 19,
    ensures
        i == 0 ==> ends_with(engine()[i], 1, true),
        i == 1 ==> ends_with(engine()[i], 40, true),
        i == 2 ==> ends_with(engine()[i], 32, true),
        i == 3 ==> ends_with(engine()[i], 48, true),
        i == 4 ==> ends_with(engine()[i], 4, true),
        i == 5 ==> ends_with(engine()[i], 6, true),
        i == 6 ==> ends_with(engine()[i], 28, true),
        i == 7 ==> ends_with(engine()[i], 12, true),
        i == 8 ==> ends_with(engine()[i], 1, false),
        i >= 9 ==> ends_with(engine()[i], 5, true),
{
    engine_vertices(i);
    if i == 0 {
        let shapes = seq![Shape::Rings { rows: 40, cols: 1 }];
        last_cell(Node::Hull, MatId::Dark, shapes, 40, 1, true);
    } else if i == 1 {
        let shapes = repeated(3, Shape::Rings { rows: 8, cols: 40 });
        last_cell(Node::Hull, MatId::Titanium, shapes, 8, 40, true);
    } else if i == 2 {
        let shapes = seq![Shape::Rings { rows: 6, cols: 32 }];
        last_cell(Node::Hull, MatId::Glow, shapes, 6, 32, true);
    } else if i == 3 {
        let shapes = seq![Shape::Rings { rows: 4, cols: 48 }];
        last_cell(Node::Hull, MatId::Graphite, shapes, 4, 48, true);
    } else if i == 4 {
        let shapes = repeated(32, Shape::Rings { rows: 6, cols: 4 });
        last_cell(Node::Hull, MatId::Dark, shapes, 6, 4, true);
    } else if i == 5 {
        let shapes = repeated(32, Shape::Rings { rows: 4, cols: 6 });
        last_cell(Node::Hull, MatId::Titanium, shapes, 4, 6, true);
    } else if i == 6 {
        let shapes = seq![Shape::Rings { rows: 8, cols: 12 }, Shape::Rings { rows: 6, cols: 28 }];
        last_cell(Node::Rotor, MatId::Glow, shapes, 6, 28, true);
    } else if i == 7 {
        let shapes = blades(24).push(Shape::Rings { rows: 8, cols: 12 });
        last_cell(Node::Rotor, MatId::Titanium, shapes, 8, 12, true);
    } else if i == 8 {
        let shapes = seq![Shape::Grid { rows: 40, cols: 1 }];
        last_cell(Node::Hull, MatId::Dark, shapes, 40, 1, false);
    } else if i >= 9 {
        let petal = Node::Petal((i - 9) as u8);
        assert(engine()[i] == petals(10)[i - 9]);
        let shapes = seq![Shape::Rings { rows: 7, cols: 10 }, Shape::Rings { rows: 12, cols: 5 }];
        last_cell(petal, MatId::Titanium, shapes, 12, 5, true);
    }
}

proof fn tail_ends(right: bool, i: int)
    requires
        0 <= i < 4,
    ensures
        i == 0 ==> ends_with(tail(right)[i], 7, true),
        i == 1 ==> ends_with(tail(right)[i], 5, true),
        i == 3 ==> ends_with(tail(right)[i], 4, true),
{
    tail_vertices(right, i);
    if i == 0 {
        let shapes = seq![Shape::Rings { rows: 24, cols: 7 }];
        last_cell(Node::Hull, MatId::Graphite, shapes, 24, 7, true);
    } else if i == 1 {
        let shapes = seq![Shape::Rings { rows: 16, cols: 5 }];
        last_cell(Node::Hull, MatId::Titanium, shapes, 16, 5, true);
    } else if i == 3 {
        let fin = Node::Fin(
            if right {
                1
            } else {
                0
            },
        );
        let shapes = seq![Shape::Rings { rows: 16, cols: 5 }] + repeated(4, Shape::Rings { rows: 6, cols: 4 });
        last_cell(fin, MatId::Titanium, shapes, 6, 4, true);
    }
}

/// How many cells the last surface of each part has to a row, and which way it is
/// turned.
pub proof fn parts_end_with_their_last_cell(k: int)
    requires
        0 <= k < airframe().len(),
    ensures
        k == 0 || k == 24 ==> ends_with(airframe()[k], 48, true),
        k == 1 ==> ends_with(airframe()[k], 16, true),
        k == 2 || k == 26 ==> ends_with(airframe()[k], 6, true),
        k == 3 || k == 8 || k == 10 || k == 16 || 30 <= k < 40 || k == 41 || k == 45 ==> ends_with(airframe()[k], 5, true),
        k == 4 ==> ends_with(airframe()[k], 14, true),
        k == 5 || k == 28 ==> ends_with(airframe()[k], 12, true),
        k == 6 ==> ends_with(airframe()[k], 8, true),
        k == 7 ==> ends_with(airframe()[k], 24, true),
        k == 9 || k == 15 ==> ends_with(airframe()[k], 12, false),
        11 <= k < 15 || 17 <= k < 21 ==> ends_with(airframe()[k], 10, true),
        k == 21 ==> ends_with(airframe()[k], 1, true),
        k == 22 ==> ends_with(airframe()[k], 40, true),
        k == 23 ==> ends_with(airframe()[k], 32, true),
        k == 25 || k == 43 || k == 47 ==> ends_with(airframe()[k], 4, true),
        k == 27 ==> ends_with(airframe()[k], 28, true),
        k == 29 ==> ends_with(airframe()[k], 1, false),
        k == 40 || k == 44 ==> ends_with(airframe()[k], 7, true),
{
    part_kinds(k);
    if k < 4 {
        hull_ends(k);
    } else if k < 9 {
        canopy_ends(k - 4);
    } else if k < 15 {
        wing_ends(false, k - 9);
    } else if k < 21 {
        wing_ends(true, k - 15);
    } else if k < 40 {
        engine_ends(k - 21);
    } else if k < 44 {
        tail_ends(false, k - 40);
    } else {
        tail_ends(true, k - 44);
    }
}

} // verus!
