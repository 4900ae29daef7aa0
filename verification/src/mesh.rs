//! Mesh topology of the viewport primitives: which vertices a primitive's
//! mesh has, in order, and the triangle list over them. Each vertex is named
//! by a slot; the renderer turns a slot into a position and normal from the
//! object's transform. Every index of a mesh refers to one of its vertices.

use vstd::prelude::*;

use crate::scene::{PrimitiveKind, PrimitiveKindV};

verus! {

/// Latitude bands of a sphere.
pub const SPHERE_STACKS: u32 = 16;

/// Longitude bands of a sphere.
pub const SPHERE_SLICES: u32 = 24;

/// Sides of a cylinder.
pub const CYLINDER_SLICES: u32 = 24;

/// Where a vertex of a primitive's mesh sits.
#[derive(Debug, Clone, Copy, PartialEq, Eq, Structural)]
pub enum VertexSlot {
    /// Corner `corner` (0..8, numbered as in [`BOX_FACES`]) of a box, as a
    /// vertex of face `face` (0..6: front, back, left, right, top, bottom).
    BoxCorner { corner: u32, face: u32 },
    /// The sphere vertex on stack `stack` (0..=stacks, from the top pole) and
    /// slice `slice` (0..=slices).
    SpherePoint { stack: u32, slice: u32 },
    /// Side vertex `i` (0..=slices) of a cylinder, on the bottom or top rim.
    CylinderSide { i: u32, top: bool },
    /// The centre of the bottom or top cap of a cylinder.
    CapCenter { top: bool },
    /// Rim vertex `i` (0..=slices) of the bottom or top cap.
    CapRim { i: u32, top: bool },
    /// Corner `k` (0..4) of a grid quad.
    GridCorner { k: u32 },
    /// Vertex `k` (0..3) of an inline triangle.
    TriangleCorner { k: u32 },
}

/// The vertices of a mesh, as slots, and its triangles, as index triples.
#[derive(Debug)]
pub struct MeshTopology {
    pub slots: Vec<VertexSlot>,
    pub indices: Vec<u32>,
}

/// Every index refers to one of the `n` vertices.
pub open spec fn indices_below(indices: Seq<u32>, n: int) -> bool {
    forall|k: int| 0 <= k < indices.len() ==> #[trigger] indices[k] < n
}

// ── Box ────────────────────────────────────────────────────────────────────

/// The four corners of each box face, counter-clockwise seen from outside:
/// front (-z), back (+z), left (-x), right (+x), top (+y), bottom (-y).
/// Corners 0..4 are the -z square (---, +--, ++-, -+-), 4..8 the +z one.
pub const BOX_FACES: [[u32; 4]; 6] = [
    [0, 1, 2, 3],
    [5, 4, 7, 6],
    [4, 0, 3, 7],
    [1, 5, 6, 2],
    [3, 2, 6, 7],
    [4, 5, 1, 0],
];

/// The two triangles of a quad, as offsets into its four vertices.
pub open spec fn quad_triangles(base: int) -> Seq<u32> {
    seq![
        base as u32,
        (base + 1) as u32,
        (base + 2) as u32,
        base as u32,
        (base + 2) as u32,
        (base + 3) as u32,
    ]
}

/// The slots of the first `f` faces of a box.
pub open spec fn box_slots(f: int) -> Seq<VertexSlot>
    decreases f,
{
    if f <= 0 {
        seq![]
    } else {
        box_slots(f - 1) + seq![
            VertexSlot::BoxCorner { corner: BOX_FACES[f - 1][0], face: (f - 1) as u32 },
            VertexSlot::BoxCorner { corner: BOX_FACES[f - 1][1], face: (f - 1) as u32 },
            VertexSlot::BoxCorner { corner: BOX_FACES[f - 1][2], face: (f - 1) as u32 },
            VertexSlot::BoxCorner { corner: BOX_FACES[f - 1][3], face: (f - 1) as u32 },
        ]
    }
}

/// The indices of the first `f` faces of a box.
pub open spec fn box_indices(f: int) -> Seq<u32>
    decreases f,
{
    if f <= 0 {
        seq![]
    } else {
        box_indices(f - 1) + quad_triangles(4 * (f - 1))
    }
}

proof fn lemma_box_sizes(f: int)
    requires
        0 <= f <= 6,
    ensures
        box_slots(f).len() == 4 * f,
        box_indices(f).len() == 6 * f,
        indices_below(box_indices(f), 4 * f),
    decreases f,
{
    if f > 0 {
        lemma_box_sizes(f - 1);
        let prev = box_indices(f - 1);
        let q = quad_triangles(4 * (f - 1));
        assert forall|k: int| 0 <= k < box_indices(f).len() implies #[trigger] box_indices(f)[k] < 4
            * f by {
            if k < prev.len() {
                assert(box_indices(f)[k] == prev[k]);
            } else {
                assert(box_indices(f)[k] == q[k - prev.len()]);
            }
        }
    }
}

/// A box: four vertices per face (each face with its own normal), two
/// triangles per face.
pub fn box_topology() -> (m: MeshTopology)
    ensures
        m.slots@ == box_slots(6),
        m.indices@ == box_indices(6),
        m.slots@.len() == 24,
        m.indices@.len() == 36,
        indices_below(m.indices@, m.slots@.len() as int),
{
    let faces = BOX_FACES;
    let mut slots: Vec<VertexSlot> = Vec::new();
    let mut indices: Vec<u32> = Vec::new();
    for f in 0..6u32
        invariant
            faces == BOX_FACES,
            slots@ == box_slots(f as int),
            indices@ == box_indices(f as int),
    {
        let base = f * 4;
        let face = faces[f as usize];
        slots.push(VertexSlot::BoxCorner { corner: face[0], face: f });
        slots.push(VertexSlot::BoxCorner { corner: face[1], face: f });
        slots.push(VertexSlot::BoxCorner { corner: face[2], face: f });
        slots.push(VertexSlot::BoxCorner { corner: face[3], face: f });
        indices.push(base);
        indices.push(base + 1);
        indices.push(base + 2);
        indices.push(base);
        indices.push(base + 2);
        indices.push(base + 3);
        assert(slots@ =~= box_slots(f + 1));
        assert(indices@ =~= box_indices(f + 1));
    }
    proof {
        lemma_box_sizes(6);
    }
    MeshTopology { slots, indices }
}

// ── Sphere ─────────────────────────────────────────────────────────────────

/// The slots of stack `i`, slices `0..j`.
pub open spec fn sphere_row_slots(i: int, j: int) -> Seq<VertexSlot>
    decreases j,
{
    if j <= 0 {
        seq![]
    } else {
        sphere_row_slots(i, j - 1).push(
            VertexSlot::SpherePoint { stack: i as u32, slice: (j - 1) as u32 },
        )
    }
}

/// The slots of stacks `0..i`, each with `slices + 1` vertices.
pub open spec fn sphere_slots(slices: int, i: int) -> Seq<VertexSlot>
    decreases i,
{
    if i <= 0 {
        seq![]
    } else {
        sphere_slots(slices, i - 1) + sphere_row_slots(i - 1, slices + 1)
    }
}

/// The two triangles of the band cell at stack `i`, slice `j`.
pub open spec fn sphere_cell(i: int, j: int, slices: int) -> Seq<u32> {
    let first = i * (slices + 1) + j;
    let second = first + slices + 1;
    seq![
        first as u32,
        second as u32,
        (first + 1) as u32,
        (first + 1) as u32,
        second as u32,
        (second + 1) as u32,
    ]
}

/// The cells of band `i`, slices `0..j`.
pub open spec fn sphere_row_indices(i: int, j: int, slices: int) -> Seq<u32>
    decreases j,
{
    if j <= 0 {
        seq![]
    } else {
        sphere_row_indices(i, j - 1, slices) + sphere_cell(i, j - 1, slices)
    }
}

/// The cells of bands `0..i`.
pub open spec fn sphere_indices(slices: int, i: int) -> Seq<u32>
    decreases i,
{
    if i <= 0 {
        seq![]
    } else {
        sphere_indices(slices, i - 1) + sphere_row_indices(i - 1, slices, slices)
    }
}

proof fn lemma_sphere_slot_count(slices: int, i: int)
    requires
        0 <= slices,
        0 <= i,
    ensures
        sphere_slots(slices, i).len() == i * (slices + 1),
    decreases i,
{
    if i > 0 {
        lemma_sphere_slot_count(slices, i - 1);
        lemma_sphere_row_slot_count(i - 1, slices + 1);
        assert(sphere_slots(slices, i) == sphere_slots(slices, i - 1) + sphere_row_slots(
            i - 1,
            slices + 1,
        ));
        assert((i - 1) * (slices + 1) + (slices + 1) == i * (slices + 1)) by (nonlinear_arith);
    } else {
        assert(i * (slices + 1) == 0) by (nonlinear_arith)
            requires
                i == 0,
        ;
    }
}

proof fn lemma_sphere_row_slot_count(i: int, j: int)
    requires
        0 <= j,
    ensures
        sphere_row_slots(i, j).len() == j,
    decreases j,
{
    if j > 0 {
        lemma_sphere_row_slot_count(i, j - 1);
    }
}

/// The cells of band `i` refer to stacks `i` and `i + 1` only.
proof fn lemma_sphere_row_bounds(i: int, j: int, slices: int, stacks: int)
    requires
        0 <= i < stacks,
        0 <= j <= slices,
    ensures
        sphere_row_indices(i, j, slices).len() == 6 * j,
        indices_below(sphere_row_indices(i, j, slices), (stacks + 1) * (slices + 1)),
    decreases j,
{
    if j > 0 {
        lemma_sphere_row_bounds(i, j - 1, slices, stacks);
        let prev = sphere_row_indices(i, j - 1, slices);
        let cell = sphere_cell(i, j - 1, slices);
        let first = i * (slices + 1) + (j - 1);
        assert(first + slices + 2 <= (stacks + 1) * (slices + 1) - 1) by (nonlinear_arith)
            requires
                0 <= i < stacks,
                0 <= j - 1 < slices,
                first == i * (slices + 1) + (j - 1),
        ;
        assert forall|k: int| 0 <= k < sphere_row_indices(i, j, slices).len() implies #[trigger] sphere_row_indices(
            i,
            j,
            slices,
        )[k] < (stacks + 1) * (slices + 1) by {
            if k < prev.len() {
                assert(sphere_row_indices(i, j, slices)[k] == prev[k]);
            } else {
                assert(sphere_row_indices(i, j, slices)[k] == cell[k - prev.len()]);
                assert(0 <= first);
            }
        }
    }
}

proof fn lemma_sphere_bounds(slices: int, stacks: int, i: int)
    requires
        0 <= slices,
        0 <= i <= stacks,
    ensures
        sphere_indices(slices, i).len() == 6 * i * slices,
        indices_below(sphere_indices(slices, i), (stacks + 1) * (slices + 1)),
    decreases i,
{
    if i > 0 {
        lemma_sphere_bounds(slices, stacks, i - 1);
        lemma_sphere_row_bounds(i - 1, slices, slices, stacks);
        let prev = sphere_indices(slices, i - 1);
        let row = sphere_row_indices(i - 1, slices, slices);
        assert(6 * (i - 1) * slices + 6 * slices == 6 * i * slices) by (nonlinear_arith);
        assert forall|k: int| 0 <= k < sphere_indices(slices, i).len() implies #[trigger] sphere_indices(
            slices,
            i,
        )[k] < (stacks + 1) * (slices + 1) by {
            if k < prev.len() {
                assert(sphere_indices(slices, i)[k] == prev[k]);
            } else {
                assert(sphere_indices(slices, i)[k] == row[k - prev.len()]);
            }
        }
    }
}

/// A UV sphere: `stacks + 1` rings of `slices + 1` vertices, from pole to
/// pole, and two triangles for each cell between neighbouring rings.
pub fn sphere_topology(stacks: u32, slices: u32) -> (m: MeshTopology)
    requires
        (stacks + 1) * (slices + 1) <= u32::MAX,
    ensures
        m.slots@ == sphere_slots(slices as int, stacks + 1),
        m.indices@ == sphere_indices(slices as int, stacks as int),
        m.slots@.len() == (stacks + 1) * (slices + 1),
        m.indices@.len() == 6 * stacks * slices,
        indices_below(m.indices@, m.slots@.len() as int),
{
    assert(stacks < u32::MAX && slices < u32::MAX) by (nonlinear_arith)
        requires
            (stacks + 1) * (slices + 1) <= u32::MAX,
    ;
    let mut slots: Vec<VertexSlot> = Vec::new();
    let mut i: u32 = 0;
    while i <= stacks
        invariant
            i <= stacks + 1,
            stacks < u32::MAX,
            slices < u32::MAX,
            slots@ == sphere_slots(slices as int, i as int),
        decreases stacks + 1 - i,
    {
        let ghost before = slots@;
        let mut j: u32 = 0;
        while j <= slices
            invariant
                j <= slices + 1,
                slices < u32::MAX,
                i <= stacks,
                slots@ == before + sphere_row_slots(i as int, j as int),
            decreases slices + 1 - j,
        {
            slots.push(VertexSlot::SpherePoint { stack: i, slice: j });
            assert(slots@ =~= before + sphere_row_slots(i as int, j + 1));
            j = j + 1;
        }
        assert(slots@ =~= sphere_slots(slices as int, i + 1));
        i = i + 1;
    }
    let mut indices: Vec<u32> = Vec::new();
    for i in 0..stacks
        invariant
            (stacks + 1) * (slices + 1) <= u32::MAX,
            indices@ == sphere_indices(slices as int, i as int),
    {
        let ghost before = indices@;
        for j in 0..slices
            invariant
                (stacks + 1) * (slices + 1) <= u32::MAX,
                i < stacks,
                indices@ == before + sphere_row_indices(i as int, j as int, slices as int),
        {
            assert(i * (slices + 1) + j + slices + 2 <= (stacks + 1) * (slices + 1)) by (
            nonlinear_arith)
                requires
                    i < stacks,
                    j < slices,
            ;
            let first = i * (slices + 1) + j;
            let second = first + slices + 1;
            indices.push(first);
            indices.push(second);
            indices.push(first + 1);
            indices.push(first + 1);
            indices.push(second);
            indices.push(second + 1);
            assert(indices@ =~= before + sphere_row_indices(i as int, j + 1, slices as int));
        }
        assert(indices@ =~= sphere_indices(slices as int, i + 1));
    }
    proof {
        lemma_sphere_slot_count(slices as int, stacks + 1);
        lemma_sphere_bounds(slices as int, stacks as int, stacks as int);
    }
    MeshTopology { slots, indices }
}

// ── Cylinder ───────────────────────────────────────────────────────────────

/// The side slots of rim positions `0..i`: bottom then top for each.
pub open spec fn cylinder_side_slots(i: int) -> Seq<VertexSlot>
    decreases i,
{
    if i <= 0 {
        seq![]
    } else {
        cylinder_side_slots(i - 1) + seq![
            VertexSlot::CylinderSide { i: (i - 1) as u32, top: false },
            VertexSlot::CylinderSide { i: (i - 1) as u32, top: true },
        ]
    }
}

/// The rim slots `0..i` of one cap.
pub open spec fn cap_rim_slots(i: int, top: bool) -> Seq<VertexSlot>
    decreases i,
{
    if i <= 0 {
        seq![]
    } else {
        cap_rim_slots(i - 1, top).push(VertexSlot::CapRim { i: (i - 1) as u32, top })
    }
}

/// All slots of a cylinder: the sides, then the bottom cap (centre, rim),
/// then the top cap.
pub open spec fn cylinder_slots(slices: int) -> Seq<VertexSlot> {
    cylinder_side_slots(slices + 1) + seq![VertexSlot::CapCenter { top: false }] + cap_rim_slots(
        slices + 1,
        false,
    ) + seq![VertexSlot::CapCenter { top: true }] + cap_rim_slots(slices + 1, true)
}

/// The side triangles of positions `0..i`.
pub open spec fn cylinder_side_indices(i: int) -> Seq<u32>
    decreases i,
{
    if i <= 0 {
        seq![]
    } else {
        let b = 2 * (i - 1);
        cylinder_side_indices(i - 1) + seq![
            b as u32,
            (b + 1) as u32,
            (b + 2) as u32,
            (b + 2) as u32,
            (b + 1) as u32,
            (b + 3) as u32,
        ]
    }
}

/// The triangles `0..i` of a cap whose centre is vertex `base`: the bottom
/// cap winds one way, the top cap the other, so that both face outwards.
pub open spec fn cap_indices(base: int, i: int, top: bool) -> Seq<u32>
    decreases i,
{
    if i <= 0 {
        seq![]
    } else {
        let a = base + 1 + (i - 1);
        let b = base + 1 + i;
        cap_indices(base, i - 1, top) + if top {
            seq![base as u32, a as u32, b as u32]
        } else {
            seq![base as u32, b as u32, a as u32]
        }
    }
}

/// All triangles of a cylinder.
pub open spec fn cylinder_indices(slices: int) -> Seq<u32> {
    cylinder_side_indices(slices) + cap_indices(2 * (slices + 1), slices, false) + cap_indices(
        2 * (slices + 1) + slices + 2,
        slices,
        true,
    )
}

proof fn lemma_cylinder_sizes(i: int, base: int, n: int, top: bool)
    requires
        0 <= i,
        0 <= base,
        2 * i + 2 <= n,
        base + i + 2 <= n,
    ensures
        cylinder_side_slots(i).len() == 2 * i,
        cap_rim_slots(i, top).len() == i,
        cylinder_side_indices(i).len() == 6 * i,
        cap_indices(base, i, top).len() == 3 * i,
        indices_below(cylinder_side_indices(i), n),
        indices_below(cap_indices(base, i, top), n),
    decreases i,
{
    if i > 0 {
        lemma_cylinder_sizes(i - 1, base, n, top);
        let ps = cylinder_side_indices(i - 1);
        let pc = cap_indices(base, i - 1, top);
        assert forall|k: int| 0 <= k < cylinder_side_indices(i).len() implies #[trigger] cylinder_side_indices(
            i,
        )[k] < n by {
            if k < ps.len() {
                assert(cylinder_side_indices(i)[k] == ps[k]);
            }
        }
        assert forall|k: int| 0 <= k < cap_indices(base, i, top).len() implies #[trigger] cap_indices(
            base,
            i,
            top,
        )[k] < n by {
            if k < pc.len() {
                assert(cap_indices(base, i, top)[k] == pc[k]);
            }
        }
    }
}

proof fn lemma_indices_concat(a: Seq<u32>, b: Seq<u32>, n: int)
    requires
        indices_below(a, n),
        indices_below(b, n),
    ensures
        indices_below(a + b, n),
{
    assert forall|k: int| 0 <= k < (a + b).len() implies #[trigger] (a + b)[k] < n by {
        if k < a.len() {
            assert((a + b)[k] == a[k]);
        } else {
            assert((a + b)[k] == b[k - a.len()]);
        }
    }
}

/// A capped cylinder: `slices + 1` pairs of side vertices (bottom, top),
/// then each cap's centre and `slices + 1` rim vertices; two triangles per
/// side quad and one per cap sector.
pub fn cylinder_topology(slices: u32) -> (m: MeshTopology)
    requires
        4 * slices + 6 <= u32::MAX,
    ensures
        m.slots@ == cylinder_slots(slices as int),
        m.indices@ == cylinder_indices(slices as int),
        m.slots@.len() == 4 * slices + 6,
        m.indices@.len() == 12 * slices,
        indices_below(m.indices@, m.slots@.len() as int),
{
    let mut slots: Vec<VertexSlot> = Vec::new();
    let mut i: u32 = 0;
    while i <= slices
        invariant
            i <= slices + 1,
            4 * slices + 6 <= u32::MAX,
            slots@ == cylinder_side_slots(i as int),
        decreases slices + 1 - i,
    {
        slots.push(VertexSlot::CylinderSide { i, top: false });
        slots.push(VertexSlot::CylinderSide { i, top: true });
        assert(slots@ =~= cylinder_side_slots(i + 1));
        i = i + 1;
    }
    let mut indices: Vec<u32> = Vec::new();
    for i in 0..slices
        invariant
            4 * slices + 6 <= u32::MAX,
            indices@ == cylinder_side_indices(i as int),
    {
        let b = i * 2;
        indices.push(b);
        indices.push(b + 1);
        indices.push(b + 2);
        indices.push(b + 2);
        indices.push(b + 1);
        indices.push(b + 3);
        assert(indices@ =~= cylinder_side_indices(i + 1));
    }
    let ghost sides = slots@;
    let ghost side_idx = indices@;
    let bottom = 2 * (slices + 1);
    let top = bottom + slices + 2;
    for pass in 0..2u32
        invariant
            4 * slices + 6 <= u32::MAX,
            bottom == 2 * (slices + 1),
            top == bottom + slices + 2,
            pass == 0 ==> slots@ == sides,
            pass == 0 ==> indices@ == side_idx,
            pass == 1 ==> slots@ == sides + seq![VertexSlot::CapCenter { top: false }]
                + cap_rim_slots(slices + 1, false),
            pass == 1 ==> indices@ == side_idx + cap_indices(bottom as int, slices as int, false),
            pass == 2 ==> slots@ == sides + seq![VertexSlot::CapCenter { top: false }]
                + cap_rim_slots(slices + 1, false) + seq![VertexSlot::CapCenter { top: true }]
                + cap_rim_slots(slices + 1, true),
            pass == 2 ==> indices@ == side_idx + cap_indices(bottom as int, slices as int, false)
                + cap_indices(top as int, slices as int, true),
    {
        let is_top = pass == 1;
        let center = if is_top { top } else { bottom };
        let ghost slots_before = slots@;
        let ghost indices_before = indices@;
        slots.push(VertexSlot::CapCenter { top: is_top });
        let mut j: u32 = 0;
        while j <= slices
            invariant
                j <= slices + 1,
                4 * slices + 6 <= u32::MAX,
                slots@ == slots_before + seq![VertexSlot::CapCenter { top: is_top }] + cap_rim_slots(
                    j as int,
                    is_top,
                ),
            decreases slices + 1 - j,
        {
            slots.push(VertexSlot::CapRim { i: j, top: is_top });
            assert(slots@ =~= slots_before + seq![VertexSlot::CapCenter { top: is_top }]
                + cap_rim_slots(j + 1, is_top));
            j = j + 1;
        }
        for k in 0..slices
            invariant
                4 * slices + 6 <= u32::MAX,
                center <= 3 * slices + 4,
                indices@ == indices_before + cap_indices(center as int, k as int, is_top),
        {
            let a = center + 1 + k;
            let b = center + 1 + k + 1;
            indices.push(center);
            if is_top {
                indices.push(a);
                indices.push(b);
            } else {
                indices.push(b);
                indices.push(a);
            }
            assert(indices@ =~= indices_before + cap_indices(center as int, k + 1, is_top));
        }
    }
    proof {
        let n = 4 * slices + 6;
        lemma_cylinder_sizes(slices + 1, 0, n + 2, false);
        lemma_cylinder_sizes(slices + 1, 0, n + 2, true);
        lemma_cylinder_sizes(slices as int, bottom as int, n, false);
        lemma_cylinder_sizes(slices as int, top as int, n, true);
        lemma_indices_concat(side_idx, cap_indices(bottom as int, slices as int, false), n);
        lemma_indices_concat(
            side_idx + cap_indices(bottom as int, slices as int, false),
            cap_indices(top as int, slices as int, true),
            n,
        );
        assert(slots@ =~= cylinder_slots(slices as int));
        assert(indices@ =~= cylinder_indices(slices as int));
    }
    MeshTopology { slots, indices }
}

// ── Grid and triangle ──────────────────────────────────────────────────────

/// A grid: one flat quad.
pub fn grid_topology() -> (m: MeshTopology)
    ensures
        m.slots@ == seq![
            VertexSlot::GridCorner { k: 0 },
            VertexSlot::GridCorner { k: 1 },
            VertexSlot::GridCorner { k: 2 },
            VertexSlot::GridCorner { k: 3 },
        ],
        m.indices@ == quad_triangles(0),
        indices_below(m.indices@, m.slots@.len() as int),
{
    let slots = vec![
        VertexSlot::GridCorner { k: 0 },
        VertexSlot::GridCorner { k: 1 },
        VertexSlot::GridCorner { k: 2 },
        VertexSlot::GridCorner { k: 3 },
    ];
    let indices: Vec<u32> = vec![0, 1, 2, 0, 2, 3];
    assert(indices@ =~= quad_triangles(0));
    assert(slots@.len() == 4);
    MeshTopology { slots, indices }
}

/// An inline triangle: its three vertices, one triangle.
pub fn triangle_topology() -> (m: MeshTopology)
    ensures
        m.slots@ == seq![
            VertexSlot::TriangleCorner { k: 0 },
            VertexSlot::TriangleCorner { k: 1 },
            VertexSlot::TriangleCorner { k: 2 },
        ],
        m.indices@ == seq![0u32, 1, 2],
        indices_below(m.indices@, m.slots@.len() as int),
{
    let slots = vec![
        VertexSlot::TriangleCorner { k: 0 },
        VertexSlot::TriangleCorner { k: 1 },
        VertexSlot::TriangleCorner { k: 2 },
    ];
    let indices: Vec<u32> = vec![0, 1, 2];
    assert(slots@.len() == 3);
    MeshTopology { slots, indices }
}

// ── Scene meshes ───────────────────────────────────────────────────────────

/// The mesh that an object is drawn with. Boxes and meshes are boxes, dots
/// are spheres, lines are cylinders, templates draw nothing; the renderer
/// also draws nothing for a degenerate cylinder or an unreadable triangle.
#[derive(Debug, Clone, Copy, PartialEq, Eq, Structural)]
pub enum MeshShape {
    Box,
    Sphere,
    Cylinder,
    Grid,
    Triangle,
    Empty,
}

/// The mesh shape of each scene primitive.
pub open spec fn shape_of_kind(k: PrimitiveKindV) -> MeshShape {
    match k {
        PrimitiveKindV::Box | PrimitiveKindV::Mesh => MeshShape::Box,
        PrimitiveKindV::Sphere | PrimitiveKindV::Dot => MeshShape::Sphere,
        PrimitiveKindV::Cylinder | PrimitiveKindV::Line => MeshShape::Cylinder,
        PrimitiveKindV::Grid => MeshShape::Grid,
        PrimitiveKindV::Template => MeshShape::Empty,
        PrimitiveKindV::Triangle(_) => MeshShape::Triangle,
    }
}

/// Each primitive is drawn with the mesh of its own shape: a box as a cube
/// (24 corners, 36 indices), a mesh primitive as a cube too, a sphere and a
/// dot as spheres, a cylinder and a line as cylinders, a grid as a flat quad
/// (4 corners), a triangle as one triangle, and a template as nothing.
pub proof fn lemma_primitive_shapes(p: Seq<char>)
    ensures
        shape_of_kind(PrimitiveKindV::Box) == MeshShape::Box,
        shape_of_kind(PrimitiveKindV::Mesh) == MeshShape::Box,
        shape_of_kind(PrimitiveKindV::Sphere) == MeshShape::Sphere,
        shape_of_kind(PrimitiveKindV::Dot) == MeshShape::Sphere,
        shape_of_kind(PrimitiveKindV::Cylinder) == MeshShape::Cylinder,
        shape_of_kind(PrimitiveKindV::Line) == MeshShape::Cylinder,
        shape_of_kind(PrimitiveKindV::Grid) == MeshShape::Grid,
        shape_of_kind(PrimitiveKindV::Template) == MeshShape::Empty,
        shape_of_kind(PrimitiveKindV::Triangle(p)) == MeshShape::Triangle,
        shape_slots(shape_of_kind(PrimitiveKindV::Box)).len() == 24,
        shape_indices(shape_of_kind(PrimitiveKindV::Box)).len() == 36,
        shape_slots(shape_of_kind(PrimitiveKindV::Grid)).len() == 4,
        shape_slots(shape_of_kind(PrimitiveKindV::Triangle(p))).len() == 3,
        shape_slots(shape_of_kind(PrimitiveKindV::Template)).len() == 0,
{
    lemma_box_sizes(6);
}

/// The mesh shape of a scene primitive.
pub fn shape_of(kind: &PrimitiveKind) -> (s: MeshShape)
    ensures
        s == shape_of_kind(kind@),
{
    match kind {
        PrimitiveKind::Box | PrimitiveKind::Mesh => MeshShape::Box,
        PrimitiveKind::Sphere | PrimitiveKind::Dot => MeshShape::Sphere,
        PrimitiveKind::Cylinder | PrimitiveKind::Line => MeshShape::Cylinder,
        PrimitiveKind::Grid => MeshShape::Grid,
        PrimitiveKind::Template => MeshShape::Empty,
        PrimitiveKind::Triangle(_) => MeshShape::Triangle,
    }
}

/// The slots of a shape's mesh.
pub open spec fn shape_slots(s: MeshShape) -> Seq<VertexSlot> {
    match s {
        MeshShape::Box => box_slots(6),
        MeshShape::Sphere => sphere_slots(SPHERE_SLICES as int, SPHERE_STACKS + 1),
        MeshShape::Cylinder => cylinder_slots(CYLINDER_SLICES as int),
        MeshShape::Grid => seq![
            VertexSlot::GridCorner { k: 0 },
            VertexSlot::GridCorner { k: 1 },
            VertexSlot::GridCorner { k: 2 },
            VertexSlot::GridCorner { k: 3 },
        ],
        MeshShape::Triangle => seq![
            VertexSlot::TriangleCorner { k: 0 },
            VertexSlot::TriangleCorner { k: 1 },
            VertexSlot::TriangleCorner { k: 2 },
        ],
        MeshShape::Empty => seq![],
    }
}

/// The triangle indices of a shape's mesh.
pub open spec fn shape_indices(s: MeshShape) -> Seq<u32> {
    match s {
        MeshShape::Box => box_indices(6),
        MeshShape::Sphere => sphere_indices(SPHERE_SLICES as int, SPHERE_STACKS as int),
        MeshShape::Cylinder => cylinder_indices(CYLINDER_SLICES as int),
        MeshShape::Grid => quad_triangles(0),
        MeshShape::Triangle => seq![0u32, 1, 2],
        MeshShape::Empty => seq![],
    }
}

/// The mesh of a shape.
pub fn shape_topology(s: MeshShape) -> (m: MeshTopology)
    ensures
        m.slots@ == shape_slots(s),
        m.indices@ == shape_indices(s),
        indices_below(m.indices@, m.slots@.len() as int),
{
    match s {
        MeshShape::Box => box_topology(),
        MeshShape::Sphere => sphere_topology(SPHERE_STACKS, SPHERE_SLICES),
        MeshShape::Cylinder => cylinder_topology(CYLINDER_SLICES),
        MeshShape::Grid => grid_topology(),
        MeshShape::Triangle => triangle_topology(),
        MeshShape::Empty => MeshTopology { slots: Vec::new(), indices: Vec::new() },
    }
}

/// The number of vertices of the meshes of the first `k` shapes.
pub open spec fn vertices_before(shapes: Seq<MeshShape>, k: int) -> int
    decreases k,
{
    if k <= 0 {
        0
    } else {
        vertices_before(shapes, k - 1) + shape_slots(shapes[k - 1]).len()
    }
}

/// The slots of the first `k` meshes, each tagged with its object's index.
pub open spec fn scene_slots(shapes: Seq<MeshShape>, k: int) -> Seq<(usize, VertexSlot)>
    decreases k,
{
    if k <= 0 {
        seq![]
    } else {
        scene_slots(shapes, k - 1) + shape_slots(shapes[k - 1]).map_values(
            |v: VertexSlot| ((k - 1) as usize, v),
        )
    }
}

/// The indices of the first `k` meshes, each mesh's shifted past the
/// vertices of the meshes before it.
pub open spec fn scene_indices(shapes: Seq<MeshShape>, k: int) -> Seq<u32>
    decreases k,
{
    if k <= 0 {
        seq![]
    } else {
        scene_indices(shapes, k - 1) + shape_indices(shapes[k - 1]).map_values(
            |i: u32| (i + vertices_before(shapes, k - 1)) as u32,
        )
    }
}

/// The vertices and triangles of a whole scene.
#[derive(Debug)]
pub struct SceneMesh {
    /// Each vertex, with the index of the object it belongs to.
    pub slots: Vec<(usize, VertexSlot)>,
    pub indices: Vec<u32>,
}

proof fn lemma_vertices_before_monotone(shapes: Seq<MeshShape>, a: int, b: int)
    requires
        0 <= a <= b <= shapes.len(),
    ensures
        vertices_before(shapes, a) <= vertices_before(shapes, b),
    decreases b - a,
{
    if a < b {
        lemma_vertices_before_monotone(shapes, a, b - 1);
    }
}

/// Put the meshes of all objects into one buffer, the indices of each mesh
/// shifted past the vertices of the meshes before it. Every index of the
/// result refers to a vertex of the result.
pub fn scene_topology(shapes: &Vec<MeshShape>) -> (m: SceneMesh)
    requires
        vertices_before(shapes@, shapes@.len() as int) <= u32::MAX,
    ensures
        m.slots@ == scene_slots(shapes@, shapes@.len() as int),
        m.indices@ == scene_indices(shapes@, shapes@.len() as int),
        m.slots@.len() == vertices_before(shapes@, shapes@.len() as int),
        indices_below(m.indices@, m.slots@.len() as int),
{
    let mut slots: Vec<(usize, VertexSlot)> = Vec::new();
    let mut indices: Vec<u32> = Vec::new();
    for k in 0..shapes.len()
        invariant
            vertices_before(shapes@, shapes@.len() as int) <= u32::MAX,
            slots@ == scene_slots(shapes@, k as int),
            indices@ == scene_indices(shapes@, k as int),
            slots@.len() == vertices_before(shapes@, k as int),
            indices_below(indices@, slots@.len() as int),
    {
        let mesh = shape_topology(shapes[k]);
        proof {
            lemma_vertices_before_monotone(shapes@, k + 1, shapes@.len() as int);
        }
        let base = slots.len() as u32;
        let ghost slots_before = slots@;
        let ghost indices_before = indices@;
        for j in 0..mesh.slots.len()
            invariant
                slots@ == slots_before + mesh.slots@.take(j as int).map_values(
                    |v: VertexSlot| (k, v),
                ),
        {
            slots.push((k, mesh.slots[j]));
            assert(mesh.slots@.take(j + 1) =~= mesh.slots@.take(j as int).push(mesh.slots@[j as int]));
            assert(slots@ =~= slots_before + mesh.slots@.take(j + 1).map_values(
                |v: VertexSlot| (k, v),
            ));
        }
        for j in 0..mesh.indices.len()
            invariant
                base as int + mesh.slots@.len() <= u32::MAX,
                indices_below(mesh.indices@, mesh.slots@.len() as int),
                indices@ == indices_before + mesh.indices@.take(j as int).map_values(
                    |i: u32| (i + base) as u32,
                ),
        {
            let i = mesh.indices[j];
            indices.push(i + base);
            assert(mesh.indices@.take(j + 1) =~= mesh.indices@.take(j as int).push(
                mesh.indices@[j as int],
            ));
            assert(indices@ =~= indices_before + mesh.indices@.take(j + 1).map_values(
                |i: u32| (i + base) as u32,
            ));
        }
        assert(mesh.slots@.take(mesh.slots@.len() as int) =~= mesh.slots@);
        assert(mesh.indices@.take(mesh.indices@.len() as int) =~= mesh.indices@);
        assert(slots@ =~= scene_slots(shapes@, k + 1));
        assert(indices@ =~= scene_indices(shapes@, k + 1));
        assert forall|t: int| 0 <= t < indices@.len() implies #[trigger] indices@[t] < slots@.len() by {
            if t < indices_before.len() {
                assert(indices@[t] == indices_before[t]);
            } else {
                let u = t - indices_before.len();
                assert(indices@[t] == (mesh.indices@[u] + base) as u32);
                assert(mesh.indices@[u] < mesh.slots@.len());
            }
        }
    }
    SceneMesh { slots, indices }
}

} // verus!
