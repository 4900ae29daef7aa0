use rustsynth::mesh::{
    box_topology, cylinder_topology, grid_topology, scene_topology, shape_of, shape_topology,
    sphere_topology, triangle_topology, MeshShape, VertexSlot, CYLINDER_SLICES, SPHERE_SLICES,
    SPHERE_STACKS,
};
use rustsynth::scene::PrimitiveKind;

fn all_below(indices: &[u32], n: usize) -> bool {
    indices.iter().all(|&i| (i as usize) < n)
}

#[test]
fn box_generates_24_verts_36_indices() {
    let m = box_topology();
    assert_eq!(m.slots.len(), 24, "box should have 24 vertices (4 per face × 6)");
    assert_eq!(m.indices.len(), 36, "box should have 36 indices (6 per face × 6)");
    assert_eq!(&m.indices[6..12], &[4, 5, 6, 4, 6, 7]);
    assert_eq!(m.slots[4], VertexSlot::BoxCorner { corner: 5, face: 1 });
}

#[test]
fn sphere_generates_nonempty_mesh() {
    let m = shape_topology(shape_of(&PrimitiveKind::Sphere));
    assert!(!m.slots.is_empty(), "sphere should produce vertices");
    assert!(!m.indices.is_empty(), "sphere should produce indices");
    let expected_verts = (SPHERE_STACKS + 1) * (SPHERE_SLICES + 1);
    assert_eq!(m.slots.len(), expected_verts as usize);
    assert_eq!(m.indices.len(), (6 * SPHERE_STACKS * SPHERE_SLICES) as usize);
    assert!(all_below(&m.indices, m.slots.len()));
}

#[test]
fn cylinder_generates_nonempty_mesh() {
    let m = shape_topology(shape_of(&PrimitiveKind::Cylinder));
    assert!(!m.slots.is_empty(), "cylinder should produce vertices");
    assert!(!m.indices.is_empty(), "cylinder should produce indices");
    assert_eq!(m.slots.len(), (4 * CYLINDER_SLICES + 6) as usize);
    assert!(all_below(&m.indices, m.slots.len()));
}

#[test]
fn small_meshes_exactly() {
    let s = sphere_topology(1, 2);
    assert_eq!(s.slots.len(), 6);
    assert_eq!(s.indices, vec![0, 3, 1, 1, 3, 4, 1, 4, 2, 2, 4, 5]);
    let c = cylinder_topology(1);
    assert_eq!(c.slots.len(), 10);
    assert_eq!(c.indices, vec![0, 1, 2, 2, 1, 3, 4, 6, 5, 7, 8, 9]);
    assert_eq!(c.slots[4], VertexSlot::CapCenter { top: false });
    assert_eq!(c.slots[7], VertexSlot::CapCenter { top: true });
    assert_eq!(grid_topology().indices, vec![0, 1, 2, 0, 2, 3]);
    assert_eq!(triangle_topology().indices, vec![0, 1, 2]);
}

#[test]
fn template_produces_no_geometry() {
    assert_eq!(shape_of(&PrimitiveKind::Template), MeshShape::Empty);
    let m = shape_topology(MeshShape::Empty);
    assert!(m.slots.is_empty());
    assert!(m.indices.is_empty());
}

#[test]
fn kinds_map_to_shapes() {
    assert_eq!(shape_of(&PrimitiveKind::Mesh), MeshShape::Box);
    assert_eq!(shape_of(&PrimitiveKind::Dot), MeshShape::Sphere);
    assert_eq!(shape_of(&PrimitiveKind::Line), MeshShape::Cylinder);
    assert_eq!(shape_of(&PrimitiveKind::Triangle("[0 0 0; 1 0 0; 0 1 0]".into())), MeshShape::Triangle);
}

#[test]
fn scene_to_mesh_accumulates_objects() {
    let m = scene_topology(&vec![MeshShape::Box, MeshShape::Box]);
    assert_eq!(m.slots.len(), 48, "2 boxes × 24 vertices");
    assert_eq!(m.indices.len(), 72, "2 boxes × 36 indices");
    assert!(m.indices[36] >= 24, "second box indices should be offset by vertex base");
    assert_eq!(m.slots[24].0, 1);
    assert!(all_below(&m.indices, m.slots.len()));
}

#[test]
fn scene_mesh_skips_empty_objects() {
    let m = scene_topology(&vec![MeshShape::Triangle, MeshShape::Empty, MeshShape::Grid]);
    assert_eq!(m.slots.len(), 7);
    assert_eq!(m.indices, vec![0, 1, 2, 3, 4, 5, 3, 5, 6]);
    assert_eq!(m.slots[3], (2, VertexSlot::GridCorner { k: 0 }));
}
