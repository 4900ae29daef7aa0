use rustsynth::obj::{
    add_dot_to_group, add_line_to_group, add_triangle_to_group, group_objects, ObjExporter,
    ObjGroup, VertexNormal,
};

#[test]
fn default_exporter_options() {
    let e = ObjExporter::default();
    assert_eq!(e.sphere_segments, 16);
    assert!(!e.group_by_tag && !e.group_by_color);
    assert_eq!(e.mtl_file_name, "output.mtl");
}

#[test]
fn group_key_variants() {
    let mut e = ObjExporter::default();
    assert_eq!(e.group_key(&Some("metal".into()), (255, 0, 0)), "default");
    e.group_by_tag = true;
    assert_eq!(e.group_key(&Some("metal".into()), (255, 0, 0)), "metal");
    assert_eq!(e.group_key(&Some(String::new()), (255, 0, 0)), "default");
    e.group_by_color = true;
    assert_eq!(e.group_key(&Some("metal".into()), (255, 0, 0)), "metal#ff0000");
    assert_eq!(e.group_key(&None, (0, 255, 0)), "#00ff00");
}

#[test]
fn line_dot_triangle_faces() {
    let mut g: ObjGroup<[f32; 3]> = ObjGroup::new();
    add_line_to_group(&mut g, [0.0, 0.0, 0.0], [0.0, 0.0, 1.0]);
    add_dot_to_group(&mut g, [1.0, 1.0, 1.0]);
    add_triangle_to_group(&mut g, vec![[0.0; 3], [1.0, 0.0, 0.0], [0.0, 1.0, 0.0]]);
    add_triangle_to_group(&mut g, vec![[0.0; 3]]);
    assert_eq!(g.vertices.len(), 6);
    assert_eq!(g.faces.len(), 3);
    assert_eq!(g.faces[0], vec![VertexNormal { v: 1, n: 0 }, VertexNormal { v: 2, n: 0 }]);
    assert_eq!(g.faces[1], vec![VertexNormal { v: 3, n: 0 }]);
    assert_eq!(
        g.faces[2],
        vec![VertexNormal { v: 4, n: 0 }, VertexNormal { v: 5, n: 0 }, VertexNormal { v: 6, n: 0 }]
    );
}

#[test]
fn grouping_sorts_keys_and_keeps_order() {
    let keys: Vec<String> = vec!["b".into(), "a".into(), "b".into(), "ab".into(), "a".into()];
    let groups = group_objects(&keys);
    let names: Vec<&str> = groups.iter().map(|g| g.0.as_str()).collect();
    assert_eq!(names, vec!["a", "ab", "b"]);
    assert_eq!(groups[0].1, vec![1, 4]);
    assert_eq!(groups[1].1, vec![3]);
    assert_eq!(groups[2].1, vec![0, 2]);
}

#[test]
fn grouping_flags_separate_objects() {
    let mut e = ObjExporter::default();
    assert_eq!(e.group_key(&Some("a".into()), (1, 2, 3)), e.group_key(&Some("b".into()), (4, 5, 6)));
    e.group_by_tag = true;
    assert_ne!(e.group_key(&Some("a".into()), (1, 2, 3)), e.group_key(&Some("b".into()), (1, 2, 3)));
    assert_eq!(e.group_key(&Some("default".into()), (1, 2, 3)), e.group_key(&None, (1, 2, 3)));
    e.group_by_tag = false;
    e.group_by_color = true;
    assert_ne!(e.group_key(&None, (1, 2, 3)), e.group_key(&None, (1, 2, 4)));
    assert_eq!(e.group_key(&Some("a".into()), (1, 2, 3)), e.group_key(&Some("b".into()), (1, 2, 3)));
}
