use rustsynth::obj::{ObjGroup, VertexNormal};
use rustsynth::obj_format::{push_decimal, serialize_mtl, serialize_obj, MaterialText};

#[test]
fn decimal_formatting() {
    for n in [0usize, 7, 10, 99, 1234567890, usize::MAX] {
        let mut s = String::from("x");
        push_decimal(&mut s, n);
        assert_eq!(s, format!("x{}", n));
    }
}

fn group(vertices: &[&str], normals: &[&str], faces: Vec<Vec<VertexNormal>>) -> ObjGroup<String> {
    ObjGroup {
        vertices: vertices.iter().map(|s| s.to_string()).collect(),
        normals: normals.iter().map(|s| s.to_string()).collect(),
        faces,
    }
}

#[test]
fn obj_text_offsets_indices_per_group() {
    let a = group(
        &["0 0 0", "0 0 1"],
        &[],
        vec![vec![VertexNormal { v: 1, n: 0 }, VertexNormal { v: 2, n: 0 }]],
    );
    let b = group(
        &["1 1 1", "2 2 2", "3 3 3"],
        &["0 0 1"],
        vec![
            vec![VertexNormal { v: 1, n: 0 }],
            vec![
                VertexNormal { v: 1, n: 1 },
                VertexNormal { v: 2, n: 1 },
                VertexNormal { v: 3, n: 1 },
            ],
        ],
    );
    let text = serialize_obj("scene.mtl", &vec![("a".to_string(), a), ("b".to_string(), b)]);
    let expected = "# RustSynth OBJ export\nmtllib scene.mtl\n\n\
g a\nusemtl a\nv 0 0 0\nv 0 0 1\nl 1 2\n\n\
g b\nusemtl b\nv 1 1 1\nv 2 2 2\nv 3 3 3\nvn 0 0 1\np 3\nf 3//1 4//1 5//1\n\n";
    assert_eq!(text, expected);
}

#[test]
fn obj_text_without_groups_is_the_header() {
    let text = serialize_obj("output.mtl", &vec![]);
    assert_eq!(text, "# RustSynth OBJ export\nmtllib output.mtl\n\n");
}

#[test]
fn mtl_has_material_for_each_group_text() {
    let text = serialize_mtl(&vec![
        MaterialText { name: "default".into(), diffuse: "1 0 0".into(), dissolve: None },
        MaterialText { name: "glass".into(), diffuse: "0 0 1".into(), dissolve: Some("0.5".into()) },
    ]);
    assert!(text.contains("newmtl default"));
    assert!(text.contains("Kd 1 0 0"));
    assert_eq!(
        text,
        "# RustSynth MTL export\nnewmtl default\nKd 1 0 0\n\nnewmtl glass\nKd 0 0 1\nd 0.5\n\n"
    );
}
