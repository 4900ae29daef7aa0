use rustsynth::annotation::{annotation_line, annotation_payload, insert_annotation, ANNOTATION_PREFIX};

fn camera_json(yaw: f64) -> String {
    let mut m = serde_json::Map::new();
    m.insert("yaw".to_string(), serde_json::Value::from(yaw));
    m.insert("pitch".to_string(), serde_json::Value::from(20.0));
    m.insert("distance".to_string(), serde_json::Value::from(5.0));
    serde_json::Value::Object(m).to_string()
}

#[test]
fn annotation_round_trips() {
    let json = camera_json(30.0);
    let annotation = annotation_line(&json);
    assert!(annotation.starts_with(ANNOTATION_PREFIX));
    let restored: serde_json::Value =
        serde_json::from_str(annotation.strip_prefix(ANNOTATION_PREFIX).unwrap()).unwrap();
    assert!((restored["yaw"].as_f64().unwrap() - 30.0).abs() < 1e-4);
    assert!((restored["pitch"].as_f64().unwrap() - 20.0).abs() < 1e-4);
    assert!((restored["distance"].as_f64().unwrap() - 5.0).abs() < 1e-4);
}

#[test]
fn extract_from_script_first_line() {
    let script = "set maxdepth 200\nrule r0 { }";
    let json = camera_json(30.0);
    let with_annotation = insert_annotation(script, &annotation_line(&json));
    assert!(with_annotation.starts_with(ANNOTATION_PREFIX));
    let payload = annotation_payload(&with_annotation).unwrap();
    let extracted: serde_json::Value = serde_json::from_str(&payload).unwrap();
    assert!((extracted["yaw"].as_f64().unwrap() - 30.0).abs() < 1e-4);
}

#[test]
fn replace_existing_annotation() {
    let script = "// @rs-camera: {\"yaw\":30.0,\"pitch\":20.0,\"distance\":5.0,\"pivot\":[0.0,0.0,0.0],\"fov_y\":45.0,\"aspect\":1.0,\"near\":0.01,\"far\":1000.0}\nset maxdepth 200";
    let updated = insert_annotation(script, &annotation_line(&camera_json(90.0)));
    let first_line = updated.lines().next().unwrap();
    assert!(first_line.contains("90.0") || first_line.contains("\"yaw\":90"));
    assert!(updated.contains("set maxdepth 200"));
    assert_eq!(updated.lines().count(), 2);
}

#[test]
fn no_annotation_returns_none() {
    let script = "set maxdepth 200\nrule r0 { }";
    assert!(annotation_payload(script).is_none());
}

#[test]
fn annotation_placement_edge_cases() {
    assert_eq!(insert_annotation("", "// @rs-camera: {}"), "// @rs-camera: {}");
    assert_eq!(insert_annotation("box\n", "// @rs-camera: {}"), "// @rs-camera: {}\nbox\n");
    assert_eq!(
        insert_annotation("// @rs-camera: old\r\nbox\r\n", "// @rs-camera: new"),
        "// @rs-camera: new\nbox"
    );
    assert_eq!(annotation_payload("// @rs-camera: {\"a\":1}\r\nbox"), Some("{\"a\":1}".to_string()));
    assert_eq!(annotation_payload("//@rs-camera: {}"), None);
    assert_eq!(annotation_payload(""), None);
}
