use rustsynth::mesh::triangle_topology;
use rustsynth::payload::{bracket_words, triangle_parts};

fn text(parts: &[Vec<Vec<char>>]) -> Vec<Vec<String>> {
    parts.iter().map(|p| p.iter().map(|w| w.iter().collect()).collect()).collect()
}

#[test]
fn triangle_parses_valid_payload() {
    let parts = text(&triangle_parts("[0 0 0; 1 0 0; 0 1 0]"));
    assert_eq!(parts.len(), 3);
    assert!(parts.iter().all(|p| p.len() == 3));
    assert_eq!(parts[1], vec!["1", "0", "0"]);
    let m = triangle_topology();
    assert_eq!(m.slots.len(), 3);
    assert_eq!(m.indices.len(), 3);
}

#[test]
fn payload_edges() {
    assert_eq!(
        text(&triangle_parts("  [[1 2 3;4\t5 6;7 8 9]] \n")),
        vec![vec!["1", "2", "3"], vec!["4", "5", "6"], vec!["7", "8", "9"]]
    );
    assert_eq!(text(&triangle_parts("")), vec![Vec::<String>::new()]);
    assert_eq!(
        text(&triangle_parts("a;;  b c ")),
        vec![vec!["a".to_string()], vec![], vec!["b".to_string(), "c".to_string()]]
    );
    assert_eq!(text(&triangle_parts("[]")), vec![Vec::<String>::new()]);
}

#[test]
fn bracketed_camera_values() {
    let w = |s: &str| bracket_words(s).map(|ws| ws.iter().map(|x| x.iter().collect::<String>()).collect::<Vec<_>>());
    assert_eq!(w(" [0 0 -20] "), Some(vec!["0".to_string(), "0".to_string(), "-20".to_string()]));
    assert_eq!(w("[]"), Some(vec![]));
    assert_eq!(w("["), None);
    assert_eq!(w("0 0 1"), None);
    assert_eq!(w("[[1 2]]"), Some(vec!["[1".to_string(), "2]".to_string()]));
}
