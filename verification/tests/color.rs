use rustsynth::color::{parse_hex_rgb, rgb_hex};

#[test]
fn hex_parse_6() {
    let c = parse_hex_rgb("#ff0000").unwrap();
    let (r, g, b) = (c.0 as f32 / 255.0, c.1 as f32 / 255.0, c.2 as f32 / 255.0);
    assert!((r - 1.0).abs() < 1e-4);
    assert!(g < 1e-4);
    assert!(b < 1e-4);
}

#[test]
fn hex_parse_3() {
    let c = parse_hex_rgb("#fff").unwrap();
    assert!((c.0 as f32 / 255.0 - 1.0).abs() < 1e-4);
}

#[test]
fn hex_parse_edge_cases() {
    assert_eq!(parse_hex_rgb("12ab3C"), Some((0x12, 0xab, 0x3c)));
    assert_eq!(parse_hex_rgb("#a1b"), Some((0xaa, 0x11, 0xbb)));
    assert_eq!(parse_hex_rgb("#+f0000"), Some((15, 0, 0)));
    assert_eq!(parse_hex_rgb("#ff00"), None);
    assert_eq!(parse_hex_rgb("#gg0000"), None);
    assert_eq!(parse_hex_rgb("##fff"), None);
    assert_eq!(parse_hex_rgb("#é1234"), None);
}

#[test]
fn hex_round_trip() {
    for &(r, g, b) in &[(0u8, 0u8, 0u8), (255, 128, 7), (18, 52, 86)] {
        let s = rgb_hex(r, g, b);
        assert_eq!(parse_hex_rgb(&s), Some((r, g, b)));
    }
    assert_eq!(rgb_hex(255, 0, 10), "#ff000a");
}
