use rustsynth::editor::rewrite_define_value;

#[test]
fn rewrite_plain_define() {
    let src = "#define BRANCHANGLE 4\nset maxdepth 200";
    let result = rewrite_define_value(src, "BRANCHANGLE", "7.5");
    assert_eq!(result, "#define BRANCHANGLE 7.5\nset maxdepth 200");
}

#[test]
fn rewrite_gui_define_preserves_metadata() {
    let src = "#define BRANCHANGLE 4 (float:1.0-15.0)\nset maxdepth 200";
    let result = rewrite_define_value(src, "BRANCHANGLE", "9");
    assert_eq!(result, "#define BRANCHANGLE 9 (float:1.0-15.0)\nset maxdepth 200");
}

#[test]
fn rewrite_define_noop_when_name_absent() {
    let src = "#define OTHER 4\nset maxdepth 200";
    let result = rewrite_define_value(src, "BRANCHANGLE", "9");
    assert_eq!(result, src);
}

#[test]
fn rewrite_int_define_preserves_metadata() {
    let src = "#define MAXREC 9 (int:1-20)\nsome rule {}";
    let result = rewrite_define_value(src, "MAXREC", "15");
    assert_eq!(result, "#define MAXREC 15 (int:1-20)\nsome rule {}");
}

#[test]
fn rewrite_keeps_line_endings() {
    let src = "a\r\n#define X 1\r\n";
    assert_eq!(rewrite_define_value(src, "X", "2"), "a\r\n#define X 2\r\n");
    assert_eq!(rewrite_define_value("#define X 1\n\n", "X", "2"), "#define X 2\n\n");
    assert_eq!(rewrite_define_value("#define X 1\r", "X", "2"), "#define X 2");
}

#[test]
fn rewrite_without_match_is_byte_for_byte() {
    for src in ["a\n", "a\r\nb\r\n", "\n\n", "x\r", "#define XY 1\r\n"] {
        assert_eq!(rewrite_define_value(src, "X", "2"), src);
    }
}

#[test]
fn rewrite_empty_source_is_empty() {
    assert_eq!(rewrite_define_value("", "X", "2"), "");
}

#[test]
fn rewrite_prefix_must_include_trailing_space() {
    let src = "#define XY 1\n#define X";
    assert_eq!(rewrite_define_value(src, "X", "2"), src);
}

#[test]
fn rewriting_twice_keeps_the_slider_range() {
    let src = "#define ANGLE 4 (float:1.0-15.0)\nANGLE";
    let once = rewrite_define_value(src, "ANGLE", "9");
    let twice = rewrite_define_value(&once, "ANGLE", "12.5");
    assert_eq!(twice, "#define ANGLE 12.5 (float:1.0-15.0)\nANGLE");
}
