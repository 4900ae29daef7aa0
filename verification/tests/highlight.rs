use rustsynth::highlight::{char_offset, highlight_spans, HighlightClass, HighlightSpan};

#[test]
fn keywords_and_comments_are_found() {
    let spans = highlight_spans("set maxdepth 2 // deep\nrule r { box }");
    let kw = |s, e| HighlightSpan { class: HighlightClass::Keyword, start: s, end: e };
    assert_eq!(
        spans,
        vec![
            kw(0, 3),
            kw(23, 27),
            kw(32, 35),
            HighlightSpan { class: HighlightClass::Comment, start: 15, end: 22 },
        ]
    );
}

#[test]
fn number_pattern_is_refused_by_the_regex_crate() {
    let spans = highlight_spans("x 1.5 y -2");
    assert!(spans.iter().all(|s| s.class != HighlightClass::Number));
}

#[test]
fn offsets_count_characters_not_bytes() {
    let spans = highlight_spans("é box");
    assert_eq!(spans, vec![HighlightSpan { class: HighlightClass::Keyword, start: 2, end: 5 }]);
    let cs: Vec<char> = "aé€𝄞b".chars().collect();
    assert_eq!(char_offset(&cs, 0), 0);
    assert_eq!(char_offset(&cs, 1), 1);
    assert_eq!(char_offset(&cs, 3), 2);
    assert_eq!(char_offset(&cs, 6), 3);
    assert_eq!(char_offset(&cs, 10), 4);
    assert_eq!(char_offset(&cs, 11), 5);
    assert_eq!(char_offset(&cs, 100), 5);
}
