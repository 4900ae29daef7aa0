use rustsynth::editor::{autocomplete_suggestion, parse_seed};

#[test]
fn autocomplete_picks_first_completion() {
    assert_eq!(autocomplete_suggestion("sp"), Some("sphere".to_string()));
    assert_eq!(autocomplete_suggestion("S"), Some("sat".to_string()));
    assert_eq!(autocomplete_suggestion("max"), Some("maxdepth".to_string()));
    assert_eq!(autocomplete_suggestion("r"), Some("rotation".to_string()));
    assert_eq!(autocomplete_suggestion("CYL"), Some("cylinder".to_string()));
}

#[test]
fn autocomplete_declines() {
    assert_eq!(autocomplete_suggestion("sphere"), None);
    assert_eq!(autocomplete_suggestion("   "), None);
    assert_eq!(autocomplete_suggestion(""), None);
    assert_eq!(autocomplete_suggestion("qq"), None);
}

#[test]
fn seed_text_is_trimmed_then_parsed() {
    assert_eq!(parse_seed(" 42\t"), Some(42));
    assert_eq!(parse_seed("\u{3000}7\u{a0}"), Some(7));
    assert_eq!(parse_seed("4 2"), None);
    assert_eq!(parse_seed(""), None);
    assert_eq!(parse_seed("   "), None);
    assert_eq!(parse_seed("-3"), None);
}
