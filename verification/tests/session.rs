use rustsynth::eval::{BuildLimits, RecursionMode};
use rustsynth::highlight::{highlight_spans, HighlightClass};
use rustsynth::session::{
    frame_tick, recursion_mode_of, render_size, run_report, settings_updated, Session,
    SessionEvent, ViewportState, DEFAULT_SCRIPT,
};

#[test]
fn run_report_without_warnings() {
    let r = run_report(8000, &vec![]);
    assert_eq!(r.console, "Run OK — 8000 objects\n");
    assert_eq!(r.status, "✓ 8000 objects rendered");
}

#[test]
fn run_report_with_warnings() {
    let r = run_report(3, &vec!["[WARN] line 2: a".to_string(), "[ERROR] line 0: b".to_string()]);
    assert_eq!(r.console, "Run OK — 3 objects\nWarnings:\n[WARN] line 2: a\n[ERROR] line 0: b\n");
    assert_eq!(r.status, "✓ 3 objects rendered  (2 warnings)");
}

#[test]
fn frame_ticks_render_after_resize_or_camera_move() {
    let mut v = ViewportState { width: 600, height: 500, needs_rerender: false, has_texture: false };
    assert!(!frame_tick(&mut v, 800, 0));
    assert_eq!((v.width, v.height), (800, 1));
    assert!(!v.needs_rerender);
    v.has_texture = true;
    assert!(!frame_tick(&mut v, 800, 1));
    assert!(frame_tick(&mut v, 640, 480));
    assert!(!v.needs_rerender);
    v.needs_rerender = true;
    assert!(frame_tick(&mut v, 640, 480));
    assert!(!frame_tick(&mut v, 640, 480));
}

#[test]
fn render_size_has_a_floor() {
    assert_eq!(render_size(10, 1000), (64, 1000));
    assert_eq!(render_size(64, 63), (64, 64));
}

#[test]
fn toolbar_mode_and_settings() {
    assert_eq!(recursion_mode_of(0), RecursionMode::BreadthFirst);
    assert_eq!(recursion_mode_of(1), RecursionMode::DepthFirst);
    let current = BuildLimits { seed: 42, ..BuildLimits::default() };
    let chosen = BuildLimits { seed: 7, max_objects: 10, ..BuildLimits::default() };
    let r = settings_updated(&current, chosen);
    assert_eq!(r.seed, 42);
    assert_eq!(r.max_objects, 10);
}

#[test]
fn default_script_highlights_its_keywords() {
    let spans = highlight_spans(DEFAULT_SCRIPT);
    let keywords = spans.iter().filter(|s| s.class == HighlightClass::Keyword).count();
    // two `set`, three `rule`, one `sphere`, one `box`
    assert_eq!(keywords, 7);
    assert!(spans.iter().all(|s| s.start < s.end && s.end <= DEFAULT_SCRIPT.chars().count()));
}

fn session() -> Session {
    Session {
        source: "#define A 1 (int:1-5)\nbox".to_string(),
        file_path: Some("s.es".to_string()),
        template_path: Some("t.xml".to_string()),
        status: "Ready".to_string(),
        limits: BuildLimits { seed: 42, ..BuildLimits::default() },
        gui_params: vec![],
        viewport: ViewportState { width: 600, height: 500, needs_rerender: false, has_texture: true },
    }
}

#[test]
fn settings_update_keeps_seed_and_model() {
    let mut s = session();
    let chosen = BuildLimits { seed: 0, max_objects: 10, max_generations: 7, ..BuildLimits::default() };
    assert!(s.step(SessionEvent::SettingsUpdated(chosen)).is_none());
    assert_eq!(s.limits.seed, 42);
    assert_eq!(s.limits.max_objects, 10);
    assert_eq!(s.limits.max_generations, 7);
    assert_eq!(s.status, "Settings updated.");
    assert_eq!(s.source, "#define A 1 (int:1-5)\nbox");
    assert_eq!(s.file_path, Some("s.es".to_string()));
}

#[test]
fn session_events_update_the_model() {
    let mut s = session();
    assert!(s.step(SessionEvent::SeedChanged(" 7 ".to_string())).is_none());
    assert_eq!(s.limits.seed, 7);
    s.step(SessionEvent::SeedChanged("x".to_string()));
    assert_eq!(s.limits.seed, 7);
    s.step(SessionEvent::RecursionModeChanged(1));
    assert_eq!(s.limits.mode, RecursionMode::DepthFirst);
    s.step(SessionEvent::CameraMoved);
    assert!(s.viewport.needs_rerender);
    s.step(SessionEvent::ViewportResized(800, 600));
    assert_eq!((s.viewport.width, s.viewport.height), (800, 600));
    s.step(SessionEvent::ClearTemplateFile);
    assert_eq!(s.template_path, None);
    assert_eq!(s.status, "Template cleared — using built-in.");
    let shown = s.step(SessionEvent::GuiParamChanged { name: "A".to_string(), value: "3".to_string() });
    assert_eq!(shown, Some("#define A 3 (int:1-5)\nbox".to_string()));
    assert_eq!(s.source, "#define A 3 (int:1-5)\nbox");
    assert_eq!(s.status, "Variables updated — press ▶ Run (F5) to re-render.");
    s.status = "x".to_string();
    assert!(s.step(SessionEvent::GuiParamChanged { name: "B".to_string(), value: "3".to_string() }).is_none());
    assert_eq!(s.status, "x");
    s.step(SessionEvent::ScriptChanged("box".to_string()));
    assert_eq!(s.source, "box");
    let shown = s.step(SessionEvent::NewFile);
    assert_eq!(shown.as_deref(), Some(DEFAULT_SCRIPT));
    assert_eq!(s.source, DEFAULT_SCRIPT);
    assert_eq!(s.file_path, None);
    assert!(!s.viewport.has_texture);
    assert_eq!(s.status, "New file.");
}

#[test]
fn new_window_model() {
    let s = Session::new(None);
    assert_eq!(s.source, DEFAULT_SCRIPT);
    assert_eq!(s.status, "GPU initialized. Press ▶ Run to render.");
    assert_eq!(s.file_path, None);
    assert_eq!(s.template_path, None);
    assert!(s.gui_params.is_empty());
    assert_eq!(s.limits.max_objects, 100_000);
    assert_eq!(s.limits.max_generations, 1000);
    assert_eq!(s.limits.seed, 0);
    assert_eq!(
        s.viewport,
        ViewportState { width: 600, height: 500, needs_rerender: false, has_texture: false }
    );
    let f = Session::new(Some("no adapter".to_string()));
    assert_eq!(f.status, "GPU init failed: no adapter");
}
