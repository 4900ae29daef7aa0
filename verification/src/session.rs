//! The editor window's decisions that do not touch the toolkit: what a run
//! reports, when the viewport is re-rendered, how the toolbar's controls
//! change the build limits, and how the window's model (script, paths,
//! status line, limits) follows its events.

use vstd::prelude::*;

use crate::ast::opt_view;
use crate::editor::{parse_seed, rewrite_define, rewrite_define_value, trimmed};
use crate::eval::{BuildLimits, RecursionMode};
use crate::preprocessor::GuiParam;
use crate::text::unsigned_value;
use crate::obj_format::{decimal_text, push_decimal};
use crate::text::{join, lemma_join_push};

verus! {

/// The script a new editor window starts with.
pub const DEFAULT_SCRIPT: &'static str = "set background #111
set maxdepth 200

r0

rule r0 {
  3 * { rz 120 } R1
  3 * { rz 120 } R2
}

rule R1 {
  { x 1.3 rx 1.57 rz 6 ry 3 s 0.99 hue 0.4 sat 0.99 } R1
  { s 4 } sphere
}

rule R2 {
  { x -1.3 rz 6 ry 3 s 0.99 hue 0.4 sat 0.99 } R2
  { s 4 } box
}
";

/// What a successful run shows: the console text and the status line.
#[derive(Debug)]
pub struct RunReport {
    pub console: String,
    pub status: String,
}

/// The console text of a run: the object count, then the warnings one per
/// line, if there are any.
pub open spec fn run_console_text(object_count: nat, warnings: Seq<Seq<char>>) -> Seq<char> {
    if warnings.len() == 0 {
        "Run OK — "@ + decimal_text(object_count) + " objects\n"@
    } else {
        "Run OK — "@ + decimal_text(object_count) + " objects\nWarnings:\n"@ + join(
            warnings,
            seq!['\n'],
        ) + "\n"@
    }
}

/// The status line of a run that rendered: the object count, and the number
/// of warnings if there are any.
pub open spec fn run_status_text(object_count: nat, warnings: nat) -> Seq<char> {
    "✓ "@ + decimal_text(object_count) + " objects rendered"@ + if warnings == 0 {
        Seq::<char>::empty()
    } else {
        "  ("@ + decimal_text(warnings) + " warnings)"@
    }
}

/// The console text and status line after a run that produced
/// `object_count` objects and the given warnings.
pub fn run_report(object_count: usize, warnings: &Vec<String>) -> (r: RunReport)
    ensures
        r.console@ == run_console_text(
            object_count as nat,
            warnings@.map_values(|s: String| s@),
        ),
        r.status@ == run_status_text(object_count as nat, warnings@.len()),
{
    let ghost ws = warnings@.map_values(|s: String| s@);
    let mut console = String::from_str("Run OK — ");
    push_decimal(&mut console, object_count);
    let mut status = String::from_str("✓ ");
    push_decimal(&mut status, object_count);
    status.append(" objects rendered");
    if warnings.len() == 0 {
        console.append(" objects\n");
        assert(console@ =~= run_console_text(object_count as nat, ws));
        assert(status@ =~= run_status_text(object_count as nat, 0));
        return RunReport { console, status };
    }
    console.append(" objects\nWarnings:\n");
    let ghost head = console@;
    proof {
        reveal_strlit("\n");
    }
    for i in 0..warnings.len()
        invariant
            ws == warnings@.map_values(|s: String| s@),
            "\n"@ == seq!['\n'],
            console@ == head + join(ws.take(i as int), seq!['\n']),
    {
        if i > 0 {
            console.append("\n");
        }
        console.append(warnings[i].as_str());
        proof {
            assert(ws.take(i + 1) =~= ws.take(i as int).push(ws[i as int]));
            lemma_join_push(ws.take(i as int), ws[i as int], seq!['\n']);
            assert(console@ =~= head + join(ws.take(i + 1), seq!['\n']));
        }
    }
    console.append("\n");
    assert(ws.take(warnings.len() as int) =~= ws);
    assert(console@ =~= run_console_text(object_count as nat, ws));
    status.append("  (");
    push_decimal(&mut status, warnings.len());
    status.append(" warnings)");
    assert(status@ =~= run_status_text(object_count as nat, warnings@.len()));
    RunReport { console, status }
}

// ── The viewport ───────────────────────────────────────────────────────────

/// What the window knows about its viewport between frames.
#[derive(Debug, Clone, Copy, PartialEq, Eq, Structural)]
pub struct ViewportState {
    pub width: u32,
    pub height: u32,
    /// A camera move or a resize asked for a new picture.
    pub needs_rerender: bool,
    /// A scene has been rendered since the last new file.
    pub has_texture: bool,
}

/// A widget size as a viewport size: at least 1.
pub open spec fn clamp_size(v: i32) -> u32 {
    if v < 1 {
        1
    } else {
        v as u32
    }
}

/// The viewport after a frame tick with the widget's current size: a new
/// size is taken over and, once something has been rendered, asks for a new
/// picture; a pending request is then served (and cleared).
pub open spec fn tick_state(v: ViewportState, w: i32, h: i32) -> (ViewportState, bool) {
    let nw = clamp_size(w);
    let nh = clamp_size(h);
    let resized = nw != v.width || nh != v.height;
    let pending = v.needs_rerender || (resized && v.has_texture);
    let render = pending && v.has_texture;
    (ViewportState { width: nw, height: nh, needs_rerender: pending && !render, has_texture: v.has_texture }, render)
}

/// Handle a frame tick: returns whether to render now.
pub fn frame_tick(v: &mut ViewportState, w: i32, h: i32) -> (render: bool)
    ensures
        (*final(v), render) == tick_state(*old(v), w, h),
{
    let nw: u32 = if w < 1 { 1 } else { w as u32 };
    let nh: u32 = if h < 1 { 1 } else { h as u32 };
    if nw != v.width || nh != v.height {
        v.width = nw;
        v.height = nh;
        if v.has_texture {
            v.needs_rerender = true;
        }
    }
    if v.needs_rerender && v.has_texture {
        v.needs_rerender = false;
        true
    } else {
        false
    }
}

/// The size to render at: at least 64 pixels each way.
pub fn render_size(width: u32, height: u32) -> (r: (u32, u32))
    ensures
        r.0 == if width < 64 { 64 } else { width },
        r.1 == if height < 64 { 64 } else { height },
{
    (if width < 64 { 64 } else { width }, if height < 64 { 64 } else { height })
}

// ── Toolbar and settings ───────────────────────────────────────────────────

/// The recursion mode chosen in the toolbar's drop-down: the first entry is
/// breadth-first, any other depth-first.
pub fn recursion_mode_of(index: u32) -> (m: RecursionMode)
    ensures
        m == if index == 0 { RecursionMode::BreadthFirst } else { RecursionMode::DepthFirst },
{
    if index == 0 {
        RecursionMode::BreadthFirst
    } else {
        RecursionMode::DepthFirst
    }
}

/// The limits after the settings dialog: the dialog's values, with the seed
/// kept from the toolbar.
pub fn settings_updated(current: &BuildLimits, chosen: BuildLimits) -> (r: BuildLimits)
    ensures
        r == (BuildLimits { seed: current.seed, ..chosen }),
{
    BuildLimits { seed: current.seed, ..chosen }
}

// ── The window's model ─────────────────────────────────────────────────────

/// What the editor window holds besides its widgets, the renderer and the
/// camera.
#[derive(Debug)]
pub struct Session {
    /// The script text, kept in step with the editor buffer.
    pub source: String,
    /// The file the script was opened from or saved to.
    pub file_path: Option<String>,
    /// The template file for template export (`None`: the built-in one).
    pub template_path: Option<String>,
    /// The status line.
    pub status: String,
    /// The build limits: seed, object cap, generations, mode.
    pub limits: BuildLimits,
    /// The GUI parameters of the last run.
    pub gui_params: Vec<GuiParam>,
    pub viewport: ViewportState,
}

/// The status line of a new window: the renderer is ready, or the message
/// of the error that stopped it.
pub open spec fn initial_status(backend_error: Option<Seq<char>>) -> Seq<char> {
    match backend_error {
        None => "GPU initialized. Press ▶ Run to render."@,
        Some(e) => "GPU init failed: "@ + e,
    }
}

/// A new window's model: the default script, no file and no template, the
/// default build limits, no GUI parameters, and a 600×500 viewport with
/// nothing rendered yet.
pub open spec fn initial_session(backend_error: Option<Seq<char>>) -> SessionV {
    SessionV {
        source: DEFAULT_SCRIPT@,
        file_path: None,
        template_path: None,
        status: initial_status(backend_error),
        limits: BuildLimits {
            max_generations: 1000,
            max_objects: 100_000,
            sync_random: false,
            mode: RecursionMode::BreadthFirst,
            seed: 0,
        },
        gui_params: seq![],
        viewport: ViewportState { width: 600, height: 500, needs_rerender: false, has_texture: false },
    }
}

pub struct SessionV {
    pub source: Seq<char>,
    pub file_path: Option<Seq<char>>,
    pub template_path: Option<Seq<char>>,
    pub status: Seq<char>,
    pub limits: BuildLimits,
    pub gui_params: Seq<GuiParam>,
    pub viewport: ViewportState,
}

impl View for Session {
    type V = SessionV;

    open spec fn view(&self) -> SessionV {
        SessionV {
            source: self.source@,
            file_path: opt_view(self.file_path),
            template_path: opt_view(self.template_path),
            status: self.status@,
            limits: self.limits,
            gui_params: self.gui_params@,
            viewport: self.viewport,
        }
    }
}

impl Session {
    /// The model of a new window; `backend_error` is the message of the
    /// renderer's start-up error, if it failed.
    pub fn new(backend_error: Option<String>) -> (s: Session)
        ensures
            s@ == initial_session(opt_view(backend_error)),
    {
        let status = match backend_error {
            None => String::from_str("GPU initialized. Press ▶ Run to render."),
            Some(e) => {
                let mut m = String::from_str("GPU init failed: ");
                m.append(e.as_str());
                m
            },
        };
        let s = Session {
            source: String::from_str(DEFAULT_SCRIPT),
            file_path: None,
            template_path: None,
            status,
            limits: BuildLimits::default(),
            gui_params: Vec::new(),
            viewport: ViewportState { width: 600, height: 500, needs_rerender: false, has_texture: false },
        };
        assert(s@.gui_params =~= Seq::<GuiParam>::empty());
        s
    }
}

/// The window's events that change only its model.
#[derive(Debug)]
pub enum SessionEvent {
    /// The editor buffer now holds this text.
    ScriptChanged(String),
    /// File ▸ New.
    NewFile,
    /// The settings dialog was closed with these limits.
    SettingsUpdated(BuildLimits),
    /// The seed field was confirmed with this text.
    SeedChanged(String),
    /// The recursion drop-down now has this entry selected.
    RecursionModeChanged(u32),
    /// The camera was orbited, panned, zoomed or reset.
    CameraMoved,
    /// File ▸ Clear Template File.
    ClearTemplateFile,
    /// A variable slider now shows `value` for the define `name`.
    GuiParamChanged { name: String, value: String },
    /// The viewport widget now has this size.
    ViewportResized(u32, u32),
}

pub enum SessionEventV {
    ScriptChanged(Seq<char>),
    NewFile,
    SettingsUpdated(BuildLimits),
    SeedChanged(Seq<char>),
    RecursionModeChanged(u32),
    CameraMoved,
    ClearTemplateFile,
    GuiParamChanged { name: Seq<char>, value: Seq<char> },
    ViewportResized(u32, u32),
}

impl View for SessionEvent {
    type V = SessionEventV;

    open spec fn view(&self) -> SessionEventV {
        match self {
            SessionEvent::ScriptChanged(t) => SessionEventV::ScriptChanged(t@),
            SessionEvent::NewFile => SessionEventV::NewFile,
            SessionEvent::SettingsUpdated(l) => SessionEventV::SettingsUpdated(*l),
            SessionEvent::SeedChanged(t) => SessionEventV::SeedChanged(t@),
            SessionEvent::RecursionModeChanged(i) => SessionEventV::RecursionModeChanged(*i),
            SessionEvent::CameraMoved => SessionEventV::CameraMoved,
            SessionEvent::ClearTemplateFile => SessionEventV::ClearTemplateFile,
            SessionEvent::GuiParamChanged { name, value } => SessionEventV::GuiParamChanged {
                name: name@,
                value: value@,
            },
            SessionEvent::ViewportResized(w, h) => SessionEventV::ViewportResized(*w, *h),
        }
    }
}

/// The model after an event, and the text the editor buffer is to show when
/// the event replaces it.
pub open spec fn session_step(s: SessionV, e: SessionEventV) -> (SessionV, Option<Seq<char>>) {
    match e {
        SessionEventV::ScriptChanged(t) => (SessionV { source: t, ..s }, None),
        SessionEventV::NewFile => (
            SessionV {
                source: DEFAULT_SCRIPT@,
                file_path: None,
                status: "New file."@,
                viewport: ViewportState { has_texture: false, ..s.viewport },
                ..s
            },
            Some(DEFAULT_SCRIPT@),
        ),
        SessionEventV::SettingsUpdated(l) => (
            SessionV {
                limits: BuildLimits { seed: s.limits.seed, ..l },
                status: "Settings updated."@,
                ..s
            },
            None,
        ),
        SessionEventV::SeedChanged(t) => match unsigned_value(trimmed(t), u64::MAX as int) {
            Some(v) => (SessionV { limits: BuildLimits { seed: v as u64, ..s.limits }, ..s }, None),
            None => (s, None),
        },
        SessionEventV::RecursionModeChanged(i) => (
            SessionV {
                limits: BuildLimits {
                    mode: if i == 0 {
                        RecursionMode::BreadthFirst
                    } else {
                        RecursionMode::DepthFirst
                    },
                    ..s.limits
                },
                ..s
            },
            None,
        ),
        SessionEventV::CameraMoved => (
            SessionV { viewport: ViewportState { needs_rerender: true, ..s.viewport }, ..s },
            None,
        ),
        SessionEventV::ClearTemplateFile => (
            SessionV { template_path: None, status: "Template cleared — using built-in."@, ..s },
            None,
        ),
        SessionEventV::GuiParamChanged { name, value } => {
            let ns = rewrite_define(s.source, name, value);
            if ns != s.source {
                (
                    SessionV {
                        source: ns,
                        status: "Variables updated — press ▶ Run (F5) to re-render."@,
                        ..s
                    },
                    Some(ns),
                )
            } else {
                (s, None)
            }
        },
        SessionEventV::ViewportResized(w, h) => (
            SessionV { viewport: ViewportState { width: w, height: h, ..s.viewport }, ..s },
            None,
        ),
    }
}

/// What each event may change. The script changes only on an edit (to the
/// new text), a new file (to the default script) or a GUI parameter (its
/// `#define` rewritten); the editor buffer is replaced only in the last two
/// cases. The seed changes only when the seed field holds a number; the
/// settings dialog changes every limit but the seed; the recursion toggle
/// changes only the mode (index 0 is breadth-first). Camera moves and resizes
/// touch only the viewport, and the paths change only on a new file (the
/// script's) or when the template is cleared.
pub proof fn lemma_session_step_frame(s: SessionV, e: SessionEventV)
    ensures
        ({
            let (t, buffer) = session_step(s, e);
            &&& !(e is ScriptChanged || e is NewFile || e is GuiParamChanged) ==> t.source == s.source
            &&& e matches SessionEventV::ScriptChanged(x) ==> t.source == x && buffer is None
            &&& e is NewFile ==> t.source == DEFAULT_SCRIPT@ && buffer == Some(DEFAULT_SCRIPT@)
                && t.file_path is None
            &&& !(e is NewFile || e is GuiParamChanged) ==> buffer is None
            &&& !(e is SettingsUpdated || e is SeedChanged || e is RecursionModeChanged) ==> t.limits
                == s.limits
            &&& t.limits.seed != s.limits.seed ==> e is SeedChanged
            &&& e matches SessionEventV::SettingsUpdated(l) ==> t.limits == BuildLimits {
                seed: s.limits.seed,
                ..l
            }
            &&& e matches SessionEventV::SeedChanged(x) ==> (match unsigned_value(
                trimmed(x),
                u64::MAX as int,
            ) {
                Some(v) => t.limits.seed == v as u64 && t.limits.max_objects == s.limits.max_objects
                    && t.limits.max_generations == s.limits.max_generations && t.limits.mode
                    == s.limits.mode && t.limits.sync_random == s.limits.sync_random,
                None => t == s,
            })
            &&& e matches SessionEventV::RecursionModeChanged(i) ==> t.limits.mode == (if i == 0 {
                RecursionMode::BreadthFirst
            } else {
                RecursionMode::DepthFirst
            }) && t.limits.seed == s.limits.seed && t.limits.max_objects == s.limits.max_objects
            &&& (e is CameraMoved || e matches SessionEventV::ViewportResized(_, _)) ==> t.source
                == s.source && t.status == s.status && t.limits == s.limits
            &&& e is CameraMoved ==> t.viewport.needs_rerender && t.viewport.width == s.viewport.width
                && t.viewport.height == s.viewport.height
            &&& e matches SessionEventV::ViewportResized(w, h) ==> t.viewport.width == w
                && t.viewport.height == h
            &&& !(e is NewFile) ==> t.file_path == s.file_path
            &&& !(e is ClearTemplateFile) ==> t.template_path == s.template_path
            &&& e is ClearTemplateFile ==> t.template_path is None
        }),
{
}

impl Session {
    /// Apply an event to the model. Returns the text the editor buffer is to
    /// show, when the event replaces it.
    pub fn step(&mut self, e: SessionEvent) -> (buffer: Option<String>)
        ensures
            final(self)@ == session_step(old(self)@, e@).0,
            match buffer {
                Some(b) => session_step(old(self)@, e@).1 == Some(b@),
                None => session_step(old(self)@, e@).1 is None,
            },
    {
        match e {
            SessionEvent::ScriptChanged(t) => {
                self.source = t;
                None
            },
            SessionEvent::NewFile => {
                self.source = String::from_str(DEFAULT_SCRIPT);
                self.file_path = None;
                self.status = String::from_str("New file.");
                self.viewport.has_texture = false;
                Some(String::from_str(DEFAULT_SCRIPT))
            },
            SessionEvent::SettingsUpdated(l) => {
                self.limits = settings_updated(&self.limits, l);
                self.status = String::from_str("Settings updated.");
                None
            },
            SessionEvent::SeedChanged(t) => {
                if let Some(v) = parse_seed(t.as_str()) {
                    self.limits.seed = v;
                }
                None
            },
            SessionEvent::RecursionModeChanged(i) => {
                self.limits.mode = recursion_mode_of(i);
                None
            },
            SessionEvent::CameraMoved => {
                self.viewport.needs_rerender = true;
                None
            },
            SessionEvent::ClearTemplateFile => {
                self.template_path = None;
                self.status = String::from_str("Template cleared — using built-in.");
                None
            },
            SessionEvent::GuiParamChanged { name, value } => {
                let ns = rewrite_define_value(self.source.as_str(), name.as_str(), value.as_str());
                if ns != self.source {
                    self.source = ns.clone();
                    self.status = String::from_str("Variables updated — press ▶ Run (F5) to re-render.");
                    Some(ns)
                } else {
                    None
                }
            },
            SessionEvent::ViewportResized(w, h) => {
                self.viewport.width = w;
                self.viewport.height = h;
                None
            },
        }
    }
}

} // verus!
