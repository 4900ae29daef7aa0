//! The integer side of evaluation: how top-level `set` commands configure a
//! build, the per-rule recursion budget, the seeding of queued branches, and
//! which scene primitive a resolved primitive rule emits.

use vstd::prelude::*;

use crate::ast::{copy_opt_string, opt_view, RuleDefV};
use crate::color::{hex_rgb, parse_hex_rgb};
use crate::primitive::str_eq;
use crate::rng::{xorshift_step, Rng};
use crate::rule_graph::{
    lookup, names_distinct, AmbiguousRuleNode, AmbiguousRuleNodeV, CustomRuleNode, RuleGraph,
    RuleNode, RuleNodeV,
};
use crate::scene::{PrimitiveKind, PrimitiveKindV};
use crate::text::{eq_ignore_ascii_case, parse_unsigned, str_eq_ignore_ascii_case, unsigned_value};

verus! {

/// The recursion traversal strategy.
#[derive(Debug, Clone, Copy, PartialEq, Eq, Structural)]
pub enum RecursionMode {
    BreadthFirst,
    DepthFirst,
}

impl Default for RecursionMode {
    fn default() -> (r: Self)
        ensures
            r == RecursionMode::BreadthFirst,
    {
        RecursionMode::BreadthFirst
    }
}

// ── Set commands ───────────────────────────────────────────────────────────

/// What a top-level `set key value` command does to a build. Settings whose
/// value is a floating-point number or vector carry the value's text.
#[derive(Debug)]
pub enum Setting {
    /// `set maxdepth n`: the number of breadth-first generations.
    MaxGenerations(u32),
    /// `set maxobjects n`.
    MaxObjects(usize),
    /// `set minsize f`, with the number's text.
    MinSize(String),
    /// `set maxsize f`, with the number's text.
    MaxSize(String),
    /// `set seed n`: restart the generator from `n`.
    Seed(u64),
    /// `set syncrandom b`.
    SyncRandom(bool),
    /// `set recursion depth`.
    DepthFirst,
    /// `set background #rrggbb` (or `#rgb`), as 8-bit channels.
    Background(u8, u8, u8),
    /// `set translation [x y z]`: the camera exists from here on; the text is
    /// its translation if it holds three numbers.
    CameraTranslation(String),
    /// `set rotation [m00 … m22]`.
    CameraRotation(String),
    /// `set pivot [x y z]`.
    CameraPivot(String),
    /// `set scale f`.
    CameraScale(String),
    /// Any other key: kept as a raw setting for renderers and templates.
    Passthrough(String, String),
    /// A recognised key whose value has no effect (`seed initial`, a number
    /// that does not parse, a color that is not a hex color, …).
    Ignored,
}

pub enum SettingV {
    MaxGenerations(u32),
    MaxObjects(usize),
    MinSize(Seq<char>),
    MaxSize(Seq<char>),
    Seed(u64),
    SyncRandom(bool),
    DepthFirst,
    Background(u8, u8, u8),
    CameraTranslation(Seq<char>),
    CameraRotation(Seq<char>),
    CameraPivot(Seq<char>),
    CameraScale(Seq<char>),
    Passthrough(Seq<char>, Seq<char>),
    Ignored,
}

impl View for Setting {
    type V = SettingV;

    open spec fn view(&self) -> SettingV {
        match self {
            Setting::MaxGenerations(n) => SettingV::MaxGenerations(*n),
            Setting::MaxObjects(n) => SettingV::MaxObjects(*n),
            Setting::MinSize(t) => SettingV::MinSize(t@),
            Setting::MaxSize(t) => SettingV::MaxSize(t@),
            Setting::Seed(n) => SettingV::Seed(*n),
            Setting::SyncRandom(b) => SettingV::SyncRandom(*b),
            Setting::DepthFirst => SettingV::DepthFirst,
            Setting::Background(r, g, b) => SettingV::Background(*r, *g, *b),
            Setting::CameraTranslation(t) => SettingV::CameraTranslation(t@),
            Setting::CameraRotation(t) => SettingV::CameraRotation(t@),
            Setting::CameraPivot(t) => SettingV::CameraPivot(t@),
            Setting::CameraScale(t) => SettingV::CameraScale(t@),
            Setting::Passthrough(k, v) => SettingV::Passthrough(k@, v@),
            Setting::Ignored => SettingV::Ignored,
        }
    }
}

/// The meaning of `set key value`.
pub open spec fn setting_of(key: Seq<char>, value: Seq<char>) -> SettingV {
    if key == "maxdepth"@ {
        match unsigned_value(value, u32::MAX as int) {
            Some(n) => SettingV::MaxGenerations(n as u32),
            None => SettingV::Ignored,
        }
    } else if key == "maxobjects"@ {
        match unsigned_value(value, usize::MAX as int) {
            Some(n) => SettingV::MaxObjects(n as usize),
            None => SettingV::Ignored,
        }
    } else if key == "minsize"@ {
        SettingV::MinSize(value)
    } else if key == "maxsize"@ {
        SettingV::MaxSize(value)
    } else if key == "seed"@ {
        if eq_ignore_ascii_case(value, "initial"@) {
            SettingV::Ignored
        } else {
            match unsigned_value(value, u64::MAX as int) {
                Some(n) => SettingV::Seed(n as u64),
                None => SettingV::Ignored,
            }
        }
    } else if key == "syncrandom"@ {
        SettingV::SyncRandom(eq_ignore_ascii_case(value, "true"@))
    } else if key == "recursion"@ {
        if eq_ignore_ascii_case(value, "depth"@) {
            SettingV::DepthFirst
        } else {
            SettingV::Ignored
        }
    } else if key == "background"@ {
        match hex_rgb(value) {
            Some((r, g, b)) => SettingV::Background(r, g, b),
            None => SettingV::Ignored,
        }
    } else if key == "translation"@ {
        SettingV::CameraTranslation(value)
    } else if key == "rotation"@ {
        SettingV::CameraRotation(value)
    } else if key == "pivot"@ {
        SettingV::CameraPivot(value)
    } else if key == "scale"@ {
        SettingV::CameraScale(value)
    } else {
        SettingV::Passthrough(key, value)
    }
}

/// Each `set` key sets what it names: `minsize` and `maxsize` carry their
/// value text to the minimum and maximum object size, the camera keys carry
/// theirs to the camera part of the same name, `maxdepth` and `maxobjects`
/// set the generation and object caps to the number they read, `seed` seeds
/// the generator unless it says `initial`, `syncrandom` is on exactly for
/// `true`, `recursion depth` selects depth-first expansion and `background`
/// sets the colour its hex text reads.
pub proof fn lemma_setting_keys(v: Seq<char>)
    ensures
        setting_of("minsize"@, v) == SettingV::MinSize(v),
        setting_of("maxsize"@, v) == SettingV::MaxSize(v),
        setting_of("translation"@, v) == SettingV::CameraTranslation(v),
        setting_of("rotation"@, v) == SettingV::CameraRotation(v),
        setting_of("pivot"@, v) == SettingV::CameraPivot(v),
        setting_of("scale"@, v) == SettingV::CameraScale(v),
        setting_of("syncrandom"@, v) == SettingV::SyncRandom(eq_ignore_ascii_case(v, "true"@)),
        forall|n: u32|
            unsigned_value(v, u32::MAX as int) == Some(n as int) ==> setting_of("maxdepth"@, v)
                == SettingV::MaxGenerations(n),
        unsigned_value(v, u32::MAX as int) is None ==> setting_of("maxdepth"@, v)
            == SettingV::Ignored,
        forall|n: usize|
            unsigned_value(v, usize::MAX as int) == Some(n as int) ==> setting_of("maxobjects"@, v)
                == SettingV::MaxObjects(n),
        eq_ignore_ascii_case(v, "initial"@) ==> setting_of("seed"@, v) == SettingV::Ignored,
        forall|n: u64|
            !eq_ignore_ascii_case(v, "initial"@) && unsigned_value(v, u64::MAX as int) == Some(
                n as int,
            ) ==> setting_of("seed"@, v) == SettingV::Seed(n),
        eq_ignore_ascii_case(v, "depth"@) ==> setting_of("recursion"@, v) == SettingV::DepthFirst,
        !eq_ignore_ascii_case(v, "depth"@) ==> setting_of("recursion"@, v) == SettingV::Ignored,
        forall|r: u8, g: u8, b: u8|
            hex_rgb(v) == Some((r, g, b)) ==> setting_of("background"@, v) == SettingV::Background(
                r,
                g,
                b,
            ),
{
    reveal_strlit("maxdepth");
    reveal_strlit("maxobjects");
    reveal_strlit("minsize");
    reveal_strlit("maxsize");
    reveal_strlit("seed");
    reveal_strlit("syncrandom");
    reveal_strlit("recursion");
    reveal_strlit("background");
    reveal_strlit("translation");
    reveal_strlit("rotation");
    reveal_strlit("pivot");
    reveal_strlit("scale");
    assert("maxdepth"@.len() == 8);
    assert("maxobjects"@.len() == 10);
    assert("minsize"@.len() == 7);
    assert("maxsize"@.len() == 7);
    assert("seed"@.len() == 4);
    assert("syncrandom"@.len() == 10);
    assert("recursion"@.len() == 9);
    assert("background"@.len() == 10);
    assert("translation"@.len() == 11);
    assert("rotation"@.len() == 8);
    assert("pivot"@.len() == 5);
    assert("scale"@.len() == 5);
    assert("maxdepth"@[0] != "rotation"@[0]);
    assert("maxobjects"@[0] != "syncrandom"@[0]);
    assert("maxobjects"@[0] != "background"@[0]);
    assert("minsize"@[1] != "maxsize"@[1]);
    assert("syncrandom"@[0] != "background"@[0]);
    assert("pivot"@[0] != "scale"@[0]);
}

/// Each built-in primitive rule emits the scene primitive of the same name;
/// a triangle carries its inline vertices.
pub proof fn lemma_primitive_names(t: Option<Seq<char>>, p: Seq<char>)
    ensures
        kind_of("box"@, t) == Some(PrimitiveKindV::Box),
        kind_of("sphere"@, t) == Some(PrimitiveKindV::Sphere),
        kind_of("cylinder"@, t) == Some(PrimitiveKindV::Cylinder),
        kind_of("mesh"@, t) == Some(PrimitiveKindV::Mesh),
        kind_of("line"@, t) == Some(PrimitiveKindV::Line),
        kind_of("dot"@, t) == Some(PrimitiveKindV::Dot),
        kind_of("grid"@, t) == Some(PrimitiveKindV::Grid),
        kind_of("template"@, t) == Some(PrimitiveKindV::Template),
        kind_of("triangle"@, Some(p)) == Some(PrimitiveKindV::Triangle(p)),
{
    reveal_strlit("box");
    reveal_strlit("sphere");
    reveal_strlit("cylinder");
    reveal_strlit("mesh");
    reveal_strlit("line");
    reveal_strlit("dot");
    reveal_strlit("grid");
    reveal_strlit("template");
    reveal_strlit("triangle");
    assert("box"@.len() == 3);
    assert("sphere"@.len() == 6);
    assert("cylinder"@.len() == 8);
    assert("mesh"@.len() == 4);
    assert("line"@.len() == 4);
    assert("dot"@.len() == 3);
    assert("grid"@.len() == 4);
    assert("template"@.len() == 8);
    assert("triangle"@.len() == 8);
    assert("box"@[0] != "dot"@[0]);
    assert("cylinder"@[0] != "template"@[0]);
    assert("cylinder"@[0] != "triangle"@[0]);
    assert("mesh"@[0] != "line"@[0]);
    assert("mesh"@[0] != "grid"@[0]);
    assert("line"@[0] != "grid"@[0]);
    assert("template"@[1] != "triangle"@[1]);
}

/// Interpret a top-level `set key value` command.
pub fn interpret_setting(key: &str, value: &str) -> (s: Setting)
    ensures
        s@ == setting_of(key@, value@),
{
    if str_eq(key, "maxdepth") {
        match parse_unsigned(value, u32::MAX as u64) {
            Some(n) => Setting::MaxGenerations(n as u32),
            None => Setting::Ignored,
        }
    } else if str_eq(key, "maxobjects") {
        match parse_unsigned(value, usize::MAX as u64) {
            Some(n) => Setting::MaxObjects(n as usize),
            None => Setting::Ignored,
        }
    } else if str_eq(key, "minsize") {
        Setting::MinSize(value.to_string())
    } else if str_eq(key, "maxsize") {
        Setting::MaxSize(value.to_string())
    } else if str_eq(key, "seed") {
        if str_eq_ignore_ascii_case(value, "initial") {
            Setting::Ignored
        } else {
            match parse_unsigned(value, u64::MAX) {
                Some(n) => Setting::Seed(n),
                None => Setting::Ignored,
            }
        }
    } else if str_eq(key, "syncrandom") {
        Setting::SyncRandom(str_eq_ignore_ascii_case(value, "true"))
    } else if str_eq(key, "recursion") {
        if str_eq_ignore_ascii_case(value, "depth") {
            Setting::DepthFirst
        } else {
            Setting::Ignored
        }
    } else if str_eq(key, "background") {
        match parse_hex_rgb(value) {
            Some((r, g, b)) => Setting::Background(r, g, b),
            None => Setting::Ignored,
        }
    } else if str_eq(key, "translation") {
        Setting::CameraTranslation(value.to_string())
    } else if str_eq(key, "rotation") {
        Setting::CameraRotation(value.to_string())
    } else if str_eq(key, "pivot") {
        Setting::CameraPivot(value.to_string())
    } else if str_eq(key, "scale") {
        Setting::CameraScale(value.to_string())
    } else {
        Setting::Passthrough(key.to_string(), value.to_string())
    }
}

// ── Build limits ───────────────────────────────────────────────────────────

/// The integer part of a build's configuration.
#[derive(Debug, Clone, Copy, PartialEq, Eq, Structural)]
pub struct BuildLimits {
    /// Max breadth-first generations (`set maxdepth` at top level).
    pub max_generations: u32,
    /// Max number of emitted objects.
    pub max_objects: usize,
    /// Synchronise the generator across siblings (`set syncrandom true`).
    pub sync_random: bool,
    /// Breadth-first or depth-first expansion.
    pub mode: RecursionMode,
    /// The initial generator seed.
    pub seed: u64,
}

impl Default for BuildLimits {
    fn default() -> (r: Self)
        ensures
            r == (BuildLimits {
                max_generations: 1000,
                max_objects: 100_000,
                sync_random: false,
                mode: RecursionMode::BreadthFirst,
                seed: 0,
            }),
    {
        BuildLimits {
            max_generations: 1000,
            max_objects: 100_000,
            sync_random: false,
            mode: RecursionMode::BreadthFirst,
            seed: 0,
        }
    }
}

/// The limits after a setting; settings that do not concern them leave them
/// as they are.
pub open spec fn limits_after(l: BuildLimits, s: SettingV) -> BuildLimits {
    match s {
        SettingV::MaxGenerations(n) => BuildLimits { max_generations: n, ..l },
        SettingV::MaxObjects(n) => BuildLimits { max_objects: n, ..l },
        SettingV::Seed(n) => BuildLimits { seed: n, ..l },
        SettingV::SyncRandom(b) => BuildLimits { sync_random: b, ..l },
        SettingV::DepthFirst => BuildLimits { mode: RecursionMode::DepthFirst, ..l },
        _ => l,
    }
}

/// A setting changes only the limit it names, to the value it carries: the
/// generation cap, the object cap, the seed, `syncrandom`, or the mode; the
/// others leave the limits as they are.
pub proof fn lemma_limits_after(l: BuildLimits, s: SettingV)
    ensures
        limits_after(l, s).max_generations == match s {
            SettingV::MaxGenerations(n) => n,
            _ => l.max_generations,
        },
        limits_after(l, s).max_objects == match s {
            SettingV::MaxObjects(n) => n,
            _ => l.max_objects,
        },
        limits_after(l, s).seed == match s {
            SettingV::Seed(n) => n,
            _ => l.seed,
        },
        limits_after(l, s).sync_random == match s {
            SettingV::SyncRandom(b) => b,
            _ => l.sync_random,
        },
        limits_after(l, s).mode == match s {
            SettingV::DepthFirst => RecursionMode::DepthFirst,
            _ => l.mode,
        },
{
}

/// Apply a setting to the limits and the generator: `seed` restarts the
/// generator from the new seed; other settings leave it alone.
pub fn apply_setting(limits: &mut BuildLimits, rng: &mut Rng, s: &Setting)
    ensures
        *final(limits) == limits_after(*old(limits), s@),
        final(rng).state() == match s@ {
            SettingV::Seed(n) => n,
            _ => old(rng).state(),
        },
{
    match s {
        Setting::MaxGenerations(n) => {
            limits.max_generations = *n;
        },
        Setting::MaxObjects(n) => {
            limits.max_objects = *n;
        },
        Setting::Seed(n) => {
            *rng = Rng::new(*n);
            limits.seed = *n;
        },
        Setting::SyncRandom(b) => {
            limits.sync_random = *b;
        },
        Setting::DepthFirst => {
            limits.mode = RecursionMode::DepthFirst;
        },
        _ => {},
    }
}

// ── Recursion budgets ──────────────────────────────────────────────────────

/// The remaining recursion budget of each rule that limits its own depth,
/// keyed by rule name.
#[derive(Debug)]
pub struct DepthBudgets {
    entries: Vec<(String, i32)>,
}

/// The budget of the first entry named `k`.
pub open spec fn budget_lookup(e: Seq<(String, i32)>, k: Seq<char>) -> Option<i32>
    decreases e.len(),
{
    if e.len() == 0 {
        None
    } else if e[0].0@ == k {
        Some(e[0].1)
    } else {
        budget_lookup(e.drop_first(), k)
    }
}

impl View for DepthBudgets {
    type V = Map<Seq<char>, i32>;

    closed spec fn view(&self) -> Map<Seq<char>, i32> {
        Map::new(
            |k: Seq<char>| budget_lookup(self.entries@, k) is Some,
            |k: Seq<char>| budget_lookup(self.entries@, k)->0,
        )
    }
}

/// Looking up in entries with one position replaced.
proof fn lemma_budget_update(e: Seq<(String, i32)>, i: int, entry: (String, i32), k: Seq<char>)
    requires
        0 <= i < e.len(),
        e[i].0@ == entry.0@,
        forall|j: int| 0 <= j < i ==> (#[trigger] e[j]).0@ != e[i].0@,
    ensures
        budget_lookup(e.update(i, entry), k) == if k == entry.0@ {
            Some(entry.1)
        } else {
            budget_lookup(e, k)
        },
    decreases i,
{
    if i > 0 {
        assert forall|j: int| 0 <= j < i - 1 implies (#[trigger] e.drop_first()[j]).0@
            != e.drop_first()[i - 1].0@ by {
            assert(e.drop_first()[j] == e[j + 1]);
        }
        lemma_budget_update(e.drop_first(), i - 1, entry, k);
        assert(e.update(i, entry).drop_first() =~= e.drop_first().update(i - 1, entry));
        assert(e[0].0@ != entry.0@);
        assert(e.update(i, entry)[0] == e[0]);
    } else {
        assert(e.update(i, entry).drop_first() =~= e.drop_first());
        assert(e.update(i, entry)[0] == entry);
    }
}

/// Looking up in entries with one more at the end.
proof fn lemma_budget_push(e: Seq<(String, i32)>, entry: (String, i32), k: Seq<char>)
    requires
        forall|j: int| 0 <= j < e.len() ==> (#[trigger] e[j]).0@ != entry.0@,
    ensures
        budget_lookup(e.push(entry), k) == if k == entry.0@ {
            Some(entry.1)
        } else {
            budget_lookup(e, k)
        },
    decreases e.len(),
{
    if e.len() > 0 {
        assert forall|j: int| 0 <= j < e.drop_first().len() implies (#[trigger] e.drop_first()[j]).0@
            != entry.0@ by {
            assert(e.drop_first()[j] == e[j + 1]);
        }
        lemma_budget_push(e.drop_first(), entry, k);
        assert(e.push(entry).drop_first() =~= e.drop_first().push(entry));
        assert(e[0].0@ != entry.0@);
        assert(e.push(entry)[0] == e[0]);
    } else {
        assert(e.push(entry).drop_first() =~= Seq::<(String, i32)>::empty());
        assert(e.push(entry)[0] == entry);
        assert(budget_lookup(Seq::<(String, i32)>::empty(), k) is None);
        assert(budget_lookup(e, k) is None);
    }
}

impl DepthBudgets {
    /// No rule has a budget yet.
    pub fn new() -> (b: Self)
        ensures
            b@ == Map::<Seq<char>, i32>::empty(),
    {
        let b = DepthBudgets { entries: Vec::new() };
        assert(b@ =~= Map::<Seq<char>, i32>::empty());
        b
    }

    /// The budget of rule `name`, if it has one.
    pub fn get(&self, name: &str) -> (r: Option<i32>)
        ensures
            match r {
                Some(d) => self@.contains_key(name@) && self@[name@] == d,
                None => !self@.contains_key(name@),
            },
    {
        let ghost e = self.entries@;
        let mut i: usize = 0;
        assert(e.skip(0) =~= e);
        while i < self.entries.len()
            invariant
                e == self.entries@,
                i <= e.len(),
                budget_lookup(e, name@) == budget_lookup(e.skip(i as int), name@),
            decreases e.len() - i,
        {
            assert(e.skip(i as int).drop_first() =~= e.skip(i + 1));
            assert(e.skip(i as int)[0] == e[i as int]);
            if str_eq(self.entries[i].0.as_str(), name) {
                return Some(self.entries[i].1);
            }
            i = i + 1;
        }
        assert(e.skip(i as int) =~= Seq::<(String, i32)>::empty());
        None
    }

    /// Set the budget of rule `name` to `depth`.
    pub fn insert(&mut self, name: &str, depth: i32)
        ensures
            final(self)@ == old(self)@.insert(name@, depth),
    {
        let ghost e = self.entries@;
        let mut i: usize = 0;
        while i < self.entries.len()
            invariant
                e == self.entries@,
                e == old(self).entries@,
                i <= e.len(),
                forall|j: int| 0 <= j < i ==> (#[trigger] e[j]).0@ != name@,
            decreases e.len() - i,
        {
            if str_eq(self.entries[i].0.as_str(), name) {
                let entry = (self.entries[i].0.clone(), depth);
                assert(entry.0@ == name@);
                self.entries.set(i, entry);
                assert(self.entries@ == e.update(i as int, entry));
                proof {
                    assert forall|k: Seq<char>| #[trigger] budget_lookup(self.entries@, k) == if k
                        == name@ {
                        Some(depth)
                    } else {
                        budget_lookup(e, k)
                    } by {
                        lemma_budget_update(e, i as int, entry, k);
                    }
                    assert(self@ =~= old(self)@.insert(name@, depth));
                }
                return;
            }
            i = i + 1;
        }
        let entry = (name.to_string(), depth);
        self.entries.push(entry);
        proof {
            assert forall|k: Seq<char>| #[trigger] budget_lookup(self.entries@, k) == if k == name@ {
                Some(depth)
            } else {
                budget_lookup(e, k)
            } by {
                lemma_budget_push(e, entry, k);
            }
        }
        assert(self@ =~= old(self)@.insert(name@, depth));
    }
}

impl Clone for DepthBudgets {
    fn clone(&self) -> (r: Self)
        ensures
            r@ == self@,
    {
        let mut entries: Vec<(String, i32)> = Vec::new();
        for i in 0..self.entries.len()
            invariant
                entries@.len() == i,
                forall|j: int|
                    0 <= j < i ==> (#[trigger] entries@[j]).0@ == self.entries@[j].0@
                        && entries@[j].1 == self.entries@[j].1,
        {
            entries.push((self.entries[i].0.clone(), self.entries[i].1));
        }
        let r = DepthBudgets { entries };
        proof {
            assert forall|k: Seq<char>| #[trigger] budget_lookup(r.entries@, k) == budget_lookup(
                self.entries@,
                k,
            ) by {
                lemma_budget_same(r.entries@, self.entries@, k);
            }
        }
        assert(r@ =~= self@);
        r
    }
}

/// Entries with the same names and budgets, position by position, look up the
/// same way.
proof fn lemma_budget_same(a: Seq<(String, i32)>, b: Seq<(String, i32)>, k: Seq<char>)
    requires
        a.len() == b.len(),
        forall|i: int| 0 <= i < a.len() ==> (#[trigger] a[i]).0@ == b[i].0@ && a[i].1 == b[i].1,
    ensures
        budget_lookup(a, k) == budget_lookup(b, k),
    decreases a.len(),
{
    if a.len() > 0 {
        assert(a[0].0@ == b[0].0@ && a[0].1 == b[0].1);
        assert forall|i: int| 0 <= i < a.drop_first().len() implies (#[trigger] a.drop_first()[i]).0@
            == b.drop_first()[i].0@ && a.drop_first()[i].1 == b.drop_first()[i].1 by {
            assert(a.drop_first()[i] == a[i + 1]);
            assert(b.drop_first()[i] == b[i + 1]);
        }
        lemma_budget_same(a.drop_first(), b.drop_first(), k);
    }
}

// ── The recursion budget of a custom rule ─────────────────────────────────

/// What visiting a custom rule does with its recursion budget.
#[derive(Debug, Clone, Copy, PartialEq, Eq, Structural)]
pub enum DepthStep {
    /// Apply the rule's body. The states it spawns carry this budget for the
    /// rule; a rule without `maxdepth` passes none on.
    Enter(Option<i32>),
    /// The budget is spent: the body is not applied, and the retirement rule,
    /// if there is one, is queued with the rule's budget reset to this value.
    Retire(i32),
}

/// `m as i32`: the two's-complement reading of the 32 bits of `m`.
pub open spec fn wrap_i32(m: u32) -> i32 {
    if m < 0x8000_0000 {
        m as i32
    } else {
        (m - 0x1_0000_0000) as i32
    }
}

/// The step for a rule with the given `maxdepth` and the budget that the
/// visiting state holds for it: a first visit starts the budget at `m - 1`, a
/// positive budget is spent by one, and a spent budget retires the rule.
pub open spec fn depth_step_spec(max_depth: Option<u32>, remaining: Option<i32>) -> DepthStep {
    match max_depth {
        None => DepthStep::Enter(None),
        Some(m) => match remaining {
            None => DepthStep::Enter(Some((wrap_i32(m) - 1) as i32)),
            Some(d) => if d > 0 {
                DepthStep::Enter(Some((d - 1) as i32))
            } else {
                DepthStep::Retire(wrap_i32(m))
            },
        },
    }
}

fn to_i32(m: u32) -> (r: i32)
    ensures
        r == wrap_i32(m),
{
    let r = m as i32;
    assert(r as int == if m < 0x8000_0000 { m as int } else { m - 0x1_0000_0000 }) by (bit_vector)
        requires
            r == m as i32,
    ;
    r
}

/// Decide what visiting a custom rule does, from its `maxdepth` and the
/// budget that the visiting state holds for it.
pub fn depth_step(max_depth: Option<u32>, remaining: Option<i32>) -> (r: DepthStep)
    requires
        !(max_depth == Some(0x8000_0000u32) && remaining is None),
    ensures
        r == depth_step_spec(max_depth, remaining),
{
    match max_depth {
        None => DepthStep::Enter(None),
        Some(m) => match remaining {
            None => DepthStep::Enter(Some(to_i32(m) - 1)),
            Some(d) => if d > 0 {
                DepthStep::Enter(Some(d - 1))
            } else {
                DepthStep::Retire(to_i32(m))
            },
        },
    }
}

/// The budget that a state holds for a rule with `maxdepth m` after `k`
/// applications of it along the chain that led to the state.
pub open spec fn budget_after(m: u32, k: nat) -> Option<i32> {
    if k == 0 {
        None
    } else {
        Some((m - k) as i32)
    }
}

/// A rule with `maxdepth m` is applied exactly `m` times along one chain of
/// descendants: each of the first `m` visits enters and passes on a budget one
/// smaller, and the visit after them retires the rule.
pub proof fn lemma_max_depth_applications(m: u32, k: nat)
    requires
        0 < m < 0x8000_0000,
        k <= m,
    ensures
        k < m ==> depth_step_spec(Some(m), budget_after(m, k)) == DepthStep::Enter(
            budget_after(m, k + 1),
        ),
        k == m ==> depth_step_spec(Some(m), budget_after(m, k)) == DepthStep::Retire(m as i32),
{
}

// ── Seeds of queued branches ───────────────────────────────────────────────

/// A queued branch that carries a seed restarts the generator from it and
/// takes the generator's next value as its new seed; a branch without one
/// (seed 0) leaves the generator as it is.
pub fn reseed_branch(rng: &mut Rng, seed: &mut u64)
    ensures
        *old(seed) != 0 ==> final(rng).state() == xorshift_step(*old(seed)) && *final(seed)
            == xorshift_step(*old(seed)),
        *old(seed) == 0 ==> final(rng).state() == old(rng).state() && *final(seed) == 0,
{
    if *seed != 0 {
        *rng = Rng::new(*seed);
        *seed = rng.next_u64();
    }
}

// ── Emitted primitives ─────────────────────────────────────────────────────

/// The scene primitive that a primitive rule named `kind_name` emits; a
/// triangle carries its class tag (its inline vertices) as payload.
pub open spec fn kind_of(kind_name: Seq<char>, class_tag: Option<Seq<char>>) -> Option<PrimitiveKindV> {
    if kind_name == "box"@ {
        Some(PrimitiveKindV::Box)
    } else if kind_name == "sphere"@ {
        Some(PrimitiveKindV::Sphere)
    } else if kind_name == "cylinder"@ {
        Some(PrimitiveKindV::Cylinder)
    } else if kind_name == "mesh"@ {
        Some(PrimitiveKindV::Mesh)
    } else if kind_name == "line"@ {
        Some(PrimitiveKindV::Line)
    } else if kind_name == "dot"@ {
        Some(PrimitiveKindV::Dot)
    } else if kind_name == "grid"@ {
        Some(PrimitiveKindV::Grid)
    } else if kind_name == "template"@ {
        Some(PrimitiveKindV::Template)
    } else if kind_name == "triangle"@ {
        Some(
            PrimitiveKindV::Triangle(
                match class_tag {
                    Some(t) => t,
                    None => Seq::empty(),
                },
            ),
        )
    } else {
        None
    }
}

/// The scene primitive for a primitive rule, or `None` for an unknown kind
/// (which emits nothing).
pub fn primitive_kind(kind_name: &str, class_tag: &Option<String>) -> (r: Option<PrimitiveKind>)
    ensures
        match r {
            Some(k) => kind_of(kind_name@, opt_view(*class_tag)) == Some(k@),
            None => kind_of(kind_name@, opt_view(*class_tag)) is None,
        },
{
    if str_eq(kind_name, "box") {
        Some(PrimitiveKind::Box)
    } else if str_eq(kind_name, "sphere") {
        Some(PrimitiveKind::Sphere)
    } else if str_eq(kind_name, "cylinder") {
        Some(PrimitiveKind::Cylinder)
    } else if str_eq(kind_name, "mesh") {
        Some(PrimitiveKind::Mesh)
    } else if str_eq(kind_name, "line") {
        Some(PrimitiveKind::Line)
    } else if str_eq(kind_name, "dot") {
        Some(PrimitiveKind::Dot)
    } else if str_eq(kind_name, "grid") {
        Some(PrimitiveKind::Grid)
    } else if str_eq(kind_name, "template") {
        Some(PrimitiveKind::Template)
    } else if str_eq(kind_name, "triangle") {
        let payload = match class_tag {
            Some(t) => t.clone(),
            None => String::new(),
        };
        Some(PrimitiveKind::Triangle(payload))
    } else {
        None
    }
}

// ── A global depth for depth-first builds ──────────────────────────────────

/// A rule variant with `maxdepth m` where it had none.
pub open spec fn variant_with_depth(v: RuleDefV, m: u32) -> RuleDefV {
    if v.max_depth is None {
        RuleDefV { max_depth: Some(m), ..v }
    } else {
        v
    }
}

/// A rule node whose custom variants without a `maxdepth` get `m`.
pub open spec fn node_with_depth(n: RuleNodeV, m: u32) -> RuleNodeV {
    match n {
        RuleNodeV::Custom(c) => RuleNodeV::Custom(variant_with_depth(c, m)),
        RuleNodeV::Ambiguous(a) => RuleNodeV::Ambiguous(
            AmbiguousRuleNodeV {
                name: a.name,
                variants: a.variants.map_values(|v: RuleDefV| variant_with_depth(v, m)),
            },
        ),
        RuleNodeV::Primitive { .. } => n,
    }
}

fn custom_with_depth(c: &CustomRuleNode, m: u32) -> (r: CustomRuleNode)
    ensures
        r@ == variant_with_depth(c@, m),
{
    let mut r = c.clone();
    if r.max_depth.is_none() {
        r.max_depth = Some(m);
    }
    r
}

fn node_depth_filled(n: &RuleNode, m: u32) -> (r: RuleNode)
    ensures
        r@ == node_with_depth(n@, m),
{
    match n {
        RuleNode::Custom(c) => RuleNode::Custom(custom_with_depth(c, m)),
        RuleNode::Ambiguous(a) => {
            let mut variants: Vec<CustomRuleNode> = Vec::new();
            for i in 0..a.variants.len()
                invariant
                    variants@.len() == i,
                    forall|j: int|
                        0 <= j < i ==> (#[trigger] variants@[j])@ == variant_with_depth(
                            a.variants@[j]@,
                            m,
                        ),
            {
                variants.push(custom_with_depth(&a.variants[i], m));
            }
            let r = RuleNode::Ambiguous(AmbiguousRuleNode { name: a.name.clone(), variants });
            proof {
                if let RuleNodeV::Ambiguous(av) = r@ {
                    assert(av.variants =~= a@.variants.map_values(
                        |v: RuleDefV| variant_with_depth(v, m),
                    ));
                }
            }
            r
        },
        RuleNode::Primitive { kind_name, class_tag } => RuleNode::Primitive {
            kind_name: kind_name.clone(),
            class_tag: copy_opt_string(class_tag),
        },
    }
}

/// Entry lists with the same names, whose nodes are mapped by `f`, look up
/// the mapped nodes.
proof fn lemma_lookup_mapped(
    a: Seq<(String, RuleNode)>,
    b: Seq<(String, RuleNode)>,
    m: u32,
    k: Seq<char>,
)
    requires
        a.len() == b.len(),
        forall|i: int|
            0 <= i < a.len() ==> (#[trigger] b[i]).0@ == a[i].0@ && b[i].1@ == node_with_depth(
                a[i].1@,
                m,
            ),
    ensures
        lookup(b, k) == match lookup(a, k) {
            Some(n) => Some(node_with_depth(n, m)),
            None => None,
        },
    decreases a.len(),
{
    if a.len() > 0 {
        assert(b[0].0@ == a[0].0@);
        assert forall|i: int| 0 <= i < a.drop_first().len() implies (#[trigger] b.drop_first()[i]).0@
            == a.drop_first()[i].0@ && b.drop_first()[i].1@ == node_with_depth(
            a.drop_first()[i].1@,
            m,
        ) by {
            assert(a.drop_first()[i] == a[i + 1]);
            assert(b.drop_first()[i] == b[i + 1]);
        }
        lemma_lookup_mapped(a.drop_first(), b.drop_first(), m, k);
    }
}

/// Give every custom rule variant without its own `maxdepth` the depth `m`
/// (the global depth of a depth-first build); everything else stays.
pub fn set_rules_max_depth(graph: &mut RuleGraph, max_depth: u32)
    ensures
        final(graph)@.rules == old(graph)@.rules.map_values(
            |n: RuleNodeV| node_with_depth(n, max_depth),
        ),
        final(graph)@.start_items == old(graph)@.start_items,
        final(graph)@.recurse_depth == old(graph)@.recurse_depth,
        final(graph).wf() == old(graph).wf(),
{
    let mut rules: Vec<(String, RuleNode)> = Vec::new();
    let n = graph.rules.len();
    for i in 0..n
        invariant
            n == graph.rules@.len(),
            rules@.len() == i,
            forall|j: int|
                0 <= j < i ==> (#[trigger] rules@[j]).0@ == graph.rules@[j].0@ && rules@[j].1@
                    == node_with_depth(graph.rules@[j].1@, max_depth),
    {
        let name = graph.rules[i].0.clone();
        let node = node_depth_filled(&graph.rules[i].1, max_depth);
        rules.push((name, node));
    }
    let ghost old_rules = graph.rules@;
    proof {
        assert forall|k: Seq<char>| #[trigger] lookup(rules@, k) == match lookup(old_rules, k) {
            Some(n) => Some(node_with_depth(n, max_depth)),
            None => None,
        } by {
            lemma_lookup_mapped(old_rules, rules@, max_depth, k);
        }
        assert(names_distinct(rules@) == names_distinct(old_rules)) by {
            if names_distinct(rules@) {
                assert forall|i: int, j: int|
                    0 <= i < old_rules.len() && 0 <= j < old_rules.len() && i != j implies (
                #[trigger] old_rules[i]).0@ != (#[trigger] old_rules[j]).0@ by {
                    assert(rules@[i].0@ != rules@[j].0@);
                }
            }
            if names_distinct(old_rules) {
                assert forall|i: int, j: int|
                    0 <= i < rules@.len() && 0 <= j < rules@.len() && i != j implies (
                #[trigger] rules@[i]).0@ != (#[trigger] rules@[j]).0@ by {
                    assert(old_rules[i].0@ != old_rules[j].0@);
                }
            }
        }
    }
    graph.rules = rules;
    assert(graph@.rules =~= old(graph)@.rules.map_values(
        |n: RuleNodeV| node_with_depth(n, max_depth),
    ));
}

} // verus!
