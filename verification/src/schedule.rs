//! The order in which queued branches are visited during a build, and when
//! the build stops.
//!
//! Breadth-first, the queue is worked through one generation at a time: a new
//! generation starts only while it is not empty, fewer than `max_generations`
//! have run, fewer than `max_objects` objects have been emitted and the queue
//! is shorter than `max_objects`; the branches queued while visiting one
//! generation form the next, in the order they were queued. With
//! `syncrandom`, each generation draws one seed from the generator and every
//! visit restarts the generator from it. Depth-first, the queue is a stack:
//! the branches queued by a visit are visited next, in the order they were
//! queued, before the visit's siblings, and the build stops once
//! `max_objects` objects have been emitted. In both modes a branch that
//! carries a seed restarts the generator from it and takes the generator's
//! next value as its new seed.
//!
//! A caller takes a branch, visits it (the geometry and colour of its state
//! are the caller's, found through `state`), and reports whether it emitted
//! an object and which branches it queued.

use vstd::prelude::*;

use crate::eval::{BuildLimits, DepthBudgets, RecursionMode};
use crate::rng::{xorshift_step, Rng};

verus! {

/// A queued branch.
#[derive(Debug)]
pub struct Pending {
    /// The rule the branch applies.
    pub target: String,
    /// The recursion budgets it carries.
    pub budgets: DepthBudgets,
    /// Its seed, or 0.
    pub seed: u64,
    /// The caller's handle of its state.
    pub state: usize,
}

pub struct PendingV {
    pub target: Seq<char>,
    pub budgets: Map<Seq<char>, i32>,
    pub seed: u64,
    pub state: usize,
}

impl View for Pending {
    type V = PendingV;

    open spec fn view(&self) -> PendingV {
        PendingV {
            target: self.target@,
            budgets: self.budgets@,
            seed: self.seed,
            state: self.state,
        }
    }
}

/// The views of a list of branches.
pub open spec fn pendings_view(v: Seq<Pending>) -> Seq<PendingV> {
    v.map_values(|p: Pending| p@)
}

/// The progress of a build.
pub struct Schedule {
    mode: RecursionMode,
    max_generations: u32,
    max_objects: usize,
    sync_random: bool,
    /// The branches still to visit, the next one last: breadth-first, those of
    /// the running generation; depth-first, the whole stack.
    current: Vec<Pending>,
    /// Breadth-first, the branches queued for the next generation, in order.
    next: Vec<Pending>,
    generation: u32,
    objects: usize,
    sync_seed: u64,
    /// A branch has been taken and not yet reported.
    busy: bool,
}

pub struct ScheduleV {
    pub mode: RecursionMode,
    pub max_generations: u32,
    pub max_objects: usize,
    pub sync_random: bool,
    pub current: Seq<PendingV>,
    pub next: Seq<PendingV>,
    pub generation: u32,
    pub objects: usize,
    pub sync_seed: u64,
    pub busy: bool,
}

impl View for Schedule {
    type V = ScheduleV;

    closed spec fn view(&self) -> ScheduleV {
        ScheduleV {
            mode: self.mode,
            max_generations: self.max_generations,
            max_objects: self.max_objects,
            sync_random: self.sync_random,
            current: pendings_view(self.current@),
            next: pendings_view(self.next@),
            generation: self.generation,
            objects: self.objects,
            sync_seed: self.sync_seed,
            busy: self.busy,
        }
    }
}

/// The limits of a build hold: breadth-first, no more than `max_generations`
/// generations have started; depth-first, no more than `max_objects` objects
/// have been emitted, and fewer while a branch is being visited.
pub open spec fn within_limits(s: ScheduleV) -> bool {
    &&& s.mode == RecursionMode::BreadthFirst ==> s.generation <= s.max_generations
    &&& s.mode == RecursionMode::DepthFirst ==> s.objects <= s.max_objects && (s.busy ==> s.objects
        < s.max_objects)
}

/// The schedule at the start of a build with `limits` and the branches of the
/// top-level actions, in order.
pub open spec fn schedule_start(limits: BuildLimits, start: Seq<PendingV>) -> ScheduleV {
    ScheduleV {
        mode: limits.mode,
        max_generations: limits.max_generations,
        max_objects: limits.max_objects,
        sync_random: limits.sync_random,
        current: if limits.mode == RecursionMode::DepthFirst {
            start.reverse()
        } else {
            seq![]
        },
        next: if limits.mode == RecursionMode::DepthFirst {
            seq![]
        } else {
            start
        },
        generation: 0,
        objects: 0,
        sync_seed: 0,
        busy: false,
    }
}

/// Breadth-first, whether another generation starts.
pub open spec fn generation_starts(s: ScheduleV) -> bool {
    &&& s.next.len() > 0
    &&& s.generation < s.max_generations
    &&& s.objects < s.max_objects
    &&& s.next.len() < s.max_objects
}

/// The generator state and the branch after the branch `p` restarts the
/// generator from its seed, if it carries one.
pub open spec fn reseeded(p: PendingV, g: u64) -> (u64, PendingV) {
    if p.seed != 0 {
        (xorshift_step(p.seed), PendingV { seed: xorshift_step(p.seed), ..p })
    } else {
        (g, p)
    }
}

/// What taking the next branch does: the schedule after it, the generator
/// state after it, and the branch, or `None` when the build is over.
pub open spec fn take_spec(s: ScheduleV, g: u64) -> (ScheduleV, u64, Option<PendingV>) {
    if s.mode == RecursionMode::DepthFirst {
        if s.current.len() == 0 || s.objects >= s.max_objects {
            (s, g, None)
        } else {
            let (g1, p) = reseeded(s.current.last(), g);
            (ScheduleV { current: s.current.drop_last(), busy: true, ..s }, g1, Some(p))
        }
    } else {
        let started = s.current.len() == 0;
        if started && !generation_starts(s) {
            (s, g, None)
        } else {
            let g0 = if started && s.sync_random {
                xorshift_step(g)
            } else {
                g
            };
            let s0 = if started {
                ScheduleV {
                    current: s.next.reverse(),
                    next: seq![],
                    generation: (s.generation + 1) as u32,
                    sync_seed: if s.sync_random {
                        g0
                    } else {
                        0
                    },
                    ..s
                }
            } else {
                s
            };
            let (g1, p) = reseeded(s0.current.last(), g0);
            let g2 = if s.sync_random {
                s0.sync_seed
            } else {
                g1
            };
            (ScheduleV { current: s0.current.drop_last(), busy: true, ..s0 }, g2, Some(p))
        }
    }
}

/// What reporting a visit does: one more object if it emitted one, and its
/// branches queued, breadth-first for the next generation, depth-first on
/// top of the stack with the first to be visited first.
pub open spec fn finish_spec(s: ScheduleV, emitted: bool, children: Seq<PendingV>) -> ScheduleV {
    let objects = if emitted && s.objects < usize::MAX {
        (s.objects + 1) as usize
    } else {
        s.objects
    };
    if s.mode == RecursionMode::DepthFirst {
        ScheduleV { current: s.current + children.reverse(), objects, busy: false, ..s }
    } else {
        ScheduleV { next: s.next + children, objects, busy: false, ..s }
    }
}

/// Breadth-first, once a generation has been worked through, the next one
/// starts only while it has branches, fewer than `max_generations`
/// generations have run, fewer than `max_objects` objects have been emitted
/// and it holds fewer than `max_objects` branches; otherwise the build is
/// over and nothing changes. When it starts, its first branch is the first
/// one queued, the rest wait in the order they were queued, and the
/// generation count goes up by one.
pub proof fn lemma_generation_start(s: ScheduleV, g: u64)
    requires
        s.mode == RecursionMode::BreadthFirst,
        s.current.len() == 0,
    ensures
        s.next.len() == 0 || s.generation >= s.max_generations || s.objects >= s.max_objects
            || s.next.len() >= s.max_objects ==> take_spec(s, g) == (s, g, None::<PendingV>),
        s.next.len() > 0 && s.generation < s.max_generations && s.objects < s.max_objects
            && s.next.len() < s.max_objects ==> {
            let (t, _, p) = take_spec(s, g);
            &&& p is Some
            &&& p->0.target == s.next[0].target
            &&& p->0.budgets == s.next[0].budgets
            &&& p->0.state == s.next[0].state
            &&& t.current.reverse() == s.next.drop_first()
            &&& t.next.len() == 0
            &&& t.generation == s.generation + 1
            &&& t.objects == s.objects
        },
{
    if s.next.len() > 0 && s.generation < s.max_generations && s.objects < s.max_objects
        && s.next.len() < s.max_objects {
        let t = take_spec(s, g).0;
        let r = s.next.reverse();
        assert(r.last() == s.next[0]);
        assert(t.current == r.drop_last());
        let c = r.drop_last();
        assert(c.len() == s.next.len() - 1);
        if c.len() > 0 {
            assert forall|k: int| 0 <= k < c.len() implies #[trigger] c.reverse()[k]
                == s.next.drop_first()[k] by {
                assert(c.reverse()[k] == c[c.len() - 1 - k]);
                assert(c[c.len() - 1 - k] == r[c.len() - 1 - k]);
                assert(r[c.len() - 1 - k] == s.next[s.next.len() - 1 - (c.len() - 1 - k)]);
            }
        }
        assert(t.current.reverse() =~= s.next.drop_first());
    }
}

/// A branch that carries a seed restarts the generator from it and leaves
/// with the generator's next value as its seed; a branch without one keeps
/// the generator as it is. Breadth-first with `syncrandom`, every visit then
/// restarts the generator from the generation's seed.
pub proof fn lemma_take_seeds(s: ScheduleV, g: u64)
    requires
        s.current.len() > 0,
        !(s.mode == RecursionMode::DepthFirst && s.objects >= s.max_objects),
    ensures
        ({
            let (t, g2, p) = take_spec(s, g);
            let q = s.current.last();
            &&& q.seed != 0 ==> p->0.seed == xorshift_step(q.seed)
            &&& q.seed == 0 ==> p->0.seed == 0
            &&& (s.mode == RecursionMode::BreadthFirst && s.sync_random) ==> g2 == s.sync_seed
            &&& !(s.mode == RecursionMode::BreadthFirst && s.sync_random) ==> g2 == if q.seed != 0 {
                xorshift_step(q.seed)
            } else {
                g
            }
        }),
{
}

/// Within a generation (breadth-first) and always depth-first, the branch
/// taken is the one waiting longest in the generation, or the top of the
/// stack; depth-first, nothing is taken once `max_objects` objects have been
/// emitted.
pub proof fn lemma_take_within(s: ScheduleV, g: u64)
    requires
        s.current.len() > 0,
    ensures
        s.mode == RecursionMode::DepthFirst && s.objects >= s.max_objects ==> take_spec(s, g) == (
            s,
            g,
            None::<PendingV>,
        ),
        !(s.mode == RecursionMode::DepthFirst && s.objects >= s.max_objects) ==> {
            let (t, _, p) = take_spec(s, g);
            &&& p is Some
            &&& p->0.target == s.current.last().target
            &&& p->0.state == s.current.last().state
            &&& t.current == s.current.drop_last()
            &&& t.next == s.next
            &&& t.generation == s.generation
            &&& t.busy
        },
{
}

/// Depth-first, the branches a visit queues are visited next, the first one
/// first: after reporting them, the next branch taken is the first of them
/// (unless the object cap has been reached).
pub proof fn lemma_children_first(s: ScheduleV, emitted: bool, children: Seq<PendingV>, g: u64)
    requires
        s.mode == RecursionMode::DepthFirst,
        children.len() > 0,
        finish_spec(s, emitted, children).objects < s.max_objects,
    ensures
        ({
            let p = take_spec(finish_spec(s, emitted, children), g).2;
            &&& p is Some
            &&& p->0.target == children[0].target
            &&& p->0.state == children[0].state
            &&& p->0.budgets == children[0].budgets
        }),
{
    let f = finish_spec(s, emitted, children);
    assert(f.current.last() == children[0]);
}

/// Breadth-first, the branches a visit queues wait for the next generation,
/// after those queued before them, in order; a visit that emitted an object
/// adds one to the count.
pub proof fn lemma_children_wait(s: ScheduleV, emitted: bool, children: Seq<PendingV>)
    requires
        s.mode == RecursionMode::BreadthFirst,
        s.objects < usize::MAX,
    ensures
        finish_spec(s, emitted, children).next == s.next + children,
        finish_spec(s, emitted, children).current == s.current,
        finish_spec(s, emitted, children).objects == s.objects + if emitted {
            1int
        } else {
            0int
        },
        !finish_spec(s, emitted, children).busy,
{
}

proof fn lemma_pendings_push(v: Seq<Pending>, p: Pending)
    ensures
        pendings_view(v.push(p)) == pendings_view(v).push(p@),
{
    assert(pendings_view(v.push(p)) =~= pendings_view(v).push(p@));
}

/// Move the items of `from` onto `to`, last first: `to` gains `from` reversed.
fn move_reversed(to: &mut Vec<Pending>, from: &mut Vec<Pending>)
    ensures
        pendings_view(final(to)@) == pendings_view(old(to)@) + pendings_view(old(from)@).reverse(),
        final(from)@.len() == 0,
{
    let ghost t0 = pendings_view(to@);
    let ghost f0 = pendings_view(from@);
    while from.len() > 0
        invariant
            f0.len() >= from@.len(),
            pendings_view(from@) == f0.take(from@.len() as int),
            pendings_view(to@) == t0 + f0.skip(from@.len() as int).reverse(),
        decreases from@.len(),
    {
        let ghost k: int = from@.len() as int;
        let ghost fv = from@;
        let p = from.pop().unwrap();
        assert(fv =~= from@.push(p));
        assert(pendings_view(fv)[k - 1] == p@);
        assert(f0[k - 1] == p@);
        proof {
            lemma_pendings_push(to@, p);
        }
        let ghost tv = to@;
        to.push(p);
        proof {
            lemma_pendings_push(tv, p);
            assert(pendings_view(from@) =~= f0.take(k - 1)) by {
                assert(pendings_view(fv) =~= pendings_view(from@).push(p@));
            }
            assert(f0.skip(k - 1).reverse() =~= f0.skip(k).reverse().push(f0[k - 1]));
        }
    }
    assert(f0.skip(0) =~= f0);
}

impl Schedule {
    /// The schedule of a build with `limits`, whose top-level actions queued
    /// `start`, in order.
    pub fn new(limits: &BuildLimits, start: Vec<Pending>) -> (s: Schedule)
        ensures
            s@ == schedule_start(*limits, pendings_view(start@)),
            within_limits(s@),
    {
        let mut start = start;
        let mut current: Vec<Pending> = Vec::new();
        let mut next: Vec<Pending> = Vec::new();
        let ghost sv = pendings_view(start@);
        if limits.mode == RecursionMode::DepthFirst {
            move_reversed(&mut current, &mut start);
            assert(pendings_view(current@) =~= sv.reverse());
            assert(pendings_view(next@) =~= Seq::<PendingV>::empty());
        } else {
            next = start;
            assert(pendings_view(current@) =~= Seq::<PendingV>::empty());
        }
        Schedule {
            mode: limits.mode,
            max_generations: limits.max_generations,
            max_objects: limits.max_objects,
            sync_random: limits.sync_random,
            current,
            next,
            generation: 0,
            objects: 0,
            sync_seed: 0,
            busy: false,
        }
    }

    /// The number of objects emitted so far.
    pub fn objects(&self) -> (n: usize)
        ensures
            n == self@.objects,
    {
        self.objects
    }

    /// The number of generations started so far.
    pub fn generation(&self) -> (n: u32)
        ensures
            n == self@.generation,
    {
        self.generation
    }

    /// Take the next branch to visit, restarting the generator as the branch
    /// and the mode ask; `None` when the build is over.
    pub fn take(&mut self, rng: &mut Rng) -> (r: Option<Pending>)
        requires
            !old(self)@.busy,
            within_limits(old(self)@),
        ensures
            (final(self)@, final(rng).state(), match r {
                Some(p) => Some(p@),
                None => None,
            }) == take_spec(old(self)@, old(rng).state()),
            within_limits(final(self)@),
    {
        if self.mode == RecursionMode::DepthFirst {
            if self.current.len() == 0 || self.objects >= self.max_objects {
                return None;
            }
        } else if self.current.len() == 0 {
            if !(self.next.len() > 0 && self.generation < self.max_generations && self.objects
                < self.max_objects && self.next.len() < self.max_objects) {
                return None;
            }
            self.sync_seed = if self.sync_random {
                rng.next_u64()
            } else {
                0
            };
            self.generation = self.generation + 1;
            move_reversed(&mut self.current, &mut self.next);
            assert(pendings_view(self.current@) =~= pendings_view(old(self).next@).reverse());
            assert(pendings_view(self.next@) =~= Seq::<PendingV>::empty());
        }
        let ghost cv = self.current@;
        let mut p = self.current.pop().unwrap();
        assert(cv =~= self.current@.push(p));
        assert(pendings_view(cv).last() == p@);
        assert(pendings_view(self.current@) =~= pendings_view(cv).drop_last());
        if p.seed != 0 {
            *rng = Rng::new(p.seed);
            p.seed = rng.next_u64();
        }
        if self.mode == RecursionMode::BreadthFirst && self.sync_random {
            *rng = Rng::new(self.sync_seed);
        }
        self.busy = true;
        Some(p)
    }

    /// Report the visit of the branch last taken: whether it emitted an
    /// object, and the branches it queued, in order.
    pub fn finish(&mut self, emitted: bool, children: Vec<Pending>)
        requires
            old(self)@.busy,
            within_limits(old(self)@),
        ensures
            final(self)@ == finish_spec(old(self)@, emitted, pendings_view(children@)),
            within_limits(final(self)@),
    {
        if emitted && self.objects < usize::MAX {
            self.objects = self.objects + 1;
        }
        let mut children = children;
        let ghost cv = pendings_view(children@);
        if self.mode == RecursionMode::DepthFirst {
            move_reversed(&mut self.current, &mut children);
        } else {
            let ghost nv = pendings_view(self.next@);
            self.next.append(&mut children);
            assert(pendings_view(self.next@) =~= nv + cv);
        }
        self.busy = false;
    }
}

} // verus!
