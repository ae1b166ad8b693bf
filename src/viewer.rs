use vstd::prelude::*;
use crate::config::Model;
use crate::grammar::{deterministic, table_wf};
use crate::lsystem::{lemma_deterministic_generation, LSystem, LSystemView};
use crate::math::FULL_TURN;
use crate::turtle::{initial_trace, interpret_all, DrawAction, Drawer, TurtlePath};

verus! {

/// Angle steps of the interactive controls, in thousandths of a degree.
pub const ANGLE_STEP: i64 = 1_000;

/// Segment length a viewer starts with.
pub const START_DIST: u32 = 10;

/// Heading of the pen at its origin: straight up.
pub const START_HEADING: i64 = 90_000;

/// A key that the viewer reacts to.
pub enum Key {
    Right,
    Left,
    Down,
    Up,
    Subtract,
    Add,
    R,
    Other,
}

/// The modifier keys held with a key: none, exactly Control, exactly Alt, or
/// some other combination.
pub enum Modifier {
    Plain,
    Control,
    Alt,
    Other,
}

/// What a key asks of the rewriting systems.
pub enum Command {
    /// Nothing to recompute.
    Nothing,
    /// Fetch the current generation of the current system.
    Regenerate,
    /// Clear the current system's cache, then fetch the current generation.
    Restart,
}

/// The settings that the keys change.
#[derive(Clone, Copy, Debug)]
pub struct Controls {
    /// Which grammar is shown.
    pub model_idx: usize,
    /// Which generation is shown.
    pub step: usize,
    /// Segment length.
    pub dist: u32,
    /// Turning angle, in thousandths of a degree.
    pub delta: i64,
}

/// The settings and command that a key gives, with `n` grammars loaded.
pub open spec fn on_key_spec(c: Controls, n: nat, key: Key, m: Modifier) -> (Controls, Command) {
    match key {
        Key::Right => (Controls { model_idx: ((c.model_idx + 1) % (n as int)) as usize, ..c }, Command::Regenerate),
        Key::Left => (
            Controls {
                model_idx: (if c.model_idx == 0 {
                    n - 1
                } else {
                    c.model_idx - 1
                }) as usize,
                ..c
            },
            Command::Regenerate,
        ),
        Key::Down => (
            Controls { step: (if c.step > 0 { c.step - 1 } else { 0 }) as usize, ..c },
            Command::Regenerate,
        ),
        Key::Up => (
            Controls { step: (if c.step < usize::MAX { c.step + 1 } else { c.step as int }) as usize, ..c },
            Command::Regenerate,
        ),
        Key::Subtract => (
            match m {
                Modifier::Control => Controls {
                    dist: (if c.dist > 0 { c.dist - 1 } else { 0 }) as u32,
                    ..c
                },
                Modifier::Alt => if c.delta >= 0 {
                    Controls { delta: (c.delta - ANGLE_STEP) as i64, ..c }
                } else {
                    c
                },
                _ => c,
            },
            Command::Nothing,
        ),
        Key::Add => (
            match m {
                Modifier::Control => Controls {
                    dist: (if c.dist < u32::MAX { c.dist + 1 } else { c.dist as int }) as u32,
                    ..c
                },
                Modifier::Alt => if c.delta < FULL_TURN {
                    Controls { delta: (c.delta + ANGLE_STEP) as i64, ..c }
                } else {
                    c
                },
                _ => c,
            },
            Command::Nothing,
        ),
        Key::R => (c, Command::Restart),
        Key::Other => (c, Command::Nothing),
    }
}

/// Reacts to one key press: cycles through the `n` grammars, steps through
/// the generations, changes the segment length (with Control) or the turning
/// angle (with Alt), or asks for a restart.
pub fn on_key(c: Controls, n: usize, key: Key, m: Modifier) -> (r: (Controls, Command))
    requires
        c.model_idx < n,
    ensures
        r == on_key_spec(c, n as nat, key, m),
{
    match key {
        Key::Right => (Controls { model_idx: (c.model_idx + 1) % n, ..c }, Command::Regenerate),
        Key::Left => {
            let idx = if c.model_idx == 0 {
                n - 1
            } else {
                c.model_idx - 1
            };
            (Controls { model_idx: idx, ..c }, Command::Regenerate)
        },
        Key::Down => {
            let step = if c.step > 0 {
                c.step - 1
            } else {
                0
            };
            (Controls { step, ..c }, Command::Regenerate)
        },
        Key::Up => {
            let step = if c.step < usize::MAX {
                c.step + 1
            } else {
                c.step
            };
            (Controls { step, ..c }, Command::Regenerate)
        },
        Key::Subtract => {
            let next = match m {
                Modifier::Control => {
                    let dist = if c.dist > 0 {
                        c.dist - 1
                    } else {
                        0
                    };
                    Controls { dist, ..c }
                },
                Modifier::Alt => if c.delta >= 0 {
                    Controls { delta: c.delta - ANGLE_STEP, ..c }
                } else {
                    c
                },
                _ => c,
            };
            (next, Command::Nothing)
        },
        Key::Add => {
            let next = match m {
                Modifier::Control => {
                    let dist = if c.dist < u32::MAX {
                        c.dist + 1
                    } else {
                        c.dist
                    };
                    Controls { dist, ..c }
                },
                Modifier::Alt => if c.delta < FULL_TURN {
                    Controls { delta: c.delta + ANGLE_STEP, ..c }
                } else {
                    c
                },
                _ => c,
            };
            (next, Command::Nothing)
        },
        Key::R => (c, Command::Restart),
        Key::Other => (c, Command::Nothing),
    }
}

/// The loaded grammars, their rewriting systems, the settings and the pen of
/// an interactive display.
pub struct Viewer {
    systems: Vec<LSystem>,
    deltas: Vec<i64>,
    controls: Controls,
    pen: Drawer,
    sequence: String,
}

/// The mathematical content of a `Viewer`.
pub ghost struct ViewerView {
    /// One rewriting system per grammar, in loading order.
    pub systems: Seq<LSystemView>,
    /// The configured turning angle of each grammar.
    pub deltas: Seq<i64>,
    pub controls: Controls,
    /// The generation shown.
    pub sequence: Seq<char>,
    /// The pen's heading at its origin.
    pub origin_angle: i64,
    /// The pen holds every heading within one full turn.
    pub pen_wf: bool,
}

impl ViewerView {
    /// Grammars, systems and settings agree: one system and one angle per
    /// grammar, a grammar index in range, every system well formed.
    pub open spec fn consistent(self) -> bool {
        &&& self.systems.len() > 0
        &&& self.deltas.len() == self.systems.len()
        &&& self.controls.model_idx < self.systems.len()
        &&& forall|i: int| 0 <= i < self.systems.len() ==> (#[trigger] self.systems[i]).wf()
        &&& self.pen_wf
    }

    /// The sequence shown is the chosen generation of the chosen grammar.
    pub open spec fn shows_current(self) -> bool {
        let sys = self.systems[self.controls.model_idx as int];
        &&& self.controls.step <= sys.steps.len()
        &&& self.sequence == sys.generation(self.controls.step as nat)
    }

    pub open spec fn wf(self) -> bool {
        self.consistent() && self.shows_current()
    }
}

/// `v` with its cache cleared.
pub open spec fn cleared(v: LSystemView) -> LSystemView {
    LSystemView { steps: Seq::empty(), ..v }
}

impl View for Viewer {
    type V = ViewerView;

    closed spec fn view(&self) -> ViewerView {
        ViewerView {
            systems: self.systems@.map_values(|s: LSystem| s@),
            deltas: self.deltas@,
            controls: self.controls,
            sequence: self.sequence@,
            origin_angle: self.pen@.origin_angle,
            pen_wf: self.pen@.wf(),
        }
    }
}

impl Viewer {
    /// Loads `models` and shows generation 1 of the first.
    pub fn new(models: Vec<Model>) -> (r: Viewer)
        requires
            models@.len() > 0,
            forall|i: int| 0 <= i < models@.len() ==> table_wf((#[trigger] models@[i]).rules@),
        ensures
            r@.wf(),
            r@.systems.len() == models@.len(),
            forall|i: int|
                0 <= i < models@.len() ==> (#[trigger] r@.systems[i]).start == models@[i].start@
                    && r@.systems[i].rules == models@[i].rules@ && r@.deltas[i] == models@[i].delta,
            forall|i: int| 1 <= i < models@.len() ==> (#[trigger] r@.systems[i]).steps.len() == 0,
            r@.controls == (Controls { model_idx: 0, step: 1, dist: START_DIST, delta: models@[0].delta }),
            LSystemView::serves(cleared(r@.systems[0]), r@.systems[0], 1, r@.sequence),
            r@.origin_angle == START_HEADING,
    {
        let ghost all = models@;
        let mut models = models;
        let mut systems: Vec<LSystem> = Vec::new();
        let mut deltas: Vec<i64> = Vec::new();
        while models.len() > 0
            invariant
                systems@.len() == deltas@.len(),
                systems@.len() + models@.len() == all.len(),
                models@ == all.subrange(systems@.len() as int, all.len() as int),
                forall|i: int| 0 <= i < all.len() ==> table_wf((#[trigger] all[i]).rules@),
                forall|i: int|
                    0 <= i < systems@.len() ==> (#[trigger] systems@[i])@.wf()
                        && systems@[i]@.start == all[i].start@ && systems@[i]@.rules
                        == all[i].rules@ && systems@[i]@.steps.len() == 0 && deltas@[i]
                        == all[i].delta,
            decreases models@.len(),
        {
            let ghost k = systems@.len() as int;
            let m = models.remove(0);
            assert(m == all[k]);
            deltas.push(m.delta);
            systems.push(LSystem::new(m.start, m.rules));
            assert(models@ =~= all.subrange(k + 1, all.len() as int));
        }
        let mut viewer = Viewer {
            systems,
            deltas,
            controls: Controls { model_idx: 0, step: 1, dist: START_DIST, delta: 0 },
            pen: Drawer::new(START_HEADING),
            sequence: String::new(),
        };
        proof {
            assert(viewer@.systems[0].steps =~= Seq::<Seq<char>>::empty());
            assert(viewer@.systems[0] == cleared(viewer@.systems[0]));
        }
        viewer.regenerate();
        viewer
    }

    /// Takes the turning angle of the current grammar and fetches its current
    /// generation.
    fn regenerate(&mut self)
        requires
            old(self)@.consistent(),
        ensures
            final(self)@.wf(),
            final(self)@.controls == (Controls {
                delta: old(self)@.deltas[old(self)@.controls.model_idx as int],
                ..old(self)@.controls
            }),
            final(self)@.deltas == old(self)@.deltas,
            final(self)@.origin_angle == old(self)@.origin_angle,
            final(self)@.systems == old(self)@.systems.update(
                old(self)@.controls.model_idx as int,
                final(self)@.systems[old(self)@.controls.model_idx as int],
            ),
            LSystemView::serves(
                old(self)@.systems[old(self)@.controls.model_idx as int],
                final(self)@.systems[old(self)@.controls.model_idx as int],
                old(self)@.controls.step as nat,
                final(self)@.sequence,
            ),
    {
        let idx = self.controls.model_idx;
        self.controls.delta = self.deltas[idx];
        let ghost before = self.systems@;
        let mut sys = self.systems.remove(idx);
        assert(sys@ == old(self)@.systems[idx as int]);
        self.sequence = sys.get_step(self.controls.step);
        self.systems.insert(idx, sys);
        proof {
            assert(self.systems@ =~= before.update(idx as int, sys));
            assert(self@.systems =~= old(self)@.systems.update(idx as int, sys@));
            assert forall|i: int| 0 <= i < self@.systems.len() implies (
            #[trigger] self@.systems[i]).wf() by {
                if i != idx {
                    assert(self@.systems[i] == old(self)@.systems[i]);
                }
            }
        }
    }

    /// Clears the cache of the current grammar's system.
    fn restart(&mut self)
        requires
            old(self)@.consistent(),
        ensures
            final(self)@.consistent(),
            final(self)@ == (ViewerView {
                systems: old(self)@.systems.update(
                    old(self)@.controls.model_idx as int,
                    cleared(old(self)@.systems[old(self)@.controls.model_idx as int]),
                ),
                ..old(self)@
            }),
    {
        let idx = self.controls.model_idx;
        let ghost before = self.systems@;
        let mut sys = self.systems.remove(idx);
        sys.reset();
        self.systems.insert(idx, sys);
        proof {
            assert(sys@.steps =~= Seq::<Seq<char>>::empty());
            assert(sys@ == cleared(old(self)@.systems[idx as int]));
            assert(self.systems@ =~= before.update(idx as int, sys));
            assert(self@.systems =~= old(self)@.systems.update(idx as int, sys@));
            assert forall|i: int| 0 <= i < self@.systems.len() implies (
            #[trigger] self@.systems[i]).wf() by {
                if i != idx {
                    assert(self@.systems[i] == old(self)@.systems[i]);
                }
            }
        }
    }

    /// Reacts to a key press: changes the settings as `on_key` says, and
    /// fetches the generation to show when the key asks for it (after
    /// clearing the cache, for a restart), taking the grammar's own turning
    /// angle.
    pub fn process_event(&mut self, key: Key, m: Modifier)
        requires
            old(self)@.wf(),
        ensures
            final(self)@.wf(),
            final(self)@.deltas == old(self)@.deltas,
            final(self)@.origin_angle == old(self)@.origin_angle,
            ({
                let (c, cmd) = on_key_spec(old(self)@.controls, old(self)@.systems.len(), key, m);
                let idx = c.model_idx as int;
                match cmd {
                    Command::Nothing => final(self)@ == (ViewerView { controls: c, ..old(self)@ }),
                    Command::Regenerate => {
                        &&& final(self)@.controls == (Controls { delta: old(self)@.deltas[idx], ..c })
                        &&& final(self)@.systems == old(self)@.systems.update(idx, final(self)@.systems[idx])
                        &&& LSystemView::serves(old(self)@.systems[idx], final(self)@.systems[idx], c.step as nat, final(self)@.sequence)
                    },
                    Command::Restart => {
                        &&& final(self)@.controls == (Controls { delta: old(self)@.deltas[idx], ..c })
                        &&& final(self)@.systems == old(self)@.systems.update(idx, final(self)@.systems[idx])
                        &&& LSystemView::serves(cleared(old(self)@.systems[idx]), final(self)@.systems[idx], c.step as nat, final(self)@.sequence)
                    },
                }
            }),
    {
        let (c, cmd) = on_key(self.controls, self.systems.len(), key, m);
        self.controls = c;
        match cmd {
            Command::Nothing => {},
            Command::Regenerate => {
                self.regenerate();
            },
            Command::Restart => {
                self.restart();
                self.regenerate();
                proof {
                    let idx = c.model_idx as int;
                    assert(final(self)@.systems =~= old(self)@.systems.update(idx, final(self)@.systems[idx]));
                }
            },
        }
    }

    /// The settings in force.
    pub fn controls(&self) -> (r: Controls)
        ensures
            r == self@.controls,
    {
        self.controls
    }

    /// The generation shown.
    pub fn sequence(&self) -> (r: String)
        ensures
            r@ == self@.sequence,
    {
        self.sequence.clone()
    }

    /// Interprets the generation shown with the current turning angle, from
    /// the pen's origin pose.
    pub fn draw(&mut self) -> (path: TurtlePath)
        requires
            old(self)@.wf(),
            old(self)@.sequence.len() < usize::MAX,
        ensures
            final(self)@.wf(),
            final(self)@ == old(self)@,
            path.points@ == interpret_all(
                initial_trace(old(self)@.origin_angle),
                old(self)@.sequence,
                old(self)@.controls.delta as int,
            ).points,
            path.actions@ == interpret_all(
                initial_trace(old(self)@.origin_angle),
                old(self)@.sequence,
                old(self)@.controls.delta as int,
            ).actions,
            forall|k: int| 0 <= k < path.points@.len() ==> (#[trigger] path.points@[k]).from <= k,
            forall|k: int|
                0 <= k < path.actions@.len() ==> match #[trigger] path.actions@[k] {
                    DrawAction::Segment { from, to } => from < to <= path.points@.len(),
                    DrawAction::Move { to } => 1 <= to <= path.points@.len(),
                },
    {
        self.pen.draw(self.sequence.as_str(), self.controls.delta)
    }
}

/// Two consistent states that show the same generation of the same
/// single-rule grammar show the same sequence: restarting that grammar's
/// system (key `R`) shows again what was shown before.
pub proof fn lemma_restart_shows_same(v0: ViewerView, v1: ViewerView)
    requires
        v0.wf(),
        v1.wf(),
        v1.controls.model_idx == v0.controls.model_idx,
        v1.controls.step == v0.controls.step,
        v1.systems[v0.controls.model_idx as int].start == v0.systems[v0.controls.model_idx as int].start,
        v1.systems[v0.controls.model_idx as int].rules == v0.systems[v0.controls.model_idx as int].rules,
        deterministic(v0.systems[v0.controls.model_idx as int].rules),
    ensures
        v1.sequence == v0.sequence,
{
    let idx = v0.controls.model_idx as int;
    let k = v0.controls.step as nat;
    lemma_deterministic_generation(v0.systems[idx], k);
    lemma_deterministic_generation(v1.systems[idx], k);
}

} // verus!
