use vstd::prelude::*;
use crate::math::{angle_ok, rotate_angle, turned, Rotation, FULL_TURN};

verus! {

/// A pose of the pen: the point it stands on and its heading.
#[derive(Clone, Copy, Debug)]
pub struct DrawerState {
    /// Number of the point in the path being drawn (0 is the origin).
    pub position: usize,
    /// Heading, in thousandths of a degree, `0 <= angle < FULL_TURN`.
    pub angle: i64,
}

/// A point of a path, reached from an earlier point by one step.
#[derive(Clone, Copy, Debug)]
pub struct PathPoint {
    /// The point it is reached from.
    pub from: usize,
    /// The heading of the step, in thousandths of a degree.
    pub angle: i64,
}

/// A drawing primitive, over point numbers of a path.
#[derive(Clone, Copy, Debug)]
pub enum DrawAction {
    /// A visible segment between two points.
    Segment { from: usize, to: usize },
    /// A move to a point, drawing nothing.
    Move { to: usize },
}

/// The outcome of interpreting a symbol string. Point 0 is the origin; point
/// `k >= 1` is `points[k - 1]`: one step from point `points[k - 1].from` along
/// heading `points[k - 1].angle`.
pub struct TurtlePath {
    pub points: Vec<PathPoint>,
    pub actions: Vec<DrawAction>,
}

/// The pen and its stack of saved poses.
pub struct Drawer {
    position: usize,
    angle: i64,
    origin_angle: i64,
    states: Vec<DrawerState>,
}

/// The mathematical content of a `Drawer`.
pub ghost struct DrawerView {
    pub pose: DrawerState,
    pub origin_angle: i64,
    pub stack: Seq<DrawerState>,
}

impl DrawerView {
    /// Every heading the drawer holds lies in one full turn.
    pub open spec fn wf(self) -> bool {
        &&& angle_ok(self.pose.angle as int)
        &&& angle_ok(self.origin_angle as int)
        &&& forall|i: int| 0 <= i < self.stack.len() ==> angle_ok(#[trigger] self.stack[i].angle as int)
    }
}

impl View for Drawer {
    type V = DrawerView;

    closed spec fn view(&self) -> DrawerView {
        DrawerView {
            pose: DrawerState { position: self.position, angle: self.angle },
            origin_angle: self.origin_angle,
            stack: self.states@,
        }
    }
}

/// The state of an interpretation: pen, saved poses and what was drawn.
pub ghost struct Trace {
    pub pose: DrawerState,
    pub stack: Seq<DrawerState>,
    pub points: Seq<PathPoint>,
    pub actions: Seq<DrawAction>,
}

/// The state before any symbol: at the origin, heading `angle`, nothing saved
/// or drawn.
pub open spec fn initial_trace(angle: i64) -> Trace {
    Trace {
        pose: DrawerState { position: 0, angle },
        stack: Seq::empty(),
        points: Seq::empty(),
        actions: Seq::empty(),
    }
}

/// The pen at a new point one step ahead, with the step recorded as a point.
pub open spec fn stepped(t: Trace, drawn: bool) -> Trace {
    let to = (t.points.len() + 1) as usize;
    Trace {
        pose: DrawerState { position: to, angle: t.pose.angle },
        stack: t.stack,
        points: t.points.push(PathPoint { from: t.pose.position, angle: t.pose.angle }),
        actions: t.actions.push(
            if drawn {
                DrawAction::Segment { from: t.pose.position, to }
            } else {
                DrawAction::Move { to }
            },
        ),
    }
}

/// The pen turned by `d`.
pub open spec fn heading_turned(t: Trace, d: int) -> Trace {
    Trace {
        pose: DrawerState { position: t.pose.position, angle: turned(t.pose.angle as int, d) as i64 },
        ..t
    }
}

/// The effect of one symbol with turning angle `delta`.
pub open spec fn interpret_symbol(t: Trace, c: char, delta: int) -> Trace {
    if c == 'F' {
        stepped(t, true)
    } else if c == 'f' {
        stepped(t, false)
    } else if c == '+' {
        heading_turned(t, delta)
    } else if c == '-' {
        heading_turned(t, -delta)
    } else if c == '[' {
        Trace { stack: t.stack.push(t.pose), ..t }
    } else if c == ']' {
        if t.stack.len() > 0 {
            Trace { pose: t.stack.last(), stack: t.stack.drop_last(), ..t }
        } else {
            t
        }
    } else {
        t
    }
}

/// The effect of a symbol string, left to right.
pub open spec fn interpret_all(t: Trace, s: Seq<char>, delta: int) -> Trace
    decreases s.len(),
{
    if s.len() == 0 {
        t
    } else {
        interpret_symbol(interpret_all(t, s.drop_last(), delta), s.last(), delta)
    }
}

/// The interpretation state that a drawer and a partial path make up.
pub open spec fn trace_of(d: DrawerView, p: TurtlePath) -> Trace {
    Trace { pose: d.pose, stack: d.stack, points: p.points@, actions: p.actions@ }
}

/// Every point number in `t` names a point that exists, and every point is
/// reached from an earlier one.
pub open spec fn refs_ok(t: Trace) -> bool {
    &&& t.pose.position <= t.points.len()
    &&& forall|i: int| 0 <= i < t.stack.len() ==> (#[trigger] t.stack[i]).position <= t.points.len()
    &&& forall|k: int| 0 <= k < t.points.len() ==> (#[trigger] t.points[k]).from <= k
    &&& forall|k: int|
        0 <= k < t.actions.len() ==> match #[trigger] t.actions[k] {
            DrawAction::Segment { from, to } => from < to <= t.points.len(),
            DrawAction::Move { to } => 1 <= to <= t.points.len(),
        }
}

proof fn lemma_symbol_refs_ok(t: Trace, c: char, delta: int)
    requires
        refs_ok(t),
        t.points.len() < usize::MAX,
    ensures
        refs_ok(interpret_symbol(t, c, delta)),
        interpret_symbol(t, c, delta).points.len() <= t.points.len() + 1,
{
    let q = interpret_symbol(t, c, delta);
    if c == 'F' || c == 'f' {
        assert forall|k: int| 0 <= k < q.actions.len() implies match #[trigger] q.actions[k] {
            DrawAction::Segment { from, to } => from < to <= q.points.len(),
            DrawAction::Move { to } => 1 <= to <= q.points.len(),
        } by {
            if k < t.actions.len() {
                assert(q.actions[k] == t.actions[k]);
            }
        }
        assert forall|k: int| 0 <= k < q.points.len() implies (#[trigger] q.points[k]).from <= k by {
            if k < t.points.len() {
                assert(q.points[k] == t.points[k]);
            }
        }
    } else if c == '[' {
        assert forall|i: int| 0 <= i < q.stack.len() implies (#[trigger] q.stack[i]).position
            <= q.points.len() by {
            if i < t.stack.len() {
                assert(q.stack[i] == t.stack[i]);
            }
        }
    } else if c == ']' && t.stack.len() > 0 {
        assert(t.stack[t.stack.len() - 1].position <= t.points.len());
        assert forall|i: int| 0 <= i < q.stack.len() implies (#[trigger] q.stack[i]).position
            <= q.points.len() by {
            assert(q.stack[i] == t.stack[i]);
        }
    }
}

/// Interpreting a string from the origin records at most one point per
/// symbol, reaches each point from an earlier one, and names only points that
/// exist.
pub proof fn lemma_interpretation_refs_ok(angle: i64, s: Seq<char>, delta: int)
    requires
        s.len() < usize::MAX,
    ensures
        refs_ok(interpret_all(initial_trace(angle), s, delta)),
        interpret_all(initial_trace(angle), s, delta).points.len() <= s.len(),
    decreases s.len(),
{
    if s.len() > 0 {
        lemma_interpretation_refs_ok(angle, s.drop_last(), delta);
        lemma_symbol_refs_ok(interpret_all(initial_trace(angle), s.drop_last(), delta), s.last(), delta);
    }
}

/// Branches opened minus branches closed in `s`.
pub open spec fn depth(s: Seq<char>) -> int
    decreases s.len(),
{
    if s.len() == 0 {
        0
    } else {
        depth(s.drop_last()) + if s.last() == '[' {
            1int
        } else if s.last() == ']' {
            -1int
        } else {
            0int
        }
    }
}

/// No prefix of `s` closes a branch that it did not open.
pub open spec fn never_unbalanced(s: Seq<char>) -> bool
    decreases s.len(),
{
    s.len() == 0 || (never_unbalanced(s.drop_last()) && depth(s) >= 0)
}

/// Interpreting `a` then `b` is interpreting `a + b`.
pub proof fn lemma_interpret_concat(t: Trace, a: Seq<char>, b: Seq<char>, delta: int)
    ensures
        interpret_all(t, a + b, delta) == interpret_all(interpret_all(t, a, delta), b, delta),
    decreases b.len(),
{
    if b.len() == 0 {
        assert(a + b =~= a);
    } else {
        assert((a + b).drop_last() =~= a + b.drop_last());
        assert((a + b).last() == b.last());
        lemma_interpret_concat(t, a, b.drop_last(), delta);
    }
}

proof fn lemma_stack_extends(t: Trace, w: Seq<char>, delta: int)
    requires
        never_unbalanced(w),
    ensures
        interpret_all(t, w, delta).stack.len() == t.stack.len() + depth(w),
        interpret_all(t, w, delta).stack.take(t.stack.len() as int) == t.stack,
    decreases w.len(),
{
    let n = t.stack.len() as int;
    if w.len() == 0 {
        assert(t.stack.take(n) =~= t.stack);
    } else {
        let w0 = w.drop_last();
        lemma_stack_extends(t, w0, delta);
        let q0 = interpret_all(t, w0, delta);
        let q = interpret_all(t, w, delta);
        assert(never_unbalanced(w0));
        if w0.len() == 0 {
            assert(depth(w0) == 0);
        }
        assert(depth(w0) >= 0);
        if w.last() == '[' {
            assert(q.stack == q0.stack.push(q0.pose));
            assert(q.stack.take(n) =~= q0.stack.take(n));
        } else if w.last() == ']' {
            assert(depth(w) == depth(w0) - 1);
            assert(depth(w) >= 0);
            assert(q0.stack.len() > n);
            assert(q.stack == q0.stack.drop_last());
            assert(q.stack.take(n) =~= q0.stack.take(n));
        }
    }
}

/// A branch `[ w ]` whose body `w` closes every branch it opens leaves the
/// pose and the saved poses as they were before it: what follows the branch
/// continues from the position and heading at its start.
pub proof fn lemma_branch_restores_pose(t: Trace, w: Seq<char>, delta: int)
    requires
        never_unbalanced(w),
        depth(w) == 0,
    ensures
        interpret_all(t, seq!['['] + w + seq![']'], delta).pose == t.pose,
        interpret_all(t, seq!['['] + w + seq![']'], delta).stack == t.stack,
{
    let open = seq!['['];
    let close = seq![']'];
    lemma_interpret_concat(t, open + w, close, delta);
    lemma_interpret_concat(t, open, w, delta);
    assert(open.drop_last() =~= Seq::<char>::empty());
    assert(close.drop_last() =~= Seq::<char>::empty());
    let t1 = interpret_all(t, open, delta);
    assert(open.last() == '[');
    assert(interpret_all(t, open.drop_last(), delta) == t);
    assert(t1.stack == t.stack.push(t.pose));
    lemma_stack_extends(t1, w, delta);
    let t2 = interpret_all(t1, w, delta);
    assert(t2.stack =~= t.stack.push(t.pose));
    assert(t2.stack.drop_last() =~= t.stack);
    assert(close.last() == ']');
    assert(interpret_all(t2, close.drop_last(), delta) == t2);
}

impl Drawer {
    /// A drawer at the origin, heading `angle` (taken within one full turn).
    pub fn new(angle: i64) -> (r: Drawer)
        ensures
            r@.wf(),
            r@.pose.position == 0,
            r@.pose.angle == angle as int % (FULL_TURN as int),
            r@.origin_angle == r@.pose.angle,
            r@.stack.len() == 0,
    {
        let a = match angle.checked_rem_euclid(FULL_TURN) {
            Some(a) => a,
            None => 0,
        };
        Drawer { position: 0, angle: a, origin_angle: a, states: Vec::new() }
    }

    /// Back to the origin pose, with no saved pose.
    pub fn reset(&mut self)
        requires
            old(self)@.wf(),
        ensures
            final(self)@.wf(),
            final(self)@.pose == (DrawerState { position: 0, angle: old(self)@.origin_angle }),
            final(self)@.origin_angle == old(self)@.origin_angle,
            final(self)@.stack.len() == 0,
    {
        self.position = 0;
        self.angle = self.origin_angle;
        self.states.clear();
    }

    /// Saves the current pose.
    pub fn save_state(&mut self)
        requires
            old(self)@.wf(),
        ensures
            final(self)@.wf(),
            final(self)@.pose == old(self)@.pose,
            final(self)@.origin_angle == old(self)@.origin_angle,
            final(self)@.stack == old(self)@.stack.push(old(self)@.pose),
    {
        let ghost prev = self@;
        self.states.push(DrawerState { position: self.position, angle: self.angle });
        assert forall|i: int| 0 <= i < self@.stack.len() implies angle_ok(
            #[trigger] self@.stack[i].angle as int,
        ) by {
            if i < prev.stack.len() {
                assert(self@.stack[i] == prev.stack[i]);
            }
        }
    }

    /// Restores the last saved pose and forgets it; nothing happens when no
    /// pose is saved.
    pub fn load_last_state(&mut self)
        requires
            old(self)@.wf(),
        ensures
            final(self)@.wf(),
            final(self)@.origin_angle == old(self)@.origin_angle,
            old(self)@.stack.len() > 0 ==> final(self)@.pose == old(self)@.stack.last()
                && final(self)@.stack == old(self)@.stack.drop_last(),
            old(self)@.stack.len() == 0 ==> final(self)@ == old(self)@,
    {
        match self.states.pop() {
            Some(state) => {
                self.position = state.position;
                self.angle = state.angle;
            },
            None => {},
        }
    }

    /// Turns the pen by `delta` in the sense of `rotation`.
    pub fn rotate(&mut self, rotation: Rotation, delta: i64)
        requires
            old(self)@.wf(),
        ensures
            final(self)@.wf(),
            final(self)@.pose.position == old(self)@.pose.position,
            final(self)@.pose.angle == turned(old(self)@.pose.angle as int, rotation.sign() * delta),
            final(self)@.origin_angle == old(self)@.origin_angle,
            final(self)@.stack == old(self)@.stack,
    {
        let ghost prev = self@;
        self.angle = rotate_angle(self.angle, &rotation, delta);
        assert(self@.stack == prev.stack);
    }

    /// Steps forward, recording the new point, with a segment when `drawn`.
    fn step(&mut self, path: &mut TurtlePath, drawn: bool)
        requires
            old(self)@.wf(),
            old(path).points@.len() < usize::MAX,
        ensures
            final(self)@.wf(),
            final(self)@.origin_angle == old(self)@.origin_angle,
            trace_of(final(self)@, *final(path)) == stepped(trace_of(old(self)@, *old(path)), drawn),
    {
        let to = path.points.len() + 1;
        path.points.push(PathPoint { from: self.position, angle: self.angle });
        if drawn {
            path.actions.push(DrawAction::Segment { from: self.position, to });
        } else {
            path.actions.push(DrawAction::Move { to });
        }
        self.position = to;
        assert(self@.stack == old(self)@.stack);
        assert(path.points@ == trace_of(old(self)@, *old(path)).points.push(
            PathPoint { from: old(self)@.pose.position, angle: old(self)@.pose.angle },
        ));
    }

    /// Draws a segment one step ahead and moves there.
    pub fn draw_line(&mut self, path: &mut TurtlePath)
        requires
            old(self)@.wf(),
            old(path).points@.len() < usize::MAX,
        ensures
            final(self)@.wf(),
            final(self)@.origin_angle == old(self)@.origin_angle,
            trace_of(final(self)@, *final(path)) == stepped(trace_of(old(self)@, *old(path)), true),
    {
        self.step(path, true)
    }

    /// Moves one step ahead without drawing.
    pub fn move_pen(&mut self, path: &mut TurtlePath)
        requires
            old(self)@.wf(),
            old(path).points@.len() < usize::MAX,
        ensures
            final(self)@.wf(),
            final(self)@.origin_angle == old(self)@.origin_angle,
            trace_of(final(self)@, *final(path)) == stepped(trace_of(old(self)@, *old(path)), false),
    {
        self.step(path, false)
    }

    /// Interprets `sequence` from the origin pose with turning angle `delta`:
    /// `F` draws a step, `f` moves a step, `+` and `-` turn, `[` saves the
    /// pose and `]` restores the last saved one; other symbols do nothing.
    pub fn draw(&mut self, sequence: &str, delta: i64) -> (path: TurtlePath)
        requires
            old(self)@.wf(),
            sequence@.len() < usize::MAX,
        ensures
            final(self)@.wf(),
            final(self)@.origin_angle == old(self)@.origin_angle,
            trace_of(final(self)@, path) == interpret_all(
                initial_trace(old(self)@.origin_angle),
                sequence@,
                delta as int,
            ),
            refs_ok(trace_of(final(self)@, path)),
    {
        self.reset();
        let mut path = TurtlePath { points: Vec::new(), actions: Vec::new() };
        let ghost origin = self@.origin_angle;
        proof {
            assert(sequence@.take(0) =~= Seq::<char>::empty());
            assert(path.points@ =~= Seq::<PathPoint>::empty());
            assert(path.actions@ =~= Seq::<DrawAction>::empty());
            assert(self@.stack =~= Seq::<DrawerState>::empty());
            assert(trace_of(self@, path) == interpret_all(
                initial_trace(origin),
                sequence@.take(0),
                delta as int,
            ));
        }
        for c in it: sequence.chars()
            invariant
                it.seq() == sequence@,
                sequence@.len() < usize::MAX,
                self@.wf(),
                self@.origin_angle == origin,
                path.points@.len() <= it.index(),
                trace_of(self@, path) == interpret_all(
                    initial_trace(origin),
                    sequence@.take(it.index() as int),
                    delta as int,
                ),
        {
            let ghost i = it.index() as int;
            let ghost before = trace_of(self@, path);
            if c == 'F' {
                self.draw_line(&mut path);
            } else if c == 'f' {
                self.move_pen(&mut path);
            } else if c == '+' {
                self.rotate(Rotation::ClockWise, delta);
            } else if c == '-' {
                self.rotate(Rotation::AntiClockWise, delta);
            } else if c == '[' {
                self.save_state();
            } else if c == ']' {
                self.load_last_state();
            }
            proof {
                assert(sequence@.take(i + 1).drop_last() =~= sequence@.take(i));
                assert(trace_of(self@, path) == interpret_symbol(before, c, delta as int));
            }
        }
        proof {
            assert(sequence@.take(sequence@.len() as int) =~= sequence@);
            lemma_interpretation_refs_ok(origin, sequence@, delta as int);
        }
        path
    }
}

} // verus!
