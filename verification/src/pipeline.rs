//! The order in which the units around a request run: every global unit's
//! part before the handler in the order of registration, then the guards of
//! the route, then the handler, then the after parts of the global units that
//! started, last started first. A unit that stops the request, or a guard
//! that refuses it, turns the run round at once.

use vstd::prelude::*;

verus! {

/// What runs next.
#[derive(Debug, PartialEq, Eq, Clone, Copy, Structural)]
pub enum Step {
    /// The part before the handler of the global unit with this index.
    Before(usize),
    /// The guard with this index.
    Check(usize),
    /// The handler.
    Handle,
    /// The part after the handler of the global unit with this index.
    After(usize),
    /// Nothing: the run is over.
    Finish,
}

/// Why a run turned round.
#[derive(Debug, PartialEq, Eq, Clone, Copy, Structural)]
pub enum Cause {
    /// The global unit that started last asked to stop.
    Stopped,
    /// The guard with this index refused the request.
    Refused(usize),
    /// The handler answered.
    Handled,
}

#[derive(Debug, PartialEq, Eq, Clone, Copy, Structural)]
enum Stage {
    /// The unit with this index starts next.
    Entering(usize),
    /// All units have started; the guard with this index checks next.
    Guarding(usize),
    /// All units have started and all guards have passed.
    Handling,
    /// Of `started` units, `left` still wait for their after part.
    Leaving { left: usize, started: usize, cause: Cause },
}

/// The before parts of the first `n` units, in order.
pub open spec fn befores(n: nat) -> Seq<Step> {
    Seq::new(n, |i: int| Step::Before(i as usize))
}

/// The first `n` guards, in order.
pub open spec fn checks(n: nat) -> Seq<Step> {
    Seq::new(n, |i: int| Step::Check(i as usize))
}

/// The after parts of the first `n` units, last first.
pub open spec fn afters(n: nat) -> Seq<Step> {
    Seq::new(n, |i: int| Step::After((n - 1 - i) as usize))
}

/// What runs between the before parts and the after parts.
pub open spec fn middle(guards: nat, cause: Cause) -> Seq<Step> {
    match cause {
        Cause::Stopped => Seq::empty(),
        Cause::Refused(j) => checks((j + 1) as nat),
        Cause::Handled => checks(guards).push(Step::Handle),
    }
}

/// The steps of a whole run in which `started` units started and which
/// turned round for `cause`.
pub open spec fn plan(guards: nat, started: nat, cause: Cause) -> Seq<Step> {
    befores(started) + middle(guards, cause) + afters(started)
}

/// Whether a run over `units` units and `guards` guards can end with
/// `started` units started and for `cause`.
pub open spec fn can_end(units: nat, guards: nat, started: nat, cause: Cause) -> bool {
    match cause {
        Cause::Stopped => 1 <= started <= units,
        Cause::Refused(j) => started == units && j < guards,
        Cause::Handled => started == units,
    }
}

/// The step with which the guards take over from the guard with index `j`
/// on: that guard, or the handler where there is no such guard.
pub open spec fn step_to_guard(guards: nat, j: nat) -> Step {
    if j < guards {
        Step::Check(j as usize)
    } else {
        Step::Handle
    }
}

/// The step with which a run goes on from the unit with index `i` on: the
/// before part of that unit, or the guards where there is no such unit.
pub open spec fn step_to_unit(units: nat, guards: nat, i: nat) -> Step {
    if i < units {
        Step::Before(i as usize)
    } else {
        step_to_guard(guards, 0)
    }
}

/// The step with which a run goes back while `left` units wait for their
/// after part: the after part of the last of them, or the end.
pub open spec fn step_back(left: nat) -> Step {
    if left > 0 {
        Step::After((left - 1) as usize)
    } else {
        Step::Finish
    }
}

/// The place of one request in its run.
#[derive(Debug, Clone, Copy)]
pub struct Pipeline {
    units: usize,
    guards: usize,
    stage: Stage,
}

impl Pipeline {
    /// The number of global units.
    pub closed spec fn units(self) -> nat {
        self.units as nat
    }

    /// The number of guards of the route.
    pub closed spec fn guards(self) -> nat {
        self.guards as nat
    }

    /// Holds of every run that `start` and `after` give.
    #[verifier::type_invariant]
    pub closed spec fn wf(self) -> bool {
        match self.stage {
            Stage::Entering(i) => i < self.units,
            Stage::Guarding(j) => j < self.guards,
            Stage::Handling => true,
            Stage::Leaving { left, started, cause } => left <= started && can_end(
                self.units as nat,
                self.guards as nat,
                started as nat,
                cause,
            ),
        }
    }

    spec fn guard(self, j: int) -> Stage {
        if j < self.guards {
            Stage::Guarding(j as usize)
        } else {
            Stage::Handling
        }
    }

    spec fn enter(self, i: int) -> Stage {
        if i < self.units {
            Stage::Entering(i as usize)
        } else {
            self.guard(0)
        }
    }

    /// A run at its beginning.
    pub closed spec fn start(units: usize, guards: usize) -> Pipeline {
        let p = Pipeline { units, guards, stage: Stage::Handling };
        Pipeline { units, guards, stage: p.enter(0) }
    }

    /// Whether the run is over.
    pub closed spec fn done(self) -> bool {
        self.stage matches Stage::Leaving { left, .. } && left == 0
    }

    /// How the run ends, once it has turned round: the number of units that
    /// started, and the cause.
    pub closed spec fn ending(self) -> Option<(usize, Cause)> {
        match self.stage {
            Stage::Leaving { started, cause, .. } => Some((started, cause)),
            _ => None,
        }
    }

    /// What runs next.
    pub closed spec fn next_step(self) -> Step {
        match self.stage {
            Stage::Entering(i) => Step::Before(i),
            Stage::Guarding(j) => Step::Check(j),
            Stage::Handling => Step::Handle,
            Stage::Leaving { left, .. } => if left > 0 {
                Step::After((left - 1) as usize)
            } else {
                Step::Finish
            },
        }
    }

    /// The run after its next step has run. `halt` says that the step asked
    /// to turn round: a unit to stop, a guard by refusing.
    pub closed spec fn after(self, halt: bool) -> Pipeline {
        let stage = match self.stage {
            Stage::Entering(i) => if halt {
                Stage::Leaving {
                    left: (i + 1) as usize,
                    started: (i + 1) as usize,
                    cause: Cause::Stopped,
                }
            } else {
                self.enter(i + 1)
            },
            Stage::Guarding(j) => if halt {
                Stage::Leaving { left: self.units, started: self.units, cause: Cause::Refused(j) }
            } else {
                self.guard(j + 1)
            },
            Stage::Handling => Stage::Leaving {
                left: self.units,
                started: self.units,
                cause: Cause::Handled,
            },
            Stage::Leaving { left, started, cause } => if left > 0 {
                Stage::Leaving { left: (left - 1) as usize, started, cause }
            } else {
                self.stage
            },
        };
        Pipeline { units: self.units, guards: self.guards, stage }
    }

    /// The steps that have run so far.
    pub closed spec fn history(self) -> Seq<Step> {
        match self.stage {
            Stage::Entering(i) => befores(i as nat),
            Stage::Guarding(j) => befores(self.units as nat) + checks(j as nat),
            Stage::Handling => befores(self.units as nat) + checks(self.guards as nat),
            Stage::Leaving { left, started, cause } => befores(started as nat) + middle(
                self.guards as nat,
                cause,
            ) + afters(started as nat).take(started - left),
        }
    }

    /// A bound on the number of steps still to run.
    pub closed spec fn rank(self) -> nat {
        match self.stage {
            Stage::Entering(i) => (2 * self.units - i + self.guards + 1) as nat,
            Stage::Guarding(j) => (self.units + self.guards - j + 1) as nat,
            Stage::Handling => (self.units + 1) as nat,
            Stage::Leaving { left, .. } => left as nat,
        }
    }

    /// The run after `halts.len()` steps, the i-th of which asked to turn
    /// round if `halts[i]`.
    pub open spec fn run(self, halts: Seq<bool>) -> Pipeline
        decreases halts.len(),
    {
        if halts.len() == 0 {
            self
        } else {
            self.after(halts[0]).run(halts.drop_first())
        }
    }

    /// A run at its beginning is well formed and has no history.
    pub proof fn lemma_start(units: usize, guards: usize)
        ensures
            Pipeline::start(units, guards).wf(),
            Pipeline::start(units, guards).units() == units,
            Pipeline::start(units, guards).guards() == guards,
            Pipeline::start(units, guards).history() == Seq::<Step>::empty(),
            Pipeline::start(units, guards).ending() is None,
            Pipeline::start(units, guards).next_step() == step_to_unit(
                units as nat,
                guards as nat,
                0,
            ),
    {
        let p = Pipeline::start(units, guards);
        assert(p.history() =~= Seq::<Step>::empty());
    }

    /// One step: the history grows by the step that was next, the bound
    /// goes down, and the run stays well formed.
    pub proof fn lemma_after(self, halt: bool)
        requires
            self.wf(),
            !self.done(),
        ensures
            self.after(halt).wf(),
            self.after(halt).units() == self.units(),
            self.after(halt).guards() == self.guards(),
            self.after(halt).history() == self.history().push(self.next_step()),
            self.after(halt).rank() < self.rank(),
            self.next_step() != Step::Finish,
    {
        let q = self.after(halt);
        assert(q.history() =~= self.history().push(self.next_step()));
    }

    /// What the next step can be: a unit or a guard that exists.
    pub proof fn lemma_next_step(self)
        requires
            self.wf(),
        ensures
            match self.next_step() {
                Step::Before(i) => i < self.units() && self.ending() is None,
                Step::Check(j) => j < self.guards() && self.ending() is None,
                Step::Handle => self.ending() is None,
                Step::After(i) => i < self.units() && self.ending() is Some && i
                    < self.ending().unwrap().0,
                Step::Finish => self.done(),
            },
            self.done() ==> self.next_step() == Step::Finish,
            self.done() ==> self.ending() is Some,
    {
    }

    /// Where one step leads. A unit that stops turns the run round with
    /// itself as the last that started; one that does not hands on to the
    /// next unit, or to the guards. A guard that refuses turns the run round
    /// with every unit started; one that does not hands on to the next
    /// guard, or to the handler. The handler turns the run round. An after
    /// part hands on to the after part of the unit before it, and how the
    /// run ends stays as it was.
    pub proof fn lemma_turn(self, halt: bool)
        requires
            self.wf(),
        ensures
            match self.next_step() {
                Step::Before(i) => if halt {
                    &&& self.after(halt).ending() == Some(((i + 1) as usize, Cause::Stopped))
                    &&& self.after(halt).next_step() == Step::After(i)
                } else {
                    &&& self.after(halt).ending() is None
                    &&& self.after(halt).next_step() == step_to_unit(
                        self.units(),
                        self.guards(),
                        (i + 1) as nat,
                    )
                },
                Step::Check(j) => if halt {
                    &&& self.after(halt).ending() matches Some((started, cause))
                    &&& started == self.units()
                    &&& cause == Cause::Refused(j)
                    &&& self.after(halt).next_step() == step_back(self.units())
                } else {
                    &&& self.after(halt).ending() is None
                    &&& self.after(halt).next_step() == step_to_guard(
                        self.guards(),
                        (j + 1) as nat,
                    )
                },
                Step::Handle => {
                    &&& self.after(halt).ending() matches Some((started, cause))
                    &&& started == self.units()
                    &&& cause == Cause::Handled
                    &&& self.after(halt).next_step() == step_back(self.units())
                },
                Step::After(i) => {
                    &&& self.after(halt).ending() == self.ending()
                    &&& self.after(halt).next_step() == step_back(i as nat)
                },
                Step::Finish => self.after(halt) == self,
            },
    {
    }

    /// A run that is over has run the before parts of the units that
    /// started, in order; then, unless a unit stopped it, the guards up to
    /// the one that refused, or all guards and the handler; then the after
    /// parts of the same units, last first.
    pub proof fn lemma_done(self)
        requires
            self.wf(),
            self.done(),
        ensures
            self.ending() is Some,
            can_end(
                self.units(),
                self.guards(),
                self.ending().unwrap().0 as nat,
                self.ending().unwrap().1,
            ),
            self.history() == plan(
                self.guards(),
                self.ending().unwrap().0 as nat,
                self.ending().unwrap().1,
            ),
    {
        let started = self.ending().unwrap().0 as nat;
        assert(afters(started).take(started as int) =~= afters(started));
    }
}

impl Pipeline {
    /// A run at its beginning, over `units` global units and `guards`
    /// guards.
    pub fn new(units: usize, guards: usize) -> (p: Pipeline)
        ensures
            p == Pipeline::start(units, guards),
    {
        let stage = if units > 0 {
            Stage::Entering(0)
        } else if guards > 0 {
            Stage::Guarding(0)
        } else {
            Stage::Handling
        };
        Pipeline { units, guards, stage }
    }

    /// What runs next. A unit or a guard that it names exists.
    pub fn next(&self) -> (s: Step)
        ensures
            s == self.next_step(),
            match s {
                Step::Before(i) => i < self.units(),
                Step::Check(j) => j < self.guards(),
                Step::Handle => true,
                Step::After(i) => i < self.units(),
                Step::Finish => self.done(),
            },
    {
        proof {
            use_type_invariant(self);
        }
        match self.stage {
            Stage::Entering(i) => Step::Before(i),
            Stage::Guarding(j) => Step::Check(j),
            Stage::Handling => Step::Handle,
            Stage::Leaving { left, .. } => if left > 0 {
                Step::After(left - 1)
            } else {
                Step::Finish
            },
        }
    }

    /// Moves on by the step that was next. `halt` says that the step asked
    /// to turn round: a unit to stop, a guard by refusing. A run that is
    /// over stays as it is.
    pub fn advance(&mut self, halt: bool)
        ensures
            *final(self) == old(self).after(halt),
    {
        proof {
            use_type_invariant(&*self);
        }
        let units = self.units;
        let guards = self.guards;
        match self.stage {
            Stage::Entering(i) => {
                if halt {
                    self.stage =
                    Stage::Leaving { left: i + 1, started: i + 1, cause: Cause::Stopped };
                } else if i + 1 < units {
                    self.stage = Stage::Entering(i + 1);
                } else if guards > 0 {
                    self.stage = Stage::Guarding(0);
                } else {
                    self.stage = Stage::Handling;
                }
            },
            Stage::Guarding(j) => {
                if halt {
                    self.stage =
                    Stage::Leaving { left: units, started: units, cause: Cause::Refused(j) };
                } else if j + 1 < guards {
                    self.stage = Stage::Guarding(j + 1);
                } else {
                    self.stage = Stage::Handling;
                }
            },
            Stage::Handling => {
                self.stage = Stage::Leaving { left: units, started: units, cause: Cause::Handled };
            },
            Stage::Leaving { left, started, cause } => {
                if left > 0 {
                    self.stage = Stage::Leaving { left: left - 1, started, cause };
                }
            },
        }
    }

    /// Whether the run is over.
    pub fn is_done(&self) -> (b: bool)
        ensures
            b == self.done(),
    {
        match self.stage {
            Stage::Leaving { left, .. } => left == 0,
            _ => false,
        }
    }

    /// How the run ends, once it has turned round: the number of units that
    /// started, and the cause.
    pub fn outcome(&self) -> (r: Option<(usize, Cause)>)
        ensures
            r == self.ending(),
            r is Some ==> can_end(self.units(), self.guards(), r.unwrap().0 as nat, r.unwrap().1),
    {
        proof {
            use_type_invariant(self);
        }
        match self.stage {
            Stage::Leaving { started, cause, .. } => Some((started, cause)),
            _ => None,
        }
    }
}

/// `n` steps none of which asks to turn round.
pub open spec fn quiet(n: nat) -> Seq<bool> {
    Seq::new(n, |i: int| false)
}

impl Pipeline {
    spec fn at(self, stage: Stage) -> Pipeline {
        Pipeline { units: self.units, guards: self.guards, stage }
    }

    /// Running two stretches of steps one after the other is running their
    /// concatenation.
    pub proof fn lemma_run_add(self, first: Seq<bool>, second: Seq<bool>)
        ensures
            self.run(first + second) == self.run(first).run(second),
        decreases first.len(),
    {
        if first.len() == 0 {
            assert(first + second =~= second);
        } else {
            assert((first + second).drop_first() =~= first.drop_first() + second);
            self.after(first[0]).lemma_run_add(first.drop_first(), second);
        }
    }

    proof fn lemma_run_one(self, halt: bool)
        ensures
            self.run(seq![halt]) == self.after(halt),
    {
        let one = seq![halt];
        assert(one.drop_first() =~= Seq::<bool>::empty());
        assert(self.run(one) == self.after(one[0]).run(one.drop_first()));
        assert(self.after(halt).run(Seq::<bool>::empty()) == self.after(halt));
    }

    proof fn lemma_quiet_entering(self, i: int, m: nat)
        requires
            0 <= i,
            i + m <= self.units,
            self.stage == self.enter(i),
        ensures
            self.run(quiet(m)) == self.at(self.enter(i + m)),
        decreases m,
    {
        if m > 0 {
            assert(quiet(m).drop_first() =~= quiet((m - 1) as nat));
            self.after(false).lemma_quiet_entering(i + 1, (m - 1) as nat);
        }
    }

    proof fn lemma_quiet_guarding(self, j: int, m: nat)
        requires
            0 <= j,
            j + m <= self.guards,
            self.stage == self.guard(j),
        ensures
            self.run(quiet(m)) == self.at(self.guard(j + m)),
        decreases m,
    {
        if m > 0 {
            assert(quiet(m).drop_first() =~= quiet((m - 1) as nat));
            self.after(false).lemma_quiet_guarding(j + 1, (m - 1) as nat);
        }
    }

    proof fn lemma_quiet_leaving(self, left: usize, started: usize, cause: Cause, m: nat)
        requires
            m <= left,
            self.stage == (Stage::Leaving { left, started, cause }),
        ensures
            self.run(quiet(m)) == self.at(
                Stage::Leaving { left: (left - m) as usize, started, cause },
            ),
        decreases m,
    {
        if m > 0 {
            assert(quiet(m).drop_first() =~= quiet((m - 1) as nat));
            self.after(false).lemma_quiet_leaving(
                (left - 1) as usize,
                started,
                cause,
                (m - 1) as nat,
            );
        }
    }

    /// Where no unit stops and no guard refuses, the run is over after
    /// every unit's before part, every guard, the handler and every unit's
    /// after part: the before parts in the order of registration, the after
    /// parts in the opposite order.
    pub proof fn lemma_nothing_halts(units: usize, guards: usize)
        ensures
            ({
                let end = Pipeline::start(units, guards).run(
                    quiet((2 * units + guards + 1) as nat),
                );
                &&& end.done()
                &&& end.ending() == Some((units, Cause::Handled))
                &&& end.history() == befores(units as nat) + checks(guards as nat).push(Step::Handle)
                    + afters(units as nat)
            }),
    {
        let p0 = Pipeline::start(units, guards);
        let a = quiet(units as nat);
        let b = quiet(guards as nat);
        let c = quiet(1);
        assert(quiet((2 * units + guards + 1) as nat) =~= a + b + c + a);
        p0.lemma_run_add(a + b + c, a);
        p0.lemma_run_add(a + b, c);
        p0.lemma_run_add(a, b);
        p0.lemma_quiet_entering(0, units as nat);
        let p1 = p0.run(a);
        p1.lemma_quiet_guarding(0, guards as nat);
        let p2 = p1.run(b);
        assert(c =~= seq![false]);
        p2.lemma_run_one(false);
        let p3 = p2.run(c);
        p3.lemma_quiet_leaving(units, units, Cause::Handled, units as nat);
        let end = p3.run(a);
        end.lemma_done();
    }

    /// Where the unit with index `k` stops the request, the run is over
    /// after the before parts of the units up to that one and the after
    /// parts of the same units, last first: no guard checks, the handler
    /// does not run, and no later unit runs either part.
    pub proof fn lemma_unit_stops(units: usize, guards: usize, k: usize)
        requires
            k < units,
        ensures
            ({
                let end = Pipeline::start(units, guards).run(
                    quiet(k as nat).push(true) + quiet((k + 1) as nat),
                );
                &&& end.done()
                &&& end.ending() == Some(((k + 1) as usize, Cause::Stopped))
                &&& end.history() == befores((k + 1) as nat) + afters((k + 1) as nat)
            }),
    {
        let p0 = Pipeline::start(units, guards);
        let a = quiet(k as nat);
        let c = quiet((k + 1) as nat);
        assert(a.push(true) =~= a + seq![true]);
        p0.lemma_run_add(a + seq![true], c);
        p0.lemma_run_add(a, seq![true]);
        p0.lemma_quiet_entering(0, k as nat);
        let p1 = p0.run(a);
        p1.lemma_run_one(true);
        let p2 = p1.run(seq![true]);
        p2.lemma_quiet_leaving(
            (k + 1) as usize,
            (k + 1) as usize,
            Cause::Stopped,
            (k + 1) as nat,
        );
        let end = p2.run(c);
        end.lemma_done();
        assert(befores((k + 1) as nat) + Seq::<Step>::empty() =~= befores((k + 1) as nat));
    }

    /// Where every unit lets the request pass and the guard with index `j`
    /// refuses it, the run is over after every unit's before part, the
    /// guards up to that one, and every unit's after part, last first: the
    /// handler does not run.
    pub proof fn lemma_guard_refuses(units: usize, guards: usize, j: usize)
        requires
            j < guards,
        ensures
            ({
                let end = Pipeline::start(units, guards).run(
                    quiet(units as nat) + quiet(j as nat).push(true) + quiet(units as nat),
                );
                &&& end.done()
                &&& end.ending() == Some((units, Cause::Refused(j)))
                &&& end.history() == befores(units as nat) + checks((j + 1) as nat) + afters(
                    units as nat,
                )
            }),
    {
        let p0 = Pipeline::start(units, guards);
        let a = quiet(units as nat);
        let b = quiet(j as nat);
        assert(b.push(true) =~= b + seq![true]);
        assert(a + b.push(true) =~= a + b + seq![true]);
        p0.lemma_run_add(a + b + seq![true], a);
        p0.lemma_run_add(a + b, seq![true]);
        p0.lemma_run_add(a, b);
        p0.lemma_quiet_entering(0, units as nat);
        let p1 = p0.run(a);
        p1.lemma_quiet_guarding(0, j as nat);
        let p2 = p1.run(b);
        p2.lemma_run_one(true);
        let p3 = p2.run(seq![true]);
        p3.lemma_quiet_leaving(units, units, Cause::Refused(j), units as nat);
        let end = p3.run(a);
        end.lemma_done();
    }
}

} // verus!
