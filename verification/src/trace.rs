//! Startup phase timing.

use std::time::{Duration, Instant};
use vstd::prelude::*;

verus! {

/// One measured startup phase.
#[derive(Debug, Clone, Copy, PartialEq, Eq)]
pub struct StartupPhaseTiming {
    pub phase: &'static str,
    pub duration: Duration,
}

/// Opt-in startup phase timing recorder used by benchmarks.
#[derive(Debug)]
pub struct StartupTrace {
    phases: Vec<StartupPhaseTiming>,
}

impl View for StartupTrace {
    type V = Seq<StartupPhaseTiming>;

    closed spec fn view(&self) -> Seq<StartupPhaseTiming> {
        self.phases@
    }
}

impl Default for StartupTrace {
    fn default() -> (t: Self)
        ensures
            t@ == Seq::<StartupPhaseTiming>::empty(),
    {
        StartupTrace { phases: Vec::new() }
    }
}

impl StartupTrace {
    pub fn new() -> (t: Self)
        ensures
            t@ == Seq::<StartupPhaseTiming>::empty(),
    {
        StartupTrace { phases: Vec::new() }
    }

    /// Record one phase after those recorded before.
    pub fn record(&mut self, phase: &'static str, duration: Duration)
        ensures
            final(self)@ == old(self)@.push(StartupPhaseTiming { phase, duration }),
    {
        self.phases.push(StartupPhaseTiming { phase, duration });
    }

    /// The phases in the order they were recorded in.
    pub fn phases(&self) -> (r: Vec<StartupPhaseTiming>)
        ensures
            r@ == self@,
    {
        let mut r: Vec<StartupPhaseTiming> = Vec::new();
        for i in 0..self.phases.len()
            invariant
                r@ == self@.take(i as int),
        {
            r.push(self.phases[i]);
            assert(self@.take(i as int).push(self@[i as int]) =~= self@.take(i + 1));
        }
        assert(self@.take(self@.len() as int) =~= self@);
        r
    }
}

/// The names of some phases.
pub open spec fn phase_names(phases: Seq<StartupPhaseTiming>) -> Seq<Seq<char>> {
    phases.map_values(|p: StartupPhaseTiming| p.phase@)
}

/// Whether a trace, where one is kept, has the phases `names` behind those that
/// it had.
pub open spec fn has_recorded(
    before: Option<StartupTrace>,
    after: Option<StartupTrace>,
    names: Seq<Seq<char>>,
) -> bool {
    match (before, after) {
        (None, None) => true,
        (Some(t), Some(u)) => {
            &&& u@.len() == t@.len() + names.len()
            &&& u@.take(t@.len() as int) == t@
            &&& phase_names(u@.skip(t@.len() as int)) == names
        },
        _ => false,
    }
}

/// What is recorded in two steps is recorded in the order of the steps.
pub proof fn lemma_recorded_in_order(
    a: Option<StartupTrace>,
    b: Option<StartupTrace>,
    c: Option<StartupTrace>,
    first: Seq<Seq<char>>,
    second: Seq<Seq<char>>,
)
    requires
        has_recorded(a, b, first),
        has_recorded(b, c, second),
    ensures
        has_recorded(a, c, first + second),
{
    if let (Some(t), Some(u), Some(v)) = (a, b, c) {
        let n = t@.len() as int;
        let m = u@.len() as int;
        assert(v@.take(n) =~= u@.take(n)) by {
            assert forall|i: int| 0 <= i < n implies v@[i] == u@[i] by {
                assert(v@.take(m)[i] == v@[i]);
            }
        }
        assert forall|i: int| 0 <= i < first.len() + second.len() implies phase_names(v@.skip(n))[i]
            == (first + second)[i] by {
            if i < first.len() {
                assert(v@.take(m)[n + i] == v@[n + i]);
                assert(phase_names(u@.skip(n))[i] == u@[n + i].phase@);
            } else {
                assert(phase_names(v@.skip(m))[i - first.len()] == v@[n + i].phase@);
            }
        }
        assert(phase_names(v@.skip(n)) =~= first + second);
    }
}

/// Record a phase where a trace is kept.
pub fn record_phase(trace: &mut Option<StartupTrace>, phase: &'static str, duration: Duration)
    ensures
        has_recorded(*old(trace), *final(trace), seq![phase@]),
        *old(trace) matches Some(t) ==> *final(trace) matches Some(u) && u@ == t@.push(
            StartupPhaseTiming { phase, duration },
        ),
{
    match trace.as_mut() {
        Some(t) => {
            let ghost before = t@;
            t.record(phase, duration);
            assert(t@.take(before.len() as int) =~= before);
            assert(phase_names(t@.skip(before.len() as int)) =~= seq![phase@]);
        },
        None => {},
    }
}

/// A moment of the host's clock.
#[verifier::external_type_specification]
#[verifier::external_body]
pub struct ExInstant(Instant);

/// Reads the clock with `Instant::now`. Nothing is claimed of the moment.
#[verifier::external_body]
fn now() -> Instant {
    Instant::now()
}

/// Measures with `Instant::elapsed` how long ago a moment was. Nothing is claimed
/// of the time.
#[verifier::external_body]
fn elapsed(since: &Instant) -> Duration {
    since.elapsed()
}

/// Run a phase and hand on its result, and record how long it took where a trace
/// is kept. A phase that failed is recorded too.
pub fn record_startup_result<T, E, F: FnOnce() -> Result<T, E>>(
    trace: &mut Option<StartupTrace>,
    phase: &'static str,
    f: F,
) -> (r: Result<T, E>)
    requires
        call_requires(f, ()),
    ensures
        call_ensures(f, (), r),
        has_recorded(*old(trace), *final(trace), seq![phase@]),
{
    let start = now();
    let result = f();
    record_phase(trace, phase, elapsed(&start));
    result
}

/// What is recorded comes behind what was recorded before, phase by phase, and
/// leaves that as it was; where no trace is kept none is begun.
pub proof fn law_phases_are_recorded_in_order(
    before: Option<StartupTrace>,
    after: Option<StartupTrace>,
    names: Seq<Seq<char>>,
    i: int,
)
    requires
        has_recorded(before, after, names),
    ensures
        before is None <==> after is None,
        before is Some ==> {
            let t = before->0@;
            let u = after->0@;
            &&& u.len() == t.len() + names.len()
            &&& 0 <= i < t.len() ==> u[i] == t[i]
            &&& 0 <= i < names.len() ==> u[t.len() + i].phase@ == names[i]
        },
{
    if before is Some {
        let t = before->0@;
        let u = after->0@;
        if 0 <= i < t.len() {
            assert(u.take(t.len() as int)[i] == u[i]);
        }
        if 0 <= i < names.len() {
            assert(phase_names(u.skip(t.len() as int))[i] == u[t.len() + i].phase@);
        }
    }
}

} // verus!
