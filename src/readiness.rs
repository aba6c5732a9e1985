use vstd::prelude::*;

verus! {

/// How a gate decides that nodes are ready.
#[derive(Clone, Copy, Debug, PartialEq, Eq, Structural)]
pub enum Strategy {
    /// Ready once the whole wait has elapsed; probes are not consulted.
    DurationOnly,
    /// Ready as soon as the probes of one round succeed for every machine;
    /// timed out once the ceiling has elapsed without that.
    Probe,
}

/// A readiness policy: the strategy, the length of one delay step and the
/// ceiling on the whole wait, in milliseconds.
#[derive(Clone, Copy, Debug, PartialEq, Eq, Structural)]
pub struct ReadinessPolicy {
    pub strategy: Strategy,
    pub step_ms: u64,
    pub ceiling_ms: u64,
}

/// The ceiling elapsed without a round in which every probe succeeded.
#[derive(Clone, Copy, Debug, PartialEq, Eq, Structural)]
pub struct TimeoutError {
    pub waited_ms: u64,
}

/// What a gate asks of its driver: wait this many milliseconds and probe
/// the machines, or stop because all are ready or because time is up.
#[derive(Clone, Copy, Debug, PartialEq, Eq, Structural)]
pub enum GateStep {
    Wait(u64),
    Ready,
    TimedOut(TimeoutError),
}

pub open spec fn done_step(r: Result<(), TimeoutError>) -> GateStep {
    match r {
        Ok(()) => GateStep::Ready,
        Err(t) => GateStep::TimedOut(t),
    }
}

fn to_step(r: Result<(), TimeoutError>) -> (s: GateStep)
    ensures
        s == done_step(r),
{
    match r {
        Ok(()) => GateStep::Ready,
        Err(t) => GateStep::TimedOut(t),
    }
}

/// The state of a gate: time waited, the wait in progress, the latest probe
/// result of each machine, and the outcome once there is one.
pub struct GateView {
    pub elapsed: nat,
    pub pending: nat,
    pub ready: Seq<bool>,
    pub done: Option<Result<(), TimeoutError>>,
}

/// The next delay: one step, cut to what is left of the ceiling; with a
/// zero step, all that is left.
pub open spec fn delay_for(p: ReadinessPolicy, elapsed: nat) -> nat {
    let rest = p.ceiling_ms - elapsed;
    if p.step_ms == 0 || p.step_ms > rest {
        if rest < 0 {
            0
        } else {
            rest as nat
        }
    } else {
        p.step_ms as nat
    }
}

pub open spec fn all_ready(ready: Seq<bool>) -> bool {
    forall|i: int| 0 <= i < ready.len() ==> #[trigger] ready[i]
}

/// One transition of a gate, after the pending wait and the probes that
/// followed it.
pub open spec fn gate_next(p: ReadinessPolicy, v: GateView, probes: Seq<bool>) -> (GateView, GateStep) {
    match v.done {
        Some(r) => (v, done_step(r)),
        None => {
            let e = v.elapsed + v.pending;
            let ready = probes;
            let outcome: Option<Result<(), TimeoutError>> = match p.strategy {
                Strategy::Probe => if all_ready(ready) {
                    Some(Ok(()))
                } else if e >= p.ceiling_ms {
                    Some(Err(TimeoutError { waited_ms: e as u64 }))
                } else {
                    None
                },
                Strategy::DurationOnly => if e >= p.ceiling_ms {
                    Some(Ok(()))
                } else {
                    None
                },
            };
            match outcome {
                Some(r) => (GateView { elapsed: e, pending: 0, ready, done: Some(r) }, done_step(r)),
                None => {
                    let d = delay_for(p, e);
                    (GateView { elapsed: e, pending: d, ready, done: None }, GateStep::Wait(d as u64))
                },
            }
        },
    }
}

/// The waits of a gate stay within the ceiling of policy `p`.
pub open spec fn gate_wf(p: ReadinessPolicy, v: GateView) -> bool {
    &&& v.elapsed + v.pending <= p.ceiling_ms
    &&& v.done is None ==> v.pending == delay_for(p, v.elapsed)
}

impl ReadinessPolicy {
    /// Probing every ten seconds, for at most a minute.
    pub fn standard() -> (r: ReadinessPolicy)
        ensures
            r == (ReadinessPolicy { strategy: Strategy::Probe, step_ms: 10_000, ceiling_ms: 60_000 }),
    {
        ReadinessPolicy { strategy: Strategy::Probe, step_ms: 10_000, ceiling_ms: 60_000 }
    }

    /// Waiting a minute in ten-second steps, without probes.
    pub fn duration_only() -> (r: ReadinessPolicy)
        ensures
            r == (ReadinessPolicy { strategy: Strategy::DurationOnly, step_ms: 10_000, ceiling_ms: 60_000 }),
    {
        ReadinessPolicy { strategy: Strategy::DurationOnly, step_ms: 10_000, ceiling_ms: 60_000 }
    }
}

fn delay(p: &ReadinessPolicy, elapsed: u64) -> (r: u64)
    requires
        elapsed <= p.ceiling_ms,
    ensures
        r == delay_for(*p, elapsed as nat),
{
    let rest = p.ceiling_ms - elapsed;
    if p.step_ms == 0 || p.step_ms > rest {
        rest
    } else {
        p.step_ms
    }
}

/// Decides when freshly started machines are ready. Its driver waits for
/// each `Wait`, probes every machine, and hands the results to `next`.
pub struct ReadinessGate {
    policy: ReadinessPolicy,
    elapsed: u64,
    pending: u64,
    ready: Vec<bool>,
    done: Option<Result<(), TimeoutError>>,
}

impl View for ReadinessGate {
    type V = GateView;

    closed spec fn view(&self) -> GateView {
        GateView {
            elapsed: self.elapsed as nat,
            pending: self.pending as nat,
            ready: self.ready@,
            done: self.done,
        }
    }
}

impl ReadinessGate {
    pub closed spec fn spec_policy(&self) -> ReadinessPolicy {
        self.policy
    }

    pub closed spec fn wf(&self) -> bool {
        gate_wf(self.policy, self@)
    }

    /// A gate for `machines` machines, none probed, nothing waited yet.
    pub fn new(policy: ReadinessPolicy, machines: usize) -> (g: ReadinessGate)
        ensures
            g.wf(),
            g.spec_policy() == policy,
            g@.elapsed == 0,
            g@.pending == delay_for(policy, 0),
            g@.ready == Seq::new(machines as nat, |i: int| false),
            g@.done is None,
    {
        let mut ready: Vec<bool> = Vec::new();
        let mut i: usize = 0;
        while i < machines
            invariant
                i <= machines,
                ready@ == Seq::new(i as nat, |j: int| false),
            decreases machines - i,
        {
            ready.push(false);
            i = i + 1;
            proof {
                assert(ready@ =~= Seq::new(i as nat, |j: int| false));
            }
        }
        let pending = delay(&policy, 0);
        ReadinessGate { policy, elapsed: 0, pending, ready, done: None }
    }

    /// The wait in progress, to be waited before the next probes.
    pub fn pending_wait(&self) -> (r: u64)
        ensures
            r == self@.pending,
    {
        self.pending
    }

    /// Records the probes that followed the pending wait, one per machine,
    /// and says what comes next: ready only when every probe of this round
    /// succeeded.
    pub fn next(&mut self, probes: &Vec<bool>) -> (r: GateStep)
        requires
            old(self).wf(),
            probes@.len() == old(self)@.ready.len(),
        ensures
            final(self).wf(),
            final(self).spec_policy() == old(self).spec_policy(),
            (final(self)@, r) == gate_next(old(self).spec_policy(), old(self)@, probes@),
    {
        if let Some(r) = self.done {
            return to_step(r);
        }
        let e = self.elapsed + self.pending;
        let mut ready: Vec<bool> = Vec::new();
        let mut i: usize = 0;
        let mut all = true;
        while i < self.ready.len()
            invariant
                probes@.len() == self.ready@.len(),
                i <= self.ready@.len(),
                ready@ == probes@.take(i as int),
                all == all_ready(ready@),
            decreases self.ready@.len() - i,
        {
            let b = probes[i];
            let ghost prev = ready@;
            ready.push(b);
            proof {
                assert forall|j: int| 0 <= j < prev.len() implies ready@[j] == prev[j] by {}
                assert(ready@[prev.len() as int] == b);
                if all && b {
                    assert forall|j: int| 0 <= j < ready@.len() implies #[trigger] ready@[j] by {
                        if j < prev.len() {
                            assert(prev[j]);
                        }
                    }
                }
            }
            all = all && b;
            i = i + 1;
            proof {
                assert(ready@ =~= probes@.take(i as int));
            }
        }
        proof {
            assert(ready@ =~= probes@);
        }
        self.ready = ready;
        self.elapsed = e;
        let outcome: Option<Result<(), TimeoutError>> = match self.policy.strategy {
            Strategy::Probe => if all {
                Some(Ok(()))
            } else if e >= self.policy.ceiling_ms {
                Some(Err(TimeoutError { waited_ms: e }))
            } else {
                None
            },
            Strategy::DurationOnly => if e >= self.policy.ceiling_ms {
                Some(Ok(()))
            } else {
                None
            },
        };
        match outcome {
            Some(r) => {
                self.pending = 0;
                self.done = Some(r);
                to_step(r)
            },
            None => {
                let d = delay(&self.policy, e);
                self.pending = d;
                GateStep::Wait(d)
            },
        }
    }
}

/// What a gate returns after `k + 1` rounds in which every probe fails.
pub open spec fn run_failing(p: ReadinessPolicy, v: GateView, k: nat) -> GateStep
    decreases k,
{
    let (v1, s1) = gate_next(p, v, Seq::new(v.ready.len(), |i: int| false));
    if k == 0 || !(s1 is Wait) {
        s1
    } else {
        run_failing(p, v1, (k - 1) as nat)
    }
}

/// With probes that always fail, a probing gate for at least one machine
/// stops with a timeout once its ceiling has elapsed: within as many rounds
/// as milliseconds are left, and having waited exactly the ceiling.
pub proof fn lemma_failing_probes_time_out(p: ReadinessPolicy, v: GateView, k: nat)
    requires
        p.strategy == Strategy::Probe,
        gate_wf(p, v),
        v.done is None,
        v.ready.len() > 0,
        k >= p.ceiling_ms - v.elapsed,
    ensures
        run_failing(p, v, k) == GateStep::TimedOut(TimeoutError { waited_ms: p.ceiling_ms }),
    decreases p.ceiling_ms - v.elapsed,
{
    let probes = Seq::new(v.ready.len(), |i: int| false);
    let (v1, s1) = gate_next(p, v, probes);
    let ready = probes;
    assert(!ready[0]);
    let e = v.elapsed + v.pending;
    if e < p.ceiling_ms {
        assert(v.pending > 0);
        assert(v1 == GateView { elapsed: e, pending: delay_for(p, e), ready, done: None });
        lemma_failing_probes_time_out(p, v1, (k - 1) as nat);
    }
}

/// What a gate returns when round `i` of its probes is `rounds[i]`: the step
/// of the first round that is not a wait, else that of the last round.
pub open spec fn run_rounds(p: ReadinessPolicy, v: GateView, rounds: Seq<Seq<bool>>) -> GateStep
    decreases rounds.len(),
{
    let (v1, s1) = gate_next(p, v, rounds[0]);
    if rounds.len() <= 1 || !(s1 is Wait) {
        s1
    } else {
        run_rounds(p, v1, rounds.drop_first())
    }
}

/// Whatever the probes answer, a gate stops within as many rounds as
/// milliseconds are left of its ceiling: ready, or timed out having waited
/// exactly the ceiling.
pub proof fn lemma_gate_stops(p: ReadinessPolicy, v: GateView, rounds: Seq<Seq<bool>>)
    requires
        gate_wf(p, v),
        v.done is None,
        rounds.len() > p.ceiling_ms - v.elapsed,
        forall|i: int| 0 <= i < rounds.len() ==> (#[trigger] rounds[i]).len() == v.ready.len(),
    ensures
        !(run_rounds(p, v, rounds) is Wait),
        run_rounds(p, v, rounds) matches GateStep::TimedOut(t) ==> t.waited_ms == p.ceiling_ms,
    decreases p.ceiling_ms - v.elapsed,
{
    let (v1, s1) = gate_next(p, v, rounds[0]);
    let e = v.elapsed + v.pending;
    if e < p.ceiling_ms && s1 is Wait {
        assert(v.pending > 0);
        let rest = rounds.drop_first();
        assert forall|i: int| 0 <= i < rest.len() implies (#[trigger] rest[i]).len() == v1.ready.len() by {
            assert(rest[i] == rounds[i + 1]);
        }
        lemma_gate_stops(p, v1, rest);
    }
}

} // verus!
