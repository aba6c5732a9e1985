use ring_sim::readiness::{GateStep, ReadinessGate, ReadinessPolicy, Strategy, TimeoutError};

#[test]
fn failing_probes_time_out_at_ceiling() {
    let policy = ReadinessPolicy { strategy: Strategy::Probe, step_ms: 10_000, ceiling_ms: 25_000 };
    let mut gate = ReadinessGate::new(policy, 2);
    let mut waited: u64 = 0;
    let mut rounds = 0;
    let outcome = loop {
        waited += gate.pending_wait();
        rounds += 1;
        assert!(rounds <= 25_001);
        match gate.next(&vec![false, false]) {
            GateStep::Wait(_) => {}
            other => break other,
        }
    };
    assert_eq!(outcome, GateStep::TimedOut(TimeoutError { waited_ms: 25_000 }));
    assert_eq!(waited, 25_000);
    assert_eq!(rounds, 3);
    assert_eq!(gate.next(&vec![true, true]), outcome);
}

#[test]
fn probes_succeed_early() {
    let mut gate = ReadinessGate::new(ReadinessPolicy::standard(), 2);
    assert_eq!(gate.pending_wait(), 10_000);
    assert_eq!(gate.next(&vec![true, false]), GateStep::Wait(10_000));
    assert_eq!(gate.next(&vec![false, true]), GateStep::Wait(10_000));
    assert_eq!(gate.next(&vec![true, true]), GateStep::Ready);
}

#[test]
fn duration_only_waits_the_whole_ceiling() {
    let mut gate = ReadinessGate::new(ReadinessPolicy::duration_only(), 1);
    let mut steps = Vec::new();
    loop {
        let s = gate.next(&vec![true]);
        steps.push(s);
        if s == GateStep::Ready {
            break;
        }
    }
    assert_eq!(steps.len(), 6);
}

#[test]
fn zero_step_waits_all_at_once() {
    let policy = ReadinessPolicy { strategy: Strategy::Probe, step_ms: 0, ceiling_ms: 7 };
    let mut gate = ReadinessGate::new(policy, 1);
    assert_eq!(gate.pending_wait(), 7);
    assert_eq!(gate.next(&vec![false]), GateStep::TimedOut(TimeoutError { waited_ms: 7 }));
}

#[test]
fn last_step_is_cut_to_ceiling() {
    let policy = ReadinessPolicy { strategy: Strategy::Probe, step_ms: 4, ceiling_ms: 10 };
    let mut gate = ReadinessGate::new(policy, 1);
    assert_eq!(gate.next(&vec![false]), GateStep::Wait(4));
    assert_eq!(gate.next(&vec![false]), GateStep::Wait(2));
    assert_eq!(gate.next(&vec![false]), GateStep::TimedOut(TimeoutError { waited_ms: 10 }));
}
