use slmeter::Orchestrator;
use slmeter::Phase;
use slmeter::TickDecision;
use slmeter::delay_to_aligned_start_nanos;
use slmeter::tick_decision;

#[test]
fn aligned_start_waits_past_next_second() {
    assert_eq!(delay_to_aligned_start_nanos(0), 2_000_000_000);
    assert_eq!(delay_to_aligned_start_nanos(250_000_000), 1_750_000_000);
    assert_eq!(delay_to_aligned_start_nanos(999_999_999), 1_000_000_001);
}

#[test]
fn full_frame_is_processed() {
    assert_eq!(tick_decision(48_000, 48_000), TickDecision::Process);
    assert_eq!(tick_decision(50_000, 48_000), TickDecision::Process);
}

#[test]
fn short_frame_is_skipped_with_shortfall() {
    assert_eq!(
        tick_decision(47_999, 48_000),
        TickDecision::Skip { shortfall: 1 }
    );
    assert_eq!(
        tick_decision(0, 48_000),
        TickDecision::Skip { shortfall: 48_000 }
    );
}

#[test]
fn orchestrator_primes_then_runs() {
    let mut orch = Orchestrator::new(48_000);
    assert_eq!(orch.phase, Phase::Priming);
    let delay = orch.start(400_000_000);
    assert_eq!(orch.phase, Phase::Running);
    assert_eq!(delay, 1_600_000_000);
    assert_eq!(orch.on_tick(48_000), TickDecision::Process);
    assert_eq!(orch.on_tick(100), TickDecision::Skip { shortfall: 47_900 });
}
