use slmeter::Orchestrator;
use slmeter::SampleBuffer;
use slmeter::TickDecision;

fn bits(xs: &[f32]) -> Vec<u32> {
    xs.iter().map(|x| x.to_bits()).collect()
}

#[test]
fn prefill_is_latency_pad_of_silence() {
    // 8 samples/s, 1 channel, 500 ms latency: pad of 4 zero samples,
    // capacity 8 + 4 = 12.
    let mut buf = SampleBuffer::new(8, 1, 500);
    assert_eq!(buf.available(), 4);
    let pad = buf.pop_up_to(4);
    assert_eq!(pad, vec![0u32, 0, 0, 0]);
    assert_eq!(buf.available(), 0);
}

#[test]
fn push_then_pop_keeps_order() {
    let mut buf = SampleBuffer::new(10, 1, 0);
    let batch = bits(&[0.5, -0.25, 1.0]);
    let overflow = buf.push_batch(&batch);
    assert!(!overflow);
    assert_eq!(buf.available(), 3);
    let out = buf.pop_up_to(3);
    assert_eq!(out, batch);
}

#[test]
fn overfull_batch_drops_newest_and_reports_once() {
    // Capacity 10 (no latency pad); a batch of capacity + 3 samples keeps
    // exactly the oldest 10, in order, and the whole batch reports one
    // overflow.
    let mut buf = SampleBuffer::new(10, 1, 0);
    let batch: Vec<u32> = (1u32..=13).collect();
    let overflow = buf.push_batch(&batch);
    assert!(overflow);
    assert_eq!(buf.available(), 10);
    let drained = buf.pop_up_to(13);
    assert_eq!(drained, (1u32..=10).collect::<Vec<u32>>());
    // A batch that fits reports no overflow.
    let overflow2 = buf.push_batch(&vec![7u32, 8u32]);
    assert!(!overflow2);
}

#[test]
fn prefill_counts_channels() {
    // 8 samples/s, 2 channels, 500 ms: pad of 4 frames times 2 channels.
    let mut buf = SampleBuffer::new(8, 2, 500);
    assert_eq!(buf.available(), 8);
    assert_eq!(buf.pop_up_to(100).len(), 8);
}

#[test]
fn silent_second_yields_a_full_frame_of_silence() {
    // One second of real capture at 48 kHz on top of the 100 ms latency pad:
    // the first aligned tick admits a full frame, and a silent input gives a
    // frame of pure zero samples.
    let mut buf = SampleBuffer::new(48_000, 1, 100);
    let mut orch = Orchestrator::new(48_000);
    orch.start(0);
    let batch = vec![0f32.to_bits(); 48_000 - 4_800];
    assert!(!buf.push_batch(&batch));
    assert_eq!(orch.on_tick(buf.available()), TickDecision::Process);
    let frame = buf.pop_up_to(48_000);
    assert_eq!(frame.len(), 48_000);
    assert!(frame.iter().all(|&b| f32::from_bits(b) == 0.0));
}

#[test]
fn pop_returns_fewer_when_short() {
    let mut buf = SampleBuffer::new(10, 1, 0);
    buf.push_batch(&vec![1u32, 2, 3]);
    let out = buf.pop_up_to(48_000);
    assert_eq!(out, vec![1u32, 2, 3]);
    assert_eq!(buf.available(), 0);
}
