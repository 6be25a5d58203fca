use clutch::sampler::{
    comma, next_step, rate, rate_per_sec, stat_segment, CounterReport, SamplerState, Snapshots, Stat,
    WorkerStep,
};

#[test]
fn comma_groups_thousands() {
    assert_eq!(comma(0), "0");
    assert_eq!(comma(999), "999");
    assert_eq!(comma(1000), "1,000");
    assert_eq!(comma(1234567), "1,234,567");
    assert_eq!(comma(u64::MAX), "18,446,744,073,709,551,615");
}

#[test]
fn rates_per_second() {
    assert_eq!(rate_per_sec(500, 2_000_000_000), 250);
    assert_eq!(rate_per_sec(1, 3_000_000_000), 0);
    assert_eq!(rate_per_sec(0, 0), 0);
    assert_eq!(rate_per_sec(5, 0), u64::MAX);
    assert_eq!(rate_per_sec(u64::MAX, 1), u64::MAX);
    assert_eq!(rate(3_000_000, 1_000_000_000), "3,000,000");
}

#[test]
fn lifecycle() {
    let mut s = SamplerState::Idle;
    s.start();
    assert_eq!(s, SamplerState::Running);
    s.stop();
    assert_eq!(s, SamplerState::Stopped);
}

#[test]
fn stop_always_gets_final_report() {
    assert_eq!(next_step(false, true), WorkerStep::Final);
    assert_eq!(next_step(false, false), WorkerStep::Final);
    assert_eq!(next_step(true, true), WorkerStep::Interval);
    assert_eq!(next_step(true, false), WorkerStep::Wait);
}

#[test]
fn snapshots_report_deltas() {
    let mut s = Snapshots::new(2);
    let r = s.take(&vec![10, 4], false, 2_000_000_000);
    assert_eq!(r[0], CounterReport { value: 10, delta: 10, rate: 5 });
    let r = s.take(&vec![16, 3], false, 1_000_000_000);
    assert_eq!(r[0], CounterReport { value: 16, delta: 6, rate: 6 });
    assert_eq!(r[1].delta, u64::MAX);
    let r = s.take(&vec![20, 8], true, 4_000_000_000);
    assert_eq!(r[0], CounterReport { value: 20, delta: 20, rate: 5 });
    s.add_counter();
    s.reset();
    let r = s.take(&vec![1, 2, 3], false, 1_000_000_000);
    assert_eq!(r[2].delta, 3);
}

#[test]
fn segment_text_by_verbosity() {
    let rep = CounterReport { value: 12345, delta: 2000, rate: 1000 };
    assert_eq!(stat_segment(&Stat::new("OMs", 0, 0), &rep), "  [OMs: 1,000/s]");
    assert_eq!(stat_segment(&Stat::new("Rows", 1, 10), &rep), "  [Rows: 12,345, 1,000/s]");
    assert_eq!(stat_segment(&Stat::new("X", 2, 0), &rep), "   [X: 12,345, 2,000 | 1,000/s]");
}
