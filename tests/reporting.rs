use env_monitor::decimal::Decimal;
use env_monitor::reporting::{report_url, LoopAction, LoopEvent, LoopPhase};
use env_monitor::sensor::Reading;

#[test]
fn warmup_then_steady_loop() {
    let p = LoopPhase::new();
    let (p, a) = p.step(LoopEvent::WarmupRead { now_secs: 5 });
    assert_eq!(p, LoopPhase::Starting { discarded: 1 });
    assert_eq!(a, LoopAction::TakeWarmupReading);
    let (p, a) = p.step(LoopEvent::WarmupRead { now_secs: 7 });
    assert_eq!(p, LoopPhase::Running { start_secs: 7 });
    assert_eq!(a, LoopAction::StartCycle);
    let (p, a) = p.step(LoopEvent::CycleDue { now_secs: 8 });
    assert_eq!(a, LoopAction::RaceReport { timeout_secs: 10 });
    let (p, a) = p.step(LoopEvent::ReportDone);
    assert_eq!(a, LoopAction::WaitForTick);
    let (p, a) = p.step(LoopEvent::Ticked);
    assert_eq!(a, LoopAction::StartCycle);
    assert_eq!(p, LoopPhase::Running { start_secs: 7 });
}

#[test]
fn timeout_restarts_after_grace() {
    let p = LoopPhase::Running { start_secs: 0 };
    let (p, a) = p.step(LoopEvent::ReportTimedOut);
    assert_eq!(p, LoopPhase::Resetting);
    assert_eq!(a, LoopAction::Reset { after_secs: 1 });
    let (p, a) = p.step(LoopEvent::ReportDone);
    assert_eq!(p, LoopPhase::Resetting);
    assert_eq!(a, LoopAction::Reset { after_secs: 0 });
}

#[test]
fn uptime_ceiling_restarts() {
    let p = LoopPhase::Running { start_secs: 100 };
    let (q, a) = p.step(LoopEvent::CycleDue { now_secs: 100 + 14400 });
    assert_eq!(q, p);
    assert_eq!(a, LoopAction::RaceReport { timeout_secs: 10 });
    let (q, a) = p.step(LoopEvent::CycleDue { now_secs: 100 + 14401 });
    assert_eq!(q, LoopPhase::Resetting);
    assert_eq!(a, LoopAction::Reset { after_secs: 0 });
}

#[test]
fn unexpected_events_change_nothing() {
    let p = LoopPhase::new();
    assert_eq!(p.step(LoopEvent::Ticked), (p, LoopAction::TakeWarmupReading));
    let r = LoopPhase::Running { start_secs: 3 };
    assert_eq!(r.step(LoopEvent::WarmupRead { now_secs: 9 }), (r, LoopAction::StartCycle));
}

#[test]
fn report_url_encodes_reading() {
    let reading = Reading::new(Decimal { mantissa: 2488, scale: 2 }, Decimal { mantissa: 4500, scale: 2 });
    let url = report_url("http://10.0.0.2:8080/reading/kitchen/", &reading);
    assert_eq!(url, Some("http://10.0.0.2:8080/reading/kitchen/24.88/45".to_string()));
}

#[test]
fn report_url_must_fit_buffer() {
    let reading = Reading::new(Decimal { mantissa: 1, scale: 0 }, Decimal { mantissa: 2, scale: 0 });
    let base = "x".repeat(117);
    assert_eq!(report_url(&base, &reading).map(|s| s.len()), Some(120));
    let base = "x".repeat(118);
    assert_eq!(report_url(&base, &reading), None);
}

#[test]
fn report_url_capacity_counts_bytes() {
    let reading = Reading::new(Decimal { mantissa: 1, scale: 0 }, Decimal { mantissa: 2, scale: 0 });
    let base = "\u{e9}".repeat(58);
    assert_eq!(report_url(&base, &reading).map(|s| s.len()), Some(119));
    let base = "\u{e9}".repeat(59);
    assert_eq!(report_url(&base, &reading), None);
}

#[test]
fn report_url_caps_significant_digits() {
    let reading = Reading::new(Decimal { mantissa: 12345, scale: 2 }, Decimal { mantissa: 99995, scale: 3 });
    let url = report_url("http://h/reading/k/", &reading);
    assert_eq!(url, Some("http://h/reading/k/123.5/100".to_string()));
    let cold = Reading::new(Decimal { mantissa: -1234, scale: 2 }, Decimal { mantissa: 5, scale: 2 });
    assert_eq!(report_url("b/", &cold), Some("b/-12.34/0.05".to_string()));
}
