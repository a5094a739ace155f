use clickstats::analytics::ClickOp;
use clickstats::clicks::{
    current_window, reconcile, record_ops, repair_ops, track_click, STATS_WINDOW_SECS,
};
use clickstats::ledger::ClickLedger;

const NOW: i64 = 1_700_000_000;

fn apply_all(ledger: &mut ClickLedger, ops: Vec<ClickOp>) {
    for op in ops {
        ledger.apply(op);
    }
}

fn stats(ledger: &ClickLedger, now: i64) -> (i64, i64) {
    let s = ledger.stats(now, STATS_WINDOW_SECS);
    (s.total, s.windowed)
}

/// A counter of `total` over a log of `times.len()` entries.
fn drifted(total: i64, times: &[i64]) -> ClickLedger {
    let mut ledger = ClickLedger::new();
    ledger.apply(ClickOp::InitCounter);
    for _ in 0..total {
        ledger.apply(ClickOp::IncrCounter);
    }
    for (i, t) in times.iter().enumerate() {
        ledger.apply(ClickOp::AddEntry { score: *t, member: format!("click-{}", i) });
    }
    ledger
}

#[test]
fn three_clicks_give_three_total_and_windowed() {
    let mut ledger = ClickLedger::new();
    for _ in 0..3 {
        apply_all(&mut ledger, track_click());
    }
    let (_, now) = current_window();
    assert_eq!(stats(&ledger, now), (3, 3));
    assert_eq!(ledger.recorded(), 3);
}

#[test]
fn code_without_clicks_reports_zero() {
    let ledger = ClickLedger::new();
    assert_eq!(stats(&ledger, NOW), (0, 0));
    assert_eq!(ledger.total(), 0);
}

#[test]
fn each_record_adds_exactly_one() {
    let mut ledger = ClickLedger::new();
    for k in 1..=5 {
        apply_all(&mut ledger, record_ops(NOW, format!("m{}", k)));
        assert_eq!(ledger.total(), k);
        assert_eq!(ledger.recorded(), k as usize);
    }
}

#[test]
fn constant_member_collapses_log_entries() {
    let mut ledger = ClickLedger::new();
    apply_all(&mut ledger, record_ops(NOW, "same".to_string()));
    apply_all(&mut ledger, record_ops(NOW + 1, "same".to_string()));
    assert_eq!(ledger.total(), 2);
    assert_eq!(ledger.recorded(), 1);
}

#[test]
fn counter_never_trails_log_while_recording() {
    let mut ledger = ClickLedger::new();
    for k in 0..4 {
        for op in record_ops(NOW, format!("m{}", k)) {
            ledger.apply(op);
            assert!(ledger.total() >= ledger.recorded() as i64);
        }
    }
}

#[test]
fn reconcile_restores_drift_without_touching_window() {
    let mut ledger = drifted(5, &[NOW - 10, NOW - 20]);
    assert_eq!(stats(&ledger, NOW), (5, 2));
    apply_all(&mut ledger, repair_ops(5, 2, NOW, STATS_WINDOW_SECS, "run"));
    assert_eq!(ledger.recorded(), 5);
    assert_eq!(stats(&ledger, NOW), (5, 2));
}

#[test]
fn reconcile_with_clock_restores_drift() {
    let (_, now) = current_window();
    let mut ledger = drifted(5, &[now - 1, now - 2]);
    apply_all(&mut ledger, reconcile(Some(5), Some(2)));
    assert_eq!(ledger.recorded(), 5);
    let (_, later) = current_window();
    assert_eq!(stats(&ledger, later), (5, 2));
}

#[test]
fn second_reconcile_changes_nothing() {
    let mut ledger = drifted(4, &[NOW - 5]);
    apply_all(&mut ledger, repair_ops(4, 1, NOW, STATS_WINDOW_SECS, "a"));
    let first = (stats(&ledger, NOW), ledger.recorded());
    let again = repair_ops(ledger.total(), ledger.recorded() as u64, NOW + 7, STATS_WINDOW_SECS, "b");
    assert!(again.is_empty());
    apply_all(&mut ledger, again);
    assert_eq!((stats(&ledger, NOW), ledger.recorded()), first);
    assert_eq!(first, ((4, 1), 4));
}

#[test]
fn reconcile_leaves_log_ahead_alone() {
    let mut ledger = drifted(1, &[NOW - 1, NOW - 2, NOW - 3]);
    apply_all(&mut ledger, repair_ops(1, 3, NOW, STATS_WINDOW_SECS, "run"));
    assert_eq!(ledger.recorded(), 3);
    assert_eq!(stats(&ledger, NOW), (1, 3));
}

#[test]
fn old_click_counts_in_total_only() {
    let mut ledger = ClickLedger::new();
    apply_all(&mut ledger, record_ops(NOW - STATS_WINDOW_SECS - 1, "old".to_string()));
    apply_all(&mut ledger, record_ops(NOW - STATS_WINDOW_SECS, "edge".to_string()));
    apply_all(&mut ledger, record_ops(NOW, "new".to_string()));
    apply_all(&mut ledger, record_ops(NOW + 1, "future".to_string()));
    assert_eq!(stats(&ledger, NOW), (4, 2));
}

#[test]
fn old_click_under_logged_member_leaves_window() {
    let mut ledger = ClickLedger::new();
    apply_all(&mut ledger, record_ops(NOW, "m".to_string()));
    assert_eq!(stats(&ledger, NOW), (1, 1));
    apply_all(&mut ledger, record_ops(NOW - STATS_WINDOW_SECS - 5, "m".to_string()));
    assert_eq!(stats(&ledger, NOW), (2, 0));
}
