use clickstats::analytics::ClickOp;
use clickstats::clicks::{
    analytics_expiry, click_stats, counter_check_ops, counter_key, current_window, log_key,
    reconcile, record_ops, repair_ops, track_click, window_bounds, CLICK_MEMBER_LEN,
    STATS_WINDOW_SECS,
};
use clickstats::decimal::push_decimal;

fn entry(op: &ClickOp) -> (i64, String) {
    match op {
        ClickOp::AddEntry { score, member } => (*score, member.clone()),
        _ => panic!("not a log entry"),
    }
}

fn safe(c: char) -> bool {
    c == '_' || c == '-' || c.is_ascii_alphanumeric()
}

#[test]
fn record_ops_init_incr_then_append() {
    let ops = record_ops(1_700_000_000, "m1".to_string());
    assert_eq!(ops.len(), 3);
    assert!(matches!(ops[0], ClickOp::InitCounter));
    assert!(matches!(ops[1], ClickOp::IncrCounter));
    assert_eq!(entry(&ops[2]), (1_700_000_000, "m1".to_string()));
}

#[test]
fn track_click_uses_fresh_members() {
    let a = track_click();
    let b = track_click();
    assert_eq!(a.len(), 3);
    assert!(matches!(a[0], ClickOp::InitCounter));
    assert!(matches!(a[1], ClickOp::IncrCounter));
    let (_, ma) = entry(&a[2]);
    let (_, mb) = entry(&b[2]);
    assert_eq!(ma.chars().count(), CLICK_MEMBER_LEN);
    assert!(ma.chars().all(safe));
    assert_ne!(ma, mb);
}

#[test]
fn counter_check_creates_absent_counter_only() {
    let ops = counter_check_ops(None);
    assert_eq!(ops.len(), 1);
    assert!(matches!(ops[0], ClickOp::InitCounter));
    assert!(counter_check_ops(Some(5)).is_empty());
    assert!(counter_check_ops(Some(0)).is_empty());
}

#[test]
fn stats_of_code_without_clicks_is_zero() {
    let s = click_stats(None, 0);
    assert_eq!((s.total, s.windowed), (0, 0));
}

#[test]
fn stats_report_counter_and_window_count() {
    let s = click_stats(Some(3), 3);
    assert_eq!((s.total, s.windowed), (3, 3));
    let s = click_stats(Some(7), 2);
    assert_eq!((s.total, s.windowed), (7, 2));
}

#[test]
fn window_bounds_span_one_day() {
    assert_eq!(window_bounds(1_000_000, STATS_WINDOW_SECS), (1_000_000 - 86400, 1_000_000));
    assert_eq!(window_bounds(50, 0), (50, 50));
}

#[test]
fn window_bounds_saturate_at_minimum() {
    assert_eq!(window_bounds(i64::MIN + 5, 86400), (i64::MIN, i64::MIN + 5));
}

#[test]
fn current_window_ends_now() {
    let (lo, hi) = current_window();
    assert_eq!(hi - lo, STATS_WINDOW_SECS);
    assert!(hi > 1_600_000_000);
}

#[test]
fn repair_backdates_missing_entries_before_window() {
    let now: i64 = 1_700_000_000;
    let ops = repair_ops(5, 2, now, STATS_WINDOW_SECS, "run");
    assert_eq!(ops.len(), 3);
    let entries: Vec<(i64, String)> = ops.iter().map(entry).collect();
    assert_eq!(
        entries,
        vec![
            (now - 86401, "run#1".to_string()),
            (now - 86402, "run#2".to_string()),
            (now - 86403, "run#3".to_string()),
        ]
    );
    assert!(entries.iter().all(|(s, _)| *s < now - STATS_WINDOW_SECS));
}

#[test]
fn repair_members_stay_distinct_past_nine() {
    let ops = repair_ops(12, 0, 1_000_000, 10, "r");
    let members: Vec<String> = ops.iter().map(|o| entry(o).1).collect();
    assert_eq!(members.len(), 12);
    assert_eq!(members[9], "r#10");
    assert_eq!(members[11], "r#12");
    assert_eq!(entry(&ops[11]).0, 1_000_000 - 10 - 12);
}

#[test]
fn repair_does_nothing_when_log_keeps_up() {
    assert!(repair_ops(3, 3, 1_000_000, 86400, "run").is_empty());
    assert!(repair_ops(2, 5, 1_000_000, 86400, "run").is_empty());
    assert!(repair_ops(0, 0, 1_000_000, 86400, "run").is_empty());
    assert!(repair_ops(-4, 0, 1_000_000, 86400, "run").is_empty());
}

#[test]
fn reconcile_fills_deficit_before_window() {
    let ops = reconcile(Some(5), Some(2));
    assert_eq!(ops.len(), 3);
    let (lo, _) = current_window();
    for op in &ops {
        let (score, member) = entry(op);
        assert!(score < lo);
        assert!(member.contains('#'));
    }
}

#[test]
fn reconcile_without_deficit_is_empty() {
    assert!(reconcile(Some(2), Some(2)).is_empty());
    assert!(reconcile(None, None).is_empty());
    assert!(reconcile(Some(1), Some(4)).is_empty());
}

#[test]
fn reconcile_skips_unreadable_log() {
    assert!(reconcile(Some(2), None).is_empty());
    assert!(reconcile(Some(5), None).is_empty());
    assert_eq!(reconcile(Some(2), Some(0)).len(), 2);
}

#[test]
fn store_keys() {
    assert_eq!(counter_key("abc123"), "clicks:abc123");
    assert_eq!(log_key("abc123"), "clicks:detailed:abc123");
}

#[test]
fn expiry_follows_mapping() {
    assert_eq!(analytics_expiry(2_592_000), Some(2_592_000));
    assert_eq!(analytics_expiry(-1), None);
    assert_eq!(analytics_expiry(-2), None);
    assert_eq!(analytics_expiry(0), None);
}

#[test]
fn decimal_notation() {
    let mut s = String::from("n=");
    push_decimal(&mut s, 0);
    assert_eq!(s, "n=0");
    let mut s = String::new();
    push_decimal(&mut s, 1234567890);
    assert_eq!(s, "1234567890");
    let mut s = String::new();
    push_decimal(&mut s, u64::MAX);
    assert_eq!(s, u64::MAX.to_string());
}

#[test]
fn reconcile_fills_large_deficit() {
    let ops = reconcile(Some(40), Some(0));
    assert_eq!(ops.len(), 40);
    let members: std::collections::HashSet<String> = ops.iter().map(|o| entry(o).1).collect();
    assert_eq!(members.len(), 40);
}

#[test]
fn tracked_click_member_is_url_safe() {
    let ops = track_click();
    let (_, m) = entry(&ops[2]);
    assert!(m.chars().all(safe));
}
