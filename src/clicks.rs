use vstd::prelude::*;
use crate::analytics::{
    apply_ops, clicked, deficit_of, is_repair, lemma_record_adds_one, record_ops_spec,
    repair_member, repair_score, in_window, ClickOp,
};
use crate::decimal::push_decimal;

verus! {

/// The trailing window of the windowed click count: one day, in seconds.
pub const STATS_WINDOW_SECS: i64 = 86400;

/// The length of the random identity given to each recorded click.
pub const CLICK_MEMBER_LEN: usize = 21;

/// The length of the random identity of one repair run.
pub const REPAIR_RUN_LEN: usize = 12;

/// The store key of a code's click counter: `clicks:<code>`.
pub fn counter_key(code: &str) -> (r: String)
    ensures
        r@ == seq!['c', 'l', 'i', 'c', 'k', 's', ':'] + code@,
{
    proof {
        reveal_strlit("clicks:");
    }
    let mut r = String::from_str("clicks:");
    r.append(code);
    r
}

/// The store key of a code's click log: `clicks:detailed:<code>`.
pub fn log_key(code: &str) -> (r: String)
    ensures
        r@ == seq!['c', 'l', 'i', 'c', 'k', 's', ':', 'd', 'e', 't', 'a', 'i', 'l', 'e', 'd', ':']
            + code@,
{
    proof {
        reveal_strlit("clicks:detailed:");
    }
    let mut r = String::from_str("clicks:detailed:");
    r.append(code);
    r
}

/// The characters of nanoid's URL-safe alphabet.
pub open spec fn is_safe_char(c: char) -> bool {
    c == '_' || c == '-' || ('0' <= c && c <= '9') || ('a' <= c && c <= 'z') || ('A' <= c
        && c <= 'Z')
}

/// Relies on chrono's `Utc::now` and `DateTime::timestamp`: the current time,
/// in whole seconds since the Unix epoch. `Utc::now` panics on a system clock
/// set before the epoch, so what it returns is never negative.
#[verifier::external_body]
fn now_timestamp() -> (r: i64)
    ensures
        r >= 0,
{
    chrono::Utc::now().timestamp()
}

/// Relies on nanoid's `format` with its default random source and its URL-safe
/// alphabet: `size` characters, each drawn from that alphabet. `format` never
/// returns for a size of 0.
#[verifier::external_body]
pub(crate) fn random_token(size: usize) -> (r: String)
    requires
        size > 0,
    ensures
        r@.len() == size,
        forall|i: int| 0 <= i < r@.len() ==> is_safe_char(#[trigger] r@[i]),
{
    nanoid::format(nanoid::rngs::default, &nanoid::alphabet::SAFE, size)
}

/// The store operations that record one click at time `now` under the
/// member identity `member`.
pub fn record_ops(now: i64, member: String) -> (r: Vec<ClickOp>)
    ensures
        r@ == record_ops_spec(now, member),
        forall|s| #[trigger] apply_ops(s, r@) == clicked(s, now as int, member@),
{
    let ghost m = member;
    let r = vec![ClickOp::InitCounter, ClickOp::IncrCounter, ClickOp::AddEntry { score: now, member }];
    assert(r@ =~= record_ops_spec(now, m));
    proof {
        assert forall|s| #[trigger] apply_ops(s, r@) == clicked(s, now as int, m@) by {
            lemma_record_adds_one(s, now, m);
        }
    }
    r
}

/// The store operations that record one click now, under a fresh random
/// member identity, so that distinct clicks stay distinct log entries.
pub fn track_click() -> (r: Vec<ClickOp>)
    ensures
        exists|now: i64, member: String|
            member@.len() == CLICK_MEMBER_LEN && (forall|i: int|
                0 <= i < member@.len() ==> is_safe_char(#[trigger] member@[i])) && r@
                == record_ops_spec(now, member),
{
    let now = now_timestamp();
    let member = random_token(CLICK_MEMBER_LEN);
    let ghost m = member;
    let r = record_ops(now, member);
    assert(m@.len() == CLICK_MEMBER_LEN && (forall|i: int|
        0 <= i < m@.len() ==> is_safe_char(#[trigger] m@[i])) && r@ == record_ops_spec(now, m));
    r
}

/// The store operations that make sure the counter exists before it is read:
/// `counter` is what reading it gave, `None` where it was absent or unreadable.
pub fn counter_check_ops(counter: Option<i64>) -> (r: Vec<ClickOp>)
    ensures
        counter is None ==> r@ == seq![ClickOp::InitCounter],
        counter is Some ==> r@.len() == 0,
{
    let mut r: Vec<ClickOp> = Vec::new();
    if counter.is_none() {
        r.push(ClickOp::InitCounter);
    }
    assert(counter is None ==> r@ =~= seq![ClickOp::InitCounter]);
    r
}

/// The figures that a statistics request reports for one code.
pub struct ClickStats {
    /// All clicks ever counted.
    pub total: i64,
    /// The clicks logged in the trailing window.
    pub windowed: i64,
}

/// The score range of the windowed count: `[now - window, now]`, with the
/// lower end held at `i64::MIN` where it would fall below it, which leaves out
/// no score that an `i64` can hold.
pub fn window_bounds(now: i64, window: i64) -> (r: (i64, i64))
    requires
        window >= 0,
    ensures
        r.1 == now,
        now - window >= i64::MIN ==> r.0 == now - window,
        forall|score: i64| in_window(score as int, now as int, window as int) <==> r.0 <= score <= r.1,
{
    if now < i64::MIN + window {
        (i64::MIN, now)
    } else {
        (now - window, now)
    }
}

/// The score range of the windowed count of the statistics, ending now (the
/// upper end).
pub fn current_window() -> (r: (i64, i64))
    ensures
        forall|score: i64|
            in_window(score as int, r.1 as int, STATS_WINDOW_SECS as int) <==> r.0 <= score <= r.1,
{
    let now = now_timestamp();
    window_bounds(now, STATS_WINDOW_SECS)
}

/// How long a code's analytics are kept, given the time to live left on its
/// mapping: the same horizon where the mapping expires, none where it does not
/// (a negative time to live: no expiry, or no mapping).
pub fn analytics_expiry(mapping_ttl: i64) -> (r: Option<i64>)
    ensures
        r == (if mapping_ttl > 0 { Some(mapping_ttl) } else { None::<i64> }),
{
    if mapping_ttl > 0 {
        Some(mapping_ttl)
    } else {
        None
    }
}

/// The statistics from what the store answered: the counter (`None` where it
/// is absent, which counts as no click) and the number of log entries in the window.
pub fn click_stats(counter: Option<i64>, in_window_count: i64) -> (r: ClickStats)
    ensures
        r.total == (match counter {
            Some(c) => c,
            None => 0,
        }),
        r.windowed == in_window_count,
{
    let total = match counter {
        Some(c) => c,
        None => 0,
    };
    ClickStats { total, windowed: in_window_count }
}

/// The synthetic log entries that bring a log of `recorded` entries up to a
/// counter of `total`: none where the log does not trail; otherwise one per
/// missing click, the `i`-th with timestamp `now - window - i` and member
/// identity `run_id#i`.
pub fn repair_ops(total: i64, recorded: u64, now: i64, window: i64, run_id: &str) -> (r: Vec<
    ClickOp,
>)
    requires
        window >= 0,
        now - window - deficit_of(total as int, recorded as int) >= i64::MIN,
    ensures
        is_repair(r@, deficit_of(total as int, recorded as int), now as int, window as int, run_id@),
{
    let mut ops: Vec<ClickOp> = Vec::new();
    if total > 0 && (total as u64) > recorded {
        let d: u64 = total as u64 - recorded;
        let base: i64 = now - window;
        let mut i: u64 = 0;
        while i < d
            invariant
                d == deficit_of(total as int, recorded as int),
                base == now - window,
                base - d >= i64::MIN,
                i <= d,
                ops@.len() == i,
                forall|k: int|
                    #![trigger ops@[k]]
                    0 <= k < i ==> match ops@[k] {
                        ClickOp::AddEntry { score, member } => score == repair_score(
                            now as int,
                            window as int,
                            (k + 1) as nat,
                        ) && member@ == repair_member(run_id@, (k + 1) as nat),
                        _ => false,
                    },
            decreases d - i,
        {
            let mut member = String::from_str(run_id);
            proof {
                reveal_strlit("#");
            }
            member.append("#");
            push_decimal(&mut member, i + 1);
            let score: i64 = base - ((i + 1) as i64);
            ops.push(ClickOp::AddEntry { score, member });
            i = i + 1;
        }
    }
    ops
}

/// A counter as read from the store, where `None` counts as 0.
pub open spec fn counter_or_zero(counter: Option<i64>) -> int {
    match counter {
        Some(c) => c as int,
        None => 0,
    }
}

/// A log size as read from the store, where `None` counts as 0.
pub open spec fn cardinality_or_zero(cardinality: Option<u64>) -> int {
    match cardinality {
        Some(n) => n as int,
        None => 0,
    }
}

/// Decides the repair of one code from what the store answered: `counter` is
/// the counter (`None` where it is absent or unreadable, which counts as 0)
/// and `cardinality` the size of the log (`None` where it could not be read).
/// The synthetic entries are dated from the current time, before the trailing
/// window of the statistics, under a fresh random run identity. The result is
/// empty where the log size is unknown, since a repair only ever adds entries
/// and must not act on a guess; where the log does not trail the counter; or
/// where those timestamps would fall below the range of `i64`, which no
/// deficit up to `i64::MAX - STATS_WINDOW_SECS` can cause.
pub fn reconcile(counter: Option<i64>, cardinality: Option<u64>) -> (r: Vec<ClickOp>)
    ensures
        ({
            let d = deficit_of(counter_or_zero(counter), cardinality_or_zero(cardinality));
            &&& cardinality is None ==> r@.len() == 0
            &&& d == 0 ==> r@.len() == 0
            &&& cardinality is Some && 0 < d <= i64::MAX - STATS_WINDOW_SECS ==> r@.len() == d
            &&& r@.len() == 0 || exists|now: int, run_id: Seq<char>|
                run_id.len() == REPAIR_RUN_LEN && is_repair(
                    r@,
                    d,
                    now,
                    STATS_WINDOW_SECS as int,
                    run_id,
                )
        }),
{
    let total: i64 = match counter {
        Some(c) => c,
        None => 0,
    };
    let recorded: u64 = match cardinality {
        Some(n) => n,
        None => return Vec::new(),
    };
    if total <= 0 || (total as u64) <= recorded {
        return Vec::new();
    }
    let d: u64 = total as u64 - recorded;
    let now = now_timestamp();
    if now < i64::MIN + STATS_WINDOW_SECS + (d as i64) {
        return Vec::new();
    }
    let run_id = random_token(REPAIR_RUN_LEN);
    let r = repair_ops(total, recorded, now, STATS_WINDOW_SECS, run_id.as_str());
    let ghost d_spec = deficit_of(counter_or_zero(counter), cardinality_or_zero(cardinality));
    assert(run_id@.len() == REPAIR_RUN_LEN && is_repair(
        r@,
        d_spec,
        now as int,
        STATS_WINDOW_SECS as int,
        run_id@,
    ));
    assert(exists|t: int, run: Seq<char>|
        run.len() == REPAIR_RUN_LEN && is_repair(r@, d_spec, t, STATS_WINDOW_SECS as int, run));
    r
}

} // verus!
