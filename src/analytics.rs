use vstd::prelude::*;
use crate::decimal::{decimal, lemma_decimal_injective};

verus! {

/// What the store holds for one short code.
pub struct Analytics {
    /// The aggregate click counter; `None` until it is first created.
    pub counter: Option<int>,
    /// The click log: each member identity with its timestamp (its score).
    pub log: Map<Seq<char>, int>,
}

/// One store operation on a code's counter or click log.
pub enum ClickOp {
    /// Creates the counter with the value 0 if it does not exist.
    InitCounter,
    /// Adds one to the counter; an absent counter counts as 0.
    IncrCounter,
    /// Inserts `member` into the click log with timestamp `score`; a member
    /// that is already there keeps its place and takes the new score.
    AddEntry { score: i64, member: String },
}

/// The total click count: the counter, or 0 where it is absent.
pub open spec fn total(s: Analytics) -> int {
    match s.counter {
        Some(c) => c,
        None => 0,
    }
}

/// How many entries the click log holds.
pub open spec fn recorded(s: Analytics) -> int {
    s.log.dom().len() as int
}

/// Whether a timestamp falls in the trailing window `[now - window, now]`.
pub open spec fn in_window(score: int, now: int, window: int) -> bool {
    now - window <= score && score <= now
}

/// How many log entries have a timestamp in the trailing window.
pub open spec fn windowed(s: Analytics, now: int, window: int) -> int {
    s.log.dom().filter(|m: Seq<char>| in_window(s.log[m], now, window)).len() as int
}

/// The steady invariant: the counter never trails the click log.
pub open spec fn consistent(s: Analytics) -> bool {
    s.log.dom().finite() && total(s) >= recorded(s)
}

/// What one operation does to a code's analytics.
pub open spec fn apply_op(s: Analytics, op: ClickOp) -> Analytics {
    match op {
        ClickOp::InitCounter => match s.counter {
            Some(_) => s,
            None => Analytics { counter: Some(0), log: s.log },
        },
        ClickOp::IncrCounter => Analytics { counter: Some(total(s) + 1), log: s.log },
        ClickOp::AddEntry { score, member } => Analytics {
            counter: s.counter,
            log: s.log.insert(member@, score as int),
        },
    }
}

/// What a sequence of operations, applied in order, does to a code's analytics.
pub open spec fn apply_ops(s: Analytics, ops: Seq<ClickOp>) -> Analytics
    decreases ops.len(),
{
    if ops.len() == 0 {
        s
    } else {
        apply_ops(apply_op(s, ops[0]), ops.drop_first())
    }
}

/// The analytics after one click at time `now` with the given member identity.
pub open spec fn clicked(s: Analytics, now: int, member: Seq<char>) -> Analytics {
    Analytics { counter: Some(total(s) + 1), log: s.log.insert(member, now) }
}

/// How far a counter of `total` leads a log of `recorded` entries; 0 where it does not.
pub open spec fn deficit_of(total: int, recorded: int) -> int {
    if total > recorded {
        total - recorded
    } else {
        0
    }
}

/// How many log entries a repair must add: the lead of the counter over the log.
pub open spec fn deficit(s: Analytics) -> int {
    deficit_of(total(s), recorded(s))
}

/// The operations that record one click: create the counter if absent, add
/// one to it, then append the click to the log.
pub open spec fn record_ops_spec(now: i64, member: String) -> Seq<ClickOp> {
    seq![ClickOp::InitCounter, ClickOp::IncrCounter, ClickOp::AddEntry { score: now, member }]
}

/// The member identity of the `i`-th synthetic entry of a repair run.
pub open spec fn repair_member(run_id: Seq<char>, i: nat) -> Seq<char> {
    run_id + seq!['#'] + decimal(i)
}

/// The timestamp of the `i`-th synthetic entry: one second further back for
/// each entry, starting just before the trailing window.
pub open spec fn repair_score(now: int, window: int, i: nat) -> int {
    now - window - i
}

/// `ops` adds exactly `count` synthetic entries of the repair run `run_id`.
pub open spec fn is_repair(
    ops: Seq<ClickOp>,
    count: int,
    now: int,
    window: int,
    run_id: Seq<char>,
) -> bool {
    &&& ops.len() == count
    &&& forall|i: int|
        #![trigger ops[i]]
        0 <= i < ops.len() ==> match ops[i] {
            ClickOp::AddEntry { score, member } => score == repair_score(now, window, (i + 1) as nat)
                && member@ == repair_member(run_id, (i + 1) as nat),
            _ => false,
        }
}

/// No member of a repair run of `count` entries is in the log yet.
pub open spec fn repair_is_fresh(s: Analytics, count: int, run_id: Seq<char>) -> bool {
    forall|i: nat| 1 <= i <= count ==> !s.log.contains_key(#[trigger] repair_member(run_id, i))
}

/// The member identity that a log insertion adds.
pub open spec fn op_member(op: ClickOp) -> Seq<char> {
    match op {
        ClickOp::AddEntry { member, .. } => member@,
        _ => Seq::empty(),
    }
}

/// The timestamp that a log insertion adds.
pub open spec fn op_score(op: ClickOp) -> int {
    match op {
        ClickOp::AddEntry { score, .. } => score as int,
        _ => 0,
    }
}

/// `ops` only inserts log entries, under member identities that are pairwise
/// distinct and not in the log of `s` yet.
pub open spec fn fresh_entries(s: Analytics, ops: Seq<ClickOp>) -> bool {
    &&& forall|i: int| 0 <= i < ops.len() ==> (#[trigger] ops[i]) is AddEntry
    &&& forall|i: int| 0 <= i < ops.len() ==> !s.log.contains_key(#[trigger] op_member(ops[i]))
    &&& forall|i: int, j: int|
        0 <= i < j < ops.len() ==> op_member(#[trigger] ops[i]) != op_member(#[trigger] ops[j])
}

proof fn lemma_fresh_entries(s: Analytics, ops: Seq<ClickOp>, now: int, window: int)
    requires
        s.log.dom().finite(),
        fresh_entries(s, ops),
    ensures
        apply_ops(s, ops).counter == s.counter,
        apply_ops(s, ops).log.dom().finite(),
        recorded(apply_ops(s, ops)) == recorded(s) + ops.len(),
        (forall|i: int| 0 <= i < ops.len() ==> !in_window(op_score(#[trigger] ops[i]), now, window))
            ==> windowed(apply_ops(s, ops), now, window) == windowed(s, now, window),
    decreases ops.len(),
{
    if ops.len() > 0 {
        let op0 = ops[0];
        let m0 = op_member(op0);
        let next = apply_op(s, op0);
        let rest = ops.drop_first();
        assert(op0 is AddEntry);
        assert(!s.log.contains_key(m0));
        assert(next.log == s.log.insert(m0, op_score(op0)));
        assert(next.log.dom() =~= s.log.dom().insert(m0));
        assert forall|i: int| 0 <= i < rest.len() implies !next.log.contains_key(
            #[trigger] op_member(rest[i]),
        ) by {
            assert(rest[i] == ops[i + 1]);
            assert(op_member(ops[0]) != op_member(ops[i + 1]));
        }
        assert forall|i: int, j: int|
            0 <= i < j < rest.len() implies op_member(#[trigger] rest[i]) != op_member(
                #[trigger] rest[j],
            ) by {
            assert(rest[i] == ops[i + 1]);
            assert(rest[j] == ops[j + 1]);
        }
        assert forall|i: int| 0 <= i < rest.len() implies (#[trigger] rest[i]) is AddEntry by {
            assert(rest[i] == ops[i + 1]);
        }
        lemma_fresh_entries(next, rest, now, window);
        if forall|i: int| 0 <= i < ops.len() ==> !in_window(op_score(#[trigger] ops[i]), now, window) {
            assert forall|i: int| 0 <= i < rest.len() implies !in_window(
                op_score(#[trigger] rest[i]),
                now,
                window,
            ) by {
                assert(rest[i] == ops[i + 1]);
            }
            let p_next = |m: Seq<char>| in_window(next.log[m], now, window);
            let p_s = |m: Seq<char>| in_window(s.log[m], now, window);
            assert(next.log.dom().filter(p_next) =~= s.log.dom().filter(p_s));
        }
    }
}


proof fn lemma_repair_member_injective(run_id: Seq<char>, i: nat, j: nat)
    requires
        repair_member(run_id, i) == repair_member(run_id, j),
    ensures
        i == j,
{
    let k = run_id.len() as int + 1;
    let (a, b) = (repair_member(run_id, i), repair_member(run_id, j));
    assert(a.subrange(k, a.len() as int) =~= decimal(i));
    assert(b.subrange(k, b.len() as int) =~= decimal(j));
    lemma_decimal_injective(i, j);
}

proof fn lemma_repair_entries(
    s: Analytics,
    ops: Seq<ClickOp>,
    count: int,
    now: int,
    window: int,
    run_id: Seq<char>,
)
    requires
        s.log.dom().finite(),
        window >= 0,
        is_repair(ops, count, now, window, run_id),
        repair_is_fresh(s, count, run_id),
    ensures
        apply_ops(s, ops).counter == s.counter,
        apply_ops(s, ops).log.dom().finite(),
        recorded(apply_ops(s, ops)) == recorded(s) + count,
        windowed(apply_ops(s, ops), now, window) == windowed(s, now, window),
{
    assert forall|i: int| 0 <= i < ops.len() implies (#[trigger] ops[i]) is AddEntry
        && op_member(ops[i]) == repair_member(run_id, (i + 1) as nat)
        && !in_window(op_score(ops[i]), now, window) by {}
    assert forall|i: int| 0 <= i < ops.len() implies !s.log.contains_key(
        #[trigger] op_member(ops[i]),
    ) by {
        assert(op_member(ops[i]) == repair_member(run_id, (i + 1) as nat));
    }
    assert forall|i: int, j: int|
        0 <= i < j < ops.len() implies op_member(#[trigger] ops[i]) != op_member(
            #[trigger] ops[j],
        ) by {
        if op_member(ops[i]) == op_member(ops[j]) {
            lemma_repair_member_injective(run_id, (i + 1) as nat, (j + 1) as nat);
        }
    }
    lemma_fresh_entries(s, ops, now, window);
}

/// Recording a click raises the total by exactly one and adds the click to
/// the log under its member identity.
pub proof fn lemma_record_adds_one(s: Analytics, now: i64, member: String)
    ensures
        apply_ops(s, record_ops_spec(now, member)) == clicked(s, now as int, member@),
        total(apply_ops(s, record_ops_spec(now, member))) == total(s) + 1,
{
    reveal_with_fuel(apply_ops, 4);
    let ops = record_ops_spec(now, member);
    assert(ops.drop_first().drop_first().drop_first() =~= Seq::<ClickOp>::empty());
    assert(ops.drop_first()[0] == ClickOp::IncrCounter);
    assert(ops.drop_first().drop_first()[0] == ClickOp::AddEntry { score: now, member });
}

/// The analytics after a run of clicks, in order, each a timestamp and a
/// member identity.
pub open spec fn after_clicks(s: Analytics, clicks: Seq<(int, Seq<char>)>) -> Analytics
    decreases clicks.len(),
{
    if clicks.len() == 0 {
        s
    } else {
        clicked(after_clicks(s, clicks.drop_last()), clicks.last().0, clicks.last().1)
    }
}

/// Recording `k` clicks in sequence raises the total by exactly `k`, whatever
/// their timestamps and member identities.
pub proof fn lemma_clicks_add_their_number(s: Analytics, clicks: Seq<(int, Seq<char>)>)
    ensures
        total(after_clicks(s, clicks)) == total(s) + clicks.len(),
    decreases clicks.len(),
{
    if clicks.len() > 0 {
        lemma_clicks_add_their_number(s, clicks.drop_last());
    }
}

/// No operation lowers the total: creating the counter keeps an existing
/// value, an increment adds one, and a log insertion leaves the counter alone.
pub proof fn lemma_total_never_decreases(s: Analytics, op: ClickOp)
    ensures
        total(apply_op(s, op)) >= total(s),
        op is IncrCounter ==> total(apply_op(s, op)) == total(s) + 1,
        !(op is IncrCounter) ==> total(apply_op(s, op)) == total(s),
{
}

/// Each single operation keeps the counter at or above the log's size, however
/// the operations of concurrent clicks and repairs interleave, as long as a
/// log insertion of a member that is not logged yet comes while the counter
/// leads the log (after the increment that counted its click).
pub proof fn lemma_op_keeps_invariant(s: Analytics, op: ClickOp)
    requires
        consistent(s),
        (op is AddEntry && !s.log.contains_key(op_member(op))) ==> total(s) > recorded(s),
    ensures
        consistent(apply_op(s, op)),
{
    if let ClickOp::AddEntry { score, member } = op {
        if !s.log.contains_key(member@) {
            assert(apply_op(s, op).log.dom() =~= s.log.dom().insert(member@));
        } else {
            assert(apply_op(s, op).log.dom() =~= s.log.dom());
        }
    }
}

/// A click recorded under a member identity that the log does not hold yet
/// keeps the counter at or above the log's size after each of its operations,
/// so that a reader between two of them still sees the invariant.
pub proof fn lemma_record_keeps_invariant(s: Analytics, now: i64, member: String)
    requires
        consistent(s),
        !s.log.contains_key(member@),
    ensures
        forall|k: int|
            0 <= k <= 3 ==> consistent(#[trigger] apply_ops(s, record_ops_spec(now, member).take(k))),
{
    let ops = record_ops_spec(now, member);
    reveal_with_fuel(apply_ops, 4);
    assert(ops.take(0) =~= Seq::<ClickOp>::empty());
    assert(ops.take(1) =~= seq![ClickOp::InitCounter]);
    assert(ops.take(2) =~= seq![ClickOp::InitCounter, ClickOp::IncrCounter]);
    assert(ops.take(3) =~= ops);
    assert(ops.take(1).drop_first() =~= Seq::<ClickOp>::empty());
    assert(ops.take(2).drop_first() =~= seq![ClickOp::IncrCounter]);
    assert(ops.take(2).drop_first().drop_first() =~= Seq::<ClickOp>::empty());
    lemma_record_adds_one(s, now, member);
    assert(clicked(s, now as int, member@).log.dom() =~= s.log.dom().insert(member@));
}

/// A repair that adds `deficit(s)` synthetic entries under fresh member
/// identities leaves the total as it was, brings the log up to the counter,
/// keeps the invariant, and changes no windowed count, since every synthetic
/// entry lies before the window.
pub proof fn lemma_repair_restores_invariant(
    s: Analytics,
    ops: Seq<ClickOp>,
    now: int,
    window: int,
    run_id: Seq<char>,
)
    requires
        s.log.dom().finite(),
        window >= 0,
        is_repair(ops, deficit(s), now, window, run_id),
        repair_is_fresh(s, deficit(s), run_id),
    ensures
        total(apply_ops(s, ops)) == total(s),
        total(s) > recorded(s) ==> recorded(apply_ops(s, ops)) == total(s),
        total(s) <= recorded(s) ==> apply_ops(s, ops) == s,
        deficit(apply_ops(s, ops)) == 0,
        consistent(s) ==> consistent(apply_ops(s, ops)),
        windowed(apply_ops(s, ops), now, window) == windowed(s, now, window),
{
    lemma_repair_entries(s, ops, deficit(s), now, window, run_id);
    if total(s) <= recorded(s) {
        assert(ops.len() == 0);
    }
}

/// Reconciling twice with no click in between: the second run finds no
/// deficit and leaves the analytics, and so every statistic, unchanged.
pub proof fn lemma_reconcile_idempotent(
    s: Analytics,
    first: Seq<ClickOp>,
    second: Seq<ClickOp>,
    now1: int,
    now2: int,
    window1: int,
    window2: int,
    run1: Seq<char>,
    run2: Seq<char>,
)
    requires
        s.log.dom().finite(),
        window1 >= 0,
        is_repair(first, deficit(s), now1, window1, run1),
        repair_is_fresh(s, deficit(s), run1),
        is_repair(second, deficit(apply_ops(s, first)), now2, window2, run2),
    ensures
        apply_ops(apply_ops(s, first), second) == apply_ops(s, first),
        forall|now: int, window: int|
            #![trigger windowed(apply_ops(apply_ops(s, first), second), now, window)]
            windowed(apply_ops(apply_ops(s, first), second), now, window) == windowed(
                apply_ops(s, first),
                now,
                window,
            ),
        total(apply_ops(apply_ops(s, first), second)) == total(apply_ops(s, first)),
{
    lemma_repair_restores_invariant(s, first, now1, window1, run1);
    assert(second.len() == 0);
}

/// A click whose timestamp lies before the window counts in the total and
/// not in the windowed count. Under a member identity new to the log it leaves
/// the windowed count as it was; under one already logged it moves that entry
/// out of the window, as if the entry were gone.
pub proof fn lemma_old_click_outside_window(
    s: Analytics,
    t: int,
    member: Seq<char>,
    now: int,
    window: int,
)
    requires
        s.log.dom().finite(),
        t < now - window,
    ensures
        windowed(clicked(s, t, member), now, window) == windowed(
            Analytics { counter: s.counter, log: s.log.remove(member) },
            now,
            window,
        ),
        !s.log.contains_key(member) ==> windowed(clicked(s, t, member), now, window) == windowed(
            s,
            now,
            window,
        ),
        total(clicked(s, t, member)) == total(s) + 1,
{
    let c = clicked(s, t, member);
    let r = s.log.remove(member);
    let p_c = |m: Seq<char>| in_window(c.log[m], now, window);
    let p_r = |m: Seq<char>| in_window(r[m], now, window);
    let p_s = |m: Seq<char>| in_window(s.log[m], now, window);
    assert(c.log.dom().filter(p_c) =~= r.dom().filter(p_r));
    if !s.log.contains_key(member) {
        assert(r.dom().filter(p_r) =~= s.log.dom().filter(p_s));
    }
}

} // verus!
