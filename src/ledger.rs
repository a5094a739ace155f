use vstd::prelude::*;
use crate::analytics::{apply_op, in_window, recorded, total, windowed, Analytics, ClickOp};
use crate::clicks::{window_bounds, ClickStats};

verus! {

/// The click log that a list of `(member, timestamp)` entries holds.
pub open spec fn log_of(entries: Seq<(String, i64)>) -> Map<Seq<char>, int>
    decreases entries.len(),
{
    if entries.len() == 0 {
        Map::empty()
    } else {
        log_of(entries.drop_last()).insert(entries.last().0@, entries.last().1 as int)
    }
}

/// No two entries share a member identity.
pub open spec fn distinct_members(entries: Seq<(String, i64)>) -> bool {
    forall|i: int, j: int|
        0 <= i < j < entries.len() ==> (#[trigger] entries[i]).0@ != (#[trigger] entries[j]).0@
}

/// How many entries have a timestamp in the trailing window.
pub open spec fn count_in_window(entries: Seq<(String, i64)>, now: int, window: int) -> int
    decreases entries.len(),
{
    if entries.len() == 0 {
        0
    } else {
        count_in_window(entries.drop_last(), now, window) + if in_window(
            entries.last().1 as int,
            now,
            window,
        ) {
            1int
        } else {
            0int
        }
    }
}

proof fn lemma_log_of(e: Seq<(String, i64)>)
    requires
        distinct_members(e),
    ensures
        log_of(e).dom().finite(),
        log_of(e).dom().len() == e.len(),
        forall|m: Seq<char>|
            #![trigger log_of(e).contains_key(m)]
            log_of(e).contains_key(m) <==> exists|k: int| 0 <= k < e.len() && (#[trigger] e[k]).0@ == m,
        forall|k: int| 0 <= k < e.len() ==> log_of(e)[(#[trigger] e[k]).0@] == e[k].1 as int,
    decreases e.len(),
{
    if e.len() > 0 {
        let d = e.drop_last();
        assert forall|i: int, j: int| 0 <= i < j < d.len() implies (#[trigger] d[i]).0@ != (
        #[trigger] d[j]).0@ by {
            assert(d[i] == e[i] && d[j] == e[j]);
        }
        lemma_log_of(d);
        let last = e.last();
        assert(!log_of(d).contains_key(last.0@)) by {
            if log_of(d).contains_key(last.0@) {
                let k = choose|k: int| 0 <= k < d.len() && (#[trigger] d[k]).0@ == last.0@;
                assert(e[k] == d[k]);
                assert(e[k].0@ != e[e.len() - 1].0@);
            }
        }
        assert forall|m: Seq<char>| #[trigger]
            log_of(e).contains_key(m) <==> exists|k: int|
                0 <= k < e.len() && (#[trigger] e[k]).0@ == m by {
            if log_of(e).contains_key(m) && m != last.0@ {
                let k = choose|k: int| 0 <= k < d.len() && (#[trigger] d[k]).0@ == m;
                assert(e[k] == d[k]);
            }
            if m == last.0@ {
                assert(e[e.len() - 1].0@ == m);
            }
            if exists|k: int| 0 <= k < e.len() && (#[trigger] e[k]).0@ == m {
                let k = choose|k: int| 0 <= k < e.len() && (#[trigger] e[k]).0@ == m;
                if k < d.len() {
                    assert(d[k] == e[k]);
                    assert(log_of(d).contains_key(d[k].0@));
                }
            }
        }
        assert forall|k: int| 0 <= k < e.len() implies log_of(e)[(#[trigger] e[k]).0@] == e[k].1 as int by {
            if k < d.len() {
                assert(d[k] == e[k]);
                assert(e[k].0@ != e[e.len() - 1].0@);
            }
        }
    }
}

proof fn lemma_count_in_window(e: Seq<(String, i64)>, now: int, window: int)
    requires
        distinct_members(e),
    ensures
        count_in_window(e, now, window) == windowed(
            Analytics { counter: None, log: log_of(e) },
            now,
            window,
        ),
    decreases e.len(),
{
    if e.len() > 0 {
        let d = e.drop_last();
        assert forall|i: int, j: int| 0 <= i < j < d.len() implies (#[trigger] d[i]).0@ != (
        #[trigger] d[j]).0@ by {
            assert(d[i] == e[i] && d[j] == e[j]);
        }
        lemma_count_in_window(d, now, window);
        lemma_log_of(d);
        lemma_log_of(e);
        let last = e.last();
        assert(!log_of(d).contains_key(last.0@)) by {
            if log_of(d).contains_key(last.0@) {
                let k = choose|k: int| 0 <= k < d.len() && (#[trigger] d[k]).0@ == last.0@;
                assert(e[k] == d[k]);
                assert(e[k].0@ != e[e.len() - 1].0@);
            }
        }
        let (le, ld) = (log_of(e), log_of(d));
        let pe = |m: Seq<char>| in_window(le[m], now, window);
        let pd = |m: Seq<char>| in_window(ld[m], now, window);
        let fe = le.dom().filter(pe);
        let fd = ld.dom().filter(pd);
        ld.dom().lemma_len_filter(pd);
        assert(windowed(Analytics { counter: None, log: le }, now, window) == fe.len());
        assert(windowed(Analytics { counter: None, log: ld }, now, window) == fd.len());
        if in_window(last.1 as int, now, window) {
            assert(fe =~= fd.insert(last.0@));
        } else {
            assert(fe =~= fd);
        }
    } else {
        let l = log_of(e);
        assert(l.dom().filter(|m: Seq<char>| in_window(l[m], now, window)) =~= Set::empty());
    }
}

/// The analytics of one code held in memory: its counter and its click log,
/// changed by the same operations that the store performs.
pub struct ClickLedger {
    counter: Option<i64>,
    entries: Vec<(String, i64)>,
}

impl View for ClickLedger {
    type V = Analytics;

    closed spec fn view(&self) -> Analytics {
        Analytics {
            counter: match self.counter {
                Some(c) => Some(c as int),
                None => None,
            },
            log: log_of(self.entries@),
        }
    }
}

impl ClickLedger {
    /// Each member identity is logged once.
    pub closed spec fn wf(&self) -> bool {
        distinct_members(self.entries@) && self.entries@.len() <= i64::MAX
    }

    /// A ledger for a code with no clicks: no counter and an empty log.
    pub fn new() -> (r: ClickLedger)
        ensures
            r.wf(),
            r@ == (Analytics { counter: None, log: Map::empty() }),
    {
        ClickLedger { counter: None, entries: Vec::new() }
    }

    /// Performs one operation.
    pub fn apply(&mut self, op: ClickOp)
        requires
            old(self).wf(),
            op is IncrCounter ==> total(old(self)@) < i64::MAX,
            op is AddEntry ==> recorded(old(self)@) < i64::MAX,
        ensures
            final(self).wf(),
            final(self)@ == apply_op(old(self)@, op),
    {
        proof {
            lemma_log_of(self.entries@);
        }
        match op {
            ClickOp::InitCounter => {
                if self.counter.is_none() {
                    self.counter = Some(0);
                }
            },
            ClickOp::IncrCounter => {
                let c = match self.counter {
                    Some(c) => c,
                    None => 0,
                };
                self.counter = Some(c + 1);
            },
            ClickOp::AddEntry { score, member } => {
                let ghost m = member@;
                let ghost before = self.entries@;
                let mut i: usize = 0;
                let mut found: Option<usize> = None;
                while i < self.entries.len()
                    invariant
                        self.entries@ == before,
                        m == member@,
                        i <= before.len(),
                        found is None ==> forall|k: int| 0 <= k < i ==> (#[trigger] before[k]).0@ != m,
                        found matches Some(k) ==> k < before.len() && before[k as int].0@ == m,
                    decreases before.len() - i,
                {
                    let same: bool = self.entries[i].0 == member;
                    if found.is_none() && same {
                        found = Some(i);
                    }
                    i = i + 1;
                }
                match found {
                    Some(k) => {
                        self.entries.remove(k);
                        self.entries.push((member, score));
                        let ghost after = self.entries@;
                        proof {
                            assert forall|a: int, b: int| 0 <= a < b < after.len() implies (
                            #[trigger] after[a]).0@ != (#[trigger] after[b]).0@ by {
                                if b == after.len() - 1 {
                                    let ka = if a < k { a } else { a + 1 };
                                    assert(after[a] == before[ka]);
                                    assert(before[ka].0@ != before[k as int].0@);
                                } else {
                                    let ka = if a < k { a } else { a + 1 };
                                    let kb = if b < k { b } else { b + 1 };
                                    assert(after[a] == before[ka]);
                                    assert(after[b] == before[kb]);
                                }
                            }
                            lemma_log_of(after);
                            let target = log_of(before).insert(m, score as int);
                            assert forall|x: Seq<char>| #[trigger]
                                log_of(after).contains_key(x) == target.contains_key(x) by {
                                if log_of(after).contains_key(x) {
                                    let j = choose|j: int|
                                        0 <= j < after.len() && (#[trigger] after[j]).0@ == x;
                                    if j < after.len() - 1 {
                                        let kj = if j < k { j } else { j + 1 };
                                        assert(after[j] == before[kj]);
                                        assert(log_of(before).contains_key(before[kj].0@));
                                    }
                                }
                                if target.contains_key(x) && x != m {
                                    let j = choose|j: int|
                                        0 <= j < before.len() && (#[trigger] before[j]).0@ == x;
                                    let aj = if j < k { j } else { j - 1 };
                                    assert(j != k);
                                    assert(after[aj] == before[j]);
                                    assert(log_of(after).contains_key(after[aj].0@));
                                }
                                if x == m {
                                    assert(after[after.len() - 1].0@ == m);
                                    assert(log_of(after).contains_key(after[after.len() - 1].0@));
                                }
                            }
                            assert forall|x: Seq<char>| #[trigger]
                                log_of(after).contains_key(x) implies log_of(after)[x]
                                == target[x] by {
                                let j = choose|j: int|
                                    0 <= j < after.len() && (#[trigger] after[j]).0@ == x;
                                if j < after.len() - 1 {
                                    let kj = if j < k { j } else { j + 1 };
                                    assert(after[j] == before[kj]);
                                    assert(kj != k);
                                }
                            }
                            assert(log_of(after) =~= target);
                        }
                    },
                    None => {
                        self.entries.push((member, score));
                        let ghost after = self.entries@;
                        proof {
                            assert(after.drop_last() =~= before);
                            assert forall|a: int, b: int| 0 <= a < b < after.len() implies (
                            #[trigger] after[a]).0@ != (#[trigger] after[b]).0@ by {
                                assert(after[a] == before[a]);
                                if b < before.len() {
                                    assert(after[b] == before[b]);
                                }
                            }
                        }
                    },
                }
            },
        }
    }

    /// The total click count: the counter, or 0 where it is absent.
    pub fn total(&self) -> (r: i64)
        ensures
            r == total(self@),
    {
        match self.counter {
            Some(c) => c,
            None => 0,
        }
    }

    /// How many entries the click log holds.
    pub fn recorded(&self) -> (r: usize)
        requires
            self.wf(),
        ensures
            self@.log.dom().finite(),
            r == recorded(self@),
    {
        proof {
            lemma_log_of(self.entries@);
        }
        self.entries.len()
    }

    /// The statistics at time `now`: the total, and the log entries whose
    /// timestamp lies in `[now - window, now]`.
    pub fn stats(&self, now: i64, window: i64) -> (r: ClickStats)
        requires
            self.wf(),
            window >= 0,
        ensures
            self@.log.dom().finite(),
            r.total == total(self@),
            r.windowed == windowed(self@, now as int, window as int),
    {
        let (lo, hi) = window_bounds(now, window);
        let mut count: i64 = 0;
        let mut i: usize = 0;
        while i < self.entries.len()
            invariant
                self.wf(),
                i <= self.entries@.len(),
                count == count_in_window(self.entries@.take(i as int), now as int, window as int),
                count <= i,
                forall|score: i64| in_window(score as int, now as int, window as int) <==> lo <= score <= hi,
            decreases self.entries@.len() - i,
        {
            let score = self.entries[i].1;
            proof {
                assert(self.entries@.take(i + 1).drop_last() =~= self.entries@.take(i as int));
            }
            if lo <= score && score <= hi {
                count = count + 1;
            }
            i = i + 1;
        }
        proof {
            assert(self.entries@.take(i as int) =~= self.entries@);
            lemma_count_in_window(self.entries@, now as int, window as int);
            lemma_log_of(self.entries@);
        }
        ClickStats { total: self.total(), windowed: count }
    }
}

} // verus!
