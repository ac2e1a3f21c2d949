//! Browser-style note navigation history with a bounded size.
use vstd::prelude::*;

verus! {

/// Most entries a history keeps; older ones are dropped from the front.
pub const HISTORY_CAP: usize = 100;

/// Abstract state of a history: the visited ids, oldest first, and the
/// cursor.
pub type HistoryModel = (Seq<Seq<char>>, int);

#[derive(Debug, Clone)]
pub struct History {
    entries: Vec<String>,
    position: usize,
}

/// A reachable state: at most `HISTORY_CAP` entries, and the cursor on
/// an entry (or at 0 when there is none).
pub open spec fn model_wf(m: HistoryModel) -> bool {
    &&& m.0.len() <= HISTORY_CAP
    &&& 0 <= m.1
    &&& (m.0.len() == 0 ==> m.1 == 0)
    &&& (m.0.len() > 0 ==> m.1 < m.0.len())
}

/// The id under the cursor.
pub open spec fn spec_current(m: HistoryModel) -> Option<Seq<char>> {
    if 0 <= m.1 < m.0.len() {
        Some(m.0[m.1])
    } else {
        None
    }
}

pub open spec fn spec_can_go_back(m: HistoryModel) -> bool {
    m.1 > 0 && m.0.len() != 0
}

pub open spec fn spec_can_go_forward(m: HistoryModel) -> bool {
    m.0.len() != 0 && m.1 + 1 < m.0.len()
}

/// State after `back`.
pub open spec fn spec_back(m: HistoryModel) -> HistoryModel {
    if spec_can_go_back(m) {
        (m.0, m.1 - 1)
    } else {
        m
    }
}

/// State after `forward`.
pub open spec fn spec_forward(m: HistoryModel) -> HistoryModel {
    if spec_can_go_forward(m) {
        (m.0, m.1 + 1)
    } else {
        m
    }
}

/// State after `push(id)`: a repeat of the current id changes nothing;
/// otherwise everything after the cursor is dropped, `id` is appended
/// and becomes current, and the oldest entries go beyond the cap.
pub open spec fn spec_push(m: HistoryModel, id: Seq<char>) -> HistoryModel {
    if spec_current(m) == Some(id) {
        m
    } else {
        let kept = if m.0.len() == 0 {
            m.0
        } else {
            m.0.take(m.1 + 1)
        };
        let grown = kept.push(id);
        let capped = if grown.len() > HISTORY_CAP {
            grown.skip(grown.len() - HISTORY_CAP)
        } else {
            grown
        };
        (capped, capped.len() - 1)
    }
}

/// The `recent` scan: walk the entries before index `k` from newest to
/// oldest, collecting ids not yet `seen`, until `n` are collected.
pub open spec fn recent_scan(
    es: Seq<Seq<char>>,
    k: int,
    seen: Seq<Seq<char>>,
    out: Seq<Seq<char>>,
    n: nat,
) -> Seq<Seq<char>>
    decreases k,
{
    if k <= 0 || out.len() >= n {
        out
    } else {
        let id = es[k - 1];
        if seen.contains(id) {
            recent_scan(es, k - 1, seen, out, n)
        } else {
            recent_scan(es, k - 1, seen.push(id), out.push(id), n)
        }
    }
}

/// What `recent(n)` returns.
pub open spec fn spec_recent(m: HistoryModel, n: nat) -> Seq<Seq<char>> {
    let seen = match spec_current(m) {
        Some(c) => seq![c],
        None => Seq::empty(),
    };
    recent_scan(m.0, m.1, seen, Seq::empty(), n)
}

impl View for History {
    type V = HistoryModel;

    closed spec fn view(&self) -> HistoryModel {
        (self.entries@.map_values(|s: String| s@), self.position as int)
    }
}

impl History {
    /// The model is a reachable state (see `model_wf`).
    pub open spec fn wf(&self) -> bool {
        model_wf(self@)
    }

    pub fn new() -> (h: Self)
        ensures
            h.wf(),
            h@.0 == Seq::<Seq<char>>::empty(),
            h@.1 == 0,
    {
        let h = History { entries: Vec::new(), position: 0 };
        assert(h@.0 =~= Seq::<Seq<char>>::empty());
        h
    }

    /// Replace the whole history with the single entry `id`.
    pub fn reset(&mut self, id: String)
        ensures
            final(self).wf(),
            final(self)@ == (seq![id@], 0int),
    {
        let ghost v = id@;
        self.entries = vec![id];
        self.position = 0;
        assert(self@.0 =~= seq![v]);
    }

    /// Drop every entry and reset the cursor.
    pub fn clear(&mut self)
        ensures
            final(self).wf(),
            final(self)@ == (Seq::<Seq<char>>::empty(), 0int),
    {
        self.entries.clear();
        self.position = 0;
        assert(self@.0 =~= Seq::<Seq<char>>::empty());
    }

    /// The id under the cursor, if any.
    pub fn current(&self) -> (r: Option<&str>)
        ensures
            r is Some <==> spec_current(self@) is Some,
            r matches Some(s) ==> spec_current(self@) == Some(s@),
    {
        if self.position < self.entries.len() {
            Some(self.entries[self.position].as_str())
        } else {
            None
        }
    }

    /// The `n` most recently visited distinct ids before the cursor,
    /// most recent first, excluding the current one (fewer when fewer
    /// were visited).
    pub fn recent(&self, n: usize) -> (r: Vec<String>)
        requires
            self.wf(),
        ensures
            r@.map_values(|s: String| s@) == spec_recent(self@, n as nat),
    {
        let mut seen: Vec<String> = Vec::new();
        if self.position < self.entries.len() {
            seen.push(self.entries[self.position].clone());
        }
        let ghost seen0 = seen@.map_values(|s: String| s@);
        assert(seen0 =~= match spec_current(self@) {
            Some(c) => seq![c],
            None => Seq::<Seq<char>>::empty(),
        });
        let mut out: Vec<String> = Vec::new();
        let mut k: usize = self.position;
        let ghost es = self@.0;
        assert(spec_recent(self@, n as nat) == recent_scan(es, self@.1, seen0, Seq::empty(), n as nat));
        proof {
            assert(out@.map_values(|s: String| s@) =~= Seq::<Seq<char>>::empty());
        }
        while k > 0 && out.len() < n
            invariant
                es == self@.0,
                spec_recent(self@, n as nat) == recent_scan(es, self@.1, seen0, Seq::empty(), n as nat),
                k <= es.len(),
                k <= self@.1,
                recent_scan(es, self@.1, seen0, Seq::empty(), n as nat) == recent_scan(
                    es,
                    k as int,
                    seen@.map_values(|s: String| s@),
                    out@.map_values(|s: String| s@),
                    n as nat,
                ),
            decreases k,
        {
            let id = &self.entries[k - 1];
            let ghost sv = seen@.map_values(|s: String| s@);
            let ghost ov = out@.map_values(|s: String| s@);
            let mut found = false;
            let mut j: usize = 0;
            while j < seen.len()
                invariant
                    j <= seen@.len(),
                    sv == seen@.map_values(|s: String| s@),
                    found == (exists|q: int| 0 <= q < j && sv[q] == id@),
                decreases seen@.len() - j,
            {
                assert(sv[j as int] == seen@[j as int]@);
                if seen[j] == *id {
                    found = true;
                }
                j = j + 1;
            }
            assert(found == sv.contains(es[k - 1]));
            if !found {
                seen.push(id.clone());
                out.push(id.clone());
                assert(seen@.map_values(|s: String| s@) =~= sv.push(es[k - 1]));
                assert(out@.map_values(|s: String| s@) =~= ov.push(es[k - 1]));
            }
            k = k - 1;
        }
        out
    }

    pub fn can_go_back(&self) -> (r: bool)
        ensures
            r == spec_can_go_back(self@),
    {
        self.position > 0 && self.entries.len() != 0
    }

    pub fn can_go_forward(&self) -> (r: bool)
        ensures
            r == spec_can_go_forward(self@),
    {
        self.entries.len() != 0 && self.position < self.entries.len() - 1
    }

    /// Push `id` at the cursor, browser style: entries after the cursor
    /// are dropped, a repeat of the current id is skipped, and the
    /// oldest entries are dropped beyond the cap.
    pub fn push(&mut self, id: String)
        requires
            old(self).wf(),
        ensures
            final(self).wf(),
            final(self)@ == spec_push(old(self)@, id@),
    {
        let ghost m = self@;
        if self.position < self.entries.len() && self.entries[self.position] == id {
            return;
        }
        if self.entries.len() != 0 && self.position + 1 < self.entries.len() {
            self.entries.truncate(self.position + 1);
        }
        let ghost kept = self@.0;
        assert(kept =~= (if m.0.len() == 0 {
            m.0
        } else {
            m.0.take(m.1 + 1)
        }));
        let ghost v = id@;
        self.entries.push(id);
        self.position = self.entries.len() - 1;
        let ghost grown = kept.push(v);
        assert(self@.0 =~= grown);
        while self.entries.len() > HISTORY_CAP
            invariant
                grown.len() <= HISTORY_CAP + 1,
                self.entries@.len() >= HISTORY_CAP || self.entries@.len() == grown.len(),
                self.entries@.len() >= 1,
                self@.0 == grown.skip(grown.len() - self.entries@.len()),
                self.position == self.entries@.len() - 1,
                self.entries@.len() <= grown.len(),
            decreases self.entries@.len(),
        {
            let ghost before = self.entries@;
            let ghost before_v = self@.0;
            self.entries.remove(0);
            assert(self.entries@ =~= before.subrange(1, before.len() as int));
            assert(self.entries@.map_values(|s: String| s@) =~= before_v.subrange(1, before_v.len() as int));
            self.position = if self.position > 0 {
                self.position - 1
            } else {
                0
            };
            assert(self@.0 =~= grown.skip(grown.len() - self.entries@.len()));
        }
        assert(grown.skip(0) =~= grown);
    }

    /// Step the cursor back and return the now-current id; `None` at the
    /// oldest entry or when empty.
    pub fn back(&mut self) -> (r: Option<&str>)
        requires
            old(self).wf(),
        ensures
            final(self).wf(),
            final(self)@ == spec_back(old(self)@),
            r is Some <==> spec_can_go_back(old(self)@),
            r matches Some(s) ==> spec_current(final(self)@) == Some(s@),
    {
        if !self.can_go_back() {
            return None;
        }
        self.position = self.position - 1;
        self.current()
    }

    /// Step the cursor forward and return the now-current id; `None` at
    /// the newest entry.
    pub fn forward(&mut self) -> (r: Option<&str>)
        requires
            old(self).wf(),
        ensures
            final(self).wf(),
            final(self)@ == spec_forward(old(self)@),
            r is Some <==> spec_can_go_forward(old(self)@),
            r matches Some(s) ==> spec_current(final(self)@) == Some(s@),
    {
        if !self.can_go_forward() {
            return None;
        }
        self.position = self.position + 1;
        self.current()
    }
}

/// Every reachable state stays within the cap: `push` keeps the history
/// well formed.
pub proof fn law_push_keeps_cap(m: HistoryModel, id: Seq<char>)
    requires
        model_wf(m),
    ensures
        model_wf(spec_push(m, id)),
        spec_push(m, id).0.len() <= HISTORY_CAP,
{
}

/// After a push the pushed id is current; unless it already was, there
/// is nowhere forward to go.
pub proof fn law_push_makes_current(m: HistoryModel, id: Seq<char>)
    requires
        model_wf(m),
    ensures
        spec_current(spec_push(m, id)) == Some(id),
        spec_current(m) != Some(id) ==> !spec_can_go_forward(spec_push(m, id)),
{
}

/// Pushing the current id again changes nothing.
pub proof fn law_push_skips_repeat(m: HistoryModel, id: Seq<char>)
    requires
        model_wf(m),
        spec_current(m) == Some(id),
    ensures
        spec_push(m, id) == m,
{
}

/// Going back and then forward returns to the same state.
pub proof fn law_back_then_forward(m: HistoryModel)
    requires
        model_wf(m),
        spec_can_go_back(m),
    ensures
        spec_forward(spec_back(m)) == m,
{
}

/// Going forward and then back returns to the same state.
pub proof fn law_forward_then_back(m: HistoryModel)
    requires
        model_wf(m),
        spec_can_go_forward(m),
    ensures
        spec_back(spec_forward(m)) == m,
{
}

/// The recent list holds no id twice, never the seen ids (the current
/// one among them), only ids before the cursor, and at most `n` of them.
pub proof fn lemma_recent_scan(
    es: Seq<Seq<char>>,
    k: int,
    seen: Seq<Seq<char>>,
    out: Seq<Seq<char>>,
    n: nat,
)
    requires
        0 <= k <= es.len(),
        forall|i: int, j: int| 0 <= i < j < out.len() ==> out[i] != out[j],
        forall|i: int| 0 <= i < out.len() ==> seen.contains(#[trigger] out[i]),
        out.len() <= n,
    ensures
        ({
            let r = recent_scan(es, k, seen, out, n);
            &&& out.len() <= r.len()
            &&& r.subrange(0, out.len() as int) == out
            &&& forall|i: int, j: int| 0 <= i < j < r.len() ==> r[i] != r[j]
            &&& forall|i: int| out.len() <= i < r.len() ==> !seen.contains(#[trigger] r[i])
            &&& forall|i: int| out.len() <= i < r.len() ==> es.take(k).contains(#[trigger] r[i])
            &&& r.len() <= n
            &&& r.len() < n ==> forall|i: int|
                0 <= i < k ==> seen.contains(#[trigger] es[i]) || r.contains(es[i])
        }),
    decreases k,
{
    if k <= 0 || out.len() >= n {
        assert(out.subrange(0, out.len() as int) =~= out);
    } else {
        let id = es[k - 1];
        if seen.contains(id) {
            lemma_recent_scan(es, k - 1, seen, out, n);
            let r = recent_scan(es, k - 1, seen, out, n);
            assert(seen.contains(es[k - 1]));
            assert forall|i: int| out.len() <= i < r.len() implies es.take(k).contains(#[trigger] r[i]) by {
                assert(es.take(k - 1).contains(r[i]));
                let q = choose|q: int| 0 <= q < k - 1 && #[trigger] es.take(k - 1)[q] == r[i];
                assert(es.take(k)[q] == r[i]);
            }
        } else {
            let seen2 = seen.push(id);
            let out2 = out.push(id);
            assert forall|i: int, j: int| 0 <= i < j < out2.len() implies out2[i] != out2[j] by {
                if j == out.len() {
                    assert(seen.contains(out[i]));
                }
            }
            assert forall|i: int| 0 <= i < out2.len() implies seen2.contains(#[trigger] out2[i]) by {
                if i < out.len() {
                    assert(seen.contains(out[i]));
                    let q = choose|q: int| 0 <= q < seen.len() && seen[q] == out[i];
                    assert(seen2[q] == out[i]);
                } else {
                    assert(seen2[seen.len() as int] == id);
                }
            }
            lemma_recent_scan(es, k - 1, seen2, out2, n);
            let r = recent_scan(es, k - 1, seen2, out2, n);
            assert(r.subrange(0, out.len() as int) =~= r.subrange(0, out2.len() as int).subrange(0, out.len() as int));
            if r.len() < n {
                assert forall|i: int| 0 <= i < k implies seen.contains(#[trigger] es[i]) || r.contains(es[i]) by {
                    if i == k - 1 {
                        assert(r[out.len() as int] == r.subrange(0, out2.len() as int)[out.len() as int]);
                        assert(r[out.len() as int] == id);
                    } else if seen2.contains(es[i]) && !seen.contains(es[i]) {
                        let q = choose|q: int| 0 <= q < seen2.len() && seen2[q] == es[i];
                        assert(q == seen.len());
                        assert(r[out.len() as int] == r.subrange(0, out2.len() as int)[out.len() as int]);
                    }
                }
            }
            assert forall|i: int| out.len() <= i < r.len() implies !seen.contains(#[trigger] r[i]) by {
                if i == out.len() {
                    assert(r[i] == out2[i]);
                } else {
                    if seen.contains(r[i]) {
                        let q = choose|q: int| 0 <= q < seen.len() && seen[q] == r[i];
                        assert(seen2[q] == r[i]);
                    }
                }
            }
            assert forall|i: int| out.len() <= i < r.len() implies es.take(k).contains(#[trigger] r[i]) by {
                if i == out.len() {
                    assert(r[i] == out2[i]);
                    assert(es.take(k)[k - 1] == r[i]);
                } else {
                    assert(es.take(k - 1).contains(r[i]));
                    let q = choose|q: int| 0 <= q < k - 1 && #[trigger] es.take(k - 1)[q] == r[i];
                    assert(es.take(k)[q] == r[i]);
                }
            }
        }
    }
}

/// `recent` never repeats an id, never returns the current id, only
/// returns ids visited before the cursor, and returns at most `n` ids;
/// fewer only when every other id before the cursor is among them.
pub proof fn law_recent_distinct(m: HistoryModel, n: nat)
    requires
        model_wf(m),
    ensures
        ({
            let r = spec_recent(m, n);
            &&& forall|i: int, j: int| 0 <= i < j < r.len() ==> r[i] != r[j]
            &&& forall|i: int| 0 <= i < r.len() ==> Some(#[trigger] r[i]) != spec_current(m)
            &&& forall|i: int| 0 <= i < r.len() ==> m.0.take(m.1).contains(#[trigger] r[i])
            &&& r.len() <= n
            &&& r.len() < n ==> forall|i: int|
                0 <= i < m.1 ==> Some(#[trigger] m.0[i]) == spec_current(m) || r.contains(m.0[i])
        }),
{
    let seen = match spec_current(m) {
        Some(c) => seq![c],
        None => Seq::<Seq<char>>::empty(),
    };
    lemma_recent_scan(m.0, m.1, seen, Seq::empty(), n);
    let r = spec_recent(m, n);
    if r.len() < n {
        assert forall|i: int| 0 <= i < m.1 implies Some(#[trigger] m.0[i]) == spec_current(m) || r.contains(m.0[i]) by {
            if seen.contains(m.0[i]) {
                let q = choose|q: int| 0 <= q < seen.len() && seen[q] == m.0[i];
            }
        }
    }
    assert forall|i: int| 0 <= i < r.len() implies Some(#[trigger] r[i]) != spec_current(m) by {
        if let Some(c) = spec_current(m) {
            assert(seen[0] == c);
            if r[i] == c {
                assert(seen.contains(r[i]));
            }
        }
    }
}

/// One call on a history, as far as its model is concerned.
pub enum HistoryOp {
    Push(Seq<char>),
    Back,
    Forward,
    Reset(Seq<char>),
    Clear,
}

/// The model after one call.
pub open spec fn apply_op(m: HistoryModel, op: HistoryOp) -> HistoryModel {
    match op {
        HistoryOp::Push(id) => spec_push(m, id),
        HistoryOp::Back => spec_back(m),
        HistoryOp::Forward => spec_forward(m),
        HistoryOp::Reset(id) => (seq![id], 0),
        HistoryOp::Clear => (Seq::empty(), 0),
    }
}

/// The model reached from a new history by the calls `ops`, in order.
pub open spec fn run_ops(ops: Seq<HistoryOp>) -> HistoryModel
    decreases ops.len(),
{
    if ops.len() == 0 {
        (Seq::empty(), 0)
    } else {
        apply_op(run_ops(ops.drop_last()), ops.last())
    }
}

/// The ids handed to `push` or `reset` since the last `clear`.
pub open spec fn given_since_clear(ops: Seq<HistoryOp>) -> Seq<Seq<char>>
    decreases ops.len(),
{
    if ops.len() == 0 {
        Seq::empty()
    } else {
        let before = given_since_clear(ops.drop_last());
        match ops.last() {
            HistoryOp::Push(id) => before.push(id),
            HistoryOp::Reset(id) => before.push(id),
            HistoryOp::Clear => Seq::empty(),
            _ => before,
        }
    }
}

/// Over any sequence of calls from a new history: the state stays well
/// formed; there is a current id exactly when `push` or `reset` was
/// called since the last `clear`; every entry, the current one among
/// them, is an id handed to one of those calls; and `back` or `forward`
/// can only move when there is a current id.
pub proof fn law_history_runs(ops: Seq<HistoryOp>)
    ensures
        ({
            let m = run_ops(ops);
            let given = given_since_clear(ops);
            &&& model_wf(m)
            &&& (spec_current(m) is Some <==> given.len() > 0)
            &&& forall|i: int| 0 <= i < m.0.len() ==> given.contains(#[trigger] m.0[i])
            &&& (spec_can_go_back(m) || spec_can_go_forward(m)) ==> spec_current(m) is Some
        }),
    decreases ops.len(),
{
    if ops.len() > 0 {
        let prev = ops.drop_last();
        law_history_runs(prev);
        let m0 = run_ops(prev);
        let g0 = given_since_clear(prev);
        let m = run_ops(ops);
        let given = given_since_clear(ops);
        match ops.last() {
            HistoryOp::Push(id) => {
                assert(given == g0.push(id));
                if spec_current(m0) != Some(id) {
                    let kept = if m0.0.len() == 0 {
                        m0.0
                    } else {
                        m0.0.take(m0.1 + 1)
                    };
                    let grown = kept.push(id);
                    assert forall|i: int| 0 <= i < m.0.len() implies given.contains(#[trigger] m.0[i]) by {
                        let gi = if grown.len() > HISTORY_CAP {
                            i + (grown.len() - HISTORY_CAP)
                        } else {
                            i
                        };
                        assert(m.0[i] == grown[gi]);
                        if gi == kept.len() {
                            assert(given[g0.len() as int] == id);
                        } else {
                            assert(grown[gi] == m0.0[gi]);
                            assert(g0.contains(m0.0[gi]));
                            let q = choose|q: int| 0 <= q < g0.len() && g0[q] == m0.0[gi];
                            assert(given[q] == m0.0[gi]);
                        }
                    }
                } else {
                    assert forall|i: int| 0 <= i < m.0.len() implies given.contains(#[trigger] m.0[i]) by {
                        assert(g0.contains(m0.0[i]));
                        let q = choose|q: int| 0 <= q < g0.len() && g0[q] == m0.0[i];
                        assert(given[q] == m0.0[i]);
                    }
                }
                assert(given[g0.len() as int] == id);
            },
            HistoryOp::Reset(id) => {
                assert(given == g0.push(id));
                assert(given[g0.len() as int] == id);
                assert forall|i: int| 0 <= i < m.0.len() implies given.contains(#[trigger] m.0[i]) by {
                    assert(m.0[i] == id);
                }
            },
            HistoryOp::Clear => {},
            HistoryOp::Back => {
                assert(given == g0);
            },
            HistoryOp::Forward => {
                assert(given == g0);
            },
        }
    }
}

} // verus!
