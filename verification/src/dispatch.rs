//! Correlation of in-flight commands with their callers, with per-request
//! time limits.
//!
//! Each outbound call carries a [`CallId`]; the dispatcher keeps, for each
//! pending id, the caller's reply channel and when the call was made.
//! Answers go to the waiting caller and end the wait; calls older than the
//! time limit are answered with a timeout when the pending calls are swept;
//! late answers for unknown ids are dropped; when the connection closes,
//! every pending caller is told so. Times are milliseconds on a monotonic
//! clock that the caller reads.

use futures::channel::oneshot;
use vstd::prelude::*;

use crate::error::CdpError;
use crate::types::CallId;

verus! {

#[verifier::external_type_specification]
#[verifier::external_body]
#[verifier::reject_recursive_types(T)]
pub struct ExOneshotSender<T>(oneshot::Sender<T>);

#[verifier::external_type_specification]
#[verifier::external_body]
pub struct ExJsonValue(serde_json::Value);

/// The answer a caller waits for.
pub type CallResult = Result<serde_json::Value, CdpError>;

/// `futures::channel::oneshot::Sender::send`, with the outcome dropped.
///
/// Trusted: nothing is claimed; the receiver may already be gone.
#[verifier::external_body]
fn deliver(tx: oneshot::Sender<CallResult>, result: CallResult) {
    let _ = tx.send(result);
}

/// An answer to hand to a waiting caller: the caller's reply channel and
/// what it is told.
pub type Answer = (oneshot::Sender<CallResult>, CallResult);

/// A pending call: its id, the caller's reply channel, and when it was made.
pub type Pending = (usize, oneshot::Sender<CallResult>, u64);

/// Hand each answer to its caller, in order (a caller that stopped waiting
/// is skipped).
pub fn send_answers(answers: Vec<Answer>) {
    let mut answers = answers;
    while answers.len() > 0
        decreases answers@.len(),
    {
        let (tx, result) = answers.remove(0);
        deliver(tx, result);
    }
}

/// The reply channel of the pending call `id`.
pub open spec fn sender_of(v: Seq<Pending>, id: usize) -> oneshot::Sender<CallResult> {
    v[choose|i: int| 0 <= i < v.len() && #[trigger] v[i].0 == id].1
}

/// The calls of `v` that have not run out of time at `now`, in order.
pub open spec fn live(v: Seq<Pending>, now: u64, timeout: u64) -> Seq<Pending>
    decreases v.len(),
{
    if v.len() == 0 {
        seq![]
    } else {
        live(v.drop_last(), now, timeout) + if expired(v.last().2, now, timeout) {
            seq![]
        } else {
            seq![v.last()]
        }
    }
}

/// A timeout for each call of `v` that has run out of time at `now`, in
/// order.
pub open spec fn timed_out(v: Seq<Pending>, now: u64, timeout: u64) -> Seq<Answer>
    decreases v.len(),
{
    if v.len() == 0 {
        seq![]
    } else {
        timed_out(v.drop_last(), now, timeout) + if expired(v.last().2, now, timeout) {
            seq![(v.last().1, Err::<serde_json::Value, CdpError>(CdpError::Timeout))]
        } else {
            seq![]
        }
    }
}

/// Each call of `v` told that the connection is closed, in order.
pub open spec fn closed_answers(v: Seq<Pending>) -> Seq<Answer> {
    v.map_values(|e: Pending| (e.1, Err::<serde_json::Value, CdpError>(CdpError::ChannelClosed)))
}

/// Whether a call made at `registered` has run out of time at `now`
/// (the time since it was made, never negative, has reached the limit).
pub open spec fn expired(registered: u64, now: u64, timeout: u64) -> bool {
    (if now >= registered {
        now - registered
    } else {
        0
    }) >= timeout
}

/// The pending calls, by id, with the time each was made.
pub open spec fn pending_map(v: Seq<(usize, oneshot::Sender<CallResult>, u64)>) -> Map<usize, u64> {
    Map::new(
        |k: usize| exists|i: int| 0 <= i < v.len() && #[trigger] v[i].0 == k,
        |k: usize| v[choose|i: int| 0 <= i < v.len() && #[trigger] v[i].0 == k].2,
    )
}

/// No id is pending twice.
pub open spec fn distinct_ids(v: Seq<(usize, oneshot::Sender<CallResult>, u64)>) -> bool {
    forall|i: int, j: int| 0 <= i < v.len() && 0 <= j < v.len() && i != j ==> v[i].0 != v[j].0
}

/// The calls of `m` that have not run out of time at `now`.
pub open spec fn unexpired(m: Map<usize, u64>, now: u64, timeout: u64) -> Map<usize, u64> {
    Map::new(|k: usize| m.contains_key(k) && !expired(m[k], now, timeout), |k: usize| m[k])
}

/// The pending calls and their time limit.
pub struct CommandDispatcher {
    /// For each pending call: its id, the caller's reply channel, and when
    /// it was made.
    pub pending: Vec<(usize, oneshot::Sender<CallResult>, u64)>,
    /// How long a call may wait for its answer, in milliseconds.
    pub request_timeout_ms: u64,
}

proof fn lemma_pending_index(v: Seq<(usize, oneshot::Sender<CallResult>, u64)>, i: int)
    requires
        distinct_ids(v),
        0 <= i < v.len(),
    ensures
        pending_map(v).contains_key(v[i].0),
        pending_map(v)[v[i].0] == v[i].2,
{
    let k = v[i].0;
    assert(exists|j: int| 0 <= j < v.len() && #[trigger] v[j].0 == k);
    let j = choose|j: int| 0 <= j < v.len() && #[trigger] v[j].0 == k;
    assert(j == i);
}

proof fn lemma_pending_remove(v: Seq<(usize, oneshot::Sender<CallResult>, u64)>, i: int)
    requires
        distinct_ids(v),
        0 <= i < v.len(),
    ensures
        distinct_ids(v.remove(i)),
        pending_map(v.remove(i)) == pending_map(v).remove(v[i].0),
{
    let w = v.remove(i);
    let k0 = v[i].0;
    assert forall|j: int| 0 <= j < w.len() implies #[trigger] w[j] == (if j < i {
        v[j]
    } else {
        v[j + 1]
    }) by {}
    assert(distinct_ids(w)) by {
        assert forall|a: int, b: int| 0 <= a < w.len() && 0 <= b < w.len() && a != b implies w[a].0
            != w[b].0 by {
            let a2 = if a < i { a } else { a + 1 };
            let b2 = if b < i { b } else { b + 1 };
            assert(w[a] == v[a2] && w[b] == v[b2]);
        }
    }
    assert forall|k: usize| #[trigger] pending_map(w).contains_key(k) <==> pending_map(v).remove(k0).contains_key(k) by {
        if pending_map(w).contains_key(k) {
            let j = choose|j: int| 0 <= j < w.len() && #[trigger] w[j].0 == k;
            let j2 = if j < i { j } else { j + 1 };
            assert(w[j] == v[j2]);
            assert(j2 != i);
        }
        if pending_map(v).contains_key(k) && k != k0 {
            let j = choose|j: int| 0 <= j < v.len() && #[trigger] v[j].0 == k;
            if j < i {
                assert(w[j] == v[j]);
            } else {
                assert(w[j - 1] == v[j]);
            }
        }
    }
    assert forall|k: usize| #[trigger] pending_map(w).contains_key(k) implies pending_map(w)[k]
        == pending_map(v).remove(k0)[k] by {
        let j = choose|j: int| 0 <= j < w.len() && #[trigger] w[j].0 == k;
        lemma_pending_index(w, j);
        let j2 = if j < i { j } else { j + 1 };
        assert(w[j] == v[j2]);
        lemma_pending_index(v, j2);
    }
    assert(pending_map(w) =~= pending_map(v).remove(k0));
}

proof fn lemma_pending_push(v: Seq<(usize, oneshot::Sender<CallResult>, u64)>, e: (usize, oneshot::Sender<CallResult>, u64))
    requires
        distinct_ids(v),
        !pending_map(v).contains_key(e.0),
    ensures
        distinct_ids(v.push(e)),
        pending_map(v.push(e)) == pending_map(v).insert(e.0, e.2),
{
    let w = v.push(e);
    assert(distinct_ids(w)) by {
        assert forall|a: int, b: int| 0 <= a < w.len() && 0 <= b < w.len() && a != b implies w[a].0
            != w[b].0 by {
            if a < v.len() && b < v.len() {
            } else if a < v.len() {
                if v[a].0 == e.0 {
                    assert(pending_map(v).contains_key(e.0));
                }
            } else {
                if v[b].0 == e.0 {
                    assert(pending_map(v).contains_key(e.0));
                }
            }
        }
    }
    assert forall|k: usize| #[trigger] pending_map(w).contains_key(k) <==> pending_map(v).insert(e.0, e.2).contains_key(k) by {
        if pending_map(w).contains_key(k) {
            let j = choose|j: int| 0 <= j < w.len() && #[trigger] w[j].0 == k;
            if j < v.len() {
                assert(v[j].0 == k);
            }
        }
        if pending_map(v).contains_key(k) {
            let j = choose|j: int| 0 <= j < v.len() && #[trigger] v[j].0 == k;
            assert(w[j].0 == k);
        }
        if k == e.0 {
            assert(w[v.len() as int].0 == k);
        }
    }
    assert forall|k: usize| #[trigger] pending_map(w).contains_key(k) implies pending_map(w)[k]
        == pending_map(v).insert(e.0, e.2)[k] by {
        let j = choose|j: int| 0 <= j < w.len() && #[trigger] w[j].0 == k;
        lemma_pending_index(w, j);
        if j < v.len() {
            lemma_pending_index(v, j);
        }
    }
    assert(pending_map(w) =~= pending_map(v).insert(e.0, e.2));
}

proof fn lemma_live(v: Seq<Pending>, now: u64, timeout: u64)
    requires
        distinct_ids(v),
    ensures
        distinct_ids(live(v, now, timeout)),
        pending_map(live(v, now, timeout)) == unexpired(pending_map(v), now, timeout),
        forall|k: usize| #[trigger] pending_map(live(v, now, timeout)).contains_key(k) ==> pending_map(v).contains_key(k),
    decreases v.len(),
{
    if v.len() == 0 {
        assert(pending_map(v) =~= Map::<usize, u64>::empty());
        assert(pending_map(live(v, now, timeout)) =~= Map::<usize, u64>::empty());
        assert(unexpired(pending_map(v), now, timeout) =~= Map::<usize, u64>::empty());
    } else {
        let init = v.drop_last();
        let e = v.last();
        assert(distinct_ids(init)) by {
            assert forall|a: int, b: int| 0 <= a < init.len() && 0 <= b < init.len() && a != b implies init[a].0 != init[b].0 by {
                assert(init[a] == v[a] && init[b] == v[b]);
            }
        }
        lemma_live(init, now, timeout);
        assert(v =~= init.push(e));
        assert(!pending_map(init).contains_key(e.0)) by {
            if pending_map(init).contains_key(e.0) {
                let j = choose|j: int| 0 <= j < init.len() && #[trigger] init[j].0 == e.0;
                assert(v[j].0 == v[v.len() - 1].0);
            }
        }
        lemma_pending_push(init, e);
        let l = live(init, now, timeout);
        if expired(e.2, now, timeout) {
            assert(live(v, now, timeout) =~= l);
            assert(unexpired(pending_map(v), now, timeout) =~= unexpired(pending_map(init), now, timeout));
        } else {
            assert(live(v, now, timeout) =~= l.push(e));
            assert(!pending_map(l).contains_key(e.0));
            lemma_pending_push(l, e);
            assert(unexpired(pending_map(v), now, timeout) =~= unexpired(pending_map(init), now, timeout).insert(e.0, e.2));
        }
    }
}

impl CommandDispatcher {
    /// No id is pending twice.
    pub open spec fn inv(&self) -> bool {
        distinct_ids(self.pending@)
    }

    /// The pending calls by id, with the time each was made.
    pub open spec fn calls(&self) -> Map<usize, u64> {
        pending_map(self.pending@)
    }

    /// A dispatcher with nothing pending whose calls may wait
    /// `request_timeout_ms` milliseconds.
    pub fn new(request_timeout_ms: u64) -> (d: Self)
        ensures
            d.inv(),
            d.calls() == Map::<usize, u64>::empty(),
            d.request_timeout_ms == request_timeout_ms,
    {
        let d = CommandDispatcher { pending: Vec::new(), request_timeout_ms };
        assert(d.calls() =~= Map::<usize, u64>::empty());
        d
    }

    fn position(&self, id: usize) -> (r: Option<usize>)
        requires
            self.inv(),
        ensures
            match r {
                Some(i) => i < self.pending@.len() && self.pending@[i as int].0 == id,
                None => !self.calls().contains_key(id),
            },
    {
        let mut i: usize = 0;
        while i < self.pending.len()
            invariant
                i <= self.pending@.len(),
                forall|j: int| 0 <= j < i ==> self.pending@[j].0 != id,
            decreases self.pending@.len() - i,
        {
            if self.pending[i].0 == id {
                return Some(i);
            }
            i = i + 1;
        }
        None
    }

    /// Wait for the answer to call `id`, made at `now_ms`, on `tx`. A call
    /// already pending under that id is replaced (its channel is dropped).
    pub fn register(&mut self, id: CallId, tx: oneshot::Sender<CallResult>, now_ms: u64)
        requires
            old(self).inv(),
        ensures
            final(self).inv(),
            final(self).calls() == old(self).calls().insert(id.0, now_ms),
            final(self).request_timeout_ms == old(self).request_timeout_ms,
    {
        match self.position(id.0) {
            Some(i) => {
                proof {
                    lemma_pending_index(self.pending@, i as int);
                    lemma_pending_remove(self.pending@, i as int);
                }
                let _replaced = self.pending.remove(i);
                proof {
                    lemma_pending_push(self.pending@, (id.0, tx, now_ms));
                    assert(self.calls().remove(id.0).insert(id.0, now_ms) =~= old(self).calls().insert(id.0, now_ms));
                }
                self.pending.push((id.0, tx, now_ms));
                assert(self.calls() =~= old(self).calls().insert(id.0, now_ms));
            },
            None => {
                proof {
                    lemma_pending_push(self.pending@, (id.0, tx, now_ms));
                }
                self.pending.push((id.0, tx, now_ms));
            },
        }
    }

    /// The answer for call `id`: `result`, for the caller waiting on it,
    /// which then stops waiting; nothing for an unknown id (a late answer).
    /// The answer is handed over by [`send_answers`].
    pub fn resolve(&mut self, id: CallId, result: CallResult) -> (r: Option<Answer>)
        requires
            old(self).inv(),
        ensures
            final(self).inv(),
            final(self).calls() == old(self).calls().remove(id.0),
            final(self).request_timeout_ms == old(self).request_timeout_ms,
            r == (if old(self).calls().contains_key(id.0) {
                Some((sender_of(old(self).pending@, id.0), result))
            } else {
                None
            }),
    {
        match self.position(id.0) {
            Some(i) => {
                proof {
                    lemma_pending_index(self.pending@, i as int);
                    lemma_pending_remove(self.pending@, i as int);
                    let j = choose|j: int| 0 <= j < self.pending@.len() && #[trigger] self.pending@[j].0 == id.0;
                    assert(j == i);
                }
                let (_, tx, _) = self.pending.remove(i);
                Some((tx, result))
            },
            None => {
                assert(self.calls() =~= self.calls().remove(id.0));
                None
            },
        }
    }

    /// A timeout for every call that has run out of time at `now_ms`, in
    /// the order the calls were made; those calls stop waiting and the
    /// others keep waiting. The answers are handed over by [`send_answers`].
    pub fn sweep_timeouts(&mut self, now_ms: u64) -> (r: Vec<Answer>)
        requires
            old(self).inv(),
        ensures
            final(self).inv(),
            final(self).calls() == unexpired(old(self).calls(), now_ms, old(self).request_timeout_ms),
            final(self).request_timeout_ms == old(self).request_timeout_ms,
            r@ == timed_out(old(self).pending@, now_ms, old(self).request_timeout_ms),
    {
        let ghost v = self.pending@;
        let timeout = self.request_timeout_ms;
        let mut rest: Vec<Pending> = Vec::new();
        std::mem::swap(&mut self.pending, &mut rest);
        let mut answers: Vec<Answer> = Vec::new();
        let ghost mut k: int = 0;
        proof {
            assert(v.take(0) =~= Seq::<Pending>::empty());
            assert(v.skip(0) =~= v);
        }
        while rest.len() > 0
            invariant
                0 <= k <= v.len(),
                rest@ == v.skip(k),
                self.pending@ == live(v.take(k), now_ms, timeout),
                answers@ == timed_out(v.take(k), now_ms, timeout),
                self.request_timeout_ms == timeout,
            decreases rest@.len(),
        {
            let e = rest.remove(0);
            proof {
                assert(e == v[k]);
                assert(v.take(k + 1).drop_last() =~= v.take(k));
                assert(v.take(k + 1).last() == v[k]);
                assert(rest@ =~= v.skip(k + 1));
            }
            let at = e.2;
            let late = if now_ms >= at {
                now_ms - at >= timeout
            } else {
                0 >= timeout
            };
            if late {
                let ghost before = answers@;
                answers.push((e.1, Err(CdpError::Timeout)));
                proof {
                    assert(answers@ =~= before + seq![(e.1, Err::<serde_json::Value, CdpError>(CdpError::Timeout))]);
                    assert(self.pending@ =~= self.pending@ + Seq::<Pending>::empty());
                }
            } else {
                let ghost before = self.pending@;
                self.pending.push(e);
                proof {
                    assert(self.pending@ =~= before + seq![e]);
                    assert(answers@ =~= answers@ + Seq::<Answer>::empty());
                }
            }
            proof {
                k = k + 1;
            }
        }
        proof {
            assert(v.take(k) =~= v);
            lemma_live(v, now_ms, timeout);
        }
        answers
    }

    /// Every pending call told that the connection is closed, in the order
    /// the calls were made; nothing is pending afterwards. The answers are
    /// handed over by [`send_answers`].
    pub fn fail_all(&mut self) -> (r: Vec<Answer>)
        requires
            old(self).inv(),
        ensures
            final(self).inv(),
            final(self).calls() == Map::<usize, u64>::empty(),
            final(self).request_timeout_ms == old(self).request_timeout_ms,
            r@ == closed_answers(old(self).pending@),
    {
        let ghost v = self.pending@;
        let mut rest: Vec<Pending> = Vec::new();
        std::mem::swap(&mut self.pending, &mut rest);
        let mut answers: Vec<Answer> = Vec::new();
        let ghost mut k: int = 0;
        proof {
            assert(v.skip(0) =~= v);
        }
        while rest.len() > 0
            invariant
                0 <= k <= v.len(),
                rest@ == v.skip(k),
                answers@ == closed_answers(v.take(k)),
                self.pending@.len() == 0,
            decreases rest@.len(),
        {
            let e = rest.remove(0);
            proof {
                assert(e == v[k]);
                assert(rest@ =~= v.skip(k + 1));
            }
            answers.push((e.1, Err(CdpError::ChannelClosed)));
            proof {
                assert(closed_answers(v.take(k + 1)) =~= closed_answers(v.take(k)).push(
                    (v[k].1, Err::<serde_json::Value, CdpError>(CdpError::ChannelClosed)),
                ));
                k = k + 1;
            }
        }
        proof {
            assert(v.take(k) =~= v);
            assert(self.calls() =~= Map::<usize, u64>::empty());
        }
        answers
    }

    /// How many calls are pending.
    pub fn pending_count(&self) -> (n: usize)
        requires
            self.inv(),
        ensures
            n == self.calls().dom().len(),
    {
        proof {
            let ids = self.pending@.map_values(|e: (usize, oneshot::Sender<CallResult>, u64)| e.0);
            assert(ids.no_duplicates()) by {
                assert forall|a: int, b: int| 0 <= a < ids.len() && 0 <= b < ids.len() && a != b implies ids[a] != ids[b] by {
                    assert(self.pending@[a].0 != self.pending@[b].0);
                }
            }
            ids.unique_seq_to_set();
            assert(self.calls().dom() =~= ids.to_set()) by {
                assert forall|k: usize| self.calls().dom().contains(k) <==> ids.to_set().contains(k) by {
                    if self.calls().dom().contains(k) {
                        let j = choose|j: int| 0 <= j < self.pending@.len() && #[trigger] self.pending@[j].0 == k;
                        assert(ids[j] == k);
                        assert(ids.contains(k));
                    }
                    if ids.to_set().contains(k) {
                        assert(ids.contains(k));
                        let j = choose|j: int| 0 <= j < ids.len() && ids[j] == k;
                        assert(self.pending@[j].0 == k);
                    }
                }
            }
        }
        self.pending.len()
    }
}

/// A call that was answered is no longer pending, so no later sweep
/// times it out.
pub proof fn law_answered_calls_never_time_out(calls: Map<usize, u64>, id: usize, now: u64, timeout: u64)
    ensures
        !unexpired(calls.remove(id), now, timeout).contains_key(id),
{
}

/// A call whose time has not run out survives a sweep unchanged.
pub proof fn law_sweep_keeps_live_calls(calls: Map<usize, u64>, id: usize, now: u64, timeout: u64)
    requires
        calls.contains_key(id),
        !expired(calls[id], now, timeout),
    ensures
        unexpired(calls, now, timeout).contains_key(id),
        unexpired(calls, now, timeout)[id] == calls[id],
{
}

} // verus!
