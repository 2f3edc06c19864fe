//! Fair admission queue: one admission at a time, picked by priority with
//! aging, oldest ticket first among equals.

use vstd::prelude::*;
use super::model::{priority_level, priority_rank, ResourcePriority};

verus! {

#[derive(Clone, Debug)]
pub struct ResourceAdmissionQueueItem {
    pub ticket_id: u64,
    pub adapter_id: String,
    pub workload_id: String,
    pub priority: ResourcePriority,
    pub enqueued_at_ms: u64,
}

#[derive(Clone, Debug)]
pub struct ResourceAdmissionQueueDiagnostics {
    pub active_ticket_id: Option<u64>,
    pub queued: Vec<ResourceAdmissionQueueItem>,
}

/// Two queue items with equal fields.
pub open spec fn same_item(a: ResourceAdmissionQueueItem, b: ResourceAdmissionQueueItem) -> bool {
    &&& a.ticket_id == b.ticket_id
    &&& a.adapter_id@ == b.adapter_id@
    &&& a.workload_id@ == b.workload_id@
    &&& a.priority == b.priority
    &&& a.enqueued_at_ms == b.enqueued_at_ms
}

/// Priority of a queued item after aging: one level per elapsed quantum,
/// capped at the top level.
pub open spec fn effective_priority(item: ResourceAdmissionQueueItem, quantum: u64, now_ms: u64) -> nat {
    let q: nat = if quantum == 0 { 1 } else { quantum as nat };
    let age: nat = if now_ms >= item.enqueued_at_ms { (now_ms - item.enqueued_at_ms) as nat } else { 0 };
    let boost: nat = if age / q > 3 { 3 } else { age / q };
    if priority_rank(item.priority) + boost > 3 { 3 } else { priority_rank(item.priority) + boost }
}

/// `a` is served before `b`: higher effective priority, then older ticket.
pub open spec fn serves_before(
    a: ResourceAdmissionQueueItem,
    b: ResourceAdmissionQueueItem,
    quantum: u64,
    now_ms: u64,
) -> bool {
    effective_priority(a, quantum, now_ms) > effective_priority(b, quantum, now_ms) || (
    effective_priority(a, quantum, now_ms) == effective_priority(b, quantum, now_ms)
        && a.ticket_id <= b.ticket_id)
}

fn effective(item: &ResourceAdmissionQueueItem, quantum: u64, now_ms: u64) -> (r: u64)
    ensures
        r == effective_priority(*item, quantum, now_ms),
{
    let q = if quantum == 0 { 1 } else { quantum };
    let age = if now_ms >= item.enqueued_at_ms { now_ms - item.enqueued_at_ms } else { 0 };
    let boost = if age / q > 3 { 3 } else { age / q };
    let base = priority_level(item.priority);
    if base + boost > 3 { 3 } else { base + boost }
}

/// The ticket that may run next.
pub fn select_queue_candidate(
    queued: &Vec<ResourceAdmissionQueueItem>,
    aging_quantum_ms: u64,
    now_ms: u64,
) -> (r: Option<u64>)
    ensures
        r is None <==> queued@.len() == 0,
        r matches Some(t) ==> exists|i: int|
            0 <= i < queued@.len() && queued@[i].ticket_id == t && forall|j: int|
                0 <= j < queued@.len() ==> serves_before(
                    queued@[i],
                    #[trigger] queued@[j],
                    aging_quantum_ms,
                    now_ms,
                ),
{
    if queued.len() == 0 {
        return None;
    }
    let mut best: usize = 0;
    let mut best_eff = effective(&queued[0], aging_quantum_ms, now_ms);
    let mut k: usize = 1;
    while k < queued.len()
        invariant
            1 <= k <= queued.len(),
            best < k,
            best_eff == effective_priority(queued@[best as int], aging_quantum_ms, now_ms),
            forall|j: int|
                0 <= j < k ==> serves_before(
                    queued@[best as int],
                    #[trigger] queued@[j],
                    aging_quantum_ms,
                    now_ms,
                ),
        decreases queued.len() - k,
    {
        let e = effective(&queued[k], aging_quantum_ms, now_ms);
        if e > best_eff || (e == best_eff && queued[k].ticket_id <= queued[best].ticket_id) {
            best = k;
            best_eff = e;
        }
        k = k + 1;
    }
    Some(queued[best].ticket_id)
}

/// Tickets of a queue are strictly increasing.
pub open spec fn tickets_sorted(q: Seq<ResourceAdmissionQueueItem>) -> bool {
    forall|i: int, j: int| 0 <= i < j < q.len() ==> q[i].ticket_id < q[j].ticket_id
}

pub open spec fn holds_ticket(q: Seq<ResourceAdmissionQueueItem>, t: u64) -> bool {
    exists|i: int| 0 <= i < q.len() && q[i].ticket_id == t
}

/// Waiting tickets, the ticket currently admitted, and the ticket counter.
pub struct AdmissionQueueState {
    pub active_ticket_id: Option<u64>,
    pub queued: Vec<ResourceAdmissionQueueItem>,
    pub next_ticket_id: u64,
}

impl AdmissionQueueState {
    /// Waiting tickets are sorted and issued; the admitted ticket waits no more.
    pub open spec fn wf(&self) -> bool {
        &&& tickets_sorted(self.queued@)
        &&& forall|i: int| 0 <= i < self.queued@.len() ==> self.queued@[i].ticket_id < self.next_ticket_id
        &&& self.active_ticket_id matches Some(t) ==> t < self.next_ticket_id && !holds_ticket(self.queued@, t)
        &&& self.next_ticket_id >= 1
    }

    pub fn new() -> (s: Self)
        ensures
            s.wf(),
            s.active_ticket_id is None,
            s.queued@.len() == 0,
            s.next_ticket_id == 1,
    {
        AdmissionQueueState { active_ticket_id: None, queued: Vec::new(), next_ticket_id: 1 }
    }

    /// Enqueues a waiter and returns its ticket.
    pub fn enqueue(
        &mut self,
        adapter_id: String,
        workload_id: String,
        priority: ResourcePriority,
        enqueued_at_ms: u64,
    ) -> (t: u64)
        requires
            old(self).wf(),
            old(self).next_ticket_id < u64::MAX,
        ensures
            final(self).wf(),
            t == old(self).next_ticket_id,
            final(self).next_ticket_id == t + 1,
            final(self).active_ticket_id == old(self).active_ticket_id,
            final(self).queued@.len() == old(self).queued@.len() + 1,
            final(self).queued@.drop_last() == old(self).queued@,
            final(self).queued@.last().ticket_id == t,
            final(self).queued@.last().priority == priority,
            final(self).queued@.last().enqueued_at_ms == enqueued_at_ms,
            final(self).queued@.last().adapter_id@ == adapter_id@,
            final(self).queued@.last().workload_id@ == workload_id@,
    {
        let t = self.next_ticket_id;
        self.queued.push(
            ResourceAdmissionQueueItem {
                ticket_id: t,
                adapter_id,
                workload_id,
                priority,
                enqueued_at_ms,
            },
        );
        self.next_ticket_id = t + 1;
        assert(self.queued@.drop_last() =~= old(self).queued@);
        t
    }

    /// Admits `ticket` when nothing is admitted and it is the next candidate.
    pub fn try_acquire(&mut self, ticket: u64, aging_quantum_ms: u64, now_ms: u64) -> (acquired: bool)
        requires
            old(self).wf(),
        ensures
            final(self).wf(),
            final(self).next_ticket_id == old(self).next_ticket_id,
            acquired ==> old(self).active_ticket_id is None && holds_ticket(old(self).queued@, ticket)
                && final(self).active_ticket_id == Some(ticket) && !holds_ticket(
                final(self).queued@,
                ticket,
            ),
            !acquired ==> final(self).active_ticket_id == old(self).active_ticket_id
                && final(self).queued@ == old(self).queued@,
            acquired <==> (old(self).active_ticket_id is None && select_queue_candidate_spec(
                old(self).queued@,
                aging_quantum_ms,
                now_ms,
                ticket,
            )),
    {
        if self.active_ticket_id.is_some() {
            return false;
        }
        let candidate = select_queue_candidate(&self.queued, aging_quantum_ms, now_ms);
        match candidate {
            Some(c) => {
                if c != ticket {
                    proof {
                        if select_queue_candidate_spec(old(self).queued@, aging_quantum_ms, now_ms, ticket) {
                            lemma_candidate_unique(old(self).queued@, aging_quantum_ms, now_ms, c, ticket);
                        }
                    }
                    return false;
                }
                let pos = self.position_of(ticket);
                let pos = pos.unwrap();
                self.queued.remove(pos);
                self.active_ticket_id = Some(ticket);
                proof {
                    lemma_remove_sorted(old(self).queued@, pos as int);
                }
                true
            },
            None => false,
        }
    }

    fn position_of(&self, ticket: u64) -> (r: Option<usize>)
        requires
            self.wf(),
        ensures
            r matches Some(p) ==> p < self.queued@.len() && self.queued@[p as int].ticket_id == ticket,
            r is None ==> !holds_ticket(self.queued@, ticket),
    {
        let mut i: usize = 0;
        while i < self.queued.len()
            invariant
                i <= self.queued.len(),
                forall|j: int| 0 <= j < i ==> self.queued@[j].ticket_id != ticket,
            decreases self.queued.len() - i,
        {
            if self.queued[i].ticket_id == ticket {
                return Some(i);
            }
            i = i + 1;
        }
        None
    }

    /// A waiter leaves: the admitted ticket releases its turn, or a queued
    /// ticket is withdrawn. Returns whether the queue changed.
    pub fn abandon(&mut self, ticket: u64, acquired: bool) -> (changed: bool)
        requires
            old(self).wf(),
        ensures
            final(self).wf(),
            final(self).next_ticket_id == old(self).next_ticket_id,
            acquired ==> (changed <==> old(self).active_ticket_id == Some(ticket)),
            acquired && changed ==> final(self).active_ticket_id is None && final(self).queued@
                == old(self).queued@,
            acquired && !changed ==> final(self).active_ticket_id == old(self).active_ticket_id
                && final(self).queued@ == old(self).queued@,
            !acquired ==> (changed <==> holds_ticket(old(self).queued@, ticket)),
            !acquired ==> final(self).active_ticket_id == old(self).active_ticket_id && !holds_ticket(
                final(self).queued@,
                ticket,
            ),
            !acquired ==> forall|t: u64|
                t != ticket ==> (holds_ticket(final(self).queued@, t) <==> holds_ticket(
                    old(self).queued@,
                    t,
                )),
    {
        if acquired {
            if self.active_ticket_id == Some(ticket) {
                self.active_ticket_id = None;
                true
            } else {
                false
            }
        } else {
            match self.position_of(ticket) {
                Some(pos) => {
                    self.queued.remove(pos);
                    proof {
                        lemma_remove_sorted(old(self).queued@, pos as int);
                    }
                    true
                },
                None => false,
            }
        }
    }

    /// The admitted ticket and the waiting items.
    pub fn diagnostics(&self) -> (d: ResourceAdmissionQueueDiagnostics)
        ensures
            d.active_ticket_id == self.active_ticket_id,
            d.queued@.len() == self.queued@.len(),
            forall|i: int|
                0 <= i < d.queued@.len() ==> same_item(#[trigger] d.queued@[i], self.queued@[i]),
    {
        let mut q: Vec<ResourceAdmissionQueueItem> = Vec::new();
        let mut i: usize = 0;
        while i < self.queued.len()
            invariant
                i <= self.queued.len(),
                q@.len() == i,
                forall|j: int| 0 <= j < i ==> same_item(#[trigger] q@[j], self.queued@[j]),
            decreases self.queued.len() - i,
        {
            let it = &self.queued[i];
            q.push(
                ResourceAdmissionQueueItem {
                    ticket_id: it.ticket_id,
                    adapter_id: it.adapter_id.clone(),
                    workload_id: it.workload_id.clone(),
                    priority: it.priority,
                    enqueued_at_ms: it.enqueued_at_ms,
                },
            );
            i = i + 1;
        }
        ResourceAdmissionQueueDiagnostics { active_ticket_id: self.active_ticket_id, queued: q }
    }
}

/// `t` is the ticket that `select_queue_candidate` picks.
pub open spec fn select_queue_candidate_spec(
    q: Seq<ResourceAdmissionQueueItem>,
    quantum: u64,
    now_ms: u64,
    t: u64,
) -> bool {
    exists|i: int|
        0 <= i < q.len() && q[i].ticket_id == t && forall|j: int|
            0 <= j < q.len() ==> serves_before(q[i], #[trigger] q[j], quantum, now_ms)
}

/// With distinct tickets, at most one ticket is served before all others.
pub proof fn lemma_candidate_unique(q: Seq<ResourceAdmissionQueueItem>, quantum: u64, now_ms: u64, a: u64, b: u64)
    requires
        tickets_sorted(q),
        select_queue_candidate_spec(q, quantum, now_ms, a),
        select_queue_candidate_spec(q, quantum, now_ms, b),
    ensures
        a == b,
{
    let i = choose|i: int|
        0 <= i < q.len() && q[i].ticket_id == a && forall|j: int|
            0 <= j < q.len() ==> serves_before(q[i], #[trigger] q[j], quantum, now_ms);
    let k = choose|k: int|
        0 <= k < q.len() && q[k].ticket_id == b && forall|j: int|
            0 <= j < q.len() ==> serves_before(q[k], #[trigger] q[j], quantum, now_ms);
    assert(serves_before(q[i], q[k], quantum, now_ms));
    assert(serves_before(q[k], q[i], quantum, now_ms));
    if i < k {
        assert(q[i].ticket_id < q[k].ticket_id);
    } else if k < i {
        assert(q[k].ticket_id < q[i].ticket_id);
    }
}

pub proof fn lemma_remove_sorted(q: Seq<ResourceAdmissionQueueItem>, pos: int)
    requires
        tickets_sorted(q),
        0 <= pos < q.len(),
    ensures
        tickets_sorted(q.remove(pos)),
        !holds_ticket(q.remove(pos), q[pos].ticket_id),
        forall|t: u64|
            t != q[pos].ticket_id ==> (holds_ticket(q.remove(pos), t) <==> holds_ticket(q, t)),
{
    let r = q.remove(pos);
    assert forall|i: int| 0 <= i < r.len() implies r[i] == q[if i < pos { i } else { i + 1 }] by {}
    assert forall|t: u64| t != q[pos].ticket_id implies (holds_ticket(r, t) <==> holds_ticket(q, t)) by {
        if holds_ticket(q, t) {
            let j = choose|j: int| 0 <= j < q.len() && q[j].ticket_id == t;
            if j < pos {
                assert(r[j].ticket_id == t);
            } else {
                assert(j != pos);
                assert(r[j - 1].ticket_id == t);
            }
        }
    }
}

} // verus!
