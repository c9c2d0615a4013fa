//! Concurrent batch invocation, modelled as a join table: one slot per
//! request, filled as completions arrive in whatever order the backend
//! finishes them, joined into an input-ordered result only once every slot is
//! filled, with a fail-fast policy on the first recorded failure.

use vstd::prelude::*;

verus! {

/// Why a pipeline run failed.
#[derive(Debug)]
pub enum PipelineError {
    /// The generative text backend failed to produce a response.
    Backend { message: String },
    /// A required placeholder was not supplied to a prompt template.
    Template { message: String },
}

impl PipelineError {
    /// The human-readable description carried by the error.
    pub fn message(&self) -> (r: &String)
        ensures
            r == match self {
                PipelineError::Backend { message } => message,
                PipelineError::Template { message } => message,
            },
    {
        match self {
            PipelineError::Backend { message } => message,
            PipelineError::Template { message } => message,
        }
    }
}

/// The join table of one concurrent batch: slot `i` belongs to request `i` of
/// the input sequence, holds `None` while that request is in flight, and its
/// completion value afterwards. The first recorded failure is kept and makes
/// the whole batch fail.
pub struct BatchJoin {
    slots: Vec<Option<String>>,
    failed: Option<PipelineError>,
}

impl BatchJoin {
    /// The per-request completion slots, in input order.
    pub closed spec fn slots_view(&self) -> Seq<Option<String>> {
        self.slots@
    }

    /// The first failure recorded against the batch, if any.
    pub closed spec fn failure(&self) -> Option<PipelineError> {
        self.failed
    }

    /// A fresh join table for a batch of `n` requests, all still in flight.
    pub fn new(n: usize) -> (b: BatchJoin)
        ensures
            b.slots_view().len() == n,
            forall|i: int| 0 <= i < n ==> b.slots_view()[i] is None,
            b.failure() is None,
    {
        let mut slots: Vec<Option<String>> = Vec::new();
        let mut k: usize = 0;
        while k < n
            invariant
                k <= n,
                slots@.len() == k,
                forall|i: int| 0 <= i < k ==> slots@[i] is None,
            decreases n - k,
        {
            slots.push(None);
            k += 1;
        }
        BatchJoin { slots, failed: None }
    }

    /// Record the completion of the request at `index` with its generated
    /// text. Completions may arrive in any order; each lands in its own slot
    /// and touches no other.
    pub fn complete(&mut self, index: usize, value: String)
        requires
            index < old(self).slots_view().len(),
        ensures
            final(self).slots_view() == old(self).slots_view().update(index as int, Some(value)),
            final(self).failure() == old(self).failure(),
    {
        self.slots.set(index, Some(value));
    }

    /// Record the failure of one request in the batch. Only the first failure
    /// is kept; the batch as a whole fails once any is recorded.
    pub fn fail(&mut self, error: PipelineError)
        ensures
            final(self).slots_view() == old(self).slots_view(),
            old(self).failure() is None ==> final(self).failure() == Some(error),
            old(self).failure() is Some ==> final(self).failure() == old(self).failure(),
    {
        if self.failed.is_none() {
            self.failed = Some(error);
        }
    }

    /// Whether the batch can be joined: a failure was recorded, or every
    /// request has completed.
    pub fn is_done(&self) -> (r: bool)
        ensures
            r == (self.failure() is Some || forall|i: int|
                0 <= i < self.slots_view().len() ==> self.slots_view()[i] is Some),
    {
        if self.failed.is_some() {
            return true;
        }
        let mut k: usize = 0;
        while k < self.slots.len()
            invariant
                k <= self.slots_view().len(),
                self.failure() is None,
                forall|i: int| 0 <= i < k ==> self.slots_view()[i] is Some,
            decreases self.slots@.len() - k,
        {
            if self.slots[k].is_none() {
                proof {
                    assert(!(self.slots_view()[k as int] is Some));
                    assert(!(forall|i: int|
                        0 <= i < self.slots_view().len() ==> self.slots_view()[i] is Some));
                }
                return false;
            }
            k += 1;
        }
        true
    }

    /// Join the batch. With no failure recorded, the result is the completion
    /// values in input order — one per request, at its request's own index,
    /// however the completions were interleaved in time. With a failure
    /// recorded, the whole batch fails with the first recorded failure and no
    /// partial result is produced.
    pub fn finish(self) -> (r: Result<Vec<String>, PipelineError>)
        requires
            self.failure() is Some || forall|i: int|
                0 <= i < self.slots_view().len() ==> self.slots_view()[i] is Some,
        ensures
            r is Err <==> self.failure() is Some,
            self.failure() is Some ==> r->Err_0 == self.failure()->Some_0,
            self.failure() is None ==> r->Ok_0@.len() == self.slots_view().len()
                && forall|i: int|
                    0 <= i < self.slots_view().len() ==> r->Ok_0@[i] == self.slots_view()[i]->Some_0,
    {
        match self.failed {
            Some(error) => Err(error),
            None => {
                let mut slots = self.slots;
                let mut out: Vec<String> = Vec::new();
                let ghost orig = slots@;
                while slots.len() > 0
                    invariant
                        out@.len() + slots@.len() == orig.len(),
                        slots@ =~= orig.subrange(out@.len() as int, orig.len() as int),
                        forall|i: int| 0 <= i < orig.len() ==> orig[i] is Some,
                        forall|i: int| 0 <= i < out@.len() ==> out@[i] == orig[i]->Some_0,
                    decreases slots@.len(),
                {
                    let slot = slots.remove(0);
                    match slot {
                        Some(value) => out.push(value),
                        None => unreached(),
                    }
                }
                Ok(out)
            },
        }
    }
}

/// Whether event `j` of `events` is a completion of the request at index `i`.
pub open spec fn completes_index(events: Seq<(int, String)>, j: int, i: int) -> bool {
    0 <= j < events.len() && events[j].0 == i
}

/// The slot states after the completion events of `events` have been recorded
/// one by one, in arrival order.
pub open spec fn apply_completions(
    slots: Seq<Option<String>>,
    events: Seq<(int, String)>,
) -> Seq<Option<String>>
    decreases events.len(),
{
    if events.len() == 0 {
        slots
    } else {
        apply_completions(slots.update(events[0].0, Some(events[0].1)), events.drop_first())
    }
}

/// Recording completions never changes the number of slots.
proof fn lemma_apply_completions_len(slots: Seq<Option<String>>, events: Seq<(int, String)>)
    requires
        forall|j: int| 0 <= j < events.len() ==> 0 <= #[trigger] events[j].0 < slots.len(),
    ensures
        apply_completions(slots, events).len() == slots.len(),
    decreases events.len(),
{
    if events.len() > 0 {
        lemma_apply_completions_len(
            slots.update(events[0].0, Some(events[0].1)),
            events.drop_first(),
        );
    }
}

/// A slot that none of the events completes is left as it was.
proof fn lemma_apply_completions_frame(
    slots: Seq<Option<String>>,
    events: Seq<(int, String)>,
    i: int,
)
    requires
        0 <= i < slots.len(),
        forall|j: int| 0 <= j < events.len() ==> 0 <= #[trigger] events[j].0 < slots.len(),
        forall|j: int| !completes_index(events, j, i),
    ensures
        apply_completions(slots, events)[i] == slots[i],
    decreases events.len(),
{
    if events.len() > 0 {
        assert(!completes_index(events, 0, i));
        let slots2 = slots.update(events[0].0, Some(events[0].1));
        let rest = events.drop_first();
        assert(slots2[i] == slots[i]);
        assert forall|j: int| 0 <= j < rest.len() implies 0 <= #[trigger] rest[j].0
            < slots2.len() by {
            assert(rest[j] == events[j + 1]);
        }
        assert forall|j: int| !completes_index(rest, j, i) by {
            assert(!completes_index(events, j + 1, i));
        }
        lemma_apply_completions_frame(slots2, rest, i);
    }
}

/// Whether some event of `events` completes the request at index `i`.
pub open spec fn covered(events: Seq<(int, String)>, i: int) -> bool {
    exists|j: int| completes_index(events, j, i)
}

/// Whether every event of `events` reports, for some request index below
/// `n`, that request's own value out of `values`.
pub open spec fn consistent(events: Seq<(int, String)>, values: Seq<String>) -> bool {
    forall|j: int|
        0 <= j < events.len() ==> 0 <= #[trigger] events[j].0 < values.len() && events[j].1
            == values[events[j].0]
}

/// One slot of the order-preservation argument: if some event completes the
/// request at index `i`, and every event carries its own request's value,
/// slot `i` ends up holding exactly the value of request `i`.
proof fn lemma_join_one_index(
    slots: Seq<Option<String>>,
    events: Seq<(int, String)>,
    values: Seq<String>,
    i: int,
)
    requires
        slots.len() == values.len(),
        consistent(events, values),
        covered(events, i),
        0 <= i < values.len(),
    ensures
        apply_completions(slots, events)[i] == Some(values[i]),
    decreases events.len(),
{
    let slots2 = slots.update(events[0].0, Some(events[0].1));
    let rest = events.drop_first();
    assert(completes_index(events, choose|j: int| completes_index(events, j, i), i));
    assert forall|j: int| 0 <= j < rest.len() implies 0 <= #[trigger] rest[j].0 < values.len()
        && rest[j].1 == values[rest[j].0] by {
        assert(rest[j] == events[j + 1]);
    }
    if covered(rest, i) {
        lemma_join_one_index(slots2, rest, values, i);
    } else {
        let j0 = choose|j: int| completes_index(events, j, i);
        if j0 >= 1 {
            assert(rest[j0 - 1] == events[j0]);
            assert(completes_index(rest, j0 - 1, i));
        }
        assert(j0 == 0);
        assert(slots2[i] == Some(values[i]));
        assert forall|j: int| !completes_index(rest, j, i) by {}
        lemma_apply_completions_frame(slots2, rest, i);
    }
}

/// Batch order-preservation: however the completions are interleaved in
/// time, once every request index has reported its own value, slot `i` holds
/// exactly the value of request `i`. The arrival order of `events` is
/// arbitrary — reversed, shuffled, or with repeats — and does not show in
/// the joined slots.
pub proof fn lemma_join_order_independent(
    slots: Seq<Option<String>>,
    events: Seq<(int, String)>,
    values: Seq<String>,
)
    requires
        slots.len() == values.len(),
        consistent(events, values),
        forall|i: int| 0 <= i < values.len() ==> #[trigger] covered(events, i),
    ensures
        apply_completions(slots, events).len() == values.len(),
        forall|i: int|
            0 <= i < values.len() ==> apply_completions(slots, events)[i] == Some(values[i]),
{
    lemma_apply_completions_len(slots, events);
    assert forall|i: int|
        0 <= i < values.len() implies apply_completions(slots, events)[i] == Some(values[i]) by {
        assert(covered(events, i));
        lemma_join_one_index(slots, events, values, i);
    }
}

} // verus!
