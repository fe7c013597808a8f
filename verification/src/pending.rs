//! Work in progress of the accept loop: handshakes that still run, and connections whose
//! first bidirectional stream is still to come.
//!
//! Both are handled alike. A handler keeps a list of entries in progress, waits until a new
//! entry arrives or one in progress completes, and forwards what a successful entry yields.
use vstd::prelude::*;
use vstd::seq_lib::group_to_multiset_ensures;

verus! {

/// What a handler waits for before it is resumed.
pub enum Wait<T> {
    /// The next arrival: nothing is in progress.
    Arrival,
    /// The next arrival, or the completion of any of these entries.
    ArrivalOrCompletion(Vec<T>),
}

/// What ended a wait.
pub enum PendingEvent<T, O, E> {
    /// The queue of arrivals yielded an entry, or `None` once it was closed, while `waiting`
    /// was still in progress.
    Arrived { arrival: Option<T>, waiting: Vec<T> },
    /// The entry at `index` completed with `outcome`; `waiting` holds the other entries.
    Completed { outcome: Result<O, E>, index: usize, waiting: Vec<T> },
}

/// What ended a wait, with the entries in progress as a sequence.
pub enum PendingStep<T, O, E> {
    /// An entry arrived, or the queue of arrivals was closed.
    Arrived { arrival: Option<T>, waiting: Seq<T> },
    /// The entry at `index` completed.
    Completed { outcome: Result<O, E>, index: int, waiting: Seq<T> },
}

impl<T, O, E> View for PendingEvent<T, O, E> {
    type V = PendingStep<T, O, E>;

    open spec fn view(&self) -> PendingStep<T, O, E> {
        match *self {
            PendingEvent::Arrived { arrival, waiting } => PendingStep::Arrived {
                arrival,
                waiting: waiting@,
            },
            PendingEvent::Completed { outcome, index, waiting } => PendingStep::Completed {
                outcome,
                index: index as int,
                waiting: waiting@,
            },
        }
    }
}

impl<T, O, E> PendingStep<T, O, E> {
    /// The entries in progress after the event. A closed queue leaves none.
    pub open spec fn pending(self) -> Seq<T> {
        match self {
            PendingStep::Arrived { arrival: Some(entry), waiting } => waiting.push(entry),
            PendingStep::Arrived { arrival: None, waiting: _ } => Seq::empty(),
            PendingStep::Completed { outcome: _, index: _, waiting } => waiting,
        }
    }

    /// What the event forwards: what a completed entry yielded, if it succeeded.
    pub open spec fn forwarded(self) -> Option<O> {
        match self {
            PendingStep::Completed { outcome: Ok(output), index: _, waiting: _ } => Some(output),
            _ => None,
        }
    }

    /// Whether the event can end a wait on the entries `before`.
    ///
    /// An arrival leaves the list as it was. A completion takes out the completed entry, and
    /// the others may come back in any order.
    pub open spec fn answers(self, before: Seq<T>) -> bool {
        match self {
            PendingStep::Arrived { arrival: _, waiting } => waiting == before,
            PendingStep::Completed { outcome: _, index, waiting } => {
                &&& 0 <= index < before.len()
                &&& waiting.to_multiset() == before.remove(index).to_multiset()
            },
        }
    }
}

/// A handler between two waits: the entries in progress, in the order in which they are
/// handed out for the next wait.
pub struct PendingHandler<T> {
    pending: Vec<T>,
}

impl<T> View for PendingHandler<T> {
    type V = Seq<T>;

    closed spec fn view(&self) -> Seq<T> {
        self.pending@
    }
}

impl<T> PendingHandler<T> {
    /// A handler with nothing in progress.
    pub fn new() -> (handler: Self)
        ensures
            handler@ == Seq::<T>::empty(),
    {
        PendingHandler { pending: Vec::new() }
    }

    /// A handler with these entries in progress, as after a wait that ended for another reason.
    pub fn with_pending(pending: Vec<T>) -> (handler: Self)
        ensures
            handler@ == pending@,
    {
        PendingHandler { pending }
    }

    /// Hands out the entries in progress for the next wait.
    pub fn wait(self) -> (wait: Wait<T>)
        ensures
            match wait {
                Wait::Arrival => self@.len() == 0,
                Wait::ArrivalOrCompletion(entries) => self@.len() > 0 && entries@ == self@,
            },
    {
        if self.pending.len() > 0 {
            Wait::ArrivalOrCompletion(self.pending)
        } else {
            Wait::Arrival
        }
    }

    /// Takes up what ended the wait. Returns the handler for the next wait, and what is to be
    /// forwarded to the next stage.
    pub fn resume<O, E>(event: PendingEvent<T, O, E>) -> (resumed: (Self, Option<O>))
        ensures
            resumed.0@ == event@.pending(),
            resumed.1 == event@.forwarded(),
            event matches PendingEvent::Arrived { arrival, waiting } ==> {
                &&& resumed.0@ == match arrival {
                    Some(entry) => waiting@.push(entry),
                    None => Seq::<T>::empty(),
                }
                &&& resumed.1 is None
            },
            event matches PendingEvent::Completed { outcome, index: _, waiting } ==> {
                &&& resumed.0@ == waiting@
                &&& outcome matches Ok(output) ==> resumed.1 == Some(output)
                &&& outcome is Err ==> resumed.1 is None
            },
    {
        match event {
            PendingEvent::Arrived { arrival, waiting } => {
                let mut pending: Vec<T> = Vec::new();
                if let Some(entry) = arrival {
                    pending = waiting;
                    pending.push(entry);
                }
                (PendingHandler { pending }, None)
            },
            PendingEvent::Completed { outcome, index: _, waiting } => {
                let forwarded = match outcome {
                    Ok(output) => Some(output),
                    Err(_) => None,
                };
                (PendingHandler { pending: waiting }, forwarded)
            },
        }
    }
}

/// The entries in progress once a new handler has been resumed with each of `events`.
pub open spec fn pending_after<T, O, E>(events: Seq<PendingStep<T, O, E>>) -> Seq<T> {
    if events.len() == 0 {
        Seq::empty()
    } else {
        events.last().pending()
    }
}

/// Whether `events` can be what a new handler is resumed with, one wait after the other.
pub open spec fn is_run<T, O, E>(events: Seq<PendingStep<T, O, E>>) -> bool {
    forall|i: int|
        0 <= i < events.len() ==> (#[trigger] events[i]).answers(pending_after(events.take(i)))
}

/// The entries that arrived in the course of `events`, in order.
pub open spec fn arrivals<T, O, E>(events: Seq<PendingStep<T, O, E>>) -> Seq<T>
    decreases events.len(),
{
    if events.len() == 0 {
        Seq::empty()
    } else {
        let earlier = arrivals(events.drop_last());
        match events.last() {
            PendingStep::Arrived { arrival: Some(entry), waiting: _ } => earlier.push(entry),
            _ => earlier,
        }
    }
}

/// What was forwarded in the course of `events`, in order.
pub open spec fn outputs<T, O, E>(events: Seq<PendingStep<T, O, E>>) -> Seq<O>
    decreases events.len(),
{
    if events.len() == 0 {
        Seq::empty()
    } else {
        let earlier = outputs(events.drop_last());
        match events.last().forwarded() {
            Some(output) => earlier.push(output),
            None => earlier,
        }
    }
}

/// The entries that completed in the course of `events`, each with its outcome, in order.
pub open spec fn completions<T, O, E>(events: Seq<PendingStep<T, O, E>>) -> Seq<
    (T, Result<O, E>),
>
    decreases events.len(),
{
    if events.len() == 0 {
        Seq::empty()
    } else {
        let earlier = completions(events.drop_last());
        match events.last() {
            PendingStep::Completed { outcome, index, waiting: _ } => earlier.push(
                (pending_after(events.drop_last())[index], outcome),
            ),
            _ => earlier,
        }
    }
}

/// The entries that completed in the course of `events`, in order.
pub open spec fn completed<T, O, E>(events: Seq<PendingStep<T, O, E>>) -> Seq<T> {
    completions(events).map_values(|completion: (T, Result<O, E>)| completion.0)
}

/// How many entries failed in the course of `events`.
pub open spec fn failures<T, O, E>(events: Seq<PendingStep<T, O, E>>) -> nat
    decreases events.len(),
{
    if events.len() == 0 {
        0
    } else {
        failures(events.drop_last()) + match events.last() {
            PendingStep::Completed { outcome: Err(_), index: _, waiting: _ } => 1nat,
            _ => 0nat,
        }
    }
}

/// Whether the queue of arrivals was closed in the course of `events`.
pub open spec fn queue_closed<T, O, E>(events: Seq<PendingStep<T, O, E>>) -> bool {
    exists|i: int|
        0 <= i < events.len() && (#[trigger] events[i] matches PendingStep::Arrived {
            arrival: None,
            waiting: _,
        })
}

/// Whether `from` says of each output which arrival it comes from: an entry that completed
/// with it, and a different arrival for each output.
pub open spec fn are_origins<T, O, E>(
    events: Seq<PendingStep<T, O, E>>,
    from: Seq<int>,
) -> bool {
    &&& from.len() == outputs(events).len()
    &&& from.no_duplicates()
    &&& forall|j: int|
        0 <= j < from.len() ==> 0 <= #[trigger] from[j] < arrivals(events).len()
            && completions(events).contains(
            (arrivals(events)[from[j]], Ok::<O, E>(outputs(events)[j])),
        )
}

/// A run without its last event is a run, and the last event answers its wait.
proof fn lemma_run_prefix<T, O, E>(events: Seq<PendingStep<T, O, E>>)
    requires
        is_run(events),
        events.len() > 0,
    ensures
        is_run(events.drop_last()),
        events.last().answers(pending_after(events.drop_last())),
{
    let earlier = events.drop_last();
    assert(events.take(events.len() - 1) =~= earlier);
    assert(events[events.len() - 1].answers(pending_after(earlier)));
    assert forall|i: int| 0 <= i < earlier.len() implies (#[trigger] earlier[i]).answers(
        pending_after(earlier.take(i)),
    ) by {
        assert(earlier[i] == events[i]);
        assert(earlier.take(i) =~= events.take(i));
    }
}

/// A run goes on with a step that answers the wait after it.
pub(crate) proof fn lemma_run_goes_on<T, O, E>(
    events: Seq<PendingStep<T, O, E>>,
    step: PendingStep<T, O, E>,
)
    requires
        is_run(events),
        step.answers(pending_after(events)),
    ensures
        is_run(events.push(step)),
{
    let longer = events.push(step);
    assert forall|i: int| 0 <= i < longer.len() implies (#[trigger] longer[i]).answers(
        pending_after(longer.take(i)),
    ) by {
        if i < events.len() {
            assert(longer[i] == events[i]);
            assert(longer.take(i) =~= events.take(i));
        } else {
            assert(longer.take(i) =~= events);
        }
    }
}

/// Where each element of `a` occurs in `b` at least as often, `a` can be found in `b`: each
/// element at a position of its own.
proof fn lemma_positions<T>(a: Seq<T>, b: Seq<T>) -> (at: Seq<int>)
    requires
        a.to_multiset().subset_of(b.to_multiset()),
    ensures
        at.len() == a.len(),
        at.no_duplicates(),
        forall|i: int|
            0 <= i < at.len() ==> 0 <= #[trigger] at[i] < b.len() && b[at[i]] == a[i],
    decreases a.len(),
{
    broadcast use group_to_multiset_ensures;

    if a.len() == 0 {
        Seq::empty()
    } else {
        let rest = a.drop_last();
        let x = a.last();
        assert(a =~= rest.push(x));
        assert(a.to_multiset().count(x) > 0);
        assert(b.to_multiset().count(x) > 0);
        let m = choose|m: int| 0 <= m < b.len() && b[m] == x;
        let others = b.remove(m);
        assert(rest.to_multiset().subset_of(others.to_multiset())) by {
            assert(others.to_multiset() == b.to_multiset().remove(x));
            assert(a.to_multiset() == rest.to_multiset().insert(x));
            assert forall|y: T| #[trigger]
                rest.to_multiset().count(y) <= others.to_multiset().count(y) by {
                assert(a.to_multiset().count(y) <= b.to_multiset().count(y));
            }
        }
        let among_others = lemma_positions(rest, others);
        let shifted = Seq::new(
            among_others.len(),
            |i: int|
                if among_others[i] < m {
                    among_others[i]
                } else {
                    among_others[i] + 1
                },
        );
        let at = shifted.push(m);
        assert forall|i: int| 0 <= i < at.len() implies 0 <= #[trigger] at[i] < b.len()
            && b[at[i]] == a[i] by {
            if i < shifted.len() {
                let k = among_others[i];
                assert(others[k] == rest[i]);
            }
        }
        assert forall|i: int, j: int| 0 <= i < at.len() && 0 <= j < at.len() && i != j implies at[i]
            != at[j] by {
            if i < shifted.len() && j < shifted.len() {
                assert(among_others[i] != among_others[j]);
            }
        }
        at
    }
}

/// A completion takes out the completed entry and no other.
pub proof fn law_completion_removes_only_the_completed<T, O, E>(
    before: Seq<T>,
    event: PendingStep<T, O, E>,
)
    requires
        event is Completed,
        event.answers(before),
    ensures
        event.pending().len() == before.len() - 1,
        event.pending().to_multiset() == before.to_multiset().remove(
            before[event->index],
        ),
{
    broadcast use group_to_multiset_ensures;

    let index = event->index;
    let waiting = event->Completed_waiting;
    assert(before.remove(index).to_multiset().len() == before.remove(index).len());
    assert(waiting.to_multiset().len() == waiting.len());
    assert(before.remove(index).to_multiset() == before.to_multiset().remove(before[index]));
}

/// An arrival keeps every entry in progress, in order, and puts the new one behind them; the
/// closing of the queue leaves none.
pub proof fn law_arrival_keeps_pending<T, O, E>(before: Seq<T>, event: PendingStep<T, O, E>)
    requires
        event is Arrived,
        event.answers(before),
    ensures
        event->arrival matches Some(entry) ==> event.pending() == before.push(entry),
        event->arrival is None ==> event.pending() == Seq::<T>::empty(),
        event.forwarded() is None,
{
}

/// Whatever completed or is in progress has arrived: an entry does both together at most as
/// often as it arrived.
pub proof fn law_completed_and_pending_have_arrived<T, O, E>(
    events: Seq<PendingStep<T, O, E>>,
)
    requires
        is_run(events),
    ensures
        completed(events).to_multiset().add(pending_after(events).to_multiset()).subset_of(
            arrivals(events).to_multiset(),
        ),
    decreases events.len(),
{
    broadcast use group_to_multiset_ensures;

    let now = completed(events).to_multiset().add(pending_after(events).to_multiset());
    if events.len() == 0 {
        assert(completed(events) =~= Seq::<T>::empty());
        assert(completed(events).to_multiset().len() == 0);
        assert(pending_after(events).to_multiset().len() == 0);
        assert forall|x: T| #[trigger] now.count(x) <= arrivals(events).to_multiset().count(x) by {
            assert(!completed(events).contains(x));
            assert(!pending_after(events).contains(x));
        }
    } else {
        let earlier = events.drop_last();
        lemma_run_prefix(events);
        law_completed_and_pending_have_arrived(earlier);
        let before = pending_after(earlier);
        let event = events.last();
        let then = completed(earlier).to_multiset().add(before.to_multiset());
        if event is Completed {
            let entry = before[event->index];
            law_completion_removes_only_the_completed(before, event);
            assert(completed(events) =~= completed(earlier).push(entry));
            assert(before.contains(entry));
            assert(before.to_multiset().count(entry) > 0);
            assert(now =~= then);
        } else {
            law_arrival_keeps_pending(before, event);
            assert(completed(events) =~= completed(earlier));
            match event->arrival {
                Some(entry) => {
                    assert(now =~= then.insert(entry));
                },
                None => {
                    assert forall|x: T| #[trigger]
                        now.count(x) <= arrivals(events).to_multiset().count(x) by {
                        assert(!pending_after(events).contains(x));
                        assert(then.count(x) <= arrivals(earlier).to_multiset().count(x));
                    }
                },
            }
        }
    }
}

/// Every entry in progress arrived.
pub proof fn law_pending_has_arrived<T, O, E>(events: Seq<PendingStep<T, O, E>>)
    requires
        is_run(events),
    ensures
        forall|entry: T| #[trigger]
            pending_after(events).contains(entry) ==> arrivals(events).contains(entry),
{
    broadcast use group_to_multiset_ensures;

    law_completed_and_pending_have_arrived(events);
    let now = pending_after(events);
    let both = completed(events).to_multiset().add(now.to_multiset());
    assert forall|entry: T| #[trigger] now.contains(entry) implies arrivals(events).contains(
        entry,
    ) by {
        assert(now.to_multiset().count(entry) > 0);
        assert(both.count(entry) <= arrivals(events).to_multiset().count(entry));
    }
}

/// Where no entry arrives twice, none completes twice, none is in progress twice, and a
/// completed entry is not waited for again. All that completed arrived.
pub proof fn law_completed_is_not_pending_again<T, O, E>(events: Seq<PendingStep<T, O, E>>)
    requires
        is_run(events),
        arrivals(events).no_duplicates(),
    ensures
        completed(events).no_duplicates(),
        pending_after(events).no_duplicates(),
        forall|entry: T| #[trigger]
            completed(events).contains(entry) ==> arrivals(events).contains(entry)
                && !pending_after(events).contains(entry),
{
    broadcast use group_to_multiset_ensures;

    law_completed_and_pending_have_arrived(events);
    let done = completed(events);
    let now = pending_after(events);
    let both = done.to_multiset().add(now.to_multiset());
    arrivals(events).lemma_multiset_has_no_duplicates();
    assert forall|x: T| #![trigger done.to_multiset().count(x)]
        #![trigger now.to_multiset().count(x)] done.to_multiset().count(x)
        + now.to_multiset().count(x) <= 1 by {
        assert(both.count(x) <= arrivals(events).to_multiset().count(x));
        if arrivals(events).to_multiset().count(x) > 0 {
            assert(arrivals(events).to_multiset().contains(x));
        }
    }
    assert forall|x: T| done.to_multiset().contains(x) implies done.to_multiset().count(x) == 1 by {
        assert(done.to_multiset().count(x) <= 1);
    }
    done.lemma_multiset_has_no_duplicates_conv();
    assert forall|x: T| now.to_multiset().contains(x) implies now.to_multiset().count(x) == 1 by {
        assert(now.to_multiset().count(x) <= 1);
    }
    now.lemma_multiset_has_no_duplicates_conv();
    assert forall|entry: T| #[trigger] done.contains(entry) implies arrivals(events).contains(entry)
        && !now.contains(entry) by {
        assert(done.to_multiset().count(entry) > 0);
        assert(both.count(entry) <= arrivals(events).to_multiset().count(entry));
        assert(now.to_multiset().count(entry) == 0);
    }
}

/// As long as the queue of arrivals is open, no entry is lost: what completed and what is in
/// progress is just what arrived, and each arrival was forwarded, failed, or is in progress.
pub proof fn law_no_arrival_is_lost<T, O, E>(events: Seq<PendingStep<T, O, E>>)
    requires
        is_run(events),
        !queue_closed(events),
    ensures
        completed(events).to_multiset().add(pending_after(events).to_multiset()) == arrivals(
            events,
        ).to_multiset(),
        outputs(events).len() + failures(events) + pending_after(events).len() == arrivals(
            events,
        ).len(),
    decreases events.len(),
{
    broadcast use group_to_multiset_ensures;

    let now = completed(events).to_multiset().add(pending_after(events).to_multiset());
    if events.len() == 0 {
        assert(completed(events) =~= Seq::<T>::empty());
        assert(now =~= arrivals(events).to_multiset()) by {
            law_completed_and_pending_have_arrived(events);
            assert(arrivals(events).to_multiset().len() == 0);
        }
    } else {
        let earlier = events.drop_last();
        let event = events.last();
        lemma_run_prefix(events);
        assert(event == events[events.len() - 1]);
        assert(!queue_closed(earlier)) by {
            if queue_closed(earlier) {
                let i = choose|i: int|
                    0 <= i < earlier.len() && (#[trigger] earlier[i] matches PendingStep::Arrived {
                        arrival: None,
                        waiting: _,
                    });
                assert(events[i] == earlier[i]);
            }
        }
        law_no_arrival_is_lost(earlier);
        let before = pending_after(earlier);
        let then = completed(earlier).to_multiset().add(before.to_multiset());
        if event is Completed {
            let entry = before[event->index];
            law_completion_removes_only_the_completed(before, event);
            assert(completed(events) =~= completed(earlier).push(entry));
            assert(before.contains(entry));
            assert(before.to_multiset().count(entry) > 0);
            assert(now =~= then);
        } else {
            law_arrival_keeps_pending(before, event);
            assert(completed(events) =~= completed(earlier));
            assert(now =~= then.insert(event->arrival->Some_0));
        }
    }
}

/// What is forwarded is what the entries yielded that completed with success, in the order in
/// which they completed.
pub proof fn law_outputs_are_the_successes<T, O, E>(events: Seq<PendingStep<T, O, E>>)
    ensures
        outputs(events) == completions(events).filter(
            |completion: (T, Result<O, E>)| completion.1 is Ok,
        ).map_values(|completion: (T, Result<O, E>)| completion.1->Ok_0),
    decreases events.len(),
{
    reveal(Seq::filter);
    let succeeded = |completion: (T, Result<O, E>)| completion.1 is Ok;
    let output = |completion: (T, Result<O, E>)| completion.1->Ok_0;
    if events.len() == 0 {
        assert(completions(events).filter(succeeded) =~= Seq::empty());
        assert(outputs(events) =~= completions(events).filter(succeeded).map_values(output));
    } else {
        let earlier = events.drop_last();
        law_outputs_are_the_successes(earlier);
        if events.last() is Completed {
            assert(completions(events).drop_last() =~= completions(earlier));
        }
        assert(outputs(events) =~= completions(events).filter(succeeded).map_values(output));
    }
}

/// For each output, the position in `completions` of the completion that it comes from.
proof fn lemma_completions_of_outputs<T, O, E>(events: Seq<PendingStep<T, O, E>>) -> (at: Seq<
    int,
>)
    ensures
        at.len() == outputs(events).len(),
        at.no_duplicates(),
        forall|j: int|
            0 <= j < at.len() ==> 0 <= #[trigger] at[j] < completions(events).len() && completions(
                events,
            )[at[j]].1 == Ok::<O, E>(outputs(events)[j]),
    decreases events.len(),
{
    if events.len() == 0 {
        Seq::empty()
    } else {
        let at = lemma_completions_of_outputs(events.drop_last());
        if events.last().forwarded() is Some {
            at.push(completions(events.drop_last()).len() as int)
        } else {
            at
        }
    }
}

/// Everything that is forwarded comes from an arrival: one that completed with it. No two
/// outputs come from the same arrival.
pub proof fn law_outputs_have_origins<T, O, E>(events: Seq<PendingStep<T, O, E>>)
    requires
        is_run(events),
    ensures
        exists|from: Seq<int>| are_origins(events, from),
{
    law_completed_and_pending_have_arrived(events);
    assert(completed(events).to_multiset().subset_of(arrivals(events).to_multiset())) by {
        let both = completed(events).to_multiset().add(pending_after(events).to_multiset());
        assert forall|x: T| #[trigger]
            completed(events).to_multiset().count(x) <= arrivals(events).to_multiset().count(
                x,
            ) by {
            assert(both.count(x) <= arrivals(events).to_multiset().count(x));
        }
    }
    let arrived = lemma_positions(completed(events), arrivals(events));
    let at = lemma_completions_of_outputs(events);
    let from = Seq::new(at.len(), |j: int| arrived[at[j]]);
    assert forall|j: int| 0 <= j < from.len() implies 0 <= #[trigger] from[j] < arrivals(
        events,
    ).len() && completions(events).contains(
        (arrivals(events)[from[j]], Ok::<O, E>(outputs(events)[j])),
    ) by {
        let k = at[j];
        assert(arrived[k] == from[j]);
        assert(completed(events)[k] == completions(events)[k].0);
        assert(completions(events)[k] == (
            arrivals(events)[from[j]],
            Ok::<O, E>(outputs(events)[j]),
        ));
    }
    assert forall|i: int, j: int|
        0 <= i < from.len() && 0 <= j < from.len() && i != j implies from[i] != from[j] by {
        assert(at[i] != at[j]);
        assert(arrived[at[i]] != arrived[at[j]]);
    }
    assert(are_origins(events, from));
}

/// A completion that succeeded forwards just what it yielded, and one that failed forwards
/// nothing. Either way the other entries stay in progress as they came back, whatever they are.
pub proof fn law_completion_forwards_its_success<T, O, E>(
    output: O,
    error: E,
    index: int,
    waiting: Seq<T>,
)
    ensures
        ({
            let succeeded = PendingStep::<T, O, E>::Completed { outcome: Ok(output), index, waiting };
            &&& succeeded.forwarded() == Some(output)
            &&& succeeded.pending() == waiting
        }),
        ({
            let failed = PendingStep::<T, O, E>::Completed { outcome: Err(error), index, waiting };
            &&& failed.forwarded() is None
            &&& failed.pending() == waiting
        }),
{
}

/// A wait is ended by any arrival that leaves the list as it was, by the closing of the queue,
/// and by the completion of any entry that was waited for, but of no other.
pub proof fn law_any_waited_entry_can_complete<T, O, E>(
    before: Seq<T>,
    arrival: Option<T>,
    outcome: Result<O, E>,
    index: int,
)
    ensures
        (PendingStep::<T, O, E>::Arrived { arrival, waiting: before }).answers(before),
        0 <= index < before.len() <==> (PendingStep::<T, O, E>::Completed {
            outcome,
            index,
            waiting: before.remove(index),
        }).answers(before),
{
}

/// What an event leads to is in what was told: the entries that came back, the arrival and the
/// outcome, and nothing else.
pub proof fn law_view_is_what_was_told<T, O, E>(event: PendingEvent<T, O, E>)
    ensures
        event matches PendingEvent::Arrived { arrival, waiting } ==> (event@
            matches PendingStep::Arrived { arrival: seen, waiting: entries } && seen == arrival
            && entries == waiting@),
        event matches PendingEvent::Completed { outcome, index, waiting } ==> (event@
            matches PendingStep::Completed { outcome: seen, index: at, waiting: entries } && seen
            == outcome && at == index && entries == waiting@),
{
}

/// What a handler is given is what it hands out: just these entries, in order, or none if there
/// are none.
pub proof fn law_wait_hands_out_what_is_in_progress<T>(
    entries: Vec<T>,
    handler: PendingHandler<T>,
    wait: Wait<T>,
)
    requires
        call_ensures(PendingHandler::<T>::with_pending, (entries,), handler),
        call_ensures(PendingHandler::<T>::wait, (handler,), wait),
    ensures
        entries@.len() == 0 <==> wait is Arrival,
        entries@.len() > 0 ==> (wait matches Wait::ArrivalOrCompletion(handed_out) && handed_out@
            == entries@),
{
}

/// An entry that arrived is waited for, behind those that were in progress.
pub proof fn law_arrival_is_waited_for<T, O, E>(
    entry: T,
    waiting: Vec<T>,
    resumed: (PendingHandler<T>, Option<O>),
    wait: Wait<T>,
)
    requires
        call_ensures(
            PendingHandler::<T>::resume::<O, E>,
            (PendingEvent::Arrived { arrival: Some(entry), waiting },),
            resumed,
        ),
        call_ensures(PendingHandler::<T>::wait, (resumed.0,), wait),
    ensures
        resumed.1 is None,
        wait matches Wait::ArrivalOrCompletion(entries) && entries@.len() == waiting@.len() + 1
            && entries@.last() == entry && entries@.drop_last() == waiting@,
{
}

} // verus!
