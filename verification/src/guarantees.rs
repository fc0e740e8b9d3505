//! What holds of the scheduler over any course of events, and of a job
//! over the steps of its life.

use crate::db::{crashed_jobs, JobStatus, JobView};
use crate::queue::{
    lemma_without_all_holds, merged_unique, occurrences, queued_ids, settled, without_all,
    Scheduler,
};
use crate::runner::RunFailureView;
use vstd::prelude::*;

verus! {

/// What can happen to the scheduler.
pub ghost enum Event {
    /// A job goes to the end of the queue: a new job, a retry or a redownload.
    Submit(Seq<char>),
    /// Cancellation of a job is asked for.
    Cancel(Seq<char>),
    /// The scheduler deals with a candidate, which the store has as queued or not.
    Dispatch(Seq<char>, bool),
    /// The run of a job ends.
    Complete(Seq<char>),
    /// The queued jobs of the store are taken in after a start.
    Restore(Seq<Seq<char>>),
    /// A ceiling is asked for.
    SetCeiling(nat),
}

impl Scheduler {
    /// The state after one event.
    pub open spec fn step(self, event: Event) -> Scheduler {
        match event {
            Event::Submit(id) => self.enqueued(id),
            Event::Cancel(id) => self.cancelled(id),
            Event::Dispatch(candidate, start) => self.dispatched(candidate, start),
            Event::Complete(id) => self.completed(id),
            Event::Restore(ids) => self.restored(ids),
            Event::SetCeiling(n) => self.with_ceiling(n),
        }
    }

    /// The state after a course of events.
    pub open spec fn run(self, events: Seq<Event>) -> Scheduler
        decreases events.len(),
    {
        if events.len() == 0 {
            self
        } else {
            self.run(events.drop_last()).step(events.last())
        }
    }

    /// Whether `event` asks for a ceiling below the number of jobs that run:
    /// they go on running, so that more jobs run than the new ceiling allows
    /// until enough of them have ended.
    pub open spec fn overcommits(self, event: Event) -> bool {
        event matches Event::SetCeiling(n) && 0 < n < self.active.len()
    }

    /// Whether `event` takes a job out of the middle of the queue.
    pub open spec fn withdraws(self, event: Event) -> bool {
        event matches Event::Cancel(id) && !self.active.contains(id) && self.pending.contains(id)
    }

    /// Whether `event` puts `id` in the queue.
    pub open spec fn admits(event: Event, id: Seq<char>) -> bool {
        match event {
            Event::Submit(other) => other == id,
            Event::Restore(ids) => ids.contains(id),
            _ => false,
        }
    }

    /// The jobs that one event puts at the end of the queue, in order.
    pub open spec fn arrivals(self, event: Event) -> Seq<Seq<char>> {
        match event {
            Event::Submit(id) => seq![id],
            Event::Restore(ids) => merged_unique(self.pending, ids).skip(self.pending.len() as int),
            _ => Seq::<Seq<char>>::empty(),
        }
    }

    /// The jobs that one event takes from the head of the queue.
    pub open spec fn departures(self, event: Event) -> Seq<Seq<char>> {
        match event {
            Event::Dispatch(candidate, start) => if self.ready() && self.pending[0] == candidate {
                seq![candidate]
            } else {
                Seq::<Seq<char>>::empty()
            },
            _ => Seq::<Seq<char>>::empty(),
        }
    }

    /// The jobs that a course of events puts at the end of the queue, in order.
    pub open spec fn arrived(self, events: Seq<Event>) -> Seq<Seq<char>>
        decreases events.len(),
    {
        if events.len() == 0 {
            Seq::<Seq<char>>::empty()
        } else {
            self.arrived(events.drop_last()) + self.run(events.drop_last()).arrivals(events.last())
        }
    }

    /// The jobs that a course of events takes from the head of the queue, in order.
    pub open spec fn departed(self, events: Seq<Event>) -> Seq<Seq<char>>
        decreases events.len(),
    {
        if events.len() == 0 {
            Seq::<Seq<char>>::empty()
        } else {
            self.departed(events.drop_last()) + self.run(events.drop_last()).departures(
                events.last(),
            )
        }
    }
}

/// One event keeps the running jobs countable and the ceiling above zero;
/// and it keeps their number within the ceiling, unless it asks for a
/// ceiling below that number.
pub proof fn lemma_step_within_ceiling(s: Scheduler, event: Event)
    requires
        s.well_formed(),
    ensures
        s.step(event).well_formed(),
        s.within_ceiling() && !s.overcommits(event) ==> s.step(event).within_ceiling(),
{
}

/// Whatever the ceiling was and is, a job starts only below it: an event
/// after which more jobs run than before leaves their number within the
/// ceiling. A ceiling that is lowered stops no job and lets none start.
pub proof fn lemma_starts_only_below_ceiling(s: Scheduler, event: Event)
    requires
        s.well_formed(),
    ensures
        s.step(event).active.len() > s.active.len() ==> s.step(event).within_ceiling(),
        event is SetCeiling ==> s.step(event).active == s.active && s.step(event).pending
            == s.pending,
{
}

/// However the events follow one another, no more jobs run than the ceiling
/// allows, as long as no event asks for a ceiling below the number of jobs
/// that run at its time.
pub proof fn lemma_never_above_ceiling(s: Scheduler, events: Seq<Event>)
    requires
        s.well_formed(),
        s.within_ceiling(),
        forall|i: int|
            0 <= i < events.len() ==> !(#[trigger] s.run(events.take(i))).overcommits(events[i]),
    ensures
        s.run(events).well_formed(),
        s.run(events).within_ceiling(),
    decreases events.len(),
{
    if events.len() > 0 {
        let before = events.drop_last();
        assert forall|i: int| 0 <= i < before.len() implies !(#[trigger] s.run(
            before.take(i),
        )).overcommits(before[i]) by {
            assert(before.take(i) =~= events.take(i));
        }
        lemma_never_above_ceiling(s, before);
        assert(events.take(events.len() - 1) =~= before);
        assert(!s.run(events.take(events.len() - 1)).overcommits(events[events.len() - 1]));
        lemma_step_within_ceiling(s.run(before), events.last());
    }
}

/// A new queue runs no job, which is within its ceiling.
pub proof fn lemma_initial_within_ceiling()
    ensures
        Scheduler::initial().well_formed(),
        Scheduler::initial().within_ceiling(),
{
}

/// Taking in the queued jobs of the store leaves the queue as it was and
/// puts jobs behind it.
pub proof fn lemma_merged_extends(pending: Seq<Seq<char>>, ids: Seq<Seq<char>>)
    ensures
        pending.len() <= merged_unique(pending, ids).len(),
        merged_unique(pending, ids).take(pending.len() as int) == pending,
    decreases ids.len(),
{
    if ids.len() == 0 {
        assert(pending.take(pending.len() as int) =~= pending);
    } else {
        lemma_merged_extends(pending, ids.drop_last());
        let before = merged_unique(pending, ids.drop_last());
        assert(before.push(ids.last()).take(pending.len() as int) =~= before.take(
            pending.len() as int,
        ));
    }
}

/// Over any course of events that takes no job out of the middle of the
/// queue, every job leaves in its turn: the jobs that have left at the head,
/// followed by the jobs that still wait, are the jobs that waited at first,
/// followed by the jobs that came since.
pub proof fn lemma_first_in_first_out(s: Scheduler, events: Seq<Event>)
    requires
        forall|i: int|
            0 <= i < events.len() ==> !(#[trigger] s.run(events.take(i))).withdraws(events[i]),
    ensures
        s.departed(events) + s.run(events).pending == s.pending + s.arrived(events),
    decreases events.len(),
{
    if events.len() == 0 {
        assert(s.departed(events) + s.run(events).pending =~= s.pending + s.arrived(events));
    } else {
        let before = events.drop_last();
        let last = events.last();
        assert forall|i: int| 0 <= i < before.len() implies !(#[trigger] s.run(
            before.take(i),
        )).withdraws(before[i]) by {
            assert(before.take(i) =~= events.take(i));
        }
        lemma_first_in_first_out(s, before);
        let mid = s.run(before);
        assert(events.take(events.len() - 1) =~= before);
        assert(!s.run(events.take(events.len() - 1)).withdraws(events[events.len() - 1]));
        let gone = s.departed(before);
        let come = s.arrived(before);
        assert(gone + mid.pending == s.pending + come);
        match last {
            Event::Submit(id) => {
                assert(gone + mid.pending.push(id) =~= (gone + mid.pending) + seq![id]);
                assert((s.pending + come) + seq![id] =~= s.pending + (come + seq![id]));
                assert(gone + Seq::<Seq<char>>::empty() =~= gone);
            },
            Event::Cancel(id) => {
                if !mid.active.contains(id) {
                    lemma_absent_stays(mid.pending, id);
                }
                assert(gone + Seq::<Seq<char>>::empty() =~= gone);
                assert(come + Seq::<Seq<char>>::empty() =~= come);
            },
            Event::Dispatch(candidate, start) => {
                assert(come + Seq::<Seq<char>>::empty() =~= come);
                if mid.ready() && mid.pending[0] == candidate {
                    assert((gone + seq![candidate]) + mid.pending.drop_first() =~= gone
                        + mid.pending);
                } else {
                    assert(gone + Seq::<Seq<char>>::empty() =~= gone);
                }
            },
            Event::Complete(id) => {
                assert(gone + Seq::<Seq<char>>::empty() =~= gone);
                assert(come + Seq::<Seq<char>>::empty() =~= come);
            },
            Event::Restore(ids) => {
                lemma_merged_extends(mid.pending, ids);
                let merged = merged_unique(mid.pending, ids);
                let added = merged.skip(mid.pending.len() as int);
                assert(merged =~= mid.pending + added);
                assert(gone + (mid.pending + added) =~= (gone + mid.pending) + added);
                assert((s.pending + come) + added =~= s.pending + (come + added));
                assert(gone + Seq::<Seq<char>>::empty() =~= gone);
            },
            Event::SetCeiling(n) => {
                assert(gone + Seq::<Seq<char>>::empty() =~= gone);
                assert(come + Seq::<Seq<char>>::empty() =~= come);
            },
        }
    }
}

/// Whether `part` is `whole` with some of its entries left out: the entries
/// of `part` are entries of `whole`, in the same order.
pub open spec fn is_part_of(part: Seq<Seq<char>>, whole: Seq<Seq<char>>) -> bool
    decreases whole.len(),
{
    if part.len() == 0 {
        true
    } else if whole.len() == 0 {
        false
    } else if part.last() == whole.last() && is_part_of(part.drop_last(), whole.drop_last()) {
        true
    } else {
        is_part_of(part, whole.drop_last())
    }
}

/// A list is a part of itself.
pub proof fn lemma_part_of_itself(list: Seq<Seq<char>>)
    ensures
        is_part_of(list, list),
    decreases list.len(),
{
    if list.len() > 0 {
        lemma_part_of_itself(list.drop_last());
    }
}

/// A part of a list is a part of the list with one more entry; and with the
/// same entry behind it, it is a part of that too.
pub proof fn lemma_part_of_longer(part: Seq<Seq<char>>, whole: Seq<Seq<char>>, id: Seq<char>)
    requires
        is_part_of(part, whole),
    ensures
        is_part_of(part, whole.push(id)),
        is_part_of(part.push(id), whole.push(id)),
{
    assert(whole.push(id).drop_last() =~= whole);
    assert(part.push(id).drop_last() =~= part);
}

/// A part of a list, with more entries behind both.
pub proof fn lemma_part_of_extended(
    part: Seq<Seq<char>>,
    whole: Seq<Seq<char>>,
    more: Seq<Seq<char>>,
)
    requires
        is_part_of(part, whole),
    ensures
        is_part_of(part + more, whole + more),
    decreases more.len(),
{
    if more.len() == 0 {
        assert(part + more =~= part);
        assert(whole + more =~= whole);
    } else {
        lemma_part_of_extended(part, whole, more.drop_last());
        lemma_part_of_longer(part + more.drop_last(), whole + more.drop_last(), more.last());
        assert((part + more.drop_last()).push(more.last()) =~= part + more);
        assert((whole + more.drop_last()).push(more.last()) =~= whole + more);
    }
}

/// A list without every occurrence of `id`, behind any other list, is a
/// part of the list behind that other list.
pub proof fn lemma_part_without_all(front: Seq<Seq<char>>, ids: Seq<Seq<char>>, id: Seq<char>)
    ensures
        is_part_of(front + without_all(ids, id), front + ids),
    decreases ids.len(),
{
    if ids.len() == 0 {
        assert(front + without_all(ids, id) =~= front);
        assert(front + ids =~= front);
        lemma_part_of_itself(front);
    } else {
        let rest = ids.drop_last();
        lemma_part_without_all(front, rest, id);
        lemma_part_of_longer(front + without_all(rest, id), front + rest, ids.last());
        assert((front + rest).push(ids.last()) =~= front + ids);
        if ids.last() != id {
            assert((front + without_all(rest, id)).push(ids.last()) =~= front + without_all(
                ids,
                id,
            ));
        }
    }
}

/// A part of a part of a list is a part of the list.
pub proof fn lemma_part_of_part(a: Seq<Seq<char>>, b: Seq<Seq<char>>, c: Seq<Seq<char>>)
    requires
        is_part_of(a, b),
        is_part_of(b, c),
    ensures
        is_part_of(a, c),
    decreases c.len(),
{
    if a.len() > 0 {
        if b.last() == c.last() && is_part_of(b.drop_last(), c.drop_last()) {
            if a.last() == b.last() && is_part_of(a.drop_last(), b.drop_last()) {
                lemma_part_of_part(a.drop_last(), b.drop_last(), c.drop_last());
            } else {
                lemma_part_of_part(a, b.drop_last(), c.drop_last());
            }
        } else {
            lemma_part_of_part(a, b, c.drop_last());
        }
    }
}

/// Jobs leave the queue in the order in which they came, whatever happens:
/// over any course of events, the jobs that have left at the head, followed
/// by the jobs that still wait, are in their order among the jobs that
/// waited at first, followed by the jobs that came since. What is left out
/// are the jobs that were cancelled while they waited.
pub proof fn lemma_order_is_kept(s: Scheduler, events: Seq<Event>)
    ensures
        is_part_of(s.departed(events) + s.run(events).pending, s.pending + s.arrived(events)),
    decreases events.len(),
{
    if events.len() == 0 {
        assert(s.departed(events) + s.run(events).pending =~= s.pending);
        assert(s.pending + s.arrived(events) =~= s.pending);
        lemma_part_of_itself(s.pending);
    } else {
        let before = events.drop_last();
        let last = events.last();
        lemma_order_is_kept(s, before);
        let mid = s.run(before);
        let gone = s.departed(before);
        let come = s.arrived(before);
        let part = gone + mid.pending;
        let whole = s.pending + come;
        let nothing = Seq::<Seq<char>>::empty();
        assert(gone + nothing =~= gone);
        assert(come + nothing =~= come);
        match last {
            Event::Submit(id) => {
                lemma_part_of_longer(part, whole, id);
                assert(gone + mid.pending.push(id) =~= part.push(id));
                assert(s.pending + (come + seq![id]) =~= whole.push(id));
            },
            Event::Cancel(id) => {
                if !mid.active.contains(id) {
                    lemma_part_without_all(gone, mid.pending, id);
                    lemma_part_of_part(gone + without_all(mid.pending, id), part, whole);
                }
            },
            Event::Dispatch(candidate, start) => {
                if mid.ready() && mid.pending[0] == candidate {
                    assert((gone + seq![candidate]) + mid.pending.drop_first() =~= part);
                }
            },
            Event::Complete(id) => {},
            Event::Restore(ids) => {
                lemma_merged_extends(mid.pending, ids);
                let merged = merged_unique(mid.pending, ids);
                let added = merged.skip(mid.pending.len() as int);
                assert(merged =~= mid.pending + added);
                lemma_part_of_extended(part, whole, added);
                assert(gone + merged =~= part + added);
                assert(s.pending + (come + added) =~= whole + added);
            },
            Event::SetCeiling(n) => {},
        }
    }
}

/// Taking every `id` out of a list that does not hold `id` changes nothing.
pub proof fn lemma_absent_stays(ids: Seq<Seq<char>>, id: Seq<char>)
    requires
        !ids.contains(id),
    ensures
        without_all(ids, id) == ids,
    decreases ids.len(),
{
    if ids.len() > 0 {
        let rest = ids.drop_last();
        assert(ids[ids.len() - 1] != id);
        assert forall|k: int| 0 <= k < rest.len() implies rest[k] != id by {
            assert(rest[k] == ids[k]);
        }
        lemma_absent_stays(rest, id);
        assert(rest.push(ids.last()) =~= ids);
    } else {
        assert(without_all(ids, id) =~= ids);
    }
}

/// A list holds `id` exactly if `id` occurs in it at least once.
pub proof fn lemma_occurs_iff_contained(ids: Seq<Seq<char>>, id: Seq<char>)
    ensures
        occurrences(ids, id) > 0 <==> ids.contains(id),
    decreases ids.len(),
{
    if ids.len() > 0 {
        let before = ids.drop_last();
        lemma_occurs_iff_contained(before, id);
        if ids.last() == id {
            assert(ids[ids.len() - 1] == id);
        } else if before.contains(id) {
            let k = choose|k: int| 0 <= k < before.len() && before[k] == id;
            assert(ids[k] == id);
        } else if ids.contains(id) {
            let k = choose|k: int| 0 <= k < ids.len() && ids[k] == id;
            assert(before[k] == id);
        }
    }
}

/// What the queue holds once the jobs `ids` were taken in: what it held, and `ids`.
pub proof fn lemma_merged_holds(pending: Seq<Seq<char>>, ids: Seq<Seq<char>>, id: Seq<char>)
    ensures
        merged_unique(pending, ids).contains(id) <==> pending.contains(id) || ids.contains(id),
    decreases ids.len(),
{
    if ids.len() > 0 {
        let rest = ids.drop_last();
        lemma_merged_holds(pending, rest, id);
        let before = merged_unique(pending, rest);
        if ids.contains(id) {
            let k = choose|k: int| 0 <= k < ids.len() && ids[k] == id;
            if k < rest.len() {
                assert(rest[k] == id);
            }
        }
        if rest.contains(id) {
            let k = choose|k: int| 0 <= k < rest.len() && rest[k] == id;
            assert(ids[k] == id);
        }
        assert(ids[ids.len() - 1] == ids.last());
        if !before.contains(ids.last()) {
            let after = before.push(ids.last());
            if before.contains(id) {
                let k = choose|k: int| 0 <= k < before.len() && before[k] == id;
                assert(after[k] == id);
            }
            if ids.last() == id {
                assert(after[after.len() - 1] == id);
            }
            if after.contains(id) {
                let k = choose|k: int| 0 <= k < after.len() && after[k] == id;
                if k < before.len() {
                    assert(before[k] == id);
                }
            }
        }
    }
}

/// A job that is neither pending nor running stays so over one event that
/// does not put it in the queue.
pub proof fn lemma_step_keeps_out(s: Scheduler, event: Event, id: Seq<char>)
    requires
        !s.active.contains(id),
        !s.pending.contains(id),
        !Scheduler::admits(event, id),
    ensures
        !s.step(event).active.contains(id),
        !s.step(event).pending.contains(id),
{
    let after = s.step(event);
    match event {
        Event::Submit(other) => {
            if after.pending.contains(id) {
                let k = choose|k: int| 0 <= k < after.pending.len() && after.pending[k] == id;
                if k < s.pending.len() {
                    assert(s.pending[k] == id);
                }
            }
        },
        Event::Cancel(other) => {
            if !s.active.contains(other) {
                lemma_without_all_holds(s.pending, other, id);
            }
        },
        Event::Dispatch(candidate, start) => {
            if s.ready() && s.pending[0] == candidate {
                assert(candidate != id);
                if after.pending.contains(id) {
                    let k = choose|k: int| 0 <= k < after.pending.len() && after.pending[k] == id;
                    assert(s.pending[k + 1] == id);
                }
            }
        },
        Event::Complete(other) => {},
        Event::Restore(ids) => {
            lemma_merged_holds(s.pending, ids, id);
        },
        Event::SetCeiling(n) => {},
    }
}

/// A job that is cancelled while it waits never starts: if it was not
/// running when its cancellation was asked for, then it is neither pending
/// nor running after any course of events that does not put it in the queue
/// anew, however often it stood in the queue.
pub proof fn lemma_cancelled_while_queued_never_starts(
    s: Scheduler,
    id: Seq<char>,
    events: Seq<Event>,
)
    requires
        !s.active.contains(id),
        forall|i: int| 0 <= i < events.len() ==> !Scheduler::admits(#[trigger] events[i], id),
    ensures
        !s.cancelled(id).run(events).active.contains(id),
        !s.cancelled(id).run(events).pending.contains(id),
    decreases events.len(),
{
    if events.len() == 0 {
        lemma_without_all_holds(s.pending, id, id);
    } else {
        let before = events.drop_last();
        assert forall|i: int| 0 <= i < before.len() implies !Scheduler::admits(
            #[trigger] before[i],
            id,
        ) by {
            assert(before[i] == events[i]);
        }
        lemma_cancelled_while_queued_never_starts(s, id, before);
        assert(events.last() == events[events.len() - 1]);
        lemma_step_keeps_out(s.cancelled(id).run(before), events.last(), id);
    }
}

/// A job has one run at a time: no event starts a job that runs already.
/// An event after which a job runs that did not run before is the
/// scheduler's dealing with that job at the head of the queue, and after it
/// exactly one job more runs.
pub proof fn lemma_one_run_at_a_time(s: Scheduler, event: Event, id: Seq<char>)
    requires
        s.well_formed(),
    ensures
        (event matches Event::Dispatch(candidate, start) && s.active.contains(candidate))
            ==> s.step(event).active == s.active,
        !s.active.contains(id) && s.step(event).active.contains(id) ==> {
            &&& event matches Event::Dispatch(candidate, start)
            &&& event->Dispatch_0 == id
            &&& event->Dispatch_1
            &&& s.ready()
            &&& s.pending[0] == id
            &&& s.step(event).active.len() == s.active.len() + 1
        },
{
}

/// Cancelling a job that runs leaves it registered; and when its run has
/// ended as cancelled, the job has failed with the reason "Cancelled", it
/// is registered no more, and one job less runs.
pub proof fn lemma_cancelled_run_fails_and_frees_its_slot(
    s: Scheduler,
    id: Seq<char>,
    record: JobView,
    now: int,
    folder: Seq<char>,
)
    requires
        s.well_formed(),
        s.active.contains(id),
    ensures
        s.cancelled(id) == s,
        settled(Err(RunFailureView::Cancelled), Some(record), now, folder).update == Some(
            record.failed("Cancelled"@, now),
        ),
        record.failed("Cancelled"@, now).status == JobStatus::Failed,
        record.failed("Cancelled"@, now).error == Some("Cancelled"@),
        settled(Err(RunFailureView::Cancelled), Some(record), now, folder).produced is None,
        !s.completed(id).active.contains(id),
        s.completed(id).active.len() == s.active.len() - 1,
{
}

/// How often a job stands in the queue once the jobs `ids` were taken in:
/// as often as before if it was there, once if it came with `ids`, and not
/// at all otherwise.
pub proof fn lemma_merged_occurrences(pending: Seq<Seq<char>>, ids: Seq<Seq<char>>, id: Seq<char>)
    ensures
        occurrences(merged_unique(pending, ids), id) == if pending.contains(id) {
            occurrences(pending, id)
        } else if ids.contains(id) {
            1
        } else {
            0
        },
    decreases ids.len(),
{
    lemma_occurs_iff_contained(pending, id);
    if ids.len() > 0 {
        let rest = ids.drop_last();
        lemma_merged_occurrences(pending, rest, id);
        lemma_merged_holds(pending, rest, id);
        lemma_merged_holds(pending, rest, ids.last());
        let before = merged_unique(pending, rest);
        assert(ids[ids.len() - 1] == ids.last());
        if rest.contains(id) {
            let k = choose|k: int| 0 <= k < rest.len() && rest[k] == id;
            assert(ids[k] == id);
        }
        if ids.contains(id) && ids.last() != id {
            let k = choose|k: int| 0 <= k < ids.len() && ids[k] == id;
            assert(rest[k] == id);
        }
        if !before.contains(ids.last()) {
            assert(before.push(ids.last()).drop_last() =~= before);
        }
    }
}

/// The identifiers of the queued jobs are those of the jobs that are queued.
pub proof fn lemma_queued_ids_hold(jobs: Seq<JobView>, k: int)
    requires
        0 <= k < jobs.len(),
        jobs[k].status == JobStatus::Queued,
    ensures
        queued_ids(jobs).contains(jobs[k].id),
    decreases jobs.len(),
{
    let before = queued_ids(jobs.drop_last());
    if k == jobs.len() - 1 {
        assert(before.push(jobs[k].id)[before.len() as int] == jobs[k].id);
    } else {
        lemma_queued_ids_hold(jobs.drop_last(), k);
        let i = choose|i: int| 0 <= i < before.len() && before[i] == jobs[k].id;
        if jobs.last().status == JobStatus::Queued {
            assert(before.push(jobs.last().id)[i] == jobs[k].id);
        }
    }
}

/// After a start, every job that the store has as queued stands in the
/// queue exactly once, whether the queue held it already or not, provided
/// that it did not hold it more than once; and no job has started.
pub proof fn lemma_restart_requeues_once(s: Scheduler, jobs: Seq<JobView>, k: int)
    requires
        0 <= k < jobs.len(),
        jobs[k].status == JobStatus::Queued,
        occurrences(s.pending, jobs[k].id) <= 1,
    ensures
        occurrences(s.restored(queued_ids(jobs)).pending, jobs[k].id) == 1,
        s.restored(queued_ids(jobs)).active == s.active,
{
    lemma_queued_ids_hold(jobs, k);
    lemma_merged_occurrences(s.pending, queued_ids(jobs), jobs[k].id);
    lemma_occurs_iff_contained(s.pending, jobs[k].id);
}

/// After a start, every job that the store had as downloading is among
/// the jobs to be stored as failed with the reason "crashed".
pub proof fn lemma_restart_fails_lost_runs(jobs: Seq<JobView>, k: int)
    requires
        0 <= k < jobs.len(),
        jobs[k].status == JobStatus::Downloading,
    ensures
        crashed_jobs(jobs).contains(jobs[k].after_crash()),
        jobs[k].after_crash().status == JobStatus::Failed,
        jobs[k].after_crash().error == Some("crashed"@),
    decreases jobs.len(),
{
    let before = crashed_jobs(jobs.drop_last());
    if k == jobs.len() - 1 {
        assert(before.push(jobs[k].after_crash())[before.len() as int] == jobs[k].after_crash());
    } else {
        lemma_restart_fails_lost_runs(jobs.drop_last(), k);
        let i = choose|i: int| 0 <= i < before.len() && before[i] == jobs[k].after_crash();
        if jobs.last().status == JobStatus::Downloading {
            assert(before.push(jobs.last().after_crash())[i] == jobs[k].after_crash());
        }
    }
}

/// Every job among those to be stored as failed after a start was downloading.
pub proof fn lemma_restart_fails_only_lost_runs(jobs: Seq<JobView>, i: int)
    requires
        0 <= i < crashed_jobs(jobs).len(),
    ensures
        crashed_jobs(jobs)[i].status == JobStatus::Failed,
        crashed_jobs(jobs)[i].error == Some("crashed"@),
        exists|k: int|
            0 <= k < jobs.len() && jobs[k].status == JobStatus::Downloading
                && #[trigger] jobs[k].after_crash() == crashed_jobs(jobs)[i],
    decreases jobs.len(),
{
    if jobs.len() > 0 {
        let rest = jobs.drop_last();
        let before = crashed_jobs(rest);
        if i < before.len() {
            lemma_restart_fails_only_lost_runs(rest, i);
            let k = choose|k: int|
                0 <= k < rest.len() && rest[k].status == JobStatus::Downloading
                    && #[trigger] rest[k].after_crash() == before[i];
            assert(jobs[k] == rest[k]);
        } else {
            assert(jobs[jobs.len() - 1] == jobs.last());
        }
    }
}

/// The progress of a job after a series of reports, each taking the place of the one before.
pub open spec fn after_reports(job: JobView, reports: Seq<crate::runner::ProgressUpdate>) -> JobView
    decreases reports.len(),
{
    if reports.len() == 0 {
        job
    } else {
        after_reports(job, reports.drop_last()).with_progress(
            reports.last().progress as int,
            crate::text::int_of(reports.last().eta),
        )
    }
}

/// The progress of a job that is downloading does not fall, as long as no
/// report names a lower percentage than the one before it, nor the first a
/// lower one than the job has: each report leaves the job downloading, with
/// a progress that is no lower than before.
pub proof fn lemma_progress_does_not_fall(
    job: JobView,
    reports: Seq<crate::runner::ProgressUpdate>,
    k: int,
)
    requires
        job.status == JobStatus::Downloading,
        0 <= k < reports.len(),
        job.progress <= reports[0].progress,
        forall|i: int, j: int|
            0 <= i <= j < reports.len() ==> reports[i].progress <= reports[j].progress,
    ensures
        after_reports(job, reports.take(k)).status == JobStatus::Downloading,
        after_reports(job, reports.take(k)).progress <= after_reports(
            job,
            reports.take(k + 1),
        ).progress,
    decreases k,
{
    assert(reports.take(k + 1).drop_last() =~= reports.take(k));
    assert(reports.take(k + 1).last() == reports[k]);
    if k > 0 {
        lemma_progress_does_not_fall(job, reports, k - 1);
        assert(reports.take(k).drop_last() =~= reports.take(k - 1));
        assert(reports.take(k).last() == reports[k - 1]);
    } else {
        assert(reports.take(0) =~= Seq::<crate::runner::ProgressUpdate>::empty());
    }
}

/// Whether the job names a file exactly if it is done.
pub open spec fn names_file_iff_done(job: JobView) -> bool {
    job.filename is Some <==> job.status == JobStatus::Done
}

/// A job names a file exactly if it is done. That holds of a job as it is
/// created, claimed by a runner, done, failed or put back in the queue,
/// whatever it was before; and a progress report and a restart keep it.
/// Only the maintenance that marks a done job as missing and the taking
/// over from an export leave a job that is not done with the name of its
/// file: they change the status, and the second the retries, and nothing
/// else.
pub proof fn lemma_file_name_goes_with_done(
    job: JobView,
    id: Seq<char>,
    url: Seq<char>,
    now: int,
    progress: int,
    eta: Option<int>,
    text: Seq<char>,
)
    ensures
        names_file_iff_done(JobView::queued(id, url, now)),
        names_file_iff_done(job.downloading(now)),
        names_file_iff_done(job.done(text, now)),
        names_file_iff_done(job.failed(text, now)),
        names_file_iff_done(job.requeued()),
        names_file_iff_done(job) ==> names_file_iff_done(job.with_progress(progress, eta))
            && names_file_iff_done(job.after_crash()),
        job.missing() == (JobView { status: JobStatus::Missing, ..job }),
        job.imported() == (JobView { status: JobStatus::Imported, retries: 0, ..job }),
{
}

/// A job that is put back in the queue, after a failure or to fetch its
/// file again, is queued with one more retry counted, whatever its status
/// was; its progress, its remaining time, its file name, its error and both
/// its timestamps are as on a new job; and the rest is as before.
pub proof fn lemma_requeue_resets(job: JobView)
    ensures
        job.requeued() == (JobView {
            retries: job.retries + 1,
            ..JobView::queued(job.id, job.url, job.created_at)
        }),
        job.requeued().status == JobStatus::Queued,
        job.requeued().filename is None,
{
}

} // verus!
