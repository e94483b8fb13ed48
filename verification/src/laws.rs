//! What holds of every run, whatever happens outside.

use crate::pipeline::{
    emit_actions, skip_reports, starts, take_in, ActionView, EventView, Found, Phase,
    PipelineView,
};
use crate::post::GelbooruPost;
use crate::printer::{spec_emission, PrinterView};
use crate::report::{no_results_text, OutcomeView};
use crate::scheduler::{
    lemma_complete, lemma_count_total, lemma_count_zero, lemma_fill, lemma_offer, JobView,
    SchedulerView, Status, MAX_IN_FLIGHT,
};
use crate::search::{SearchView, PAGE_SIZE};
use vstd::prelude::*;

verus! {

/// The state that a run has reached after `events`, told in order to a run
/// that had not begun.
pub open spec fn after(printer: PrinterView, events: Seq<EventView>) -> PipelineView
    decreases events.len(),
{
    if events.len() == 0 {
        PipelineView::initial(printer)
    } else {
        after(printer, events.drop_last()).step(events.last()).0
    }
}

/// How many of `actions` report an item's outcome.
pub open spec fn reports_in(actions: Seq<ActionView>) -> nat
    decreases actions.len(),
{
    if actions.len() == 0 {
        0
    } else {
        reports_in(actions.drop_last()) + if actions.last() is Report {
            1nat
        } else {
            0nat
        }
    }
}

/// How many of `actions` start a download.
pub open spec fn starts_in(actions: Seq<ActionView>) -> nat
    decreases actions.len(),
{
    if actions.len() == 0 {
        0
    } else {
        starts_in(actions.drop_last()) + if actions.last() is Start {
            1nat
        } else {
            0nat
        }
    }
}

/// Reports and starts are counted part by part.
pub proof fn lemma_counts_add(a: Seq<ActionView>, b: Seq<ActionView>)
    ensures
        reports_in(a + b) == reports_in(a) + reports_in(b),
        starts_in(a + b) == starts_in(a) + starts_in(b),
    decreases b.len(),
{
    if b.len() == 0 {
        assert(a + b =~= a);
    } else {
        lemma_counts_add(a, b.drop_last());
        assert((a + b).drop_last() =~= a + b.drop_last());
    }
}

/// Counting in a sequence of one action.
pub proof fn lemma_counts_of_one(action: ActionView)
    ensures
        reports_in(seq![action]) == if action is Report {
            1nat
        } else {
            0nat
        },
        starts_in(seq![action]) == if action is Start {
            1nat
        } else {
            0nat
        },
{
    let one = seq![action];
    assert(one.drop_last() =~= Seq::<ActionView>::empty());
    assert(one.last() == action);
    assert(reports_in(one.drop_last()) == 0);
    assert(starts_in(one.drop_last()) == 0);
}

/// A sequence of starts holds no report, and one start for each job.
pub proof fn lemma_counts_of_starts(jobs: Seq<JobView>)
    ensures
        reports_in(starts(jobs)) == 0,
        starts_in(starts(jobs)) == jobs.len(),
    decreases jobs.len(),
{
    if jobs.len() > 0 {
        lemma_counts_of_starts(jobs.drop_last());
        assert(starts(jobs).drop_last() =~= starts(jobs.drop_last()));
    }
}

/// Taking a page in keeps the scheduler sound, starts nothing, and reports
/// exactly the items that it counts as processed.
pub proof fn lemma_take_in(scheduler: SchedulerView, found: Seq<Found>, total: nat)
    requires
        scheduler.wf(),
    ensures
        take_in(scheduler, found).wf(),
        scheduler.extended_by(take_in(scheduler, found)),
        take_in(scheduler, found).discovered() == scheduler.discovered() + found.len(),
        take_in(scheduler, found).in_flight() == scheduler.in_flight(),
        take_in(scheduler, found).succeeded() == scheduler.succeeded(),
        take_in(scheduler, found).processed() == scheduler.processed() + reports_in(
            skip_reports(scheduler, found, total),
        ),
        starts_in(skip_reports(scheduler, found, total)) == 0,
    decreases found.len(),
{
    if found.len() > 0 {
        let earlier = found.drop_last();
        lemma_take_in(scheduler, earlier, total);
        lemma_offer(take_in(scheduler, earlier), found.last().post, found.last().present);
        if found.last().present {
            assert(skip_reports(scheduler, found, total).drop_last() =~= skip_reports(
                scheduler,
                earlier,
                total,
            ));
        }
    }
}

/// Ending a run, where it is time, changes neither the scheduler nor the
/// counts, and neither reports nor starts anything.
pub proof fn lemma_settle(state: PipelineView)
    requires
        state.wf(),
        state.phase != Phase::Finished,
        state.phase != Phase::Idle,
        state.phase != Phase::Probing || state.scheduler.discovered() == 0,
    ensures
        state.settle().0.wf(),
        state.settle().0.scheduler == state.scheduler,
        reports_in(state.settle().1) == 0,
        starts_in(state.settle().1) == 0,
{
    let actions = state.settle().1;
    if state.phase == Phase::Draining && state.scheduler.idle() {
        let first = seq![actions[0]];
        let last = seq![ActionView::Finish(None)];
        let middle = emit_actions(state.printer);
        lemma_counts_of_one(actions[0]);
        lemma_counts_of_one(ActionView::Finish(None));
        if middle.len() > 0 {
            lemma_counts_of_one(middle[0]);
            assert(middle =~= seq![middle[0]]);
        }
        lemma_counts_add(first, middle);
        lemma_counts_add(first + middle, last);
        assert(actions =~= first + middle + last);
    } else if state.phase == Phase::Aborting && state.scheduler.idle() {
        lemma_counts_of_one(actions[0]);
        assert(actions =~= seq![actions[0]]);
    }
}

/// One step keeps the state sound, keeps every item and every outcome that
/// was there, and reports exactly as many outcomes as it adds.
pub proof fn lemma_step(state: PipelineView, event: EventView)
    requires
        state.wf(),
    ensures
        state.step(event).0.wf(),
        state.scheduler.extended_by(state.step(event).0.scheduler),
        state.step(event).0.scheduler.processed() == state.scheduler.processed() + reports_in(
            state.step(event).1,
        ),
        state.step(event).0.scheduler.in_flight() <= state.scheduler.in_flight() + starts_in(
            state.step(event).1,
        ),
{
    let actions = state.step(event).1;
    match (state.phase, event) {
        (Phase::Idle, EventView::Begin) => {
            lemma_counts_of_one(actions[0]);
            assert(actions =~= seq![actions[0]]);
        },
        (Phase::Probing, EventView::Probed(count)) => {
            lemma_count_zero(state.scheduler.status, Status::Queued);
            lemma_count_zero(state.scheduler.status, Status::InFlight);
            if count == 0 {
                lemma_counts_of_one(actions[0]);
                lemma_counts_of_one(actions[1]);
                lemma_counts_add(seq![actions[0]], seq![actions[1]]);
                assert(actions =~= seq![actions[0]] + seq![actions[1]]);
            } else {
                lemma_counts_of_one(actions[0]);
                assert(actions =~= seq![actions[0]]);
            }
        },
        (Phase::Probing, EventView::SearchFailed(cause)) => {
            lemma_settle(PipelineView { phase: Phase::Aborting, failure: cause, ..state });
        },
        (Phase::Paging, EventView::SearchFailed(cause)) => {
            lemma_settle(PipelineView { phase: Phase::Aborting, failure: cause, ..state });
        },
        (Phase::Paging, EventView::Page(found)) => {
            if found.len() == 0 {
                lemma_settle(PipelineView { phase: Phase::Draining, ..state });
            } else {
                let taken = take_in(state.scheduler, found);
                lemma_take_in(state.scheduler, found, state.total);
                lemma_fill(taken);
                let reports = skip_reports(state.scheduler, found, state.total);
                let started = starts(taken.fill_jobs());
                let search = seq![actions.last()];
                lemma_counts_of_one(actions.last());
                lemma_counts_of_starts(taken.fill_jobs());
                lemma_counts_add(reports, started);
                lemma_counts_add(reports + started, search);
                assert(actions =~= reports + started + search);
            }
        },
        (Phase::Paging, EventView::Completed(id, error)) => {
            lemma_completed(state, id, error);
        },
        (Phase::Draining, EventView::Completed(id, error)) => {
            lemma_completed(state, id, error);
        },
        (Phase::Aborting, EventView::Completed(id, error)) => {
            lemma_completed(state, id, error);
        },
        _ => {},
    }
}

proof fn lemma_completed(state: PipelineView, id: nat, error: Option<Seq<char>>)
    requires
        state.wf(),
        state.phase == Phase::Paging || state.phase == Phase::Draining || state.phase
            == Phase::Aborting,
    ensures
        state.completed(id, error).0.wf(),
        state.scheduler.extended_by(state.completed(id, error).0.scheduler),
        state.completed(id, error).0.scheduler.processed() == state.scheduler.processed()
            + reports_in(state.completed(id, error).1),
        state.completed(id, error).0.scheduler.in_flight() <= state.scheduler.in_flight()
            + starts_in(state.completed(id, error).1),
{
    if state.scheduler.running(id as int) {
        let done = state.scheduler.complete(id as int, error is None);
        lemma_complete(state.scheduler, id as int, error is None);
        lemma_fill(done);
        let middle = PipelineView { scheduler: done.fill(), ..state };
        lemma_settle(middle);
        let actions = state.completed(id, error).1;
        let report = seq![actions[0]];
        let started = starts(done.fill_jobs());
        let last = middle.settle().1;
        lemma_counts_of_one(actions[0]);
        lemma_counts_of_starts(done.fill_jobs());
        lemma_counts_add(report, started);
        lemma_counts_add(report + started, last);
        assert(actions =~= report + started + last);
    }
}

/// Whatever happens, the state of a run is sound.
pub proof fn lemma_always_sound(printer: PrinterView, events: Seq<EventView>)
    ensures
        after(printer, events).wf(),
    decreases events.len(),
{
    if events.len() == 0 {
        lemma_count_zero(SchedulerView::empty().status, Status::InFlight);
    } else {
        lemma_always_sound(printer, events.drop_last());
        lemma_step(after(printer, events.drop_last()), events.last());
    }
}

/// Whatever happens, no more downloads run at once than are allowed.
pub proof fn lemma_never_over_capacity(printer: PrinterView, events: Seq<EventView>)
    ensures
        after(printer, events).scheduler.in_flight() <= MAX_IN_FLIGHT,
{
    lemma_always_sound(printer, events);
}

/// When a run has ended, every discovered item has an outcome: as many
/// items are processed as were discovered.
pub proof fn lemma_finished_run_is_complete(printer: PrinterView, events: Seq<EventView>)
    requires
        after(printer, events).phase == Phase::Finished,
    ensures
        after(printer, events).scheduler.processed() == after(
            printer,
            events,
        ).scheduler.discovered(),
        forall|i: int|
            0 <= i < after(printer, events).scheduler.status.len() ==> (#[trigger] after(
                printer,
                events,
            ).scheduler.status[i]).terminal(),
{
    lemma_always_sound(printer, events);
    let status = after(printer, events).scheduler.status;
    lemma_count_total(status);
    lemma_count_zero(status, Status::Queued);
    lemma_count_zero(status, Status::InFlight);
}

/// An item's outcome is given once: whatever happens next, the item is still
/// there, with the same job, and an outcome it had is the outcome it has.
/// Each step reports exactly the outcomes that it adds.
pub proof fn lemma_outcome_given_once(state: PipelineView, event: EventView, i: int)
    requires
        state.wf(),
        0 <= i < state.scheduler.discovered(),
    ensures
        i < state.step(event).0.scheduler.discovered(),
        state.step(event).0.scheduler.jobs[i] == state.scheduler.jobs[i],
        state.scheduler.status[i].terminal() ==> state.step(event).0.scheduler.status[i]
            == state.scheduler.status[i],
        reports_in(state.step(event).1) == state.step(event).0.scheduler.processed()
            - state.scheduler.processed(),
{
    lemma_step(state, event);
}

/// A search without results ends the run at once: the probe's answer asks
/// for one notice and the end, and nothing is discovered or started.
pub proof fn lemma_no_results_ends_run(printer: PrinterView)
    ensures
        ({
            let probing = PipelineView::initial(printer).step(EventView::Begin).0;
            let (ended, actions) = probing.step(EventView::Probed(0));
            &&& actions == seq![
                ActionView::Notice(no_results_text()),
                ActionView::Finish(None),
            ]
            &&& ended.phase == Phase::Finished
            &&& ended.scheduler == SchedulerView::empty()
            &&& ended.printer == printer
        }),
{
}

/// Once a run has ended, no event changes it or asks for anything.
pub proof fn lemma_finished_is_final(state: PipelineView, event: EventView)
    requires
        state.phase == Phase::Finished,
    ensures
        state.step(event).0 == state,
        state.step(event).1 == Seq::<ActionView>::empty(),
{
}

/// The reports of skipped items are reports, and starts are starts.
pub proof fn lemma_kinds(scheduler: SchedulerView, found: Seq<Found>, total: nat)
    ensures
        forall|k: int|
            0 <= k < skip_reports(scheduler, found, total).len() ==> (#[trigger] skip_reports(
                scheduler,
                found,
                total,
            )[k]) is Report,
    decreases found.len(),
{
    if found.len() > 0 {
        lemma_kinds(scheduler, found.drop_last(), total);
    }
}

/// Where an outcome leaves its item.
pub open spec fn status_after(outcome: OutcomeView) -> Status {
    match outcome {
        OutcomeView::Skipped => Status::Skipped,
        OutcomeView::Succeeded => Status::Succeeded,
        OutcomeView::Failed(_) => Status::Failed,
    }
}

/// The reports on a page's skipped items name items of that page, each
/// later than the one before, and each of them stands as skipped.
pub proof fn lemma_skip_reports(scheduler: SchedulerView, found: Seq<Found>, total: nat)
    requires
        scheduler.wf(),
    ensures
        forall|k: int|
            0 <= k < skip_reports(scheduler, found, total).len() ==> {
                let action = #[trigger] skip_reports(scheduler, found, total)[k];
                &&& action is Report
                &&& action->Report_0.outcome == OutcomeView::Skipped
                &&& scheduler.discovered() <= action->Report_0.id < scheduler.discovered()
                    + found.len()
                &&& take_in(scheduler, found).status[action->Report_0.id as int]
                    == Status::Skipped
            },
        forall|k: int, m: int|
            0 <= k < m < skip_reports(scheduler, found, total).len() ==> (#[trigger] skip_reports(
                scheduler,
                found,
                total,
            )[k])->Report_0.id < (#[trigger] skip_reports(scheduler, found, total)[m])->Report_0.id,
    decreases found.len(),
{
    if found.len() > 0 {
        let earlier = found.drop_last();
        lemma_skip_reports(scheduler, earlier, total);
        lemma_take_in(scheduler, earlier, total);
        let reports = skip_reports(scheduler, found, total);
        let before = skip_reports(scheduler, earlier, total);
        assert forall|k: int| 0 <= k < reports.len() implies {
            let action = #[trigger] reports[k];
            &&& action is Report
            &&& action->Report_0.outcome == OutcomeView::Skipped
            &&& scheduler.discovered() <= action->Report_0.id < scheduler.discovered()
                + found.len()
            &&& take_in(scheduler, found).status[action->Report_0.id as int] == Status::Skipped
        } by {
            if k < before.len() {
                assert(reports[k] == before[k]);
            }
        }
        assert forall|k: int, m: int| 0 <= k < m < reports.len() implies (#[trigger] reports[k])
            ->Report_0.id < (#[trigger] reports[m])->Report_0.id by {
            assert(reports[k] == before[k]);
            if m < before.len() {
                assert(reports[m] == before[m]);
            }
        }
    }
}

/// Every report names an item that gets its outcome in that very step: the
/// item had none before, stands where the report says afterwards, and no
/// other report of the step names it.
pub proof fn lemma_each_report_is_a_new_outcome(state: PipelineView, event: EventView, k: int)
    requires
        state.wf(),
        0 <= k < state.step(event).1.len(),
        state.step(event).1[k] is Report,
    ensures
        ({
            let (next, actions) = state.step(event);
            let report = actions[k]->Report_0;
            &&& report.id < next.scheduler.discovered()
            &&& next.scheduler.status[report.id as int] == status_after(report.outcome)
            &&& report.id < state.scheduler.discovered()
                ==> !state.scheduler.status[report.id as int].terminal()
            &&& forall|m: int|
                0 <= m < actions.len() && m != k && (#[trigger] actions[m]) is Report
                    ==> actions[m]->Report_0.id != report.id
        }),
{
    let (next, actions) = state.step(event);
    match (state.phase, event) {
        (Phase::Paging, EventView::Page(found)) => {
            if found.len() > 0 {
                let taken = take_in(state.scheduler, found);
                lemma_skip_reports(state.scheduler, found, state.total);
                lemma_take_in(state.scheduler, found, state.total);
                lemma_fill(taken);
                let reports = skip_reports(state.scheduler, found, state.total);
                assert(k < reports.len());
                assert(actions[k] == reports[k]);
                assert(taken.status[actions[k]->Report_0.id as int].terminal());
                assert forall|m: int|
                    0 <= m < actions.len() && m != k && (#[trigger] actions[m]) is Report implies actions[m]
                    ->Report_0.id != actions[k]->Report_0.id by {
                    assert(m < reports.len());
                    assert(actions[m] == reports[m]);
                }
            }
        },
        (Phase::Paging, EventView::Completed(id, error)) => {
            lemma_report_of_completed(state, id, error, k);
        },
        (Phase::Draining, EventView::Completed(id, error)) => {
            lemma_report_of_completed(state, id, error, k);
        },
        (Phase::Aborting, EventView::Completed(id, error)) => {
            lemma_report_of_completed(state, id, error, k);
        },
        _ => {},
    }
}

proof fn lemma_report_of_completed(state: PipelineView, id: nat, error: Option<Seq<char>>, k: int)
    requires
        state.wf(),
        state.phase == Phase::Paging || state.phase == Phase::Draining || state.phase
            == Phase::Aborting,
        0 <= k < state.completed(id, error).1.len(),
        state.completed(id, error).1[k] is Report,
    ensures
        ({
            let (next, actions) = state.completed(id, error);
            let report = actions[k]->Report_0;
            &&& k == 0
            &&& report.id == id
            &&& report.id < next.scheduler.discovered()
            &&& next.scheduler.status[report.id as int] == status_after(report.outcome)
            &&& !state.scheduler.status[report.id as int].terminal()
            &&& forall|m: int|
                0 <= m < actions.len() && m != k ==> !((#[trigger] actions[m]) is Report)
        }),
{
    let done = state.scheduler.complete(id as int, error is None);
    lemma_complete(state.scheduler, id as int, error is None);
    lemma_fill(done);
    assert(done.status[id as int].terminal());
}

/// A failed download is that item's matter alone: it is marked as failed,
/// every other item stands where it stood or was started from the queue, the
/// run goes on as before or ends, and no fatal error comes of it.
pub proof fn lemma_failure_is_local(state: PipelineView, id: nat, cause: Seq<char>)
    requires
        state.wf(),
        state.phase == Phase::Paging || state.phase == Phase::Draining,
        state.scheduler.running(id as int),
    ensures
        ({
            let (next, actions) = state.step(EventView::Completed(id, Some(cause)));
            &&& next.scheduler.status.len() == state.scheduler.status.len()
            &&& next.scheduler.status[id as int] == Status::Failed
            &&& forall|i: int|
                0 <= i < state.scheduler.status.len() && i != id ==> (
                #[trigger] next.scheduler.status[i]) == state.scheduler.status[i] || (
                state.scheduler.status[i] == Status::Queued && next.scheduler.status[i]
                    == Status::InFlight)
            &&& next.phase == state.phase || next.phase == Phase::Finished
            &&& forall|k: int|
                0 <= k < actions.len() && (#[trigger] actions[k]) is Finish ==> actions[k]
                    == ActionView::Finish(None)
        }),
{
    let done = state.scheduler.complete(id as int, false);
    lemma_complete(state.scheduler, id as int, false);
    lemma_fill(done);
    let (next, actions) = state.step(EventView::Completed(id, Some(cause)));
    assert forall|i: int| 0 <= i < state.scheduler.status.len() && i != id implies (
    #[trigger] next.scheduler.status[i]) == state.scheduler.status[i] || (
    state.scheduler.status[i] == Status::Queued && next.scheduler.status[i]
        == Status::InFlight) by {
        assert(done.fill().status[i] == done.status[i] || (done.status[i] == Status::Queued
            && done.fill().status[i] == Status::InFlight));
    }
    assert(done.fill().status[id as int] == done.status[id as int]);
}

/// The records are written once and whole: a step that asks for the write
/// ends the run, asks for it just before the end, and hands over all that
/// was gathered.
pub proof fn lemma_records_written_at_the_end(state: PipelineView, event: EventView, k: int)
    requires
        state.wf(),
        0 <= k < state.step(event).1.len(),
        state.step(event).1[k] is Emit,
    ensures
        state.phase != Phase::Finished,
        state.step(event).0.phase == Phase::Finished,
        state.step(event).0.scheduler.idle(),
        k == state.step(event).1.len() - 2,
        state.step(event).1.last() == ActionView::Finish(None),
        Some(state.step(event).1[k]->Emit_0) == spec_emission(state.printer),
{
    lemma_step(state, event);
    match (state.phase, event) {
        (Phase::Paging, EventView::Page(found)) => {
            if found.len() > 0 {
                lemma_kinds(state.scheduler, found, state.total);
            }
        },
        (Phase::Paging, EventView::Completed(id, error)) => {},
        (Phase::Draining, EventView::Completed(id, error)) => {},
        (Phase::Aborting, EventView::Completed(id, error)) => {},
        _ => {},
    }
}

/// One search at a time, and in order: a step asks for a search only as
/// its last action and only in answer to the start or to a search's answer;
/// the probe asks for one post of the first page, and every other search
/// for the page that follows those taken in.
pub proof fn lemma_searches_in_turn(state: PipelineView, event: EventView, k: int)
    requires
        state.wf(),
        0 <= k < state.step(event).1.len(),
        state.step(event).1[k] is Search,
    ensures
        k == state.step(event).1.len() - 1,
        event is Begin || event is Probed || event is Page,
        event is Begin ==> state.step(event).1[k] == ActionView::Search(
            SearchView { limit: 1, page: 0 },
        ),
        !(event is Begin) ==> state.step(event).1[k] == ActionView::Search(
            SearchView { limit: PAGE_SIZE as nat, page: state.step(event).0.next_page },
        ),
{
    match (state.phase, event) {
        (Phase::Paging, EventView::Page(found)) => {
            if found.len() > 0 {
                lemma_kinds(state.scheduler, found, state.total);
            }
        },
        _ => {},
    }
}

/// Some item of `scheduler` has its file under the name `name`.
pub open spec fn holds_file(scheduler: SchedulerView, name: Seq<char>) -> bool {
    exists|i: int| names_file(scheduler, i, name)
}

/// The item `i` of `scheduler` has its file under the name `name`.
pub open spec fn names_file(scheduler: SchedulerView, i: int, name: Seq<char>) -> bool {
    0 <= i < scheduler.jobs.len() && scheduler.jobs[i].file_name == name
}

/// Some download of `scheduler` has stored a file under the name `name`.
pub open spec fn wrote_file(scheduler: SchedulerView, name: Seq<char>) -> bool {
    exists|i: int| stored_file(scheduler, i, name)
}

/// The download of item `i` of `scheduler` has stored a file under the name
/// `name`.
pub open spec fn stored_file(scheduler: SchedulerView, i: int, name: Seq<char>) -> bool {
    &&& 0 <= i < scheduler.jobs.len()
    &&& i < scheduler.status.len()
    &&& scheduler.status[i] == Status::Succeeded
    &&& scheduler.jobs[i].file_name == name
}

/// No download of `scheduler` has failed.
pub open spec fn nothing_failed(scheduler: SchedulerView) -> bool {
    forall|i: int| 0 <= i < scheduler.status.len() ==> scheduler.status[i] != Status::Failed
}

/// Every item that `scheduler` has skipped has its file among `files`.
pub open spec fn skipped_what_was_there(scheduler: SchedulerView, files: Set<Seq<char>>) -> bool {
    forall|i: int|
        0 <= i < scheduler.status.len() && scheduler.status[i] == Status::Skipped
            ==> files.contains(#[trigger] scheduler.jobs[i].file_name)
}

/// Every post of `pages` has its file among `files`.
pub open spec fn all_present(files: Set<Seq<char>>, pages: Seq<Seq<GelbooruPost>>) -> bool {
    forall|k: int, j: int|
        0 <= k < pages.len() && 0 <= j < pages[k].len() ==> #[trigger] files.contains(
            pages[k][j].spec_file_name(),
        )
}

/// Every post of `pages` is stored under the name of an item of `scheduler`.
pub open spec fn all_discovered(scheduler: SchedulerView, pages: Seq<Seq<GelbooruPost>>) -> bool {
    forall|k: int, j: int|
        0 <= k < pages.len() && 0 <= j < pages[k].len() ==> #[trigger] holds_file(
            scheduler,
            pages[k][j].spec_file_name(),
        )
}

/// The files of the output directory at the end of a run: those that were
/// there at its start, and one for each download that succeeded.
pub open spec fn files_after(before: Set<Seq<char>>, scheduler: SchedulerView) -> Set<Seq<char>> {
    Set::new(|name: Seq<char>| before.contains(name) || wrote_file(scheduler, name))
}

/// The posts of a page, each with the answer whether a file of its name is
/// among `files`.
pub open spec fn look_up(files: Set<Seq<char>>, posts: Seq<GelbooruPost>) -> Seq<Found> {
    Seq::new(
        posts.len(),
        |j: int| Found { post: posts[j], present: files.contains(posts[j].spec_file_name()) },
    )
}

/// The events of a run in which the probe counts `count` results, the search
/// answers with `pages` and then with no further post, and the directory
/// holds `files` throughout.
pub open spec fn paging_events(
    count: nat,
    files: Set<Seq<char>>,
    pages: Seq<Seq<GelbooruPost>>,
) -> Seq<EventView> {
    seq![EventView::Begin, EventView::Probed(count)] + Seq::new(
        pages.len(),
        |k: int| EventView::Page(look_up(files, pages[k])),
    ) + seq![EventView::Page(Seq::empty())]
}

/// Every item was skipped.
pub open spec fn all_skipped(scheduler: SchedulerView) -> bool {
    forall|i: int| 0 <= i < scheduler.status.len() ==> scheduler.status[i] == Status::Skipped
}

/// A page whose files are all there adds only skipped items, and leaves
/// nothing to start.
pub proof fn lemma_present_page(scheduler: SchedulerView, found: Seq<Found>)
    requires
        scheduler.wf(),
        all_skipped(scheduler),
        forall|j: int| 0 <= j < found.len() ==> (#[trigger] found[j]).present,
    ensures
        all_skipped(take_in(scheduler, found)),
        take_in(scheduler, found).fill() == take_in(scheduler, found),
        take_in(scheduler, found).fill_jobs() == Seq::<JobView>::empty(),
    decreases found.len(),
{
    if found.len() > 0 {
        let earlier = found.drop_last();
        assert forall|j: int| 0 <= j < earlier.len() implies (#[trigger] earlier[j]).present by {
            assert(found[j].present);
        }
        lemma_present_page(scheduler, earlier);
        assert(found[found.len() - 1].present);
    }
    lemma_count_zero(take_in(scheduler, found).status, Status::Queued);
}

/// After a run that has ended without a failure, the file of every item it
/// discovered is in the directory, if each item it skipped had its file
/// there at the start.
pub proof fn lemma_clean_run_leaves_every_file(
    before: Set<Seq<char>>,
    printer: PrinterView,
    events: Seq<EventView>,
)
    requires
        after(printer, events).phase == Phase::Finished,
        nothing_failed(after(printer, events).scheduler),
        skipped_what_was_there(after(printer, events).scheduler, before),
    ensures
        forall|name: Seq<char>|
            #[trigger] holds_file(after(printer, events).scheduler, name) ==> files_after(
                before,
                after(printer, events).scheduler,
            ).contains(name),
{
    let scheduler = after(printer, events).scheduler;
    lemma_always_sound(printer, events);
    lemma_finished_run_is_complete(printer, events);
    assert forall|name: Seq<char>| #[trigger] holds_file(scheduler, name) implies files_after(
        before,
        scheduler,
    ).contains(name) by {
        let i = choose|i: int| names_file(scheduler, i, name);
        assert(names_file(scheduler, i, name));
        assert(scheduler.status[i].terminal());
        if scheduler.status[i] == Status::Succeeded {
            assert(stored_file(scheduler, i, name));
        } else {
            assert(before.contains(scheduler.jobs[i].file_name));
        }
    }
}

proof fn lemma_rerun_prefix(
    files: Set<Seq<char>>,
    printer: PrinterView,
    count: nat,
    pages: Seq<Seq<GelbooruPost>>,
    n: int,
)
    requires
        0 <= n <= paging_events(count, files, pages).len(),
        all_present(files, pages),
    ensures
        after(printer, paging_events(count, files, pages).take(n)).wf(),
        all_skipped(after(printer, paging_events(count, files, pages).take(n)).scheduler),
        n == 0 ==> after(printer, paging_events(count, files, pages).take(n)).phase
            == Phase::Idle,
        n == 1 ==> after(printer, paging_events(count, files, pages).take(n)).phase
            == Phase::Probing,
        n >= 2 ==> after(printer, paging_events(count, files, pages).take(n)).phase
            == Phase::Paging || after(printer, paging_events(count, files, pages).take(n)).phase
            == Phase::Finished,
        n == paging_events(count, files, pages).len() ==> after(
            printer,
            paging_events(count, files, pages).take(n),
        ).phase == Phase::Finished,
        n > 0 ==> starts_in(
            after(printer, paging_events(count, files, pages).take(n - 1)).step(
                paging_events(count, files, pages)[n - 1],
            ).1,
        ) == 0,
    decreases n,
{
    let events = paging_events(count, files, pages);
    lemma_always_sound(printer, events.take(n));
    if n > 0 {
        lemma_rerun_prefix(files, printer, count, pages, n - 1);
        assert(events.take(n).drop_last() =~= events.take(n - 1));
        assert(events.take(n).last() == events[n - 1]);
        let before = after(printer, events.take(n - 1));
        let event = events[n - 1];
        lemma_step(before, event);
        lemma_count_zero(before.scheduler.status, Status::Queued);
        lemma_count_zero(before.scheduler.status, Status::InFlight);
        if n == 1 {
            assert(event == EventView::Begin);
            lemma_counts_of_one(before.step(event).1[0]);
            assert(before.step(event).1 =~= seq![before.step(event).1[0]]);
        } else if n == 2 {
            assert(event == EventView::Probed(count));
            let actions = before.step(event).1;
            if count == 0 {
                lemma_counts_of_one(actions[0]);
                lemma_counts_of_one(actions[1]);
                lemma_counts_add(seq![actions[0]], seq![actions[1]]);
                assert(actions =~= seq![actions[0]] + seq![actions[1]]);
            } else {
                lemma_counts_of_one(actions[0]);
                assert(actions =~= seq![actions[0]]);
            }
        } else if before.phase == Phase::Paging {
            let found = if n - 3 < pages.len() {
                look_up(files, pages[n - 3])
            } else {
                Seq::<Found>::empty()
            };
            assert(event == EventView::Page(found));
            if found.len() == 0 {
                let draining = PipelineView { phase: Phase::Draining, ..before };
                lemma_settle(draining);
            } else {
                assert forall|j: int| 0 <= j < found.len() implies (#[trigger] found[j]).present by {
                    assert(files.contains(pages[n - 3][j].spec_file_name()));
                }
                lemma_present_page(before.scheduler, found);
                lemma_take_in(before.scheduler, found, before.total);
                let actions = before.step(event).1;
                let reports = skip_reports(before.scheduler, found, before.total);
                let search = seq![actions.last()];
                lemma_counts_of_one(actions.last());
                lemma_counts_add(reports, search);
                assert(starts(Seq::<JobView>::empty()) =~= Seq::<
                    ActionView,
                >::empty());
                assert(actions =~= reports + search);
            }
        } else {
            assert(before.phase == Phase::Finished);
        }
    } else {
        assert(events.take(0) =~= Seq::<EventView>::empty());
    }
}

/// A second run over files that are all there downloads nothing. Where the
/// directory holds a file for every post that the search answers with, the
/// run ends with every item skipped, starts no download at any step, and
/// leaves the set of files as it was.
pub proof fn lemma_rerun_downloads_nothing(
    files: Set<Seq<char>>,
    printer: PrinterView,
    count: nat,
    pages: Seq<Seq<GelbooruPost>>,
)
    requires
        all_present(files, pages),
    ensures
        after(printer, paging_events(count, files, pages)).phase == Phase::Finished,
        all_skipped(after(printer, paging_events(count, files, pages)).scheduler),
        after(printer, paging_events(count, files, pages)).scheduler.succeeded() == 0,
        files_after(files, after(printer, paging_events(count, files, pages)).scheduler)
            == files,
        forall|n: int|
            0 <= n < paging_events(count, files, pages).len() ==> starts_in(
                #[trigger] after(printer, paging_events(count, files, pages).take(n)).step(
                    paging_events(count, files, pages)[n],
                ).1,
            ) == 0,
{
    let events = paging_events(count, files, pages);
    lemma_rerun_prefix(files, printer, count, pages, events.len() as int);
    assert(events.take(events.len() as int) =~= events);
    let scheduler = after(printer, events).scheduler;
    lemma_count_zero(scheduler.status, Status::Succeeded);
    assert forall|name: Seq<char>| !wrote_file(scheduler, name) by {
        if wrote_file(scheduler, name) {
            let i = choose|i: int| stored_file(scheduler, i, name);
            assert(stored_file(scheduler, i, name));
        }
    }
    assert(files_after(files, scheduler) =~= files);
    assert forall|n: int| 0 <= n < events.len() implies starts_in(
        #[trigger] after(printer, events.take(n)).step(events[n]).1,
    ) == 0 by {
        lemma_rerun_prefix(files, printer, count, pages, n + 1);
    }
}

/// Running twice downloads nothing the second time. Take a first run that
/// has ended without a failure and that skipped only items whose files were
/// there. If a second run finds the directory as the first one left it, and
/// the search answers with posts that the first run discovered, then the
/// second run skips every item, starts no download at any step, and leaves
/// the set of files unchanged.
pub proof fn lemma_second_run_skips_everything(
    before: Set<Seq<char>>,
    first_printer: PrinterView,
    first_events: Seq<EventView>,
    printer: PrinterView,
    count: nat,
    pages: Seq<Seq<GelbooruPost>>,
)
    requires
        after(first_printer, first_events).phase == Phase::Finished,
        nothing_failed(after(first_printer, first_events).scheduler),
        skipped_what_was_there(after(first_printer, first_events).scheduler, before),
        all_discovered(after(first_printer, first_events).scheduler, pages),
    ensures
        ({
            let files = files_after(before, after(first_printer, first_events).scheduler);
            let events = paging_events(count, files, pages);
            &&& after(printer, events).phase == Phase::Finished
            &&& all_skipped(after(printer, events).scheduler)
            &&& after(printer, events).scheduler.succeeded() == 0
            &&& files_after(files, after(printer, events).scheduler) == files
            &&& forall|n: int|
                0 <= n < events.len() ==> starts_in(
                    #[trigger] after(printer, events.take(n)).step(events[n]).1,
                ) == 0
        }),
{
    let first = after(first_printer, first_events).scheduler;
    let files = files_after(before, first);
    lemma_clean_run_leaves_every_file(before, first_printer, first_events);
    assert forall|k: int, j: int|
        0 <= k < pages.len() && 0 <= j < pages[k].len() implies #[trigger] files.contains(
        pages[k][j].spec_file_name(),
    ) by {
        assert(holds_file(first, pages[k][j].spec_file_name()));
    }
    lemma_rerun_downloads_nothing(files, printer, count, pages);
}

} // verus!
