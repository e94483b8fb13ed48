//! The run as a whole: a machine that is told what happened outside (a search
//! answered, a download ended) and says what is to be done next.

use crate::post::GelbooruPost;
use crate::printer::{
    spec_emission, spec_insert_post, Emission, EmissionModeView, EmissionView, JsonPrinter,
    PrinterView,
};
use crate::report::{
    no_results_line, no_results_text, outcome_line, outcome_of, report_line, summary_line,
    summary_text, DownloadOutcome, OutcomeView,
};
use crate::scheduler::{
    job_views, lemma_count_zero, lemma_offer, Job, JobView, Scheduler, SchedulerView, Status,
};
use crate::search::{SearchRequest, SearchView, PAGE_SIZE};
use vstd::prelude::*;

verus! {

/// How far the run has come.
#[derive(Clone, Copy, Debug, PartialEq, Eq, Structural)]
pub enum Phase {
    /// Nothing was asked yet.
    Idle,
    /// The total count was asked for.
    Probing,
    /// Pages are fetched one after the other, while downloads run.
    Paging,
    /// All pages are in; downloads still run or wait.
    Draining,
    /// The search failed; the downloads accepted before still run or wait.
    Aborting,
    /// Nothing is left to do.
    Finished,
}

/// A post of a page, and whether a file of its name is already there.
#[derive(Debug, PartialEq, Eq)]
pub struct Found {
    pub post: GelbooruPost,
    pub present: bool,
}

/// What happened outside.
#[derive(Debug, PartialEq, Eq)]
pub enum Event {
    /// The run is to start.
    Begin,
    /// The probe was answered: the search has this many results in all.
    Probed(usize),
    /// A page was answered with these posts; none where the results have ended.
    Page(Vec<Found>),
    /// A search could not be made or read; the text says why.
    SearchFailed(String),
    /// The download with this number has ended, with the error given or with none.
    Completed(usize, Option<String>),
}

/// An [`Event`] over plain text.
pub enum EventView {
    Begin,
    Probed(nat),
    Page(Seq<Found>),
    SearchFailed(Seq<char>),
    Completed(nat, Option<Seq<char>>),
}

/// The text of an error, if there is one.
pub open spec fn error_view(error: Option<String>) -> Option<Seq<char>> {
    match error {
        None => None,
        Some(cause) => Some(cause@),
    }
}

impl View for Event {
    type V = EventView;

    open spec fn view(&self) -> EventView {
        match self {
            Event::Begin => EventView::Begin,
            Event::Probed(count) => EventView::Probed(*count as nat),
            Event::Page(found) => EventView::Page(found@),
            Event::SearchFailed(cause) => EventView::SearchFailed(cause@),
            Event::Completed(id, error) => EventView::Completed(*id as nat, error_view(*error)),
        }
    }
}

/// The word on one item that has got its outcome.
#[derive(Debug, PartialEq, Eq)]
pub struct Report {
    /// The item's place in the order of discovery.
    pub id: usize,
    pub outcome: DownloadOutcome,
    /// The line to print.
    pub line: String,
}

/// A [`Report`] over plain text.
pub struct ReportView {
    pub id: nat,
    pub outcome: OutcomeView,
    pub line: Seq<char>,
}

impl View for Report {
    type V = ReportView;

    open spec fn view(&self) -> ReportView {
        ReportView { id: self.id as nat, outcome: self.outcome@, line: self.line@ }
    }
}

/// The report on the item `id`, stored as `name`, with the count `shown` of
/// `total`.
pub open spec fn report_on(id: nat, name: Seq<char>, outcome: OutcomeView, shown: nat, total: nat) -> ReportView {
    ReportView { id, outcome, line: outcome_line(name, outcome, shown, total) }
}

/// What is to be done outside.
#[derive(Debug, PartialEq, Eq)]
pub enum Action {
    /// Make this query and tell its answer.
    Search(SearchRequest),
    /// Run this download and tell how it ended.
    Start(Job),
    /// Print this report's line: one item has its outcome.
    Report(Report),
    /// Print this line.
    Notice(String),
    /// Print this line: the run's totals.
    Summary(String),
    /// Write the gathered records.
    Emit(Emission),
    /// The run has ended, with the fatal error given or with none.
    Finish(Option<String>),
}

/// An [`Action`] over plain text.
pub enum ActionView {
    Search(SearchView),
    Start(JobView),
    Report(ReportView),
    Notice(Seq<char>),
    Summary(Seq<char>),
    Emit(EmissionView),
    Finish(Option<Seq<char>>),
}

impl View for Action {
    type V = ActionView;

    open spec fn view(&self) -> ActionView {
        match self {
            Action::Search(request) => ActionView::Search(request@),
            Action::Start(job) => ActionView::Start(job@),
            Action::Report(report) => ActionView::Report(report@),
            Action::Notice(line) => ActionView::Notice(line@),
            Action::Summary(line) => ActionView::Summary(line@),
            Action::Emit(emission) => ActionView::Emit(emission@),
            Action::Finish(error) => ActionView::Finish(error_view(*error)),
        }
    }
}

/// The actions of `actions` over plain text.
pub open spec fn action_views(actions: Seq<Action>) -> Seq<ActionView> {
    Seq::new(actions.len(), |i: int| actions[i]@)
}

/// One start for each job.
pub open spec fn starts(jobs: Seq<JobView>) -> Seq<ActionView> {
    Seq::new(jobs.len(), |i: int| ActionView::Start(jobs[i]))
}

/// The scheduler once the posts of a page are taken in, first to last.
pub open spec fn take_in(scheduler: SchedulerView, found: Seq<Found>) -> SchedulerView
    decreases found.len(),
{
    if found.len() == 0 {
        scheduler
    } else {
        take_in(scheduler, found.drop_last()).offer(found.last().post, found.last().present)
    }
}

/// The printer once the posts of a page are recorded, first to last.
pub open spec fn gather(printer: PrinterView, found: Seq<Found>) -> PrinterView
    decreases found.len(),
{
    if found.len() == 0 {
        printer
    } else {
        spec_insert_post(gather(printer, found.drop_last()), found.last().post)
    }
}

/// The reports on the posts of a page whose files are already there. Each
/// shows how many items have their outcome, its own item included.
pub open spec fn skip_reports(scheduler: SchedulerView, found: Seq<Found>, total: nat) -> Seq<
    ActionView,
>
    decreases found.len(),
{
    if found.len() == 0 {
        Seq::empty()
    } else {
        let earlier = skip_reports(scheduler, found.drop_last(), total);
        if found.last().present {
            earlier.push(
                ActionView::Report(
                    report_on(
                        take_in(scheduler, found.drop_last()).discovered(),
                        found.last().post.spec_file_name(),
                        OutcomeView::Skipped,
                        take_in(scheduler, found.drop_last()).processed() + 1,
                        total,
                    ),
                ),
            )
        } else {
            earlier
        }
    }
}

/// The write of the gathered records, where one was asked for.
pub open spec fn emit_actions(printer: PrinterView) -> Seq<ActionView> {
    match spec_emission(printer) {
        None => Seq::empty(),
        Some(emission) => seq![ActionView::Emit(emission)],
    }
}

/// A printer that is switched off.
pub open spec fn printer_off() -> PrinterView {
    PrinterView { mode: EmissionModeView::Off, posts: Map::empty() }
}

/// The state of a run.
pub struct PipelineView {
    pub phase: Phase,
    /// The search's total count, as the probe gave it.
    pub total: nat,
    /// The page that is asked for next.
    pub next_page: nat,
    /// Why the search failed, once it has.
    pub failure: Seq<char>,
    pub scheduler: SchedulerView,
    pub printer: PrinterView,
}

impl PipelineView {
    /// The state of a run that has not begun.
    pub open spec fn initial(printer: PrinterView) -> PipelineView {
        PipelineView {
            phase: Phase::Idle,
            total: 0,
            next_page: 0,
            failure: Seq::empty(),
            scheduler: SchedulerView::empty(),
            printer,
        }
    }

    /// The scheduler is sound; nothing is discovered before pages are
    /// fetched; each fetched page brought an item; and a finished run has
    /// nothing queued or running.
    pub open spec fn wf(self) -> bool {
        &&& self.scheduler.wf()
        &&& self.next_page <= self.scheduler.discovered()
        &&& (self.phase == Phase::Idle || self.phase == Phase::Probing)
            ==> self.scheduler.discovered() == 0
        &&& self.phase == Phase::Finished ==> self.scheduler.idle()
    }

    /// Ends the run if all pages are in, or the search has failed, and
    /// nothing is queued or running. A run whose pages all came in sums up
    /// and writes its records; one whose search failed only gives the error.
    pub open spec fn settle(self) -> (PipelineView, Seq<ActionView>) {
        if self.phase == Phase::Draining && self.scheduler.idle() {
            (
                PipelineView { phase: Phase::Finished, printer: printer_off(), ..self },
                seq![
                    ActionView::Summary(
                        summary_text(
                            self.scheduler.succeeded(),
                            (self.scheduler.processed() - self.scheduler.succeeded()) as nat,
                        ),
                    ),
                ] + emit_actions(self.printer) + seq![ActionView::Finish(None)],
            )
        } else if self.phase == Phase::Aborting && self.scheduler.idle() {
            (
                PipelineView { phase: Phase::Finished, ..self },
                seq![ActionView::Finish(Some(self.failure))],
            )
        } else {
            (self, Seq::empty())
        }
    }

    /// The run begins: the probe is sent, which asks for one post of the
    /// first page.
    pub open spec fn begin(self) -> (PipelineView, Seq<ActionView>) {
        (
            PipelineView { phase: Phase::Probing, ..self },
            seq![ActionView::Search(SearchView { limit: 1, page: 0 })],
        )
    }

    /// The probe's answer. With no result the run ends at once; otherwise
    /// the first page is asked for.
    pub open spec fn probed(self, count: nat) -> (PipelineView, Seq<ActionView>) {
        if count == 0 {
            (
                PipelineView { phase: Phase::Finished, ..self },
                seq![ActionView::Notice(no_results_text()), ActionView::Finish(None)],
            )
        } else {
            (
                PipelineView { phase: Phase::Paging, total: count, ..self },
                seq![ActionView::Search(SearchView { limit: PAGE_SIZE as nat, page: 0 })],
            )
        }
    }

    /// A page's answer. Its posts are recorded and taken in; those whose
    /// files are there are reported as skipped; downloads are started as far
    /// as places are free; the next page is asked for. A page without posts
    /// ends the paging.
    pub open spec fn paged(self, found: Seq<Found>) -> (PipelineView, Seq<ActionView>) {
        if found.len() == 0 {
            PipelineView { phase: Phase::Draining, ..self }.settle()
        } else {
            let taken = take_in(self.scheduler, found);
            (
                PipelineView {
                    next_page: self.next_page + 1,
                    scheduler: taken.fill(),
                    printer: gather(self.printer, found),
                    ..self
                },
                skip_reports(self.scheduler, found, self.total) + starts(taken.fill_jobs())
                    + seq![
                    ActionView::Search(
                        SearchView { limit: PAGE_SIZE as nat, page: self.next_page + 1 },
                    ),
                ],
            )
        }
    }

    /// The end of a download. It is reported with the count of items that
    /// have their outcome, itself included; its place goes to the next
    /// queued item; and the run ends if nothing is left. A number that names
    /// no running download changes nothing.
    pub open spec fn completed(self, id: nat, error: Option<Seq<char>>) -> (
        PipelineView,
        Seq<ActionView>,
    ) {
        if self.scheduler.running(id as int) {
            let done = self.scheduler.complete(id as int, error is None);
            let report = ActionView::Report(
                report_on(
                    id,
                    self.scheduler.jobs[id as int].file_name,
                    outcome_of(error),
                    done.processed(),
                    self.total,
                ),
            );
            let (settled, last) = PipelineView { scheduler: done.fill(), ..self }.settle();
            (settled, seq![report] + starts(done.fill_jobs()) + last)
        } else {
            (self, Seq::empty())
        }
    }

    /// A failed search. No further page is asked for; downloads that were
    /// accepted still run, and the run ends with the error once none is left.
    pub open spec fn search_failed(self, cause: Seq<char>) -> (PipelineView, Seq<ActionView>) {
        PipelineView { phase: Phase::Aborting, failure: cause, ..self }.settle()
    }

    /// The state after `event`, and what is to be done. An event that the
    /// phase does not expect changes nothing and asks for nothing.
    pub open spec fn step(self, event: EventView) -> (PipelineView, Seq<ActionView>) {
        match (self.phase, event) {
            (Phase::Idle, EventView::Begin) => self.begin(),
            (Phase::Probing, EventView::Probed(count)) => self.probed(count),
            (Phase::Probing, EventView::SearchFailed(cause)) => self.search_failed(cause),
            (Phase::Paging, EventView::Page(found)) => self.paged(found),
            (Phase::Paging, EventView::SearchFailed(cause)) => self.search_failed(cause),
            (Phase::Paging, EventView::Completed(id, error)) => self.completed(id, error),
            (Phase::Draining, EventView::Completed(id, error)) => self.completed(id, error),
            (Phase::Aborting, EventView::Completed(id, error)) => self.completed(id, error),
            _ => (self, Seq::empty()),
        }
    }
}

/// Every write among `actions` holds its records in the order of their
/// hashes, each hash once.
pub open spec fn sound(actions: Seq<Action>) -> bool {
    forall|i: int|
        0 <= i < actions.len() ==> (#[trigger] actions[i] matches Action::Emit(emission)
            ==> emission.wf())
}

/// Adds one action.
fn push_action(actions: &mut Vec<Action>, action: Action)
    requires
        sound(old(actions)@),
        action matches Action::Emit(emission) ==> emission.wf(),
    ensures
        sound(final(actions)@),
        action_views(final(actions)@) == action_views(old(actions)@).push(action@),
{
    actions.push(action);
    assert(action_views(actions@) =~= action_views(old(actions)@).push(action@));
}

/// Adds one start for each job.
fn push_starts(actions: &mut Vec<Action>, jobs: &Vec<Job>)
    requires
        sound(old(actions)@),
    ensures
        sound(final(actions)@),
        action_views(final(actions)@) == action_views(old(actions)@) + starts(job_views(jobs@)),
{
    let mut i: usize = 0;
    assert(action_views(actions@) =~= action_views(old(actions)@) + starts(
        job_views(jobs@).take(0),
    ));
    while i < jobs.len()
        invariant
            i <= jobs@.len(),
            sound(actions@),
            action_views(actions@) == action_views(old(actions)@) + starts(
                job_views(jobs@).take(i as int),
            ),
        decreases jobs@.len() - i,
    {
        let ghost before = action_views(actions@);
        push_action(actions, Action::Start(jobs[i].clone()));
        assert(before.push(ActionView::Start(jobs@[i as int]@)) =~= action_views(old(actions)@)
            + starts(job_views(jobs@).take(i + 1)));
        i = i + 1;
    }
    assert(job_views(jobs@).take(jobs@.len() as int) =~= job_views(jobs@));
}

/// The parts of a run.
struct State {
    phase: Phase,
    total: usize,
    next_page: usize,
    failure: String,
    scheduler: Scheduler,
    printer: JsonPrinter,
}

impl View for State {
    type V = PipelineView;

    closed spec fn view(&self) -> PipelineView {
        PipelineView {
            phase: self.phase,
            total: self.total as nat,
            next_page: self.next_page as nat,
            failure: self.failure@,
            scheduler: self.scheduler@,
            printer: self.printer@,
        }
    }
}

impl State {
    /// The state is sound.
    spec fn wf(&self) -> bool {
        self@.wf()
    }

    /// The parts of a run that has not begun.
    fn new(printer: JsonPrinter) -> (state: Self)
        ensures
            state.wf(),
            state@ == PipelineView::initial(printer@),
    {
        let scheduler = Scheduler::new();
        proof {
            lemma_count_zero(scheduler@.status, Status::Queued);
            lemma_count_zero(scheduler@.status, Status::InFlight);
        }
        State {
            phase: Phase::Idle,
            total: 0,
            next_page: 0,
            failure: String::new(),
            scheduler,
            printer,
        }
    }

    /// Records the posts of a page, takes them in and reports those whose
    /// files are there.
    fn take_page(&mut self, found: &Vec<Found>, actions: &mut Vec<Action>)
        requires
            old(self).wf(),
            sound(old(actions)@),
        ensures
            final(self).phase == old(self).phase,
            final(self).total == old(self).total,
            final(self).next_page == old(self).next_page,
            final(self).failure == old(self).failure,
            final(self).scheduler@ == take_in(old(self).scheduler@, found@),
            final(self).scheduler@.discovered() == old(self).scheduler@.discovered() + found@.len(),
            final(self).printer@ == gather(old(self).printer@, found@),
            sound(final(actions)@),
            action_views(final(actions)@) == action_views(old(actions)@) + skip_reports(
                old(self).scheduler@,
                found@,
                old(self).total as nat,
            ),
    {
        let mut i: usize = 0;
        assert(action_views(actions@) =~= action_views(old(actions)@) + skip_reports(
            old(self).scheduler@,
            found@.take(0),
            old(self).total as nat,
        ));
        while i < found.len()
            invariant
                i <= found@.len(),
                self.phase == old(self).phase,
                self.total == old(self).total,
                self.next_page == old(self).next_page,
                self.failure == old(self).failure,
                self.scheduler@ == take_in(old(self).scheduler@, found@.take(i as int)),
                self.scheduler@.discovered() == old(self).scheduler@.discovered() + i,
                self.printer@ == gather(old(self).printer@, found@.take(i as int)),
                sound(actions@),
                action_views(actions@) == action_views(old(actions)@) + skip_reports(
                    old(self).scheduler@,
                    found@.take(i as int),
                    old(self).total as nat,
                ),
            decreases found@.len() - i,
        {
            assert(found@.take(i + 1).drop_last() =~= found@.take(i as int));
            let item = &found[i];
            self.printer.insert_post(&item.post);
            proof {
                use_type_invariant(&self.scheduler);
                self.scheduler.lemma_wf();
                lemma_offer(self.scheduler@, item.post, item.present);
            }
            let id = self.scheduler.offer(&item.post, item.present);
            if item.present {
                let shown = self.scheduler.processed();
                if let Some(job) = self.scheduler.job(id) {
                    assert(job@.file_name == item.post.spec_file_name());
                    let outcome = DownloadOutcome::Skipped;
                    let line = report_line(job.file_name.as_str(), &outcome, shown, self.total);
                    push_action(actions, Action::Report(Report { id, outcome, line }));
                }
            }
            assert(action_views(actions@) =~= action_views(old(actions)@) + skip_reports(
                old(self).scheduler@,
                found@.take(i + 1),
                old(self).total as nat,
            ));
            i = i + 1;
        }
        assert(found@.take(found@.len() as int) =~= found@);
    }

    /// Takes a page's answer in.
    fn on_page(&mut self, found: &Vec<Found>, actions: &mut Vec<Action>)
        requires
            old(self).wf(),
            old(self).phase == Phase::Paging,
            sound(old(actions)@),
        ensures
            final(self).wf(),
            final(self)@ == old(self)@.paged(found@).0,
            sound(final(actions)@),
            action_views(final(actions)@) == action_views(old(actions)@) + old(self)@.paged(
                found@,
            ).1,
    {
        if found.len() == 0 {
            self.phase = Phase::Draining;
            self.settle(actions);
        } else {
            self.take_page(found, actions);
            let jobs = self.scheduler.start_all();
            push_starts(actions, &jobs);
            let discovered = self.scheduler.discovered();
            assert(self.next_page < discovered);
            self.next_page = self.next_page + 1;
            push_action(
                actions,
                Action::Search(SearchRequest { limit: PAGE_SIZE, page: self.next_page }),
            );
            proof {
                use_type_invariant(&self.scheduler);
                self.scheduler.lemma_wf();
                assert(action_views(actions@) =~= action_views(old(actions)@) + old(
                    self,
                )@.paged(found@).1);
            }
        }
    }

    /// Takes the end of a download in.
    fn on_completed(&mut self, id: usize, error: Option<String>, actions: &mut Vec<Action>)
        requires
            old(self).wf(),
            old(self).phase != Phase::Finished,
            sound(old(actions)@),
        ensures
            final(self).wf(),
            final(self)@ == old(self)@.completed(id as nat, error_view(error)).0,
            sound(final(actions)@),
            action_views(final(actions)@) == action_views(old(actions)@) + old(self)@.completed(
                id as nat,
                error_view(error),
            ).1,
    {
        let ok = error.is_none();
        if !self.scheduler.complete(id, ok) {
            assert(action_views(actions@) =~= action_views(old(actions)@) + Seq::<
                ActionView,
            >::empty());
            return ;
        }
        let outcome = match error {
            None => DownloadOutcome::Succeeded,
            Some(cause) => DownloadOutcome::Failed(cause),
        };
        let shown = self.scheduler.processed();
        if let Some(job) = self.scheduler.job(id) {
            let line = report_line(job.file_name.as_str(), &outcome, shown, self.total);
            push_action(actions, Action::Report(Report { id, outcome, line }));
        }
        let jobs = self.scheduler.start_all();
        push_starts(actions, &jobs);
        proof {
            use_type_invariant(&self.scheduler);
            self.scheduler.lemma_wf();
        }
        self.settle(actions);
        proof {
            assert(action_views(actions@) =~= action_views(old(actions)@) + old(
                self,
            )@.completed(id as nat, error_view(error)).1);
        }
    }

    /// Takes `event` in and says what is to be done next.
    fn step(&mut self, event: Event) -> (actions: Vec<Action>)
        requires
            old(self).wf(),
        ensures
            final(self).wf(),
            final(self)@ == old(self)@.step(event@).0,
            action_views(actions@) == old(self)@.step(event@).1,
            sound(actions@),
    {
        let mut actions: Vec<Action> = Vec::new();
        assert(action_views(actions@) =~= Seq::<ActionView>::empty());
        match event {
            Event::Begin => {
                if self.phase == Phase::Idle {
                    self.phase = Phase::Probing;
                    push_action(&mut actions, Action::Search(SearchRequest { limit: 1, page: 0 }));
                }
            },
            Event::Probed(count) => {
                if self.phase == Phase::Probing {
                    if count == 0 {
                        self.phase = Phase::Finished;
                        push_action(&mut actions, Action::Notice(no_results_line()));
                        push_action(&mut actions, Action::Finish(None));
                    } else {
                        self.phase = Phase::Paging;
                        self.total = count;
                        push_action(
                            &mut actions,
                            Action::Search(SearchRequest { limit: PAGE_SIZE, page: 0 }),
                        );
                    }
                }
            },
            Event::Page(found) => {
                if self.phase == Phase::Paging {
                    self.on_page(&found, &mut actions);
                }
            },
            Event::SearchFailed(cause) => {
                if self.phase == Phase::Probing || self.phase == Phase::Paging {
                    self.phase = Phase::Aborting;
                    self.failure = cause;
                    self.settle(&mut actions);
                }
            },
            Event::Completed(id, error) => {
                if self.phase == Phase::Paging || self.phase == Phase::Draining || self.phase
                    == Phase::Aborting {
                    self.on_completed(id, error, &mut actions);
                }
            },
        }
        assert(action_views(actions@) =~= old(self)@.step(event@).1);
        actions
    }

    /// Ends the run if nothing is left to wait for.
    fn settle(&mut self, actions: &mut Vec<Action>)
        requires
            old(self).wf(),
            sound(old(actions)@),
        ensures
            final(self).wf(),
            final(self)@ == old(self)@.settle().0,
            sound(final(actions)@),
            action_views(final(actions)@) == action_views(old(actions)@) + old(self)@.settle().1,
    {
        let idle = self.scheduler.is_idle();
        if idle && self.phase == Phase::Draining {
            let written = self.scheduler.succeeded();
            let processed = self.scheduler.processed();
            push_action(actions, Action::Summary(summary_line(written, processed - written)));
            let mut printer = JsonPrinter::noop();
            std::mem::swap(&mut printer, &mut self.printer);
            match printer.finish() {
                Some(emission) => {
                    push_action(actions, Action::Emit(emission));
                },
                None => {},
            }
            push_action(actions, Action::Finish(None));
            self.phase = Phase::Finished;
            assert(self@ == old(self)@.settle().0);
            assert(action_views(actions@) =~= action_views(old(actions)@) + old(
                self,
            )@.settle().1);
        } else if idle && self.phase == Phase::Aborting {
            push_action(actions, Action::Finish(Some(self.failure.clone())));
            self.phase = Phase::Finished;
            assert(action_views(actions@) =~= action_views(old(actions)@) + old(
                self,
            )@.settle().1);
        } else {
            assert(action_views(actions@) =~= action_views(old(actions)@) + old(
                self,
            )@.settle().1);
        }
    }
}

/// A run of the downloader. It is told each [`Event`] and answers with the
/// [`Action`]s to take, in their order.
pub struct Pipeline {
    state: State,
}

impl View for Pipeline {
    type V = PipelineView;

    closed spec fn view(&self) -> PipelineView {
        self.state@
    }
}

impl Pipeline {
    /// The state of the run is sound.
    #[verifier::type_invariant]
    pub closed spec fn wf(&self) -> bool {
        self.state@.wf()
    }

    /// A well-formed run has a well-formed state.
    pub proof fn lemma_wf(&self)
        requires
            self.wf(),
        ensures
            self@.wf(),
    {
    }

    /// A run that has not begun and will hand its records to `printer`.
    pub fn new(printer: JsonPrinter) -> (run: Self)
        ensures
            run@ == PipelineView::initial(printer@),
            run@.wf(),
    {
        Pipeline { state: State::new(printer) }
    }

    /// How far the run has come.
    pub fn phase(&self) -> (phase: Phase)
        ensures
            phase == self@.phase,
    {
        self.state.phase
    }

    /// The search's total count, as the probe gave it.
    pub fn total(&self) -> (total: usize)
        ensures
            total == self@.total,
    {
        self.state.total
    }

    /// The scheduler of this run's downloads.
    pub fn scheduler(&self) -> (scheduler: &Scheduler)
        ensures
            scheduler@ == self@.scheduler,
    {
        &self.state.scheduler
    }

    /// Takes `event` in and says what is to be done next, in order. An event
    /// that the phase does not expect changes nothing and asks for nothing.
    pub fn step(&mut self, event: Event) -> (actions: Vec<Action>)
        ensures
            final(self)@ == old(self)@.step(event@).0,
            action_views(actions@) == old(self)@.step(event@).1,
            sound(actions@),
            final(self)@.wf(),
    {
        let mut taken = Pipeline::new(JsonPrinter::noop());
        std::mem::swap(self, &mut taken);
        proof {
            use_type_invariant(&taken);
        }
        let Pipeline { mut state } = taken;
        let actions = state.step(event);
        *self = Pipeline { state };
        actions
    }
}

} // verus!
