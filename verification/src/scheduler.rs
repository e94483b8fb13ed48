//! Bounded scheduling of downloads: every discovered item is queued or skipped, and at
//! most a fixed number of downloads run at once.

use crate::post::{names_video, GelbooruPost};
use vstd::prelude::*;

verus! {

/// How many downloads may run at the same time.
pub const MAX_IN_FLIGHT: usize = 24;

/// Where a discovered item stands. The last three are terminal.
#[derive(Clone, Copy, Debug, PartialEq, Eq, Structural)]
pub enum Status {
    /// Accepted, waiting for a free place.
    Queued,
    /// Its download is running.
    InFlight,
    /// Its file was already there; nothing was fetched.
    Skipped,
    /// Its file was fetched and stored.
    Succeeded,
    /// Its download or the write failed.
    Failed,
}

impl Status {
    /// The item has its outcome and will not change again.
    pub open spec fn terminal(self) -> bool {
        self == Status::Skipped || self == Status::Succeeded || self == Status::Failed
    }
}

/// What the download of one item needs to know.
#[derive(Debug, PartialEq, Eq)]
pub struct Job {
    /// The item's place in the order of discovery.
    pub id: usize,
    /// Where the file is fetched from.
    pub url: String,
    /// The name it is stored under, inside the output directory.
    pub file_name: String,
    /// Whether it is fetched as a video.
    pub video: bool,
}

/// A [`Job`] over plain text.
pub struct JobView {
    pub id: nat,
    pub url: Seq<char>,
    pub file_name: Seq<char>,
    pub video: bool,
}

impl View for Job {
    type V = JobView;

    open spec fn view(&self) -> JobView {
        JobView {
            id: self.id as nat,
            url: self.url@,
            file_name: self.file_name@,
            video: self.video,
        }
    }
}

impl Clone for Job {
    fn clone(&self) -> (copy: Self)
        ensures
            copy == *self,
    {
        Job {
            id: self.id,
            url: self.url.clone(),
            file_name: self.file_name.clone(),
            video: self.video,
        }
    }
}

/// The job of the `id`-th discovered item, `post`.
pub open spec fn job_of(id: nat, post: GelbooruPost) -> JobView {
    JobView {
        id,
        url: post.file_url@,
        file_name: post.spec_file_name(),
        video: names_video(post.image@),
    }
}

impl Job {
    /// The job of the `id`-th discovered item.
    pub fn for_post(id: usize, post: &GelbooruPost) -> (job: Job)
        ensures
            job@ == job_of(id as nat, *post),
    {
        Job { id, url: post.file_url.clone(), file_name: post.file_name(), video: post.is_video() }
    }
}

/// The jobs of `jobs` over plain text.
pub open spec fn job_views(jobs: Seq<Job>) -> Seq<JobView> {
    Seq::new(jobs.len(), |i: int| jobs[i]@)
}

/// How many items of `status` stand at `which`.
pub open spec fn count(status: Seq<Status>, which: Status) -> nat
    decreases status.len(),
{
    if status.len() == 0 {
        0
    } else {
        count(status.drop_last(), which) + if status.last() == which {
            1nat
        } else {
            0nat
        }
    }
}

/// `i` is the first queued item of `status`.
pub open spec fn is_next_up(status: Seq<Status>, i: int) -> bool {
    &&& 0 <= i < status.len()
    &&& status[i] == Status::Queued
    &&& forall|j: int| 0 <= j < i ==> status[j] != Status::Queued
}

/// The state of the scheduler: each discovered item's job and where it stands,
/// in the order of discovery.
pub struct SchedulerView {
    pub jobs: Seq<JobView>,
    pub status: Seq<Status>,
}

impl SchedulerView {
    /// The state before anything is discovered.
    pub open spec fn empty() -> SchedulerView {
        SchedulerView { jobs: Seq::empty(), status: Seq::empty() }
    }

    /// Every item has its job, numbered by its place, and no more downloads
    /// run than are allowed.
    pub open spec fn wf(self) -> bool {
        &&& self.jobs.len() == self.status.len()
        &&& forall|i: int| 0 <= i < self.jobs.len() ==> (#[trigger] self.jobs[i]).id == i
        &&& self.in_flight() <= MAX_IN_FLIGHT
    }

    /// How many items were discovered.
    pub open spec fn discovered(self) -> nat {
        self.status.len()
    }

    /// How many downloads are running.
    pub open spec fn in_flight(self) -> nat {
        count(self.status, Status::InFlight)
    }

    /// How many items wait for a free place.
    pub open spec fn queued(self) -> nat {
        count(self.status, Status::Queued)
    }

    /// How many downloaded files were stored.
    pub open spec fn succeeded(self) -> nat {
        count(self.status, Status::Succeeded)
    }

    /// How many items have their outcome.
    pub open spec fn processed(self) -> nat {
        count(self.status, Status::Skipped) + count(self.status, Status::Succeeded) + count(
            self.status,
            Status::Failed,
        )
    }

    /// Nothing is queued and nothing runs.
    pub open spec fn idle(self) -> bool {
        self.queued() == 0 && self.in_flight() == 0
    }

    /// A place is free and an item waits for it.
    pub open spec fn can_start(self) -> bool {
        self.in_flight() < MAX_IN_FLIGHT && self.queued() > 0
    }

    /// The first queued item.
    pub open spec fn next_up(self) -> int {
        choose|i: int| is_next_up(self.status, i)
    }

    /// The state once `post` is discovered: skipped where its file is
    /// present, queued otherwise.
    pub open spec fn offer(self, post: GelbooruPost, present: bool) -> SchedulerView {
        SchedulerView {
            jobs: self.jobs.push(job_of(self.status.len(), post)),
            status: self.status.push(
                if present {
                    Status::Skipped
                } else {
                    Status::Queued
                },
            ),
        }
    }

    /// The state once the first queued item is started.
    pub open spec fn start(self) -> SchedulerView {
        SchedulerView { jobs: self.jobs, status: self.status.update(self.next_up(), Status::InFlight) }
    }

    /// The state once queued items are started, first to last, until no
    /// place is free or nothing is queued.
    pub open spec fn fill(self) -> SchedulerView
        decreases self.queued(),
    {
        if self.can_start() {
            proof {
                lemma_start_counts(self);
            }
            self.start().fill()
        } else {
            self
        }
    }

    /// The jobs that [`Self::fill`] starts, in the order of their start.
    pub open spec fn fill_jobs(self) -> Seq<JobView>
        decreases self.queued(),
    {
        if self.can_start() {
            proof {
                lemma_start_counts(self);
            }
            seq![self.jobs[self.next_up()]] + self.start().fill_jobs()
        } else {
            Seq::empty()
        }
    }

    /// Whether `id` names a running download.
    pub open spec fn running(self, id: int) -> bool {
        0 <= id < self.status.len() && self.status[id] == Status::InFlight
    }

    /// The state once the download `id` has ended, well (`ok`) or not. A
    /// number that names no running download changes nothing.
    pub open spec fn complete(self, id: int, ok: bool) -> SchedulerView {
        if self.running(id) {
            SchedulerView {
                jobs: self.jobs,
                status: self.status.update(
                    id,
                    if ok {
                        Status::Succeeded
                    } else {
                        Status::Failed
                    },
                ),
            }
        } else {
            self
        }
    }
}

/// Counting after one more item.
pub proof fn lemma_count_push(status: Seq<Status>, last: Status, which: Status)
    ensures
        count(status.push(last), which) == count(status, which) + if last == which {
            1nat
        } else {
            0nat
        },
{
    assert(status.push(last).drop_last() =~= status);
}

/// Counting after one item has changed.
pub proof fn lemma_count_update(status: Seq<Status>, i: int, to: Status, which: Status)
    requires
        0 <= i < status.len(),
    ensures
        count(status.update(i, to), which) + (if status[i] == which {
            1nat
        } else {
            0nat
        }) == count(status, which) + if to == which {
            1nat
        } else {
            0nat
        },
    decreases status.len(),
{
    if i == status.len() - 1 {
        assert(status.update(i, to).drop_last() =~= status.drop_last());
    } else {
        lemma_count_update(status.drop_last(), i, to, which);
        assert(status.update(i, to).drop_last() =~= status.drop_last().update(i, to));
    }
}

/// Each item stands at exactly one of the five places.
pub proof fn lemma_count_total(status: Seq<Status>)
    ensures
        count(status, Status::Queued) + count(status, Status::InFlight) + count(
            status,
            Status::Skipped,
        ) + count(status, Status::Succeeded) + count(status, Status::Failed) == status.len(),
    decreases status.len(),
{
    if status.len() > 0 {
        lemma_count_total(status.drop_last());
    }
}

/// A count is zero exactly where no item stands at that place.
pub proof fn lemma_count_zero(status: Seq<Status>, which: Status)
    ensures
        count(status, which) == 0 <==> forall|i: int| 0 <= i < status.len() ==> status[i] != which,
    decreases status.len(),
{
    if status.len() > 0 {
        let t = status.drop_last();
        lemma_count_zero(t, which);
        if count(status, which) == 0 {
            assert forall|i: int| 0 <= i < status.len() implies status[i] != which by {
                if i < t.len() {
                    assert(t[i] == status[i]);
                }
            }
        } else if status.last() != which {
            let i = choose|i: int| 0 <= i < t.len() && t[i] == which;
            assert(status[i] == which);
        }
    }
}

/// Where an item is queued, there is a first one.
pub proof fn lemma_first_queued(status: Seq<Status>)
    requires
        count(status, Status::Queued) > 0,
    ensures
        exists|i: int| is_next_up(status, i),
    decreases status.len(),
{
    let t = status.drop_last();
    if count(t, Status::Queued) > 0 {
        lemma_first_queued(t);
        let i = choose|i: int| is_next_up(t, i);
        assert forall|j: int| 0 <= j < i implies status[j] != Status::Queued by {
            assert(t[j] != Status::Queued);
        }
        assert(t[i] == status[i]);
        assert(is_next_up(status, i));
    } else {
        lemma_count_zero(t, Status::Queued);
        let i = status.len() - 1;
        assert forall|j: int| 0 <= j < i implies status[j] != Status::Queued by {
            assert(t[j] != Status::Queued);
        }
        assert(is_next_up(status, i));
    }
}

/// Starting the first queued item moves one item from the queue to the
/// running downloads and leaves the rest as it was.
pub proof fn lemma_start_counts(view: SchedulerView)
    requires
        view.queued() > 0,
    ensures
        is_next_up(view.status, view.next_up()),
        view.start().queued() == view.queued() - 1,
        view.start().in_flight() == view.in_flight() + 1,
        view.start().processed() == view.processed(),
        view.start().succeeded() == view.succeeded(),
        view.start().discovered() == view.discovered(),
{
    lemma_first_queued(view.status);
    let i = view.next_up();
    lemma_count_update(view.status, i, Status::InFlight, Status::Queued);
    lemma_count_update(view.status, i, Status::InFlight, Status::InFlight);
    lemma_count_update(view.status, i, Status::InFlight, Status::Skipped);
    lemma_count_update(view.status, i, Status::InFlight, Status::Succeeded);
    lemma_count_update(view.status, i, Status::InFlight, Status::Failed);
}

impl SchedulerView {
    /// `later` holds every item of this state, and each that had its
    /// outcome has kept it.
    pub open spec fn extended_by(self, later: SchedulerView) -> bool {
        &&& self.status.len() <= later.status.len()
        &&& self.jobs.len() <= later.jobs.len()
        &&& forall|i: int| 0 <= i < self.jobs.len() ==> later.jobs[i] == self.jobs[i]
        &&& forall|i: int|
            0 <= i < self.status.len() && (#[trigger] self.status[i]).terminal()
                ==> later.status[i] == self.status[i]
    }

    /// `later` holds the same items, and each stands where it stood or was
    /// started from the queue.
    pub open spec fn only_started(self, later: SchedulerView) -> bool {
        &&& self.status.len() == later.status.len()
        &&& forall|i: int|
            0 <= i < self.status.len() ==> (#[trigger] later.status[i]) == self.status[i] || (
            self.status[i] == Status::Queued && later.status[i] == Status::InFlight)
    }
}

/// Taking an item in keeps the state sound and the running downloads as
/// they are; a present file counts as processed at once.
pub proof fn lemma_offer(view: SchedulerView, post: GelbooruPost, present: bool)
    requires
        view.wf(),
    ensures
        view.offer(post, present).wf(),
        view.extended_by(view.offer(post, present)),
        view.offer(post, present).discovered() == view.discovered() + 1,
        view.offer(post, present).in_flight() == view.in_flight(),
        view.offer(post, present).succeeded() == view.succeeded(),
        view.offer(post, present).processed() == view.processed() + if present {
            1nat
        } else {
            0nat
        },
        view.offer(post, present).queued() == view.queued() + if present {
            0nat
        } else {
            1nat
        },
{
    let status = if present {
        Status::Skipped
    } else {
        Status::Queued
    };
    lemma_count_push(view.status, status, Status::Queued);
    lemma_count_push(view.status, status, Status::InFlight);
    lemma_count_push(view.status, status, Status::Skipped);
    lemma_count_push(view.status, status, Status::Succeeded);
    lemma_count_push(view.status, status, Status::Failed);
}

/// Starting the first queued item keeps the state sound.
pub proof fn lemma_start(view: SchedulerView)
    requires
        view.wf(),
        view.can_start(),
    ensures
        view.start().wf(),
        view.extended_by(view.start()),
{
    lemma_start_counts(view);
}

/// The end of a download keeps the state sound, frees one place and adds
/// one outcome.
pub proof fn lemma_complete(view: SchedulerView, id: int, ok: bool)
    requires
        view.wf(),
    ensures
        view.complete(id, ok).wf(),
        view.extended_by(view.complete(id, ok)),
        view.complete(id, ok).discovered() == view.discovered(),
        view.complete(id, ok).queued() == view.queued(),
        view.running(id) ==> view.complete(id, ok).in_flight() == view.in_flight() - 1,
        view.running(id) ==> view.complete(id, ok).processed() == view.processed() + 1,
        view.running(id) ==> view.complete(id, ok).succeeded() == view.succeeded() + if ok {
            1nat
        } else {
            0nat
        },
{
    if view.running(id) {
        let to = if ok {
            Status::Succeeded
        } else {
            Status::Failed
        };
        lemma_count_update(view.status, id, to, Status::Queued);
        lemma_count_update(view.status, id, to, Status::InFlight);
        lemma_count_update(view.status, id, to, Status::Skipped);
        lemma_count_update(view.status, id, to, Status::Succeeded);
        lemma_count_update(view.status, id, to, Status::Failed);
    }
}

/// Filling the free places keeps the state sound and the outcomes as they
/// are, starts one download for each job it names, and leaves no free place
/// beside a queued item.
pub proof fn lemma_fill(view: SchedulerView)
    requires
        view.wf(),
    ensures
        view.fill().wf(),
        view.extended_by(view.fill()),
        !view.fill().can_start(),
        view.fill().discovered() == view.discovered(),
        view.fill().processed() == view.processed(),
        view.fill().succeeded() == view.succeeded(),
        view.fill().in_flight() == view.in_flight() + view.fill_jobs().len(),
        view.fill().queued() + view.fill_jobs().len() == view.queued(),
        view.only_started(view.fill()),
    decreases view.queued(),
{
    if view.can_start() {
        lemma_start_counts(view);
        lemma_start(view);
        lemma_fill(view.start());
        assert forall|i: int| 0 <= i < view.status.len() implies (#[trigger] view.fill().status[i])
            == view.status[i] || (view.status[i] == Status::Queued && view.fill().status[i]
            == Status::InFlight) by {
            assert(view.fill().status[i] == view.start().status[i] || (view.start().status[i]
                == Status::Queued && view.fill().status[i] == Status::InFlight));
        }
    }
}

/// The first queued item is the only one that nothing queued precedes.
pub proof fn lemma_next_up(view: SchedulerView, i: int)
    requires
        is_next_up(view.status, i),
    ensures
        view.next_up() == i,
        view.queued() > 0,
{
    let j = view.next_up();
    assert(is_next_up(view.status, j));
    if j < i {
        assert(view.status[j] != Status::Queued);
    }
    if i < j {
        assert(view.status[i] != Status::Queued);
    }
    lemma_count_zero(view.status, Status::Queued);
}

/// The bounded download scheduler. Items enter in the order of discovery;
/// those whose file is missing are started in that order, never more than
/// [`MAX_IN_FLIGHT`] at a time.
pub struct Scheduler {
    jobs: Vec<Job>,
    status: Vec<Status>,
    /// No item before this place is queued.
    cursor: usize,
    in_flight: usize,
    processed: usize,
    succeeded: usize,
}

impl View for Scheduler {
    type V = SchedulerView;

    closed spec fn view(&self) -> SchedulerView {
        SchedulerView { jobs: job_views(self.jobs@), status: self.status@ }
    }
}

impl Scheduler {
    /// The counters agree with the items, and the state is sound.
    #[verifier::type_invariant]
    pub closed spec fn wf(&self) -> bool {
        &&& self@.wf()
        &&& self.jobs@.len() == self.status@.len()
        &&& self.cursor <= self.status@.len()
        &&& forall|j: int| 0 <= j < self.cursor ==> self.status@[j] != Status::Queued
        &&& self.in_flight == self@.in_flight()
        &&& self.processed == self@.processed()
        &&& self.succeeded == self@.succeeded()
    }

    /// A well-formed scheduler has a well-formed state.
    pub proof fn lemma_wf(&self)
        requires
            self.wf(),
        ensures
            self@.wf(),
    {
    }

    /// A scheduler that knows of no item.
    pub fn new() -> (scheduler: Self)
        ensures
            scheduler@ == SchedulerView::empty(),
    {
        let scheduler = Scheduler {
            jobs: Vec::new(),
            status: Vec::new(),
            cursor: 0,
            in_flight: 0,
            processed: 0,
            succeeded: 0,
        };
        assert(scheduler@.jobs =~= Seq::<JobView>::empty());
        scheduler
    }

    /// How many items were discovered.
    pub fn discovered(&self) -> (n: usize)
        ensures
            n == self@.discovered(),
    {
        self.status.len()
    }

    /// How many downloads are running.
    pub fn in_flight(&self) -> (n: usize)
        ensures
            n == self@.in_flight(),
            n <= MAX_IN_FLIGHT,
    {
        proof {
            use_type_invariant(self);
        }
        self.in_flight
    }

    /// How many items have their outcome.
    pub fn processed(&self) -> (n: usize)
        ensures
            n == self@.processed(),
    {
        proof {
            use_type_invariant(self);
        }
        self.processed
    }

    /// How many downloaded files were stored.
    pub fn succeeded(&self) -> (n: usize)
        ensures
            n == self@.succeeded(),
            n <= self@.processed(),
    {
        proof {
            use_type_invariant(self);
        }
        self.succeeded
    }

    /// Whether nothing is queued and nothing runs.
    pub fn is_idle(&self) -> (idle: bool)
        ensures
            idle == self@.idle(),
    {
        proof {
            use_type_invariant(self);
            lemma_count_total(self.status@);
        }
        self.processed == self.status.len()
    }

    /// Where the item `id` stands, if there is such an item.
    pub fn status_of(&self, id: usize) -> (status: Option<Status>)
        ensures
            status == if id < self@.status.len() {
                Some(self@.status[id as int])
            } else {
                None
            },
    {
        if id < self.status.len() {
            Some(self.status[id])
        } else {
            None
        }
    }

    /// The job of the item `id`, if there is such an item.
    pub fn job(&self, id: usize) -> (job: Option<&Job>)
        ensures
            match job {
                Some(job) => id < self@.jobs.len() && job@ == self@.jobs[id as int],
                None => id >= self@.jobs.len(),
            },
    {
        if id < self.jobs.len() {
            Some(&self.jobs[id])
        } else {
            None
        }
    }

    /// Takes in a discovered item. Where its file is already present it is
    /// skipped at once, otherwise it is queued. Gives the item's number.
    pub fn offer(&mut self, post: &GelbooruPost, present: bool) -> (id: usize)
        ensures
            final(self)@ == old(self)@.offer(*post, present),
            id == old(self)@.discovered(),
    {
        let mut taken = Scheduler::new();
        std::mem::swap(self, &mut taken);
        proof {
            use_type_invariant(&taken);
        }
        let Scheduler { mut jobs, mut status, cursor, in_flight, mut processed, succeeded } = taken;
        let ghost before = status@;
        let ghost jobs_before = job_views(jobs@);
        let id = status.len();
        let job = Job::for_post(id, post);
        let place = if present {
            Status::Skipped
        } else {
            Status::Queued
        };
        proof {
            lemma_count_push(before, place, Status::Queued);
            lemma_count_push(before, place, Status::InFlight);
            lemma_count_push(before, place, Status::Skipped);
            lemma_count_push(before, place, Status::Succeeded);
            lemma_count_push(before, place, Status::Failed);
            lemma_count_total(before.push(place));
            lemma_count_total(before);
        }
        jobs.push(job);
        status.push(place);
        let ghost len = status.len();
        if present {
            assert(processed < len);
            processed = processed + 1;
        }
        assert(job_views(jobs@) =~= jobs_before.push(job_of(id as nat, *post)));
        *self = Scheduler { jobs, status, cursor, in_flight, processed, succeeded };
        id
    }

    /// Starts the first queued item if a place is free. Gives its job, or
    /// `None` where no place is free or nothing is queued.
    pub fn start_next(&mut self) -> (started: Option<Job>)
        ensures
            match started {
                Some(job) => {
                    &&& old(self)@.can_start()
                    &&& final(self)@ == old(self)@.start()
                    &&& job@ == old(self)@.jobs[old(self)@.next_up()]
                },
                None => !old(self)@.can_start() && final(self)@ == old(self)@,
            },
    {
        proof {
            use_type_invariant(&*self);
        }
        if self.in_flight >= MAX_IN_FLIGHT {
            return None;
        }
        let mut taken = Scheduler::new();
        std::mem::swap(self, &mut taken);
        let Scheduler { jobs, mut status, mut cursor, mut in_flight, processed, succeeded } = taken;
        let ghost before = status@;
        while cursor < status.len() && status[cursor] != Status::Queued
            invariant
                status@ == before,
                cursor <= status@.len(),
                forall|j: int| 0 <= j < cursor ==> status@[j] != Status::Queued,
            decreases status@.len() - cursor,
        {
            cursor = cursor + 1;
        }
        let started = if cursor >= status.len() {
            proof {
                lemma_count_zero(before, Status::Queued);
            }
            None
        } else {
            let i = cursor;
            proof {
                lemma_next_up(old(self)@, i as int);
                lemma_count_update(before, i as int, Status::InFlight, Status::Queued);
                lemma_count_update(before, i as int, Status::InFlight, Status::InFlight);
                lemma_count_update(before, i as int, Status::InFlight, Status::Skipped);
                lemma_count_update(before, i as int, Status::InFlight, Status::Succeeded);
                lemma_count_update(before, i as int, Status::InFlight, Status::Failed);
            }
            status.set(i, Status::InFlight);
            in_flight = in_flight + 1;
            cursor = i + 1;
            Some(jobs[i].clone())
        };
        *self = Scheduler { jobs, status, cursor, in_flight, processed, succeeded };
        started
    }

    /// Starts queued items, first to last, until no place is free or
    /// nothing is queued. Gives their jobs in the order of their start.
    pub fn start_all(&mut self) -> (started: Vec<Job>)
        ensures
            final(self)@ == old(self)@.fill(),
            job_views(started@) == old(self)@.fill_jobs(),
            final(self)@.discovered() == old(self)@.discovered(),
            final(self)@.processed() == old(self)@.processed(),
            final(self)@.succeeded() == old(self)@.succeeded(),
    {
        let mut started: Vec<Job> = Vec::new();
        let mut more = true;
        proof {
            use_type_invariant(&*self);
        }
        assert(job_views(started@) =~= Seq::<JobView>::empty());
        while more
            invariant
                more ==> self@.fill() == old(self)@.fill(),
                more ==> job_views(started@) + self@.fill_jobs() == old(self)@.fill_jobs(),
                !more ==> self@ == old(self)@.fill(),
                !more ==> job_views(started@) == old(self)@.fill_jobs(),
                self@.in_flight() <= MAX_IN_FLIGHT,
                self@.discovered() == old(self)@.discovered(),
                self@.processed() == old(self)@.processed(),
                self@.succeeded() == old(self)@.succeeded(),
            decreases MAX_IN_FLIGHT - self@.in_flight() + if more {
                1nat
            } else {
                0nat
            },
        {
            let ghost before = self@;
            let ghost jobs_before = job_views(started@);
            match self.start_next() {
                Some(job) => {
                    proof {
                        lemma_start_counts(before);
                        use_type_invariant(&*self);
                    }
                    started.push(job);
                    assert(job_views(started@) =~= jobs_before + seq![before.jobs[before.next_up()]]);
                    assert(jobs_before + (seq![before.jobs[before.next_up()]] + self@.fill_jobs())
                        =~= job_views(started@) + self@.fill_jobs());
                },
                None => {
                    more = false;
                    assert(jobs_before + Seq::<JobView>::empty() =~= jobs_before);
                },
            }
        }
        started
    }

    /// Takes note that the download `id` has ended, well (`ok`) or not, and
    /// frees its place. Says whether `id` named a running download; if not,
    /// nothing changes.
    pub fn complete(&mut self, id: usize, ok: bool) -> (known: bool)
        ensures
            final(self)@ == old(self)@.complete(id as int, ok),
            known == old(self)@.running(id as int),
    {
        proof {
            use_type_invariant(&*self);
        }
        if id >= self.status.len() || self.status[id] != Status::InFlight {
            return false;
        }
        let mut taken = Scheduler::new();
        std::mem::swap(self, &mut taken);
        let Scheduler { jobs, mut status, cursor, mut in_flight, mut processed, mut succeeded } =
            taken;
        let ghost before = status@;
        let to = if ok {
            Status::Succeeded
        } else {
            Status::Failed
        };
        proof {
            lemma_count_update(before, id as int, to, Status::Queued);
            lemma_count_update(before, id as int, to, Status::InFlight);
            lemma_count_update(before, id as int, to, Status::Skipped);
            lemma_count_update(before, id as int, to, Status::Succeeded);
            lemma_count_update(before, id as int, to, Status::Failed);
            lemma_count_total(before.update(id as int, to));
        }
        status.set(id, to);
        in_flight = in_flight - 1;
        processed = processed + 1;
        if ok {
            succeeded = succeeded + 1;
        }
        *self = Scheduler { jobs, status, cursor, in_flight, processed, succeeded };
        true
    }
}

} // verus!
