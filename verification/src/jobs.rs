//! The download queue: one record per job, ordered by id, and the
//! operations the frontend performs on it.
use vstd::prelude::*;

use crate::text::{lemma_trimmed_idempotent, trim, trimmed};

verus! {

/// Where a download stands.
#[derive(Clone, Copy, Debug, PartialEq, Eq, Structural)]
pub enum JobStatus {
    Queued,
    Resolving,
    Downloading,
    Finished,
    Error,
    Cancelled,
}

/// What the frontend is told about a job.
#[derive(Debug)]
pub struct JobInfo {
    pub id: u32,
    pub url: String,
    pub title: Option<String>,
    pub status: JobStatus,
    pub filepath: Option<String>,
    pub error: Option<String>,
}

// ---------------------------------------------------------------------------
// Specifications over job tables
// ---------------------------------------------------------------------------

/// A job in this state is over: it finished, failed or was cancelled.
pub open spec fn is_terminal(s: JobStatus) -> bool {
    s == JobStatus::Finished || s == JobStatus::Error || s == JobStatus::Cancelled
}

/// Ids grow strictly along the table, so no id occurs twice.
pub open spec fn ids_increasing(t: Seq<JobInfo>) -> bool {
    forall|i: int, j: int| 0 <= i < j < t.len() ==> #[trigger] t[i].id < #[trigger] t[j].id
}

/// A job's URL as it is kept: trimmed, and not empty.
pub open spec fn url_ok(url: Seq<char>) -> bool {
    url.len() > 0 && trimmed(url) == url
}

/// Some job of `before` has the id and URL of `j`.
pub open spec fn came_from(before: Seq<JobInfo>, j: JobInfo) -> bool {
    exists|m: int| 0 <= m < before.len() && #[trigger] before[m].id == j.id && before[m].url == j.url
}

/// Every job of `after` has the id and URL of a job of `before`.
pub open spec fn keeps_urls(before: Seq<JobInfo>, after: Seq<JobInfo>) -> bool {
    forall|k: int| 0 <= k < after.len() ==> came_from(before, #[trigger] after[k])
}

/// What every reachable queue satisfies, with `last` the last id handed
/// out: ids grow strictly along the table, none is above `last`, and every
/// URL is trimmed and not empty.
pub open spec fn queue_valid(t: Seq<JobInfo>, last: u32) -> bool {
    &&& ids_increasing(t)
    &&& forall|i: int| 0 <= i < t.len() ==> #[trigger] t[i].id <= last
    &&& forall|i: int| 0 <= i < t.len() ==> url_ok(#[trigger] t[i].url@)
}

/// The table holds a job with this id.
pub open spec fn has_job(t: Seq<JobInfo>, id: u32) -> bool {
    exists|i: int| 0 <= i < t.len() && #[trigger] t[i].id == id
}

/// The job with this id, changed by `g`; every other job as it was.
pub open spec fn update_job(t: Seq<JobInfo>, id: u32, g: spec_fn(JobInfo) -> JobInfo) -> Seq<
    JobInfo,
> {
    t.map_values(|j: JobInfo| if j.id == id { g(j) } else { j })
}

/// A job with another status.
pub open spec fn set_status(j: JobInfo, s: JobStatus) -> JobInfo {
    JobInfo {
        id: j.id,
        url: j.url,
        title: j.title,
        status: s,
        filepath: j.filepath,
        error: j.error,
    }
}

/// The table after the job `id` is cancelled.
pub open spec fn cancelled(t: Seq<JobInfo>, id: u32) -> Seq<JobInfo> {
    update_job(t, id, |j: JobInfo| set_status(j, JobStatus::Cancelled))
}

/// The jobs that are not over, in their order.
pub open spec fn active_jobs(t: Seq<JobInfo>) -> Seq<JobInfo> {
    t.filter(|j: JobInfo| !is_terminal(j.status))
}

/// The job `id` is in the table and was cancelled.
pub open spec fn is_cancelled_in(t: Seq<JobInfo>, id: u32) -> bool {
    exists|i: int| 0 <= i < t.len() && #[trigger] t[i].id == id && t[i].status == JobStatus::Cancelled
}

/// A fresh job: queued, with nothing learnt about it yet.
pub open spec fn is_new_job(j: JobInfo, id: u32, url: Seq<char>) -> bool {
    &&& j.id == id
    &&& j.url@ == url
    &&& j.title is None
    &&& j.status == JobStatus::Queued
    &&& j.filepath is None
    &&& j.error is None
}

/// A job with its title and file path replaced by those that are known.
pub open spec fn with_output(j: JobInfo, title: Option<String>, filepath: Option<String>) -> JobInfo {
    JobInfo {
        id: j.id,
        url: j.url,
        title: if title is Some { title } else { j.title },
        status: j.status,
        filepath: if filepath is Some { filepath } else { j.filepath },
        error: j.error,
    }
}

/// The table after the title and file path announced for job `id` are recorded.
pub open spec fn recorded(
    t: Seq<JobInfo>,
    id: u32,
    title: Option<String>,
    filepath: Option<String>,
) -> Seq<JobInfo> {
    update_job(t, id, |j: JobInfo| with_output(j, title, filepath))
}

/// The table after job `id` failed with `message`.
pub open spec fn failed(t: Seq<JobInfo>, id: u32, message: String) -> Seq<JobInfo> {
    update_job(t, id, |j: JobInfo| with_failure(j, message))
}

/// A job that failed before its download could start.
pub open spec fn with_failure(j: JobInfo, message: String) -> JobInfo {
    JobInfo {
        id: j.id,
        url: j.url,
        title: j.title,
        status: JobStatus::Error,
        filepath: j.filepath,
        error: Some(message),
    }
}

/// How a run ends: a cancellation wins, then the exit status decides.
pub open spec fn final_status(was_cancelled: bool, exit_ok: bool) -> JobStatus {
    if was_cancelled {
        JobStatus::Cancelled
    } else if exit_ok {
        JobStatus::Finished
    } else {
        JobStatus::Error
    }
}

/// A job at the end of its run: the final status, what was learnt of its
/// title and file, and the error text if it failed and had none yet.
pub open spec fn finish_info(
    j: JobInfo,
    status: JobStatus,
    title: Option<String>,
    filepath: Option<String>,
    error_msg: Option<String>,
) -> JobInfo {
    JobInfo {
        id: j.id,
        url: j.url,
        title: if title is Some { title } else { j.title },
        status: status,
        filepath: if filepath is Some { filepath } else { j.filepath },
        error: if status == JobStatus::Error && j.error is None { error_msg } else { j.error },
    }
}

/// The table at the end of the run of job `id`.
pub open spec fn finished(
    t: Seq<JobInfo>,
    id: u32,
    exit_ok: bool,
    title: Option<String>,
    filepath: Option<String>,
    error_msg: Option<String>,
) -> Seq<JobInfo> {
    let status = final_status(is_cancelled_in(t, id), exit_ok);
    update_job(t, id, |j: JobInfo| finish_info(j, status, title, filepath, error_msg))
}

/// The message reported with the end of a run: the error text, unless the
/// run succeeded or was cancelled.
pub open spec fn final_message(
    t: Seq<JobInfo>,
    id: u32,
    exit_ok: bool,
    error_msg: Option<String>,
) -> Option<String> {
    if exit_ok || is_cancelled_in(t, id) {
        None
    } else {
        error_msg
    }
}

// ---------------------------------------------------------------------------
// Lemmas on tables
// ---------------------------------------------------------------------------

/// In a table ordered by id, changing the job at `i` is changing the job with its id.
pub proof fn lemma_update_at(t: Seq<JobInfo>, i: int, g: spec_fn(JobInfo) -> JobInfo)
    requires
        ids_increasing(t),
        0 <= i < t.len(),
    ensures
        update_job(t, t[i].id, g) == t.update(i, g(t[i])),
{
    assert forall|k: int| 0 <= k < t.len() && k != i implies t[k].id != t[i].id by {
        if k < i {
            assert(t[k].id < t[i].id);
        } else {
            assert(t[i].id < t[k].id);
        }
    }
    assert(update_job(t, t[i].id, g) =~= t.update(i, g(t[i])));
}

/// Changing a job that is not there changes nothing.
pub proof fn lemma_update_absent(t: Seq<JobInfo>, id: u32, g: spec_fn(JobInfo) -> JobInfo)
    requires
        !has_job(t, id),
    ensures
        update_job(t, id, g) == t,
{
    assert forall|k: int| 0 <= k < t.len() implies t[k].id != id by {
        if t[k].id == id {
            assert(has_job(t, id));
        }
    }
    assert(update_job(t, id, g) =~= t);
}

/// A change that keeps ids keeps the order of the table.
pub proof fn lemma_update_keeps_order(t: Seq<JobInfo>, id: u32, g: spec_fn(JobInfo) -> JobInfo)
    requires
        ids_increasing(t),
        forall|j: JobInfo| #[trigger] g(j).id == j.id,
    ensures
        ids_increasing(update_job(t, id, g)),
        update_job(t, id, g).len() == t.len(),
        forall|k: int| 0 <= k < t.len() ==> #[trigger] update_job(t, id, g)[k].id == t[k].id,
{
    let u = update_job(t, id, g);
    assert forall|k: int| 0 <= k < t.len() implies #[trigger] u[k].id == t[k].id by {
        assert(g(t[k]).id == t[k].id);
    }
    assert forall|i: int, j: int| 0 <= i < j < u.len() implies #[trigger] u[i].id
        < #[trigger] u[j].id by {
        assert(u[i].id == t[i].id);
        assert(u[j].id == t[j].id);
        assert(t[i].id < t[j].id);
    }
}

/// In a table ordered by id, the first job with a given id is the only one.
proof fn lemma_cancelled_at(t: Seq<JobInfo>, i: int)
    requires
        ids_increasing(t),
        0 <= i < t.len(),
    ensures
        is_cancelled_in(t, t[i].id) <==> t[i].status == JobStatus::Cancelled,
{
    if is_cancelled_in(t, t[i].id) {
        let k = choose|k: int|
            0 <= k < t.len() && #[trigger] t[k].id == t[i].id && t[k].status
                == JobStatus::Cancelled;
        if k < i {
            assert(t[k].id < t[i].id);
        } else if i < k {
            assert(t[i].id < t[k].id);
        }
    }
}

// ---------------------------------------------------------------------------
// Job records
// ---------------------------------------------------------------------------

fn copy_text(s: &Option<String>) -> (res: Option<String>)
    ensures
        res == *s,
{
    match s {
        Some(v) => Some(v.clone()),
        None => None,
    }
}

impl JobInfo {
    /// An equal copy of this record.
    pub fn snapshot(&self) -> (res: JobInfo)
        ensures
            res == *self,
    {
        JobInfo {
            id: self.id,
            url: self.url.clone(),
            title: copy_text(&self.title),
            status: self.status,
            filepath: copy_text(&self.filepath),
            error: copy_text(&self.error),
        }
    }
}

/// Whether a job in this state is over.
pub fn is_terminal_status(s: JobStatus) -> (res: bool)
    ensures
        res == is_terminal(s),
{
    match s {
        JobStatus::Finished | JobStatus::Error | JobStatus::Cancelled => true,
        _ => false,
    }
}

// ---------------------------------------------------------------------------
// The job table
// ---------------------------------------------------------------------------

/// The shared download queue: the jobs in order of their ids, and the last
/// id handed out.
pub struct JobManager {
    jobs: Vec<JobInfo>,
    next_id: u32,
}

impl JobManager {
    #[verifier::type_invariant]
    spec fn well_formed(self) -> bool {
        &&& ids_increasing(self.jobs@)
        &&& forall|i: int| 0 <= i < self.jobs@.len() ==> #[trigger] self.jobs@[i].id <= self.next_id
        &&& forall|i: int| 0 <= i < self.jobs@.len() ==> url_ok(#[trigger] self.jobs@[i].url@)
    }

    /// The jobs, in order of their ids.
    pub closed spec fn entries(self) -> Seq<JobInfo> {
        self.jobs@
    }

    /// The last id handed out (0 before the first job).
    pub closed spec fn last_id(self) -> u32 {
        self.next_id
    }

    /// An empty queue.
    pub fn new() -> (res: JobManager)
        ensures
            res.entries() == Seq::<JobInfo>::empty(),
            res.last_id() == 0,
    {
        JobManager { jobs: Vec::new(), next_id: 0 }
    }

    /// The last id handed out (0 before the first job).
    pub fn issued(&self) -> (res: u32)
        ensures
            res == self.last_id(),
    {
        self.next_id
    }

    /// The URL of the job with this id, if there is one.
    pub fn job_url(&self, id: u32) -> (res: Option<String>)
        ensures
            has_job(self.entries(), id) ==> (res matches Some(u) && exists|i: int|
                0 <= i < self.entries().len() && #[trigger] self.entries()[i].id == id
                    && self.entries()[i].url == u),
            !has_job(self.entries(), id) ==> res is None,
    {
        match self.position(id) {
            Some(i) => Some(self.jobs[i].url.clone()),
            None => None,
        }
    }

    /// Hands out the next id.
    fn alloc_id(&mut self) -> (id: u32)
        requires
            old(self).last_id() < u32::MAX,
        ensures
            id == old(self).last_id() + 1,
            final(self).last_id() == id,
            final(self).entries() == old(self).entries(),
    {
        proof {
            use_type_invariant(&*self);
        }
        self.next_id = self.next_id + 1;
        self.next_id
    }

    /// Adds a job whose id is the last one handed out.
    fn insert(&mut self, info: JobInfo)
        requires
            info.id == old(self).last_id(),
            url_ok(info.url@),
            forall|i: int| 0 <= i < old(self).entries().len() ==> #[trigger] old(self).entries()[i].id < info.id,
        ensures
            final(self).entries() == old(self).entries().push(info),
            final(self).last_id() == old(self).last_id(),
    {
        proof {
            use_type_invariant(&*self);
        }
        let mut jobs: Vec<JobInfo> = Vec::new();
        std::mem::swap(&mut jobs, &mut self.jobs);
        jobs.push(info);
        assert(ids_increasing(jobs@)) by {
            assert forall|i: int, j: int| 0 <= i < j < jobs@.len() implies #[trigger] jobs@[i].id
                < #[trigger] jobs@[j].id by {
                if j == jobs@.len() - 1 {
                    assert(jobs@[i] == old(self).entries()[i]);
                } else {
                    assert(jobs@[i] == old(self).entries()[i]);
                    assert(jobs@[j] == old(self).entries()[j]);
                }
            }
        }
        assert forall|k: int| 0 <= k < jobs@.len() implies url_ok(#[trigger] jobs@[k].url@) by {
            if k < jobs@.len() - 1 {
                assert(jobs@[k] == old(self).entries()[k]);
                assert(url_ok(old(self).entries()[k].url@));
            } else {
                assert(jobs@[k] == info);
            }
        }
        self.jobs = jobs;
    }

    /// The position of the job with this id.
    fn position(&self, id: u32) -> (res: Option<usize>)
        ensures
            res matches Some(i) ==> i < self.entries().len() && self.entries()[i as int].id == id,
            res is None ==> !has_job(self.entries(), id),
    {
        let mut i: usize = 0;
        while i < self.jobs.len()
            invariant
                i <= self.jobs@.len(),
                forall|k: int| 0 <= k < i ==> #[trigger] self.jobs@[k].id != id,
            decreases self.jobs@.len() - i,
        {
            if self.jobs[i].id == id {
                return Some(i);
            }
            i = i + 1;
        }
        None
    }

    /// Puts back the job at `i`, changed without changing its id.
    fn replace_at(&mut self, i: usize, info: JobInfo)
        requires
            i < old(self).entries().len(),
            info.id == old(self).entries()[i as int].id,
            info.url == old(self).entries()[i as int].url,
        ensures
            final(self).entries() == old(self).entries().update(i as int, info),
            final(self).last_id() == old(self).last_id(),
    {
        proof {
            use_type_invariant(&*self);
        }
        let mut jobs: Vec<JobInfo> = Vec::new();
        std::mem::swap(&mut jobs, &mut self.jobs);
        jobs[i] = info;
        assert(ids_increasing(jobs@)) by {
            assert forall|a: int, b: int| 0 <= a < b < jobs@.len() implies #[trigger] jobs@[a].id
                < #[trigger] jobs@[b].id by {
                assert(jobs@[a].id == old(self).entries()[a].id);
                assert(jobs@[b].id == old(self).entries()[b].id);
            }
        }
        assert forall|k: int| 0 <= k < jobs@.len() implies #[trigger] jobs@[k].id <= self.next_id by {
            assert(jobs@[k].id == old(self).entries()[k].id);
        }
        assert forall|k: int| 0 <= k < jobs@.len() implies url_ok(#[trigger] jobs@[k].url@) by {
            assert(jobs@[k].url == old(self).entries()[k].url);
        }
        self.jobs = jobs;
    }

    /// Marks the job as failed with `message`, as when its arguments could
    /// not be built or the downloader could not be started.
    pub fn fail_job(&mut self, id: u32, message: String)
        ensures
            final(self).entries() == update_job(
                old(self).entries(),
                id,
                |j: JobInfo| with_failure(j, message),
            ),
            final(self).last_id() == old(self).last_id(),
    {
        proof {
            use_type_invariant(&*self);
        }
        match self.position(id) {
            Some(i) => {
                let mut info = self.jobs[i].snapshot();
                info.status = JobStatus::Error;
                info.error = Some(message);
                proof {
                    lemma_update_at(self.jobs@, i as int, |j: JobInfo| with_failure(j, message));
                }
                self.replace_at(i, info);
            },
            None => {
                proof {
                    lemma_update_absent(self.jobs@, id, |j: JobInfo| with_failure(j, message));
                }
            },
        }
    }

    /// Records what was learnt of the job's title and file.
    pub fn record_output(&mut self, id: u32, title: &Option<String>, filepath: &Option<String>)
        ensures
            final(self).entries() == update_job(
                old(self).entries(),
                id,
                |j: JobInfo| with_output(j, *title, *filepath),
            ),
            final(self).last_id() == old(self).last_id(),
    {
        proof {
            use_type_invariant(&*self);
        }
        match self.position(id) {
            Some(i) => {
                let mut info = self.jobs[i].snapshot();
                if title.is_some() {
                    info.title = copy_text(title);
                }
                if filepath.is_some() {
                    info.filepath = copy_text(filepath);
                }
                proof {
                    lemma_update_at(
                        self.jobs@,
                        i as int,
                        |j: JobInfo| with_output(j, *title, *filepath),
                    );
                }
                self.replace_at(i, info);
            },
            None => {
                proof {
                    lemma_update_absent(
                        self.jobs@,
                        id,
                        |j: JobInfo| with_output(j, *title, *filepath),
                    );
                }
            },
        }
    }

    /// Whether the job is in the table and was cancelled.
    pub fn is_cancelled(&self, id: u32) -> (res: bool)
        ensures
            res == is_cancelled_in(self.entries(), id),
    {
        proof {
            use_type_invariant(self);
        }
        match self.position(id) {
            Some(i) => {
                proof {
                    lemma_cancelled_at(self.jobs@, i as int);
                }
                self.jobs[i].status == JobStatus::Cancelled
            },
            None => false,
        }
    }

    /// Ends the run of a job: a cancelled job stays cancelled, otherwise the
    /// exit status decides between finished and failed. The title and file
    /// learnt during the run are kept, and a failure without an earlier error
    /// text takes `error_msg`. Returns the final status and the message to
    /// report with it.
    pub fn finish_job(
        &mut self,
        id: u32,
        exit_ok: bool,
        title: &Option<String>,
        filepath: &Option<String>,
        error_msg: Option<String>,
    ) -> (res: (JobStatus, Option<String>))
        ensures
            res.0 == final_status(is_cancelled_in(old(self).entries(), id), exit_ok),
            res.1 == final_message(old(self).entries(), id, exit_ok, error_msg),
            final(self).entries() == finished(
                old(self).entries(),
                id,
                exit_ok,
                *title,
                *filepath,
                error_msg,
            ),
            final(self).last_id() == old(self).last_id(),
    {
        proof {
            use_type_invariant(&*self);
        }
        let was_cancelled = self.is_cancelled(id);
        let status = if was_cancelled {
            JobStatus::Cancelled
        } else if exit_ok {
            JobStatus::Finished
        } else {
            JobStatus::Error
        };
        let ghost g = |j: JobInfo| finish_info(j, status, *title, *filepath, error_msg);
        match self.position(id) {
            Some(i) => {
                let mut info = self.jobs[i].snapshot();
                info.status = status;
                if title.is_some() {
                    info.title = copy_text(title);
                }
                if filepath.is_some() {
                    info.filepath = copy_text(filepath);
                }
                if status == JobStatus::Error && info.error.is_none() {
                    info.error = copy_text(&error_msg);
                }
                proof {
                    lemma_update_at(self.jobs@, i as int, g);
                }
                self.replace_at(i, info);
            },
            None => {
                proof {
                    lemma_update_absent(self.jobs@, id, g);
                }
            },
        }
        let message = if exit_ok || was_cancelled {
            None
        } else {
            error_msg
        };
        (status, message)
    }
}

impl Default for JobManager {
    fn default() -> (res: JobManager)
        ensures
            res.entries() == Seq::<JobInfo>::empty(),
            res.last_id() == 0,
    {
        JobManager::new()
    }
}

// ---------------------------------------------------------------------------
// Queue commands
// ---------------------------------------------------------------------------

/// Queues a download of `url` (trimmed) under a fresh id, one above the last
/// one handed out. A URL that is empty once trimmed is refused with
/// "URL is empty" and the queue is left as it was.
pub fn start_download(manager: &mut JobManager, url: &str) -> (res: Result<u32, String>)
    requires
        trimmed(url@).len() > 0 ==> old(manager).last_id() < u32::MAX,
    ensures
        trimmed(url@).len() == 0 ==> (res matches Err(e) && e@ == "URL is empty"@),
        trimmed(url@).len() == 0 ==> *final(manager) == *old(manager),
        trimmed(url@).len() > 0 ==> ({
            let id = (old(manager).last_id() + 1) as u32;
            &&& res == Ok::<u32, String>(id)
            &&& final(manager).last_id() == id
            &&& final(manager).entries().len() == old(manager).entries().len() + 1
            &&& final(manager).entries() == old(manager).entries().push(
                final(manager).entries().last(),
            )
            &&& is_new_job(final(manager).entries().last(), id, trimmed(url@))
        }),
{
    let trimmed_url = trim(url);
    if trimmed_url.as_str().is_empty() {
        return Err(String::from_str("URL is empty"));
    }
    proof {
        use_type_invariant(&*manager);
    }
    proof {
        lemma_trimmed_idempotent(url@);
    }
    let id = manager.alloc_id();
    let info = JobInfo {
        id,
        url: trimmed_url,
        title: None,
        status: JobStatus::Queued,
        filepath: None,
        error: None,
    };
    manager.insert(info);
    Ok(id)
}

/// Marks the job as cancelled; every other job is left as it was, and an
/// unknown id changes nothing. Always succeeds.
pub fn cancel_download(manager: &mut JobManager, id: u32) -> (res: Result<(), String>)
    ensures
        res is Ok,
        final(manager).entries() == cancelled(old(manager).entries(), id),
        final(manager).last_id() == old(manager).last_id(),
{
    proof {
        use_type_invariant(&*manager);
    }
    let ghost g = |j: JobInfo| set_status(j, JobStatus::Cancelled);
    match manager.position(id) {
        Some(i) => {
            let mut info = manager.jobs[i].snapshot();
            info.status = JobStatus::Cancelled;
            proof {
                lemma_update_at(manager.jobs@, i as int, g);
            }
            manager.replace_at(i, info);
        },
        None => {
            proof {
                lemma_update_absent(manager.jobs@, id, g);
            }
        },
    }
    Ok(())
}

/// All jobs, in order of their ids.
pub fn list_jobs(manager: &JobManager) -> (res: Vec<JobInfo>)
    ensures
        res@ == manager.entries(),
        ids_increasing(res@),
        forall|i: int| 0 <= i < res@.len() ==> url_ok(#[trigger] res@[i].url@),
        queue_valid(res@, manager.last_id()),
{
    proof {
        use_type_invariant(&*manager);
    }
    let mut out: Vec<JobInfo> = Vec::new();
    let mut i: usize = 0;
    while i < manager.jobs.len()
        invariant
            i <= manager.jobs@.len(),
            out@ == manager.jobs@.take(i as int),
        decreases manager.jobs@.len() - i,
    {
        out.push(manager.jobs[i].snapshot());
        assert(manager.jobs@.take(i + 1) =~= manager.jobs@.take(i as int).push(manager.jobs@[i as int]));
        i = i + 1;
    }
    assert(manager.jobs@.take(i as int) =~= manager.jobs@);
    out
}

/// Drops the jobs that are over (finished, failed or cancelled) and keeps
/// the others in their order.
pub fn clear_finished(manager: &mut JobManager)
    ensures
        final(manager).entries() == active_jobs(old(manager).entries()),
        final(manager).last_id() == old(manager).last_id(),
{
    proof {
        use_type_invariant(&*manager);
    }
    let ghost t = manager.jobs@;
    let ghost pred = |j: JobInfo| !is_terminal(j.status);
    let mut all: Vec<JobInfo> = Vec::new();
    std::mem::swap(&mut all, &mut manager.jobs);
    let mut kept: Vec<JobInfo> = Vec::new();
    let n = all.len();
    assert(t.take(0) =~= Seq::<JobInfo>::empty());
    let mut i: usize = 0;
    while i < n
        invariant
            n == all@.len(),
            all@ == t,
            i <= n,
            ids_increasing(t),
            forall|k: int| 0 <= k < t.len() ==> #[trigger] t[k].id <= manager.next_id,
            forall|k: int| 0 <= k < t.len() ==> url_ok(#[trigger] t[k].url@),
            forall|k: int| 0 <= k < kept@.len() ==> url_ok(#[trigger] kept@[k].url@),
            pred == (|j: JobInfo| !is_terminal(j.status)),
            kept@ == t.take(i as int).filter(pred),
            ids_increasing(kept@),
            forall|k: int| 0 <= k < kept@.len() ==> #[trigger] kept@[k].id <= manager.next_id,
            i == 0 ==> kept@.len() == 0,
            i > 0 && kept@.len() > 0 ==> kept@.last().id <= t[i - 1].id,
        decreases n - i,
    {
        assert(t.take(i + 1).drop_last() =~= t.take(i as int));
        let j = all[i].snapshot();
        assert(j == t[i as int]);
        assert(pred(t[i as int]) == !is_terminal(j.status));
        assert(url_ok(t[i as int].url@));
        let ghost kept_before = kept@;
        if !is_terminal_status(j.status) {
            proof {
                if i > 0 {
                    assert(t[i - 1].id < t[i as int].id);
                }
                assert forall|a: int, b: int| 0 <= a < b < kept@.len() + 1 implies #[trigger] kept@.push(
                    j,
                )[a].id < #[trigger] kept@.push(j)[b].id by {
                    if b == kept@.len() {
                        if a < kept@.len() - 1 {
                            assert(kept@[a].id < kept@.last().id);
                        }
                    }
                }
            }
            kept.push(j);
            assert forall|k: int| 0 <= k < kept@.len() implies url_ok(#[trigger] kept@[k].url@) by {
                if k < kept_before.len() {
                    assert(kept@[k] == kept_before[k]);
                    assert(url_ok(kept_before[k].url@));
                } else {
                    assert(kept@[k] == t[i as int]);
                }
            }
        }
        assert(t.take(i + 1).last() == t[i as int]);
        assert(t.take(i + 1).filter(pred) == (if pred(t[i as int]) {
            t.take(i as int).filter(pred).push(t[i as int])
        } else {
            t.take(i as int).filter(pred)
        })) by {
            reveal(Seq::filter);
        }
        i = i + 1;
    }
    assert(t.take(n as int) =~= t);
    manager.jobs = kept;
}

// ---------------------------------------------------------------------------
// Laws of the queue
// ---------------------------------------------------------------------------

/// A job that was cancelled ends its run as cancelled, whatever the exit
/// status of the downloader, and no error message is reported for it.
pub proof fn law_cancel_wins(
    t: Seq<JobInfo>,
    id: u32,
    exit_ok: bool,
    title: Option<String>,
    filepath: Option<String>,
    error_msg: Option<String>,
)
    requires
        ids_increasing(t),
        has_job(t, id),
    ensures
        final_status(is_cancelled_in(cancelled(t, id), id), exit_ok) == JobStatus::Cancelled,
        final_message(cancelled(t, id), id, exit_ok, error_msg) is None,
        has_job(finished(cancelled(t, id), id, exit_ok, title, filepath, error_msg), id),
        forall|k: int|
            0 <= k < t.len() && t[k].id == id ==> #[trigger] finished(
                cancelled(t, id),
                id,
                exit_ok,
                title,
                filepath,
                error_msg,
            )[k].status == JobStatus::Cancelled,
{
    let i = choose|i: int| 0 <= i < t.len() && #[trigger] t[i].id == id;
    let c = cancelled(t, id);
    assert(c[i].id == id && c[i].status == JobStatus::Cancelled);
    assert(is_cancelled_in(c, id));
    let f = finished(c, id, exit_ok, title, filepath, error_msg);
    assert(f[i].id == id);
}

/// Every run ends in a state that is over, so clearing finished jobs after
/// a run removes that job and keeps every job that is still active.
pub proof fn law_finished_jobs_are_cleared(
    t: Seq<JobInfo>,
    id: u32,
    exit_ok: bool,
    title: Option<String>,
    filepath: Option<String>,
    error_msg: Option<String>,
)
    requires
        ids_increasing(t),
    ensures
        is_terminal(final_status(is_cancelled_in(t, id), exit_ok)),
        !has_job(active_jobs(finished(t, id, exit_ok, title, filepath, error_msg)), id),
{
    let f = finished(t, id, exit_ok, title, filepath, error_msg);
    let pred = |j: JobInfo| !is_terminal(j.status);
    let a = active_jobs(f);
    broadcast use vstd::seq_lib::group_filter_ensures;
    if has_job(a, id) {
        let k = choose|k: int| 0 <= k < a.len() && #[trigger] a[k].id == id;
        f.lemma_filter_contains_rev(pred, a[k]);
        let m = choose|m: int| 0 <= m < f.len() && f[m] == a[k];
        assert(f[m].id == id);
        assert(pred(a[k]));
    }
}

/// Clearing keeps exactly the jobs that are not over, in their order, and
/// clearing twice is clearing once.
pub proof fn law_clear_keeps_active(t: Seq<JobInfo>)
    ensures
        forall|k: int| 0 <= k < active_jobs(t).len() ==> !is_terminal(#[trigger] active_jobs(t)[k].status),
        forall|k: int| 0 <= k < t.len() && !is_terminal(t[k].status) ==> active_jobs(t).contains(#[trigger] t[k]),
        active_jobs(active_jobs(t)) == active_jobs(t),
{
    let pred = |j: JobInfo| !is_terminal(j.status);
    broadcast use vstd::seq_lib::group_filter_ensures;
    lemma_filter_of_filtered(t, pred);
}

proof fn lemma_filter_of_filtered(t: Seq<JobInfo>, pred: spec_fn(JobInfo) -> bool)
    ensures
        t.filter(pred).filter(pred) == t.filter(pred),
    decreases t.len(),
{
    reveal(Seq::filter);
    if t.len() > 0 {
        lemma_filter_of_filtered(t.drop_last(), pred);
        let s = t.drop_last().filter(pred);
        assert(s.filter(pred) == s);
        if pred(t.last()) {
            assert(t.filter(pred) == s.push(t.last()));
            assert(s.push(t.last()).drop_last() =~= s);
            assert(s.push(t.last()).last() == t.last());
            assert(s.push(t.last()).filter(pred) == s.filter(pred).push(t.last()));
        } else {
            assert(t.filter(pred) == s);
        }
    }
}

/// Cancelling touches only the job with that id, keeps the order of the
/// table, and a cancelled job is dropped by the next clearing.
pub proof fn law_cancel_then_clear(t: Seq<JobInfo>, id: u32)
    requires
        ids_increasing(t),
    ensures
        cancelled(t, id).len() == t.len(),
        ids_increasing(cancelled(t, id)),
        forall|k: int| 0 <= k < t.len() && t[k].id != id ==> #[trigger] cancelled(t, id)[k] == t[k],
        !has_job(active_jobs(cancelled(t, id)), id),
{
    let g = |j: JobInfo| set_status(j, JobStatus::Cancelled);
    lemma_update_keeps_order(t, id, g);
    let c = cancelled(t, id);
    let pred = |j: JobInfo| !is_terminal(j.status);
    let a = active_jobs(c);
    broadcast use vstd::seq_lib::group_filter_ensures;
    if has_job(a, id) {
        let k = choose|k: int| 0 <= k < a.len() && #[trigger] a[k].id == id;
        c.lemma_filter_contains_rev(pred, a[k]);
        let m = choose|m: int| 0 <= m < c.len() && c[m] == a[k];
        assert(c[m].id == id);
        assert(pred(a[k]));
    }
}

/// A job just queued is listed last, queued, and survives clearing.
pub proof fn law_new_job_is_kept(t: Seq<JobInfo>, j: JobInfo, id: u32, url: Seq<char>)
    requires
        is_new_job(j, id, url),
    ensures
        has_job(t.push(j), id),
        t.push(j).last().status == JobStatus::Queued,
        active_jobs(t.push(j)).contains(j),
{
    broadcast use vstd::seq_lib::group_filter_ensures;
    assert(t.push(j)[t.len() as int] == j);
    let pred = |x: JobInfo| !is_terminal(x.status);
    t.push(j).lemma_filter_contains(pred, t.len() as int);
}

/// A change that keeps ids and URLs keeps every job's URL.
proof fn lemma_update_keeps_urls(t: Seq<JobInfo>, id: u32, g: spec_fn(JobInfo) -> JobInfo)
    requires
        forall|j: JobInfo| #[trigger] g(j).id == j.id && g(j).url == j.url,
    ensures
        keeps_urls(t, update_job(t, id, g)),
{
    let u = update_job(t, id, g);
    assert forall|k: int| 0 <= k < u.len() implies came_from(t, #[trigger] u[k]) by {
        assert(g(t[k]).id == t[k].id);
        assert(t[k].id == u[k].id);
        assert(t[k].url == u[k].url);
    }
    assert(keeps_urls(t, u));
}

/// Whatever the queue goes through, a job keeps the id and URL it was
/// started with: cancelling, recording output, failing, finishing and
/// clearing leave every remaining job's id and URL as they were.
pub proof fn law_urls_kept(
    t: Seq<JobInfo>,
    id: u32,
    exit_ok: bool,
    title: Option<String>,
    filepath: Option<String>,
    error_msg: Option<String>,
    message: String,
)
    ensures
        keeps_urls(t, cancelled(t, id)),
        keeps_urls(t, update_job(t, id, |j: JobInfo| with_output(j, title, filepath))),
        keeps_urls(t, update_job(t, id, |j: JobInfo| with_failure(j, message))),
        keeps_urls(t, finished(t, id, exit_ok, title, filepath, error_msg)),
        keeps_urls(t, active_jobs(t)),
{
    lemma_update_keeps_urls(t, id, |j: JobInfo| set_status(j, JobStatus::Cancelled));
    lemma_update_keeps_urls(t, id, |j: JobInfo| with_output(j, title, filepath));
    lemma_update_keeps_urls(t, id, |j: JobInfo| with_failure(j, message));
    let status = final_status(is_cancelled_in(t, id), exit_ok);
    lemma_update_keeps_urls(
        t,
        id,
        |j: JobInfo| finish_info(j, status, title, filepath, error_msg),
    );
    let a = active_jobs(t);
    let pred = |j: JobInfo| !is_terminal(j.status);
    broadcast use vstd::seq_lib::group_filter_ensures;
    assert forall|k: int| 0 <= k < a.len() implies came_from(t, #[trigger] a[k]) by {
        t.lemma_filter_contains_rev(pred, a[k]);
        let m = choose|m: int| 0 <= m < t.len() && t[m] == a[k];
        assert(t[m].id == a[k].id);
        assert(t[m].url == a[k].url);
    }
    assert(keeps_urls(t, a));
}

/// Clearing keeps the order of the table.
proof fn lemma_filter_keeps_order(t: Seq<JobInfo>, pred: spec_fn(JobInfo) -> bool)
    requires
        ids_increasing(t),
    ensures
        ids_increasing(t.filter(pred)),
    decreases t.len(),
{
    reveal(Seq::filter);
    broadcast use vstd::seq_lib::group_filter_ensures;
    if t.len() > 0 {
        let d = t.drop_last();
        assert(ids_increasing(d));
        lemma_filter_keeps_order(d, pred);
        let f = d.filter(pred);
        if pred(t.last()) {
            let g = f.push(t.last());
            assert forall|i: int, j: int| 0 <= i < j < g.len() implies #[trigger] g[i].id
                < #[trigger] g[j].id by {
                if j == g.len() - 1 {
                    d.lemma_filter_contains_rev(pred, f[i]);
                    let m = choose|m: int| 0 <= m < d.len() && d[m] == f[i];
                    assert(t[m].id < t[t.len() - 1].id);
                } else {
                    assert(g[i] == f[i] && g[j] == f[j]);
                }
            }
        }
    }
}

/// A change that keeps ids and URLs keeps the queue valid.
proof fn lemma_update_keeps_valid(t: Seq<JobInfo>, last: u32, id: u32, g: spec_fn(JobInfo) -> JobInfo)
    requires
        queue_valid(t, last),
        forall|j: JobInfo| #[trigger] g(j).id == j.id && g(j).url == j.url,
    ensures
        queue_valid(update_job(t, id, g), last),
{
    lemma_update_keeps_order(t, id, g);
    let u = update_job(t, id, g);
    assert forall|k: int| 0 <= k < u.len() implies url_ok(#[trigger] u[k].url@) by {
        assert(g(t[k]).id == t[k].id);
        assert(g(t[k]).url == t[k].url);
        assert(url_ok(t[k].url@));
    }
}

/// Every queue reached from an empty one stays valid, and successive
/// starts hand out strictly increasing ids: the empty queue is valid;
/// starting a job (below the id limit) adds one with a larger id than any
/// before; cancelling, recording output, failing, finishing and clearing
/// keep the queue valid.
pub proof fn law_queue_stays_valid(
    t: Seq<JobInfo>,
    last: u32,
    j: JobInfo,
    url: Seq<char>,
    id: u32,
    exit_ok: bool,
    title: Option<String>,
    filepath: Option<String>,
    error_msg: Option<String>,
    message: String,
)
    requires
        queue_valid(t, last),
    ensures
        queue_valid(Seq::<JobInfo>::empty(), 0),
        last < u32::MAX && trimmed(url).len() > 0 && is_new_job(j, (last + 1) as u32, trimmed(url))
            ==> queue_valid(t.push(j), (last + 1) as u32) && forall|i: int|
            0 <= i < t.len() ==> #[trigger] t[i].id < j.id,
        queue_valid(cancelled(t, id), last),
        queue_valid(update_job(t, id, |x: JobInfo| with_output(x, title, filepath)), last),
        queue_valid(update_job(t, id, |x: JobInfo| with_failure(x, message)), last),
        queue_valid(finished(t, id, exit_ok, title, filepath, error_msg), last),
        queue_valid(active_jobs(t), last),
{
    lemma_update_keeps_valid(t, last, id, |x: JobInfo| set_status(x, JobStatus::Cancelled));
    lemma_update_keeps_valid(t, last, id, |x: JobInfo| with_output(x, title, filepath));
    lemma_update_keeps_valid(t, last, id, |x: JobInfo| with_failure(x, message));
    let status = final_status(is_cancelled_in(t, id), exit_ok);
    lemma_update_keeps_valid(
        t,
        last,
        id,
        |x: JobInfo| finish_info(x, status, title, filepath, error_msg),
    );
    let pred = |j: JobInfo| !is_terminal(j.status);
    lemma_filter_keeps_order(t, pred);
    let a = active_jobs(t);
    assert(a == t.filter(pred));
    broadcast use vstd::seq_lib::group_filter_ensures;
    assert forall|k: int| 0 <= k < a.len() implies #[trigger] a[k].id <= last by {
        t.lemma_filter_contains_rev(pred, a[k]);
        let m = choose|m: int| 0 <= m < t.len() && t[m] == a[k];
        assert(t[m].id <= last);
    }
    assert forall|k: int| 0 <= k < a.len() implies url_ok(#[trigger] a[k].url@) by {
        t.lemma_filter_contains_rev(pred, a[k]);
        let m = choose|m: int| 0 <= m < t.len() && t[m] == a[k];
        assert(url_ok(t[m].url@));
    }
    if last < u32::MAX && trimmed(url).len() > 0 && is_new_job(j, (last + 1) as u32, trimmed(url)) {
        lemma_trimmed_idempotent(url);
        let p = t.push(j);
        assert forall|a1: int, b1: int| 0 <= a1 < b1 < p.len() implies #[trigger] p[a1].id
            < #[trigger] p[b1].id by {
            if b1 == p.len() - 1 {
                assert(p[a1] == t[a1]);
            } else {
                assert(p[a1] == t[a1] && p[b1] == t[b1]);
            }
        }
        assert forall|k: int| 0 <= k < p.len() implies #[trigger] p[k].id <= last + 1 by {
            if k < t.len() {
                assert(p[k] == t[k]);
            } else {
                assert(p[k] == j);
            }
        }
        assert forall|k: int| 0 <= k < p.len() implies url_ok(#[trigger] p[k].url@) by {
            if k < t.len() {
                assert(p[k] == t[k]);
                assert(url_ok(t[k].url@));
            } else {
                assert(p[k] == j);
            }
        }
        assert(queue_valid(p, (last + 1) as u32));
    }
}

/// Recording output sets, on the job with that id, each announced value
/// (the title, the file path) whatever it held before, keeps what was not
/// announced and every other field, and leaves the other jobs alone.
pub proof fn law_record_output(
    t: Seq<JobInfo>,
    id: u32,
    title: Option<String>,
    filepath: Option<String>,
)
    ensures
        recorded(t, id, title, filepath).len() == t.len(),
        forall|k: int|
            0 <= k < t.len() ==> {
                let r = #[trigger] recorded(t, id, title, filepath)[k];
                &&& t[k].id != id ==> r == t[k]
                &&& t[k].id == id ==> {
                    &&& title is Some ==> r.title == title
                    &&& title is None ==> r.title == t[k].title
                    &&& filepath is Some ==> r.filepath == filepath
                    &&& filepath is None ==> r.filepath == t[k].filepath
                    &&& r.id == t[k].id && r.url == t[k].url
                    &&& r.status == t[k].status && r.error == t[k].error
                }
            },
{
}

/// Cancelling sets the job's status to cancelled and changes nothing else;
/// failing sets it to failed with the given message and changes nothing
/// else.
pub proof fn law_cancel_and_fail(t: Seq<JobInfo>, id: u32, message: String)
    ensures
        forall|k: int|
            0 <= k < t.len() ==> {
                let r = #[trigger] cancelled(t, id)[k];
                &&& t[k].id != id ==> r == t[k]
                &&& t[k].id == id ==> r.status == JobStatus::Cancelled && r.id == t[k].id && r.url
                    == t[k].url && r.title == t[k].title && r.filepath == t[k].filepath && r.error
                    == t[k].error
            },
        forall|k: int|
            0 <= k < t.len() ==> {
                let r = #[trigger] failed(t, id, message)[k];
                &&& t[k].id != id ==> r == t[k]
                &&& t[k].id == id ==> r.status == JobStatus::Error && r.error == Some(message)
                    && r.id == t[k].id && r.url == t[k].url && r.title == t[k].title && r.filepath
                    == t[k].filepath
            },
{
}

/// How a run ends: a cancelled job ends cancelled and reports no message;
/// otherwise a successful exit ends finished with no message, and a failed
/// one ends failed, reporting the error text, which becomes the job's error
/// unless it already had one. Announced title and path are recorded; other
/// jobs are left alone.
pub proof fn law_run_end(
    t: Seq<JobInfo>,
    id: u32,
    exit_ok: bool,
    title: Option<String>,
    filepath: Option<String>,
    error_msg: Option<String>,
)
    ensures
        is_cancelled_in(t, id) ==> final_status(is_cancelled_in(t, id), exit_ok)
            == JobStatus::Cancelled && final_message(t, id, exit_ok, error_msg) is None,
        !is_cancelled_in(t, id) && exit_ok ==> final_status(is_cancelled_in(t, id), exit_ok)
            == JobStatus::Finished && final_message(t, id, exit_ok, error_msg) is None,
        !is_cancelled_in(t, id) && !exit_ok ==> final_status(is_cancelled_in(t, id), exit_ok)
            == JobStatus::Error && final_message(t, id, exit_ok, error_msg) == error_msg,
        forall|k: int|
            0 <= k < t.len() ==> {
                let r = #[trigger] finished(t, id, exit_ok, title, filepath, error_msg)[k];
                let s = final_status(is_cancelled_in(t, id), exit_ok);
                &&& t[k].id != id ==> r == t[k]
                &&& t[k].id == id ==> {
                    &&& r.status == s
                    &&& r.id == t[k].id && r.url == t[k].url
                    &&& title is Some ==> r.title == title
                    &&& title is None ==> r.title == t[k].title
                    &&& filepath is Some ==> r.filepath == filepath
                    &&& filepath is None ==> r.filepath == t[k].filepath
                    &&& t[k].error is Some ==> r.error == t[k].error
                    &&& s != JobStatus::Error ==> r.error == t[k].error
                    &&& s == JobStatus::Error && t[k].error is None ==> r.error == error_msg
                }
            },
{
}

/// A new job never takes the id of a job already in the queue.
pub proof fn law_fresh_id(t: Seq<JobInfo>, last: u32)
    requires
        forall|i: int| 0 <= i < t.len() ==> #[trigger] t[i].id <= last,
        last < u32::MAX,
    ensures
        !has_job(t, (last + 1) as u32),
        forall|i: int| 0 <= i < t.len() ==> #[trigger] t[i].id < last + 1,
{
}

} // verus!
