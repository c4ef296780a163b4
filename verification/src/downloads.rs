//! Download tasks: their states, what each user action does to the task
//! list, and how the engine's reports are folded into it.
use vstd::prelude::*;
use crate::text::{chars_of, string_from, seq_eq, parse_unsigned, parse_unsigned_exec};
use crate::unicode::{alnum, is_alphanumeric};
use crate::config::{Source, opt_str, joined, path_join};
use crate::hub::{after_last_slash, after_last_slash_exec};
use crate::listing::id_parts;

verus! {

/// Where a download stands.
#[derive(Debug, Clone, Copy, PartialEq, Eq, Structural)]
pub enum DlStatus {
    Queued,
    Active,
    Paused,
    Completed,
    Error,
    Cancelled,
    Interrupted,
}

/// Finished for good: completed, failed or cancelled.
pub open spec fn is_terminal(s: DlStatus) -> bool {
    s == DlStatus::Completed || s == DlStatus::Error || s == DlStatus::Cancelled
}

impl DlStatus {
    pub fn terminal(&self) -> (r: bool)
        ensures
            r == is_terminal(*self),
    {
        match self {
            DlStatus::Completed | DlStatus::Error | DlStatus::Cancelled => true,
            _ => false,
        }
    }
}

/// One file download.
#[derive(Debug)]
pub struct DownloadTask {
    pub id: String,
    pub repo: String,
    pub path: String,
    pub source: Source,
    pub url: String,
    pub dir: String,
    pub out: String,
    pub total: u64,
    pub downloaded: u64,
    pub speed: u64,
    pub status: DlStatus,
    pub error: Option<String>,
    pub gid: Option<String>,
    pub added_at: u64,
    pub updated_at: u64,
}

pub struct TaskView {
    pub id: Seq<char>,
    pub repo: Seq<char>,
    pub path: Seq<char>,
    pub source: Source,
    pub url: Seq<char>,
    pub dir: Seq<char>,
    pub out: Seq<char>,
    pub total: u64,
    pub downloaded: u64,
    pub speed: u64,
    pub status: DlStatus,
    pub error: Option<Seq<char>>,
    pub gid: Option<Seq<char>>,
    pub added_at: u64,
    pub updated_at: u64,
}

impl View for DownloadTask {
    type V = TaskView;

    open spec fn view(&self) -> TaskView {
        TaskView {
            id: self.id@,
            repo: self.repo@,
            path: self.path@,
            source: self.source,
            url: self.url@,
            dir: self.dir@,
            out: self.out@,
            total: self.total,
            downloaded: self.downloaded,
            speed: self.speed,
            status: self.status,
            error: opt_str(self.error),
            gid: opt_str(self.gid),
            added_at: self.added_at,
            updated_at: self.updated_at,
        }
    }
}

pub open spec fn task_views(v: Seq<DownloadTask>) -> Seq<TaskView> {
    Seq::new(v.len(), |i: int| v[i]@)
}

fn dup_opt(o: &Option<String>) -> (r: Option<String>)
    ensures
        opt_str(r) == opt_str(*o),
{
    match o {
        Some(s) => Some(s.clone()),
        None => None,
    }
}

impl DownloadTask {
    /// A copy of the task.
    pub fn duplicate(&self) -> (r: DownloadTask)
        ensures
            r@ == self@,
    {
        DownloadTask {
            id: self.id.clone(),
            repo: self.repo.clone(),
            path: self.path.clone(),
            source: self.source,
            url: self.url.clone(),
            dir: self.dir.clone(),
            out: self.out.clone(),
            total: self.total,
            downloaded: self.downloaded,
            speed: self.speed,
            status: self.status,
            error: dup_opt(&self.error),
            gid: dup_opt(&self.gid),
            added_at: self.added_at,
            updated_at: self.updated_at,
        }
    }
}

/// Message of a task that the restart of the application cut off.
pub open spec fn restart_message() -> Seq<char> {
    "应用重启导致下载中断，可点击重试续传"@
}

/// Message of an unknown task id.
pub open spec fn missing_message() -> Seq<char> {
    "任务不存在"@
}

/// A task as reloaded from history: unfinished tasks become interrupted,
/// with the restart message and no engine id; finished ones stay.
pub open spec fn reloaded(t: TaskView) -> TaskView {
    if is_terminal(t.status) {
        t
    } else {
        TaskView { status: DlStatus::Interrupted, error: Some(restart_message()), gid: None, ..t }
    }
}

/// After a restart no engine knows the old downloads: mark every unfinished
/// task interrupted (with the restart message, engine id cleared).
pub fn mark_interrupted(tasks: &mut Vec<DownloadTask>)
    ensures
        task_views(final(tasks)@) == task_views(old(tasks)@).map_values(|t: TaskView| reloaded(t)),
{
    let ghost orig = task_views(tasks@);
    let mut i: usize = 0;
    while i < tasks.len()
        invariant
            i <= tasks@.len(),
            tasks@.len() == orig.len(),
            forall|k: int| 0 <= k < i ==> #[trigger] task_views(tasks@)[k] == reloaded(orig[k]),
            forall|k: int| i <= k < tasks@.len() ==> #[trigger] task_views(tasks@)[k] == orig[k],
        decreases tasks.len() - i,
    {
        let ghost before = task_views(tasks@);
        assert(before[i as int] == tasks@[i as int]@);
        if !tasks[i].status.terminal() {
            let mut t = tasks[i].duplicate();
            t.status = DlStatus::Interrupted;
            t.error = Some(String::from_str("应用重启导致下载中断，可点击重试续传"));
            t.gid = None;
            replace_at(tasks, i, t);
        }
        assert(task_views(tasks@) == before.update(i as int, reloaded(orig[i as int])));
        i += 1;
    }
    assert(task_views(tasks@) =~= orig.map_values(|t: TaskView| reloaded(t)));
}

/// Index of the first task with this id, -1 when there is none.
pub open spec fn index_of(ts: Seq<TaskView>, id: Seq<char>) -> int
    decreases ts.len(),
{
    if ts.len() == 0 {
        -1
    } else if index_of(ts.drop_last(), id) >= 0 {
        index_of(ts.drop_last(), id)
    } else if ts.last().id == id {
        ts.len() - 1
    } else {
        -1
    }
}

proof fn lemma_index_of(ts: Seq<TaskView>, id: Seq<char>)
    ensures
        -1 <= index_of(ts, id) < ts.len(),
        index_of(ts, id) >= 0 ==> ts[index_of(ts, id)].id == id,
        index_of(ts, id) >= 0 ==> forall|k: int| 0 <= k < index_of(ts, id) ==> ts[k].id != id,
        index_of(ts, id) < 0 ==> forall|k: int| 0 <= k < ts.len() ==> ts[k].id != id,
    decreases ts.len(),
{
    if ts.len() > 0 {
        lemma_index_of(ts.drop_last(), id);
        assert forall|k: int| 0 <= k < ts.len() - 1 implies ts[k] == ts.drop_last()[k] by {}
    }
}

/// Find the first task with this id.
fn find_index(tasks: &Vec<DownloadTask>, id: &str) -> (r: Option<usize>)
    ensures
        match r {
            Some(i) => index_of(task_views(tasks@), id@) == i as int && i < tasks@.len(),
            None => index_of(task_views(tasks@), id@) == -1,
        },
{
    let ghost ts = task_views(tasks@);
    let k = chars_of(id);
    let mut i: usize = 0;
    while i < tasks.len()
        invariant
            i <= tasks@.len(),
            ts == task_views(tasks@),
            k@ == id@,
            forall|j: int| 0 <= j < i ==> (#[trigger] ts[j]).id != id@,
        decreases tasks.len() - i,
    {
        let t = chars_of(tasks[i].id.as_str());
        if seq_eq(t.as_slice(), k.as_slice()) {
            assert(ts[i as int].id == id@);
            proof {
                lemma_index_of(ts, id@);
                let m = index_of(ts, id@);
                if m >= 0 && m < i {
                    assert(ts[m].id == id@);
                }
            }
            return Some(i);
        }
        assert(ts[i as int].id != id@);
        i += 1;
    }
    proof {
        lemma_index_of(ts, id@);
        if index_of(ts, id@) >= 0 {
            assert(ts[index_of(ts, id@)].id == id@);
        }
    }
    None
}

/// `ts` with the task at `i` replaced by `t`.
pub open spec fn replaced(ts: Seq<TaskView>, i: int, t: TaskView) -> Seq<TaskView> {
    ts.update(i, t)
}

fn replace_at(tasks: &mut Vec<DownloadTask>, i: usize, t: DownloadTask)
    requires
        i < old(tasks)@.len(),
    ensures
        task_views(final(tasks)@) == task_views(old(tasks)@).update(i as int, t@),
{
    let ghost before = task_views(tasks@);
    let _ = tasks.remove(i);
    tasks.insert(i, t);
    assert(task_views(tasks@) =~= before.update(i as int, t@));
}

/// The task after the user paused it.
pub open spec fn paused(t: TaskView, now: u64) -> TaskView {
    TaskView { status: DlStatus::Paused, updated_at: now, ..t }
}

/// The task after the user cancelled it.
pub open spec fn cancelled(t: TaskView, now: u64) -> TaskView {
    TaskView { status: DlStatus::Cancelled, updated_at: now, ..t }
}

/// Pause the task `id` at time `now`: it is marked paused; its engine id is
/// returned for the engine to pause. An unknown id is an error and changes
/// nothing.
pub fn pause(tasks: &mut Vec<DownloadTask>, id: &str, now: u64) -> (r: Result<Option<String>, String>)
    ensures
        ({
            let i = index_of(task_views(old(tasks)@), id@);
            if i < 0 {
                &&& r matches Err(e) && e@ == missing_message()
                &&& final(tasks)@ == old(tasks)@
            } else {
                &&& r matches Ok(g) && opt_str(g) == task_views(old(tasks)@)[i].gid
                &&& task_views(final(tasks)@) == task_views(old(tasks)@).update(i, paused(task_views(old(tasks)@)[i], now))
            }
        }),
{
    match find_index(tasks, id) {
        None => Err(String::from_str("任务不存在")),
        Some(i) => {
            let mut t = tasks[i].duplicate();
            t.status = DlStatus::Paused;
            t.updated_at = now;
            let g = dup_opt(&t.gid);
            assert(task_views(tasks@)[i as int] == tasks@[i as int]@);
            replace_at(tasks, i, t);
            Ok(g)
        },
    }
}

/// Cancel the task `id` at time `now`: it is marked cancelled; its engine
/// id is returned for the engine to drop. An unknown id is an error and
/// changes nothing.
pub fn cancel(tasks: &mut Vec<DownloadTask>, id: &str, now: u64) -> (r: Result<Option<String>, String>)
    ensures
        ({
            let i = index_of(task_views(old(tasks)@), id@);
            if i < 0 {
                &&& r matches Err(e) && e@ == missing_message()
                &&& final(tasks)@ == old(tasks)@
            } else {
                &&& r matches Ok(g) && opt_str(g) == task_views(old(tasks)@)[i].gid
                &&& task_views(final(tasks)@) == task_views(old(tasks)@).update(i, cancelled(task_views(old(tasks)@)[i], now))
            }
        }),
{
    match find_index(tasks, id) {
        None => Err(String::from_str("任务不存在")),
        Some(i) => {
            let mut t = tasks[i].duplicate();
            t.status = DlStatus::Cancelled;
            t.updated_at = now;
            let g = dup_opt(&t.gid);
            assert(task_views(tasks@)[i as int] == tasks@[i as int]@);
            replace_at(tasks, i, t);
            Ok(g)
        },
    }
}

/// What resuming a task takes.
pub enum ResumeStep {
    /// The engine resumes the paused download with this id.
    Unpause(Option<String>),
    /// The download is started again (see `begin_retry`).
    Retry,
    /// Nothing to do: the task is queued, running or complete.
    Nothing,
}

/// Resume the task `id` at time `now`: a paused task becomes active and its
/// engine id is handed back for unpausing; an interrupted, failed or
/// cancelled one is to be retried; any other is left alone. An unknown id is
/// an error and changes nothing.
pub fn resume(tasks: &mut Vec<DownloadTask>, id: &str, now: u64) -> (r: Result<ResumeStep, String>)
    ensures
        ({
            let i = index_of(task_views(old(tasks)@), id@);
            let t = task_views(old(tasks)@)[i];
            if i < 0 {
                &&& r matches Err(e) && e@ == missing_message()
                &&& final(tasks)@ == old(tasks)@
            } else if t.status == DlStatus::Paused {
                &&& r matches Ok(ResumeStep::Unpause(g)) && opt_str(g) == t.gid
                &&& task_views(final(tasks)@) == task_views(old(tasks)@).update(i, TaskView { status: DlStatus::Active, updated_at: now, ..t })
            } else if t.status == DlStatus::Interrupted || t.status == DlStatus::Error || t.status == DlStatus::Cancelled {
                &&& r matches Ok(ResumeStep::Retry)
                &&& final(tasks)@ == old(tasks)@
            } else {
                &&& r matches Ok(ResumeStep::Nothing)
                &&& final(tasks)@ == old(tasks)@
            }
        }),
{
    match find_index(tasks, id) {
        None => Err(String::from_str("任务不存在")),
        Some(i) => {
            assert(task_views(tasks@)[i as int] == tasks@[i as int]@);
            match tasks[i].status {
                DlStatus::Paused => {
                    let mut t = tasks[i].duplicate();
                    t.status = DlStatus::Active;
                    t.updated_at = now;
                    let g = dup_opt(&t.gid);
                    replace_at(tasks, i, t);
                    Ok(ResumeStep::Unpause(g))
                },
                DlStatus::Interrupted | DlStatus::Error | DlStatus::Cancelled => Ok(ResumeStep::Retry),
                _ => Ok(ResumeStep::Nothing),
            }
        },
    }
}

/// What the engine needs to download a task again.
pub struct RetryPlan {
    pub url: String,
    pub dir: String,
    pub out: String,
    pub old_gid: Option<String>,
    pub source: Source,
}

/// The task as it is queued again: active, no error, counters reset.
pub open spec fn restarted(t: TaskView, now: u64) -> TaskView {
    TaskView { status: DlStatus::Active, error: None, downloaded: 0, total: 0, speed: 0, updated_at: now, ..t }
}

/// Re-queue a failed, cancelled or interrupted download: the task is reset
/// to active with its counters cleared, and what the engine needs is
/// returned (its old engine id to forget first). An unknown id is an error
/// and changes nothing.
pub fn begin_retry(tasks: &mut Vec<DownloadTask>, id: &str, now: u64) -> (r: Result<RetryPlan, String>)
    ensures
        ({
            let i = index_of(task_views(old(tasks)@), id@);
            let t = task_views(old(tasks)@)[i];
            if i < 0 {
                &&& r matches Err(e) && e@ == missing_message()
                &&& final(tasks)@ == old(tasks)@
            } else {
                &&& r matches Ok(p) && p.url@ == t.url && p.dir@ == t.dir && p.out@ == t.out
                    && opt_str(p.old_gid) == t.gid && p.source == t.source
                &&& task_views(final(tasks)@) == task_views(old(tasks)@).update(i, restarted(t, now))
            }
        }),
{
    match find_index(tasks, id) {
        None => Err(String::from_str("任务不存在")),
        Some(i) => {
            assert(task_views(tasks@)[i as int] == tasks@[i as int]@);
            let mut t = tasks[i].duplicate();
            t.status = DlStatus::Active;
            t.error = None;
            t.downloaded = 0;
            t.total = 0;
            t.speed = 0;
            t.updated_at = now;
            let plan = RetryPlan {
                url: t.url.clone(),
                dir: t.dir.clone(),
                out: t.out.clone(),
                old_gid: dup_opt(&t.gid),
                source: t.source,
            };
            replace_at(tasks, i, t);
            Ok(plan)
        },
    }
}

/// Record the engine id `gid` of the task `id` (the download was handed to
/// the engine) and return the task. An unknown id is an error and changes
/// nothing.
pub fn assign_gid(tasks: &mut Vec<DownloadTask>, id: &str, gid: String) -> (r: Result<DownloadTask, String>)
    ensures
        ({
            let i = index_of(task_views(old(tasks)@), id@);
            let t = task_views(old(tasks)@)[i];
            if i < 0 {
                &&& r matches Err(e) && e@ == missing_message()
                &&& final(tasks)@ == old(tasks)@
            } else {
                &&& r matches Ok(n) && n@ == TaskView { gid: Some(gid@), ..t }
                &&& task_views(final(tasks)@) == task_views(old(tasks)@).update(i, TaskView { gid: Some(gid@), ..t })
            }
        }),
{
    match find_index(tasks, id) {
        None => Err(String::from_str("任务不存在")),
        Some(i) => {
            assert(task_views(tasks@)[i as int] == tasks@[i as int]@);
            let mut t = tasks[i].duplicate();
            t.gid = Some(gid);
            let copy = t.duplicate();
            replace_at(tasks, i, t);
            Ok(copy)
        },
    }
}

/// Take the task `id` off the engine (it is fetched directly from now on:
/// no engine id) and return it. An unknown id is an error and changes
/// nothing.
pub fn detach_engine(tasks: &mut Vec<DownloadTask>, id: &str) -> (r: Result<DownloadTask, String>)
    ensures
        ({
            let i = index_of(task_views(old(tasks)@), id@);
            let t = task_views(old(tasks)@)[i];
            if i < 0 {
                &&& r matches Err(e) && e@ == missing_message()
                &&& final(tasks)@ == old(tasks)@
            } else {
                &&& r matches Ok(n) && n@ == TaskView { gid: None, ..t }
                &&& task_views(final(tasks)@) == task_views(old(tasks)@).update(i, TaskView { gid: None, ..t })
            }
        }),
{
    match find_index(tasks, id) {
        None => Err(String::from_str("任务不存在")),
        Some(i) => {
            assert(task_views(tasks@)[i as int] == tasks@[i as int]@);
            let mut t = tasks[i].duplicate();
            t.gid = None;
            let copy = t.duplicate();
            replace_at(tasks, i, t);
            Ok(copy)
        },
    }
}

// ------------------------------------------------------------- the list

/// The tasks that `keep` accepts, in order.
pub open spec fn filtered(ts: Seq<TaskView>, keep: spec_fn(TaskView) -> bool) -> Seq<TaskView>
    decreases ts.len(),
{
    if ts.len() == 0 {
        Seq::empty()
    } else if keep(ts.last()) {
        filtered(ts.drop_last(), keep).push(ts.last())
    } else {
        filtered(ts.drop_last(), keep)
    }
}

/// How many tasks `keep` rejects.
pub open spec fn rejected(ts: Seq<TaskView>, keep: spec_fn(TaskView) -> bool) -> nat
    decreases ts.len(),
{
    if ts.len() == 0 {
        0
    } else if keep(ts.last()) {
        rejected(ts.drop_last(), keep)
    } else {
        rejected(ts.drop_last(), keep) + 1
    }
}

pub open spec fn other_id(id: Seq<char>) -> spec_fn(TaskView) -> bool {
    |t: TaskView| t.id != id
}

pub open spec fn unfinished() -> spec_fn(TaskView) -> bool {
    |t: TaskView| !is_terminal(t.status)
}

proof fn lemma_filter_len(ts: Seq<TaskView>, keep: spec_fn(TaskView) -> bool)
    ensures
        filtered(ts, keep).len() + rejected(ts, keep) == ts.len(),
    decreases ts.len(),
{
    if ts.len() > 0 {
        lemma_filter_len(ts.drop_last(), keep);
    }
}

/// Remove the tasks with this id.
pub fn remove_task(tasks: &mut Vec<DownloadTask>, id: &str)
    ensures
        task_views(final(tasks)@) == filtered(task_views(old(tasks)@), other_id(id@)),
{
    let ghost ts = task_views(tasks@);
    let k = chars_of(id);
    let mut kept: Vec<DownloadTask> = Vec::new();
    let mut i: usize = 0;
    while i < tasks.len()
        invariant
            i <= tasks@.len(),
            ts == task_views(tasks@),
            k@ == id@,
            task_views(kept@) == filtered(ts.take(i as int), other_id(id@)),
        decreases tasks.len() - i,
    {
        assert(ts.take(i + 1).drop_last() =~= ts.take(i as int));
        assert(ts.take(i + 1).last() == tasks@[i as int]@);
        let t = chars_of(tasks[i].id.as_str());
        if !seq_eq(t.as_slice(), k.as_slice()) {
            let ghost before = task_views(kept@);
            let c = tasks[i].duplicate();
            kept.push(c);
            assert(task_views(kept@) =~= before.push(tasks@[i as int]@));
        }
        i += 1;
    }
    assert(ts.take(tasks.len() as int) =~= ts);
    *tasks = kept;
}

/// Drop the finished (completed, failed, cancelled) tasks, keeping the
/// others in order; returns how many were dropped.
pub fn clear_finished(tasks: &mut Vec<DownloadTask>) -> (r: usize)
    ensures
        task_views(final(tasks)@) == filtered(task_views(old(tasks)@), unfinished()),
        r == rejected(task_views(old(tasks)@), unfinished()),
        r + final(tasks)@.len() == old(tasks)@.len(),
{
    let ghost ts = task_views(tasks@);
    let mut kept: Vec<DownloadTask> = Vec::new();
    let mut dropped: usize = 0;
    let mut i: usize = 0;
    while i < tasks.len()
        invariant
            i <= tasks@.len(),
            ts == task_views(tasks@),
            task_views(kept@) == filtered(ts.take(i as int), unfinished()),
            dropped == rejected(ts.take(i as int), unfinished()),
            dropped <= i,
        decreases tasks.len() - i,
    {
        assert(ts.take(i + 1).drop_last() =~= ts.take(i as int));
        assert(ts.take(i + 1).last() == tasks@[i as int]@);
        if !tasks[i].status.terminal() {
            let ghost before = task_views(kept@);
            let c = tasks[i].duplicate();
            kept.push(c);
            assert(task_views(kept@) =~= before.push(tasks@[i as int]@));
        } else {
            dropped += 1;
        }
        i += 1;
    }
    assert(ts.take(tasks.len() as int) =~= ts);
    proof {
        lemma_filter_len(ts, unfinished());
    }
    *tasks = kept;
    dropped
}

// ------------------------------------------------------ starting a task

/// A file name with the characters that are unsafe in paths replaced by
/// `_` (letters, digits, `.`, `-`, `_` and space are kept).
pub open spec fn sanitized(s: Seq<char>) -> Seq<char> {
    s.map_values(|c: char| if alnum(c) || c == '.' || c == '-' || c == '_' || c == ' ' { c } else { '_' })
}

pub fn sanitize(s: &str) -> (r: String)
    ensures
        r@ == sanitized(s@),
{
    let c = chars_of(s);
    let mut out: Vec<char> = Vec::new();
    let mut i: usize = 0;
    while i < c.len()
        invariant
            i <= c@.len(),
            c@ == s@,
            out@ == sanitized(s@).take(i as int),
        decreases c.len() - i,
    {
        let ch = c[i];
        let keep = is_alphanumeric(ch) || ch == '.' || ch == '-' || ch == '_' || ch == ' ';
        out.push(if keep { ch } else { '_' });
        assert(out@ =~= sanitized(s@).take(i + 1));
        i += 1;
    }
    assert(sanitized(s@).take(c.len() as int) =~= sanitized(s@));
    string_from(out.as_slice())
}

/// A directory name made of `s`: sanitized, and a name that would point
/// at the directory itself or its parent (`.` or `..`) has its dots
/// replaced by `_`.
pub open spec fn safe_part(s: Seq<char>) -> Seq<char> {
    let t = sanitized(s);
    if t == "."@ || t == ".."@ {
        Seq::new(t.len(), |i: int| '_')
    } else {
        t
    }
}

/// A name that stays where it is placed: only letters, digits (as std's
/// `char::is_alphanumeric` classifies them), `.`, `-`, `_` and space, and
/// neither `.` nor `..`.
pub open spec fn stays_in_place(p: Seq<char>) -> bool {
    &&& forall|i: int| 0 <= i < p.len() ==> {
        let c = #[trigger] p[i];
        alnum(c) || c == '.' || c == '-' || c == '_' || c == ' '
    }
    &&& p != "."@
    &&& p != ".."@
}

fn safe_part_of(s: &str) -> (r: String)
    ensures
        r@ == safe_part(s@),
{
    let t = sanitize(s);
    let c = chars_of(t.as_str());
    proof {
        reveal_strlit(".");
        reveal_strlit("..");
    }
    let is_dot = c.len() == 1 && c[0] == '.';
    let is_dots = c.len() == 2 && c[0] == '.' && c[1] == '.';
    if is_dot || is_dots {
        assert(is_dot ==> c@ =~= "."@);
        assert(is_dots ==> c@ =~= ".."@);
        let mut out: Vec<char> = Vec::new();
        let mut i: usize = 0;
        while i < c.len()
            invariant
                i <= c@.len(),
                out@ =~= Seq::new(i as nat, |k: int| '_'),
            decreases c.len() - i,
        {
            out.push('_');
            i += 1;
        }
        string_from(out.as_slice())
    } else {
        proof {
            if t@ == "."@ {
                assert(c@.len() == 1 && c@[0] == '.');
            }
            if t@ == ".."@ {
                assert(c@.len() == 2 && c@[0] == '.' && c@[1] == '.');
            }
        }
        t
    }
}

/// The directory a file of `repo` lands in under `root`: `root/publisher/
/// model`, or `root/model` for a repository without publisher, both parts
/// made safe (`safe_part`).
pub open spec fn target_dir(root: Seq<char>, repo: Seq<char>) -> Seq<char> {
    let (author, name) = id_parts(repo);
    if author.len() == 0 {
        joined(root, safe_part(name))
    } else {
        joined(joined(root, safe_part(author)), safe_part(name))
    }
}

/// Where a file of `repo` lands, `root` being the configured download root
/// (the LalaLM library or LM Studio's directory).
pub fn quick_target_dir(root: &str, repo: &str) -> (r: String)
    ensures
        r@ == target_dir(root@, repo@),
{
    let c = chars_of(repo);
    let (author, name) = match crate::text::split_once_char(c.as_slice(), '/') {
        Some((a, n)) => (string_from(a.as_slice()), string_from(n.as_slice())),
        None => (String::new(), String::from_str(repo)),
    };
    let sn = safe_part_of(name.as_str());
    if author.as_str().is_empty() {
        path_join(root, sn.as_str())
    } else {
        let sa = safe_part_of(author.as_str());
        let base = path_join(root, sa.as_str());
        path_join(base.as_str(), sn.as_str())
    }
}

/// The local file name of a repository path: its last segment, or the
/// whole path when that segment is empty.
pub open spec fn out_name(path: Seq<char>) -> Seq<char> {
    if after_last_slash(path).len() > 0 {
        after_last_slash(path)
    } else {
        path
    }
}

pub fn download_out(path: &str) -> (r: String)
    ensures
        r@ == out_name(path@),
{
    let c = chars_of(path);
    let last = after_last_slash_exec(c.as_slice());
    if last.len() > 0 {
        string_from(last.as_slice())
    } else {
        String::from_str(path)
    }
}

/// Some unfinished task already downloads to `dir`/`out`.
pub open spec fn in_flight(ts: Seq<TaskView>, dir: Seq<char>, out: Seq<char>) -> bool {
    exists|i: int| 0 <= i < ts.len() && !is_terminal(#[trigger] ts[i].status) && ts[i].dir == dir && ts[i].out == out
}

fn str_eq(a: &String, b: &String) -> (r: bool)
    ensures
        r == (a@ == b@),
{
    let x = chars_of(a.as_str());
    let y = chars_of(b.as_str());
    seq_eq(x.as_slice(), y.as_slice())
}

pub fn has_in_flight(tasks: &Vec<DownloadTask>, dir: &String, out: &String) -> (r: bool)
    ensures
        r == in_flight(task_views(tasks@), dir@, out@),
{
    let mut i: usize = 0;
    while i < tasks.len()
        invariant
            i <= tasks@.len(),
            forall|k: int| 0 <= k < i ==> !(!is_terminal(#[trigger] task_views(tasks@)[k].status) && task_views(tasks@)[k].dir == dir@ && task_views(tasks@)[k].out == out@),
        decreases tasks.len() - i,
    {
        assert(task_views(tasks@)[i as int] == tasks@[i as int]@);
        if !tasks[i].status.terminal() && str_eq(&tasks[i].dir, dir) && str_eq(&tasks[i].out, out) {
            assert(!is_terminal(task_views(tasks@)[i as int].status) && task_views(tasks@)[i as int].dir == dir@ && task_views(tasks@)[i as int].out == out@);
            return true;
        }
        i += 1;
    }
    false
}

/// Where a new download goes and from where.
pub struct DownloadPlan {
    pub url: String,
    pub dir: String,
    pub out: String,
}

/// Message of a duplicate download.
pub open spec fn duplicate_message() -> Seq<char> {
    "该文件已有进行中的下载任务"@
}

/// Plan the download of `path` in `repo` from `source` under `root`: its
/// URL, directory and file name; refused while an unfinished task targets
/// the same file.
pub fn prepare_download(tasks: &Vec<DownloadTask>, root: &str, source: Source, repo: &str, path: &str) -> (r: Result<DownloadPlan, String>)
    ensures
        ({
            let dir = target_dir(root@, repo@);
            let out = out_name(path@);
            if in_flight(task_views(tasks@), dir, out) {
                r matches Err(e) && e@ == duplicate_message()
            } else {
                r matches Ok(p) && p.dir@ == dir && p.out@ == out
                    && p.url@ == crate::config::source_file_url(source, repo@, vstd::utf8::encode_utf8(path@))
            }
        }),
{
    let url = source.file_url(repo, path);
    let out = download_out(path);
    let dir = quick_target_dir(root, repo);
    if has_in_flight(tasks, &dir, &out) {
        return Err(String::from_str("该文件已有进行中的下载任务"));
    }
    Ok(DownloadPlan { url, dir, out })
}

/// Record a download the engine accepted (engine id `gid`, task id `id`,
/// time `now`): an active task at the front of the list, returned.
pub fn record_download(tasks: &mut Vec<DownloadTask>, plan: DownloadPlan, id: String, repo: &str, path: &str, source: Source, gid: String, now: u64) -> (r: DownloadTask)
    ensures
        r@ == (TaskView {
            id: id@,
            repo: repo@,
            path: path@,
            source,
            url: plan.url@,
            dir: plan.dir@,
            out: plan.out@,
            total: 0,
            downloaded: 0,
            speed: 0,
            status: DlStatus::Active,
            error: None,
            gid: Some(gid@),
            added_at: now,
            updated_at: now,
        }),
        task_views(final(tasks)@) == seq![r@] + task_views(old(tasks)@),
{
    let task = DownloadTask {
        id,
        repo: String::from_str(repo),
        path: String::from_str(path),
        source,
        url: plan.url,
        dir: plan.dir,
        out: plan.out,
        total: 0,
        downloaded: 0,
        speed: 0,
        status: DlStatus::Active,
        error: None,
        gid: Some(gid),
        added_at: now,
        updated_at: now,
    };
    let copy = task.duplicate();
    let ghost before = task_views(tasks@);
    tasks.insert(0, task);
    assert(task_views(tasks@) =~= seq![copy@] + before);
    copy
}

/// The proxy a download of `source` uses: ModelScope (hosted in China)
/// always connects directly.
pub fn task_proxy(source: Source, proxy: Option<String>) -> (r: Option<String>)
    ensures
        opt_str(r) == match source {
            Source::ModelScope => None,
            _ => opt_str(proxy),
        },
{
    match source {
        Source::ModelScope => None,
        _ => proxy,
    }
}

// ------------------------------------------------------ direct downloads

/// Who fetches the files: the aria2c engine, or the app's own
/// single-stream downloader (when the engine is switched off).
#[derive(PartialEq, Eq, Structural, Debug)]
pub enum Downloader {
    Engine,
    Direct,
}

/// The engine when it is enabled in the settings, else the app's own
/// downloader.
pub fn downloader_for(cfg: &crate::config::Config) -> (r: Downloader)
    ensures
        r == if cfg.aria2.enabled { Downloader::Engine } else { Downloader::Direct },
{
    if cfg.aria2.enabled {
        Downloader::Engine
    } else {
        Downloader::Direct
    }
}

/// Record a download that the app fetches itself (task id `id`, time
/// `now`): an active task without engine id at the front of the list,
/// returned.
pub fn record_direct(tasks: &mut Vec<DownloadTask>, plan: DownloadPlan, id: String, repo: &str, path: &str, source: Source, now: u64) -> (r: DownloadTask)
    ensures
        r@ == (TaskView {
            id: id@,
            repo: repo@,
            path: path@,
            source,
            url: plan.url@,
            dir: plan.dir@,
            out: plan.out@,
            total: 0,
            downloaded: 0,
            speed: 0,
            status: DlStatus::Active,
            error: None,
            gid: None,
            added_at: now,
            updated_at: now,
        }),
        task_views(final(tasks)@) == seq![r@] + task_views(old(tasks)@),
{
    let task = DownloadTask {
        id,
        repo: String::from_str(repo),
        path: String::from_str(path),
        source,
        url: plan.url,
        dir: plan.dir,
        out: plan.out,
        total: 0,
        downloaded: 0,
        speed: 0,
        status: DlStatus::Active,
        error: None,
        gid: None,
        added_at: now,
        updated_at: now,
    };
    let copy = task.duplicate();
    let ghost before = task_views(tasks@);
    tasks.insert(0, task);
    assert(task_views(tasks@) =~= seq![copy@] + before);
    copy
}

/// The task with the progress of a transfer taken over.
pub open spec fn progressed(t: TaskView, downloaded: u64, total: u64, speed: u64, now: u64) -> TaskView {
    TaskView { downloaded, total, speed, updated_at: now, ..t }
}

/// Report the progress of a direct transfer of the task `id`: while the
/// task is there and active its counters are taken over and the transfer
/// goes on (`true`); a task that is gone, paused, cancelled or otherwise
/// not active is left as it is, and the transfer stops (`false`).
pub fn direct_progress(tasks: &mut Vec<DownloadTask>, id: &str, downloaded: u64, total: u64, speed: u64, now: u64) -> (r: bool)
    ensures
        ({
            let i = index_of(task_views(old(tasks)@), id@);
            if i >= 0 && task_views(old(tasks)@)[i].status == DlStatus::Active {
                &&& r
                &&& task_views(final(tasks)@) == task_views(old(tasks)@).update(i, progressed(task_views(old(tasks)@)[i], downloaded, total, speed, now))
            } else {
                &&& !r
                &&& final(tasks)@ == old(tasks)@
            }
        }),
{
    match find_index(tasks, id) {
        None => false,
        Some(i) => {
            assert(task_views(tasks@)[i as int] == tasks@[i as int]@);
            if tasks[i].status == DlStatus::Active {
                let mut t = tasks[i].duplicate();
                t.downloaded = downloaded;
                t.total = total;
                t.speed = speed;
                t.updated_at = now;
                replace_at(tasks, i, t);
                true
            } else {
                false
            }
        },
    }
}

/// The task after its direct transfer ended: complete with `Ok(bytes)`
/// (both counters set to the bytes of the file), failed with `Err(e)`; the
/// speed drops to 0.
pub open spec fn direct_ended(t: TaskView, outcome: Result<u64, Seq<char>>, now: u64) -> TaskView {
    match outcome {
        Ok(n) => TaskView { status: DlStatus::Completed, downloaded: n, total: n, speed: 0, error: None, updated_at: now, ..t },
        Err(e) => TaskView { status: DlStatus::Error, speed: 0, error: Some(e), updated_at: now, ..t },
    }
}

/// Record how the direct transfer of the task `id` ended. Only a task that
/// is still there and active is changed; one paused or cancelled
/// meanwhile keeps its state.
pub fn direct_finished(tasks: &mut Vec<DownloadTask>, id: &str, outcome: Result<u64, String>, now: u64)
    ensures
        ({
            let i = index_of(task_views(old(tasks)@), id@);
            let o = match outcome {
                Ok(n) => Ok::<u64, Seq<char>>(n),
                Err(e) => Err::<u64, Seq<char>>(e@),
            };
            if i >= 0 && task_views(old(tasks)@)[i].status == DlStatus::Active {
                task_views(final(tasks)@) == task_views(old(tasks)@).update(i, direct_ended(task_views(old(tasks)@)[i], o, now))
            } else {
                final(tasks)@ == old(tasks)@
            }
        }),
{
    match find_index(tasks, id) {
        None => {},
        Some(i) => {
            assert(task_views(tasks@)[i as int] == tasks@[i as int]@);
            if tasks[i].status == DlStatus::Active {
                let mut t = tasks[i].duplicate();
                t.status = match &outcome {
                    Ok(_) => DlStatus::Completed,
                    Err(_) => DlStatus::Error,
                };
                t.speed = 0;
                t.updated_at = now;
                match outcome {
                    Ok(n) => {
                        t.downloaded = n;
                        t.total = n;
                        t.error = None;
                    },
                    Err(e) => {
                        t.error = Some(e);
                    },
                }
                replace_at(tasks, i, t);
            }
        },
    }
}

// ----------------------------------------------------- engine restarts

/// Unfinished tasks that an engine was running: a fresh engine knows none
/// of them, so they are handed to it again.
pub open spec fn orphaned() -> spec_fn(TaskView) -> bool {
    |t: TaskView| !is_terminal(t.status) && t.gid is Some
}

pub fn orphans(tasks: &Vec<DownloadTask>) -> (r: Vec<DownloadTask>)
    ensures
        task_views(r@) == filtered(task_views(tasks@), orphaned()),
{
    let ghost ts = task_views(tasks@);
    let mut out: Vec<DownloadTask> = Vec::new();
    let mut i: usize = 0;
    while i < tasks.len()
        invariant
            i <= tasks@.len(),
            ts == task_views(tasks@),
            task_views(out@) == filtered(ts.take(i as int), orphaned()),
        decreases tasks.len() - i,
    {
        assert(ts.take(i + 1).drop_last() =~= ts.take(i as int));
        assert(ts.take(i + 1).last() == tasks@[i as int]@);
        if !tasks[i].status.terminal() && tasks[i].gid.is_some() {
            let ghost before = task_views(out@);
            out.push(tasks[i].duplicate());
            assert(task_views(out@) =~= before.push(tasks@[i as int]@));
        }
        i += 1;
    }
    assert(ts.take(tasks.len() as int) =~= ts);
    out
}

/// Message prefix of a task the restarted engine did not take back.
pub open spec fn resume_failed_prefix() -> Seq<char> {
    "引擎重启后恢复失败："@
}

/// The task once the restarted engine answered: running under its new
/// engine id, or interrupted with the engine's error.
pub open spec fn settled(t: TaskView, outcome: Result<Seq<char>, Seq<char>>, now: u64) -> TaskView {
    match outcome {
        Ok(g) => TaskView { gid: Some(g), status: DlStatus::Active, error: None, updated_at: now, ..t },
        Err(e) => TaskView { status: DlStatus::Interrupted, error: Some(resume_failed_prefix() + e), updated_at: now, ..t },
    }
}

pub open spec fn result_view(r: Result<String, String>) -> Result<Seq<char>, Seq<char>> {
    match r {
        Ok(s) => Ok(s@),
        Err(e) => Err(e@),
    }
}

/// Record what the restarted engine answered for the task `id` (a task that
/// is gone meanwhile is left alone).
pub fn settle_orphan(tasks: &mut Vec<DownloadTask>, id: &str, outcome: Result<String, String>, now: u64)
    ensures
        ({
            let i = index_of(task_views(old(tasks)@), id@);
            if i < 0 {
                final(tasks)@ == old(tasks)@
            } else {
                task_views(final(tasks)@) == task_views(old(tasks)@).update(i, settled(task_views(old(tasks)@)[i], result_view(outcome), now))
            }
        }),
{
    match find_index(tasks, id) {
        None => {},
        Some(i) => {
            assert(task_views(tasks@)[i as int] == tasks@[i as int]@);
            let mut t = tasks[i].duplicate();
            match outcome {
                Ok(g) => {
                    t.gid = Some(g);
                    t.status = DlStatus::Active;
                    t.error = None;
                    t.updated_at = now;
                },
                Err(e) => {
                    let mut m = String::from_str("引擎重启后恢复失败：");
                    m.append(e.as_str());
                    t.status = DlStatus::Interrupted;
                    t.error = Some(m);
                    t.updated_at = now;
                },
            }
            replace_at(tasks, i, t);
        },
    }
}

// ------------------------------------------------------ engine reports

/// A JSON number field as the engine sends it: a number, text, or other.
pub enum NumValue {
    Unsigned(u64),
    Text(String),
    Other,
}

/// The number a field holds: a number as it is, text when it parses as a
/// `u64`, else 0.
pub open spec fn num_of(v: NumValue) -> u64 {
    match v {
        NumValue::Unsigned(n) => n,
        NumValue::Text(s) => match parse_unsigned(s@, u64::MAX as nat) {
            Some(n) => n as u64,
            None => 0,
        },
        NumValue::Other => 0,
    }
}

pub fn parse_u64(v: &NumValue) -> (r: u64)
    ensures
        r == num_of(*v),
{
    match v {
        NumValue::Unsigned(n) => *n,
        NumValue::Text(s) => {
            let c = chars_of(s.as_str());
            match parse_unsigned_exec(c.as_slice(), u64::MAX) {
                Some(n) => n,
                None => 0,
            }
        },
        NumValue::Other => 0,
    }
}

/// One download as the engine reports it.
pub struct Aria2Entry {
    pub gid: Option<String>,
    pub status: Option<String>,
    pub total_length: NumValue,
    pub completed_length: NumValue,
    pub download_speed: NumValue,
    pub error_message: Option<String>,
    /// Where the engine put the first file.
    pub first_file_path: Option<String>,
}

/// Task state of an engine status word.
pub open spec fn status_of(s: Option<Seq<char>>) -> Option<DlStatus> {
    if s == Some("active"@) {
        Some(DlStatus::Active)
    } else if s == Some("waiting"@) {
        Some(DlStatus::Queued)
    } else if s == Some("paused"@) {
        Some(DlStatus::Paused)
    } else if s == Some("complete"@) {
        Some(DlStatus::Completed)
    } else if s == Some("error"@) {
        Some(DlStatus::Error)
    } else if s == Some("removed"@) {
        Some(DlStatus::Cancelled)
    } else {
        None
    }
}

/// What the engine reports of one download.
pub struct Update {
    pub status: DlStatus,
    pub total: u64,
    pub completed: u64,
    pub speed: u64,
    pub error: Option<String>,
    pub actual_path: Option<String>,
}

pub struct UpdateView {
    pub status: DlStatus,
    pub total: u64,
    pub completed: u64,
    pub speed: u64,
    pub error: Option<Seq<char>>,
    pub actual_path: Option<Seq<char>>,
}

impl View for Update {
    type V = UpdateView;

    open spec fn view(&self) -> UpdateView {
        UpdateView {
            status: self.status,
            total: self.total,
            completed: self.completed,
            speed: self.speed,
            error: opt_str(self.error),
            actual_path: opt_str(self.actual_path),
        }
    }
}

/// Text when it is not empty.
pub open spec fn non_empty(s: Option<Seq<char>>) -> Option<Seq<char>> {
    match s {
        Some(t) => if t.len() > 0 {
            Some(t)
        } else {
            None
        },
        None => None,
    }
}

/// The update an engine entry carries: entries without an id or with an
/// unknown status carry none.
pub open spec fn entry_update(e: Aria2Entry) -> Option<(Seq<char>, UpdateView)> {
    match (opt_str(e.gid), status_of(opt_str(e.status))) {
        (Some(g), Some(st)) => Some((g, UpdateView {
            status: st,
            total: num_of(e.total_length),
            completed: num_of(e.completed_length),
            speed: num_of(e.download_speed),
            error: non_empty(opt_str(e.error_message)),
            actual_path: non_empty(opt_str(e.first_file_path)),
        })),
        _ => None,
    }
}

/// The updates of the entries, in report order.
pub open spec fn entry_updates(es: Seq<Aria2Entry>) -> Seq<(Seq<char>, UpdateView)>
    decreases es.len(),
{
    if es.len() == 0 {
        Seq::empty()
    } else {
        match entry_update(es.last()) {
            Some(u) => entry_updates(es.drop_last()).push(u),
            None => entry_updates(es.drop_last()),
        }
    }
}

/// The ids of finished downloads, whose results the engine can forget.
pub open spec fn finished_ids(us: Seq<(Seq<char>, UpdateView)>) -> Seq<Seq<char>>
    decreases us.len(),
{
    if us.len() == 0 {
        Seq::empty()
    } else if is_terminal(us.last().1.status) {
        finished_ids(us.drop_last()).push(us.last().0)
    } else {
        finished_ids(us.drop_last())
    }
}

pub open spec fn update_views(v: Seq<(String, Update)>) -> Seq<(Seq<char>, UpdateView)> {
    Seq::new(v.len(), |i: int| (v[i].0@, v[i].1@))
}

fn text_is(o: &Option<String>, lit: &str) -> (r: bool)
    ensures
        r == (opt_str(*o) == Some(lit@)),
{
    match o {
        Some(s) => {
            let a = chars_of(s.as_str());
            let b = chars_of(lit);
            seq_eq(a.as_slice(), b.as_slice())
        },
        None => false,
    }
}

fn non_empty_exec(o: &Option<String>) -> (r: Option<String>)
    ensures
        opt_str(r) == non_empty(opt_str(*o)),
{
    match o {
        Some(s) => if s.as_str().is_empty() {
            None
        } else {
            Some(s.clone())
        },
        None => None,
    }
}

fn entry_update_exec(e: &Aria2Entry) -> (r: Option<(String, Update)>)
    ensures
        match r {
            Some((g, u)) => entry_update(*e) == Some((g@, u@)),
            None => entry_update(*e) is None,
        },
{
    let g = match &e.gid {
        Some(g) => g.clone(),
        None => {
            return None;
        },
    };
    let st = if text_is(&e.status, "active") {
        DlStatus::Active
    } else if text_is(&e.status, "waiting") {
        DlStatus::Queued
    } else if text_is(&e.status, "paused") {
        DlStatus::Paused
    } else if text_is(&e.status, "complete") {
        DlStatus::Completed
    } else if text_is(&e.status, "error") {
        DlStatus::Error
    } else if text_is(&e.status, "removed") {
        DlStatus::Cancelled
    } else {
        return None;
    };
    Some((g, Update {
        status: st,
        total: parse_u64(&e.total_length),
        completed: parse_u64(&e.completed_length),
        speed: parse_u64(&e.download_speed),
        error: non_empty_exec(&e.error_message),
        actual_path: non_empty_exec(&e.first_file_path),
    }))
}

/// Read the engine's reports: the update of each entry in order, and the
/// ids of the finished ones.
pub fn collect_updates(entries: &[Aria2Entry]) -> (r: (Vec<(String, Update)>, Vec<String>))
    ensures
        update_views(r.0@) == entry_updates(entries@),
        crate::config::str_views(r.1@) == finished_ids(entry_updates(entries@)),
{
    let mut ups: Vec<(String, Update)> = Vec::new();
    let mut done: Vec<String> = Vec::new();
    let mut i: usize = 0;
    while i < entries.len()
        invariant
            i <= entries@.len(),
            update_views(ups@) == entry_updates(entries@.take(i as int)),
            crate::config::str_views(done@) == finished_ids(entry_updates(entries@.take(i as int))),
        decreases entries.len() - i,
    {
        assert(entries@.take(i + 1).drop_last() =~= entries@.take(i as int));
        match entry_update_exec(&entries[i]) {
            Some((g, u)) => {
                let ghost before = update_views(ups@);
                let ghost dbefore = crate::config::str_views(done@);
                let ghost uv = (g@, u@);
                if u.status.terminal() {
                    done.push(g.clone());
                    assert(crate::config::str_views(done@) =~= dbefore.push(g@));
                }
                ups.push((g, u));
                assert(update_views(ups@) =~= before.push(uv));
                assert(before.push(uv).drop_last() =~= before);
            },
            None => {},
        }
        i += 1;
    }
    assert(entries@.take(entries.len() as int) =~= entries@);
    (ups, done)
}

/// The latest update reported for engine id `gid`.
pub open spec fn latest(us: Seq<(Seq<char>, UpdateView)>, gid: Seq<char>) -> Option<UpdateView>
    decreases us.len(),
{
    if us.len() == 0 {
        None
    } else if us.last().0 == gid {
        Some(us.last().1)
    } else {
        latest(us.drop_last(), gid)
    }
}

/// A task after an update: taken over when the state or a counter differs
/// (an error only when one is reported), with the time; else unchanged.
pub open spec fn applied(t: TaskView, u: UpdateView, now: u64) -> TaskView {
    if t.status != u.status || t.downloaded != u.completed || t.total != u.total {
        TaskView {
            status: u.status,
            total: u.total,
            downloaded: u.completed,
            speed: u.speed,
            error: if u.error is Some { u.error } else { t.error },
            updated_at: now,
            ..t
        }
    } else {
        t
    }
}

/// A task after the engine's reports.
pub open spec fn reconciled(t: TaskView, us: Seq<(Seq<char>, UpdateView)>, now: u64) -> TaskView {
    match t.gid {
        Some(g) => match latest(us, g) {
            Some(u) => applied(t, u, now),
            None => t,
        },
        None => t,
    }
}

/// Completed downloads that the engine stored elsewhere than asked: the
/// stored path and the expected one (`dir` joined with `out`), in task
/// order.
pub open spec fn moves(ts: Seq<TaskView>, us: Seq<(Seq<char>, UpdateView)>) -> Seq<(Seq<char>, Seq<char>)>
    decreases ts.len(),
{
    if ts.len() == 0 {
        Seq::empty()
    } else {
        let t = ts.last();
        let rest = moves(ts.drop_last(), us);
        match t.gid {
            Some(g) => match latest(us, g) {
                Some(u) => if u.status == DlStatus::Completed && u.actual_path is Some {
                    rest.push((u.actual_path->0, joined(t.dir, t.out)))
                } else {
                    rest
                },
                None => rest,
            },
            None => rest,
        }
    }
}

fn latest_exec(ups: &Vec<(String, Update)>, gid: &String) -> (r: Option<usize>)
    ensures
        match r {
            Some(k) => k < ups@.len() && latest(update_views(ups@), gid@) == Some(ups@[k as int].1@),
            None => latest(update_views(ups@), gid@) is None,
        },
{
    let mut k = ups.len();
    assert(update_views(ups@).take(k as int) =~= update_views(ups@));
    while k > 0
        invariant
            k <= ups@.len(),
            latest(update_views(ups@), gid@) == latest(update_views(ups@).take(k as int), gid@),
        decreases k,
    {
        let ghost pre = update_views(ups@).take(k as int);
        assert(pre.drop_last() =~= update_views(ups@).take(k - 1));
        assert(pre.last() == (ups@[k - 1].0@, ups@[k - 1].1@));
        if str_eq(&ups[k - 1].0, gid) {
            return Some(k - 1);
        }
        k -= 1;
    }
    None
}

pub open spec fn pair_views(v: Seq<(String, String)>) -> Seq<(Seq<char>, Seq<char>)> {
    Seq::new(v.len(), |i: int| (v[i].0@, v[i].1@))
}

/// Fold the engine's updates into the task list at time `now`. Returns
/// whether any task changed, and the completed downloads to move to their
/// expected path (stored path, expected path).
pub fn apply_updates(tasks: &mut Vec<DownloadTask>, ups: &Vec<(String, Update)>, now: u64) -> (r: (bool, Vec<(String, String)>))
    ensures
        final(tasks)@.len() == old(tasks)@.len(),
        forall|i: int| 0 <= i < old(tasks)@.len() ==> #[trigger] task_views(final(tasks)@)[i] == reconciled(task_views(old(tasks)@)[i], update_views(ups@), now),
        r.0 == exists|i: int| 0 <= i < old(tasks)@.len() && reconciled(#[trigger] task_views(old(tasks)@)[i], update_views(ups@), now) != task_views(old(tasks)@)[i],
        pair_views(r.1@) == moves(task_views(old(tasks)@), update_views(ups@)),
{
    let ghost orig = task_views(tasks@);
    let ghost us = update_views(ups@);
    let mut changed = false;
    let mut renames: Vec<(String, String)> = Vec::new();
    let mut i: usize = 0;
    while i < tasks.len()
        invariant
            i <= tasks@.len(),
            tasks@.len() == orig.len(),
            us == update_views(ups@),
            forall|k: int| 0 <= k < i ==> #[trigger] task_views(tasks@)[k] == reconciled(orig[k], us, now),
            forall|k: int| i <= k < tasks@.len() ==> #[trigger] task_views(tasks@)[k] == orig[k],
            changed == exists|k: int| 0 <= k < i && reconciled(#[trigger] orig[k], us, now) != orig[k],
            pair_views(renames@) == moves(orig.take(i as int), us),
        decreases tasks.len() - i,
    {
        let ghost before = task_views(tasks@);
        let ghost t0 = orig[i as int];
        assert(before[i as int] == tasks@[i as int]@);
        assert(orig.take(i + 1).drop_last() =~= orig.take(i as int));
        assert(orig.take(i + 1).last() == t0);
        let found = match &tasks[i].gid {
            Some(g) => latest_exec(ups, g),
            None => None,
        };
        match found {
            Some(k) => {
                let ghost u = ups@[k as int].1@;
                let upd = &ups[k].1;
                if upd.status == DlStatus::Completed {
                    match &upd.actual_path {
                        Some(ap) => {
                            let fin = path_join(tasks[i].dir.as_str(), tasks[i].out.as_str());
                            let ghost rb = pair_views(renames@);
                            renames.push((ap.clone(), fin));
                            assert(pair_views(renames@) =~= rb.push((u.actual_path->0, joined(t0.dir, t0.out))));
                        },
                        None => {},
                    }
                }
                if tasks[i].status != upd.status || tasks[i].downloaded != upd.completed || tasks[i].total != upd.total {
                    let mut t = tasks[i].duplicate();
                    t.status = upd.status;
                    t.total = upd.total;
                    t.downloaded = upd.completed;
                    t.speed = upd.speed;
                    if upd.error.is_some() {
                        t.error = dup_opt(&upd.error);
                    }
                    t.updated_at = now;
                    assert(t@ == reconciled(t0, us, now));
                    replace_at(tasks, i, t);
                    changed = true;
                    assert(reconciled(t0, us, now) != t0);
                } else {
                    assert(reconciled(t0, us, now) == t0);
                    assert(task_views(tasks@) =~= before.update(i as int, reconciled(t0, us, now)));
                }
            },
            None => {
                assert(reconciled(t0, us, now) == t0);
                assert(task_views(tasks@) =~= before.update(i as int, reconciled(t0, us, now)));
            },
        }
        assert(task_views(tasks@) == before.update(i as int, reconciled(t0, us, now)));
        i += 1;
    }
    assert(orig.take(tasks.len() as int) =~= orig);
    (changed, renames)
}

// --------------------------------------------------------------- task ids

/// `rand::rngs::ThreadRng`, the thread's random number generator, carried
/// through opaque.
#[verifier::external_type_specification]
#[verifier::external_body]
pub struct ExThreadRng(rand::rngs::ThreadRng);

/// Calls `rand::thread_rng`: the thread's random number generator.
#[verifier::external_body]
pub(crate) fn thread_rng() -> (r: rand::rngs::ThreadRng) {
    rand::thread_rng()
}

/// Calls `Rng::gen_range(0..n)`: a random number below `n`, as the
/// documentation states (the range may not be empty). Which one is left
/// open.
#[verifier::external_body]
fn gen_below(rng: &mut rand::rngs::ThreadRng, n: u32) -> (r: u32)
    requires
        n > 0,
    ensures
        r < n,
{
    rand::Rng::gen_range(rng, 0..n)
}

/// A lower-case hex digit.
pub open spec fn is_hex_digit(c: char) -> bool {
    ('0' <= c && c <= '9') || ('a' <= c && c <= 'f')
}

/// A random task id: 16 lower-case hex digits.
pub fn new_task_id() -> (r: String)
    ensures
        r@.len() == 16,
        forall|i: int| 0 <= i < 16 ==> is_hex_digit(#[trigger] r@[i]),
{
    let mut rng = thread_rng();
    let mut v: Vec<char> = Vec::new();
    let mut i: usize = 0;
    while i < 16
        invariant
            i <= 16,
            v@.len() == i,
            forall|k: int| 0 <= k < i ==> is_hex_digit(#[trigger] v@[k]),
        decreases 16 - i,
    {
        let d = gen_below(&mut rng, 16);
        let c = crate::text::hex_char_exec(d as u64);
        v.push(c);
        i += 1;
    }
    string_from(v.as_slice())
}

// ------------------------------------------------------------------- tray

/// Tasks waiting or running.
pub open spec fn running_count(ts: Seq<TaskView>) -> nat
    decreases ts.len(),
{
    if ts.len() == 0 {
        0
    } else {
        running_count(ts.drop_last()) + if ts.last().status == DlStatus::Queued || ts.last().status == DlStatus::Active { 1nat } else { 0nat }
    }
}

/// The tray's download status line.
pub open spec fn tray_text(ts: Seq<TaskView>) -> Seq<char> {
    let n = running_count(ts);
    if n == 0 {
        "暂无进行中的下载"@
    } else {
        "⬇ "@ + crate::text::decimal(n) + " 个下载任务进行中"@
    }
}

pub fn tray_status_text(tasks: &Vec<DownloadTask>) -> (r: String)
    ensures
        r@ == tray_text(task_views(tasks@)),
{
    let ghost ts = task_views(tasks@);
    let mut n: usize = 0;
    let mut i: usize = 0;
    while i < tasks.len()
        invariant
            i <= tasks@.len(),
            ts == task_views(tasks@),
            n == running_count(ts.take(i as int)),
            n <= i,
        decreases tasks.len() - i,
    {
        assert(ts.take(i + 1).drop_last() =~= ts.take(i as int));
        assert(ts.take(i + 1).last() == tasks@[i as int]@);
        if tasks[i].status == DlStatus::Queued || tasks[i].status == DlStatus::Active {
            n += 1;
        }
        i += 1;
    }
    assert(ts.take(tasks.len() as int) =~= ts);
    if n == 0 {
        String::from_str("暂无进行中的下载")
    } else {
        let mut s = String::from_str("⬇ ");
        let d = crate::text::decimal_exec(n as u64);
        s.append(string_from(d.as_slice()).as_str());
        s.append(" 个下载任务进行中");
        s
    }
}

// ------------------------------------------------------------------ clock

/// `std::time::SystemTime`, a reading of the system clock, carried through
/// opaque.
#[verifier::external_type_specification]
#[verifier::external_body]
pub struct ExSystemTime(std::time::SystemTime);

/// `std::time::SystemTimeError`, a clock reading before the reference
/// time, carried through opaque.
#[verifier::external_type_specification]
#[verifier::external_body]
pub struct ExSystemTimeError(std::time::SystemTimeError);

/// Calls `SystemTime::now`: the current time of the system clock, of which
/// nothing is stated.
#[verifier::external_body]
fn system_now() -> (r: std::time::SystemTime) {
    std::time::SystemTime::now()
}

/// Calls `SystemTime::duration_since(UNIX_EPOCH)`: the time since 1970, an
/// error for a clock set before it. Nothing is stated of the outcome.
#[verifier::external_body]
fn since_epoch(t: &std::time::SystemTime) -> (r: Result<core::time::Duration, std::time::SystemTimeError>) {
    t.duration_since(std::time::UNIX_EPOCH)
}

/// Calls `Duration::as_secs`: the whole seconds of a duration, of which
/// nothing is stated (the duration is opaque here).
#[verifier::external_body]
fn whole_seconds(d: &core::time::Duration) -> (r: u64) {
    d.as_secs()
}

/// The current unix time in seconds (0 for a clock before 1970).
pub fn now() -> u64 {
    let t = system_now();
    match since_epoch(&t) {
        Ok(d) => whole_seconds(&d),
        Err(_) => 0,
    }
}

/// Where the download history is kept in the application's data
/// directory.
pub fn history_path(app_data: &str) -> (r: String)
    ensures
        r@ == joined(app_data@, "downloads.json"@),
{
    path_join(app_data, "downloads.json")
}

// ------------------------------------------------------------------- laws

/// Reloading settles every task: afterwards it is finished or interrupted,
/// a finished task is kept as it was, and reloading again changes nothing.
pub proof fn lemma_reload_settles(t: TaskView)
    ensures
        is_terminal(reloaded(t).status) || reloaded(t).status == DlStatus::Interrupted,
        is_terminal(t.status) ==> reloaded(t) == t,
        reloaded(reloaded(t)) == reloaded(t),
{
}

proof fn lemma_filtered_keeps(ts: Seq<TaskView>, keep: spec_fn(TaskView) -> bool)
    ensures
        forall|i: int| 0 <= i < filtered(ts, keep).len() ==> keep(#[trigger] filtered(ts, keep)[i]),
        forall|i: int| 0 <= i < filtered(ts, keep).len() ==> ts.contains(#[trigger] filtered(ts, keep)[i]),
    decreases ts.len(),
{
    if ts.len() > 0 {
        lemma_filtered_keeps(ts.drop_last(), keep);
        let f = filtered(ts.drop_last(), keep);
        assert forall|i: int| 0 <= i < filtered(ts, keep).len() implies ts.contains(#[trigger] filtered(ts, keep)[i]) by {
            if i < f.len() {
                let x = f[i];
                assert(ts.drop_last().contains(x));
                let j = choose|j: int| 0 <= j < ts.drop_last().len() && ts.drop_last()[j] == x;
                assert(ts[j] == x);
            } else {
                assert(ts[ts.len() - 1] == ts.last());
            }
        }
    }
}

proof fn lemma_filter_all(ts: Seq<TaskView>, keep: spec_fn(TaskView) -> bool)
    requires
        forall|i: int| 0 <= i < ts.len() ==> keep(#[trigger] ts[i]),
    ensures
        filtered(ts, keep) == ts,
        rejected(ts, keep) == 0,
    decreases ts.len(),
{
    if ts.len() > 0 {
        assert forall|i: int| 0 <= i < ts.drop_last().len() implies keep(#[trigger] ts.drop_last()[i]) by {
            assert(ts.drop_last()[i] == ts[i]);
        }
        lemma_filter_all(ts.drop_last(), keep);
        assert(keep(ts[ts.len() - 1]));
        assert(ts.drop_last().push(ts.last()) =~= ts);
    }
}

/// Clearing finished tasks leaves only unfinished ones, taken from the
/// list, and clearing again drops nothing.
pub proof fn lemma_clear_settles(ts: Seq<TaskView>)
    ensures
        forall|i: int| 0 <= i < filtered(ts, unfinished()).len() ==> !is_terminal(#[trigger] filtered(ts, unfinished())[i].status),
        forall|i: int| 0 <= i < filtered(ts, unfinished()).len() ==> ts.contains(#[trigger] filtered(ts, unfinished())[i]),
        filtered(filtered(ts, unfinished()), unfinished()) == filtered(ts, unfinished()),
        rejected(filtered(ts, unfinished()), unfinished()) == 0,
{
    lemma_filtered_keeps(ts, unfinished());
    let f = filtered(ts, unfinished());
    assert forall|i: int| 0 <= i < f.len() implies unfinished()(#[trigger] f[i]) by {}
    lemma_filter_all(f, unfinished());
}

/// After removing the tasks with an id, no task has it.
pub proof fn lemma_removed_gone(ts: Seq<TaskView>, id: Seq<char>)
    ensures
        index_of(filtered(ts, other_id(id)), id) == -1,
{
    lemma_filtered_keeps(ts, other_id(id));
    let f = filtered(ts, other_id(id));
    lemma_index_of(f, id);
    if index_of(f, id) >= 0 {
        assert(other_id(id)(f[index_of(f, id)]));
    }
}

/// A recorded download blocks a second download of the same file while it
/// is unfinished.
pub proof fn lemma_recorded_blocks(t: TaskView, ts: Seq<TaskView>)
    requires
        !is_terminal(t.status),
    ensures
        in_flight(seq![t] + ts, t.dir, t.out),
{
    assert((seq![t] + ts)[0] == t);
}

/// Folding the same engine reports in twice changes nothing the second
/// time.
pub proof fn lemma_reconcile_idempotent(t: TaskView, us: Seq<(Seq<char>, UpdateView)>, now: u64)
    ensures
        reconciled(reconciled(t, us, now), us, now) == reconciled(t, us, now),
{
}

proof fn lemma_index_of_update(ts: Seq<TaskView>, id: Seq<char>, i: int, x: TaskView)
    requires
        0 <= i < ts.len(),
        x.id == ts[i].id,
    ensures
        index_of(ts.update(i, x), id) == index_of(ts, id),
    decreases ts.len(),
{
    if ts.len() > 0 {
        let u = ts.update(i, x);
        if i < ts.len() - 1 {
            assert(u.drop_last() =~= ts.drop_last().update(i, x));
            lemma_index_of_update(ts.drop_last(), id, i, x);
            assert(u.last() == ts.last());
        } else {
            assert(u.drop_last() =~= ts.drop_last());
        }
    }
}

/// Pausing a task and then resuming it makes it active again and hands its
/// engine id back for unpausing: the list is the one before the pause but
/// for that task's state (active) and time stamp.
pub proof fn lemma_pause_resume(ts: Seq<TaskView>, id: Seq<char>, t1: u64, t2: u64)
    requires
        index_of(ts, id) >= 0,
    ensures
        ({
            let i = index_of(ts, id);
            let p = ts.update(i, paused(ts[i], t1));
            &&& index_of(p, id) == i
            &&& p[i].status == DlStatus::Paused
            &&& p[i].gid == ts[i].gid
            &&& p.update(i, TaskView { status: DlStatus::Active, updated_at: t2, ..p[i] })
                == ts.update(i, TaskView { status: DlStatus::Active, updated_at: t2, ..ts[i] })
        }),
{
    lemma_index_of(ts, id);
    let i = index_of(ts, id);
    lemma_index_of_update(ts, id, i, paused(ts[i], t1));
    let p = ts.update(i, paused(ts[i], t1));
    assert(p.update(i, TaskView { status: DlStatus::Active, updated_at: t2, ..p[i] })
        =~= ts.update(i, TaskView { status: DlStatus::Active, updated_at: t2, ..ts[i] }));
}

/// A cancelled task is resumed by downloading it again: resuming it asks
/// for a retry, and the retry queues it afresh (active, no error, counters
/// cleared) from its URL, directory and file name, its old engine id to be
/// forgotten.
pub proof fn lemma_cancel_retry(ts: Seq<TaskView>, id: Seq<char>, t1: u64, t2: u64)
    requires
        index_of(ts, id) >= 0,
    ensures
        ({
            let i = index_of(ts, id);
            let c = ts.update(i, cancelled(ts[i], t1));
            &&& index_of(c, id) == i
            &&& c[i].status == DlStatus::Cancelled
            &&& (c[i].url, c[i].dir, c[i].out, c[i].gid, c[i].source) == (ts[i].url, ts[i].dir, ts[i].out, ts[i].gid, ts[i].source)
            &&& c.update(i, restarted(c[i], t2)) == ts.update(i, restarted(ts[i], t2))
        }),
{
    lemma_index_of(ts, id);
    let i = index_of(ts, id);
    lemma_index_of_update(ts, id, i, cancelled(ts[i], t1));
    let c = ts.update(i, cancelled(ts[i], t1));
    assert(c.update(i, restarted(c[i], t2)) =~= ts.update(i, restarted(ts[i], t2)));
}

/// A download directory stays under the download root: it is the root
/// joined with one or two names (publisher, model) that each stay in
/// place, made only of letters, digits, `.`, `-`, `_` and space, neither
/// `.` nor `..`, and without a path separator (`/` or `\\`).
pub proof fn lemma_target_under_root(root: Seq<char>, repo: Seq<char>)
    ensures
        ({
            let (author, name) = id_parts(repo);
            &&& stays_in_place(safe_part(name))
            &&& stays_in_place(safe_part(author))
            &&& !safe_part(name).contains('/') && !safe_part(name).contains('\\')
            &&& !safe_part(author).contains('/') && !safe_part(author).contains('\\')
            &&& target_dir(root, repo) == if author.len() == 0 {
                joined(root, safe_part(name))
            } else {
                joined(joined(root, safe_part(author)), safe_part(name))
            }
        }),
{
    let (author, name) = id_parts(repo);
    lemma_safe_part_stays(name);
    lemma_safe_part_stays(author);
    lemma_no_separator(safe_part(name));
    lemma_no_separator(safe_part(author));
}

proof fn lemma_no_separator(p: Seq<char>)
    requires
        stays_in_place(p),
    ensures
        !p.contains('/') && !p.contains('\\'),
{
    if p.contains('/') {
        let i = choose|i: int| 0 <= i < p.len() && p[i] == '/';
        assert(p[i] == '/');
    }
    if p.contains('\\') {
        let i = choose|i: int| 0 <= i < p.len() && p[i] == '\\';
        assert(p[i] == '\\');
    }
}

proof fn lemma_safe_part_stays(s: Seq<char>)
    ensures
        stays_in_place(safe_part(s)),
{
    reveal_strlit(".");
    reveal_strlit("..");
    let t = sanitized(s);
    if t == "."@ || t == ".."@ {
        let u = Seq::new(t.len(), |i: int| '_');
        assert(u != "."@) by {
            assert(u[0] == '_');
        }
        assert(u != ".."@) by {
            if u.len() == 2 {
                assert(u[0] == '_');
            }
        }
    }
}

/// The state an engine entry reports, when it carries an update.
pub open spec fn reported_status(e: Aria2Entry) -> Option<DlStatus> {
    match entry_update(e) {
        Some(u) => Some(u.1.status),
        None => None,
    }
}

/// What the engine's status words mean for a reported download: `active`
/// runs, `waiting` is queued (behind the concurrent-download limit),
/// `paused` is paused, `complete` finished, `error` failed, `removed`
/// cancelled; an entry with another word, or without an id, carries no
/// update. Only finished downloads are forgotten by the engine: a queued,
/// running or paused one is not.
pub proof fn lemma_engine_status_words(e: Aria2Entry)
    ensures
        opt_str(e.gid) is Some && opt_str(e.status) == Some("active"@) ==> reported_status(e) == Some(DlStatus::Active),
        opt_str(e.gid) is Some && opt_str(e.status) == Some("waiting"@) ==> reported_status(e) == Some(DlStatus::Queued),
        opt_str(e.gid) is Some && opt_str(e.status) == Some("paused"@) ==> reported_status(e) == Some(DlStatus::Paused),
        opt_str(e.gid) is Some && opt_str(e.status) == Some("complete"@) ==> reported_status(e) == Some(DlStatus::Completed),
        opt_str(e.gid) is Some && opt_str(e.status) == Some("error"@) ==> reported_status(e) == Some(DlStatus::Error),
        opt_str(e.gid) is Some && opt_str(e.status) == Some("removed"@) ==> reported_status(e) == Some(DlStatus::Cancelled),
        opt_str(e.gid) is None ==> entry_update(e) is None,
        !(opt_str(e.status) == Some("active"@) || opt_str(e.status) == Some("waiting"@) || opt_str(e.status) == Some("paused"@)
            || opt_str(e.status) == Some("complete"@) || opt_str(e.status) == Some("error"@) || opt_str(e.status) == Some("removed"@))
            ==> entry_update(e) is None,
        reported_status(e) matches Some(st) ==> (is_terminal(st) <==> (opt_str(e.status) == Some("complete"@)
            || opt_str(e.status) == Some("error"@) || opt_str(e.status) == Some("removed"@))),
{
    reveal_strlit("active");
    reveal_strlit("waiting");
    reveal_strlit("paused");
    reveal_strlit("complete");
    reveal_strlit("error");
    reveal_strlit("removed");
    assert("waiting"@ != "active"@) by { assert("waiting"@.len() != "active"@.len()); }
    assert("paused"@ != "active"@) by { assert("paused"@[0] != "active"@[0]); }
    assert("paused"@ != "waiting"@) by { assert("paused"@.len() != "waiting"@.len()); }
    assert("complete"@ != "active"@) by { assert("complete"@.len() != "active"@.len()); }
    assert("complete"@ != "waiting"@) by { assert("complete"@.len() != "waiting"@.len()); }
    assert("complete"@ != "paused"@) by { assert("complete"@.len() != "paused"@.len()); }
    assert("error"@ != "active"@) by { assert("error"@.len() != "active"@.len()); }
    assert("error"@ != "waiting"@) by { assert("error"@.len() != "waiting"@.len()); }
    assert("error"@ != "paused"@) by { assert("error"@.len() != "paused"@.len()); }
    assert("error"@ != "complete"@) by { assert("error"@.len() != "complete"@.len()); }
    assert("removed"@ != "active"@) by { assert("removed"@.len() != "active"@.len()); }
    assert("removed"@ != "waiting"@) by { assert("removed"@[0] != "waiting"@[0]); }
    assert("removed"@ != "paused"@) by { assert("removed"@.len() != "paused"@.len()); }
    assert("removed"@ != "complete"@) by { assert("removed"@.len() != "complete"@.len()); }
    assert("removed"@ != "error"@) by { assert("removed"@.len() != "error"@.len()); }
}

/// Sanitizing keeps the length, and a sanitized name stays as it is.
pub proof fn lemma_sanitize_idempotent(s: Seq<char>)
    ensures
        sanitized(s).len() == s.len(),
        sanitized(sanitized(s)) == sanitized(s),
{
    assert(sanitized(sanitized(s)) =~= sanitized(s));
}

} // verus!
