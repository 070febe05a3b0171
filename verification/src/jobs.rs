//! The table of background jobs: job ids, the current and previous job,
//! the `jobs` listing and the reaping of finished jobs.
use vstd::prelude::*;
use std::collections::BTreeSet;
use crate::text::{decimal, pad_right, push_decimal, push_spaces, push_str, push_str_chars, spaces};

verus! {

broadcast use vstd::laws_cmp::group_laws_cmp;

/// The state of a background job.
#[derive(Debug, PartialEq, Eq, Clone, Copy, Structural)]
pub enum JobStatus {
    Running,
    Stopped,
    Done,
}

/// One background job.
pub struct JobEntry {
    pub job_id: usize,
    pub pid: u32,
    pub status: JobStatus,
    pub cmd: String,
}

/// The background jobs of a shell session.
pub struct JobTable {
    pub jobs: Vec<JobEntry>,
    pub free_list: BTreeSet<usize>,
    pub next_id: usize,
    pub current_job_id: Option<usize>,
    pub prev_job_id: Option<usize>,
}

/// A job table as values: the jobs, the ids free for reuse, the next fresh
/// id, the current job and the previous job.
pub type TableView = (Seq<JobEntry>, Set<usize>, usize, Option<usize>, Option<usize>);

impl View for JobTable {
    type V = TableView;

    open spec fn view(&self) -> TableView {
        (self.jobs@, self.free_list@, self.next_id, self.current_job_id, self.prev_job_id)
    }
}

/// `x` is the least element of `s`.
pub open spec fn is_least(s: Set<usize>, x: usize) -> bool {
    s.contains(x) && forall|y: usize| #[trigger] s.contains(y) ==> x <= y
}

/// `BTreeSet::pop_first`. Trusted: it removes and returns the least element
/// of the set, and returns `None` and leaves the set as it is when the set is
/// empty.
#[verifier::external_body]
fn pop_first(set: &mut BTreeSet<usize>) -> (r: Option<usize>)
    ensures
        match r {
            Some(x) => is_least(old(set)@, x) && final(set)@ == old(set)@.remove(x),
            None => old(set)@ == Set::<usize>::empty() && final(set)@ == old(set)@,
        },
{
    set.pop_first()
}

/// A well-formed table: the next fresh id is positive, every job has its
/// own id, no job's id is free for reuse, and every id in use or free lies
/// between 1 and the next fresh id.
pub open spec fn table_wf(t: TableView) -> bool {
    let (jobs, free, next, _cur, _prev) = t;
    &&& 0 < next
    &&& forall|a: int, b: int|
        0 <= a < jobs.len() && 0 <= b < jobs.len() && a != b ==> #[trigger] jobs[a].job_id
            != #[trigger] jobs[b].job_id
    &&& forall|k: int|
        0 <= k < jobs.len() ==> 0 < #[trigger] jobs[k].job_id < next && !free.contains(
            jobs[k].job_id,
        )
    &&& forall|id: usize| #[trigger] free.contains(id) ==> 0 < id < next
}

/// The id that allocation hands out: the least free id, else the next fresh one.
pub open spec fn allocated_id(t: TableView) -> usize {
    if t.1 == Set::<usize>::empty() {
        t.2
    } else {
        choose|x: usize| is_least(t.1, x)
    }
}

/// The table after an id is allocated.
pub open spec fn after_allocate(t: TableView) -> TableView {
    let (jobs, free, next, cur, prev) = t;
    if free == Set::<usize>::empty() {
        (jobs, free, (next + 1) as usize, cur, prev)
    } else {
        (jobs, free.remove(allocated_id(t)), next, cur, prev)
    }
}

/// The table with a job started in the background: what
/// `add_background_job` leaves.
pub open spec fn with_background_job(t: TableView, id: usize, pid: u32, cmd: String) -> TableView {
    let a = after_allocate(t);
    (t.0.push(JobEntry { job_id: id, pid: pid, status: JobStatus::Running, cmd: cmd }), a.1, a.2,
        Some(id), t.3)
}

/// The marker of a job in listings: `+` for the current job, `-` for the
/// previous one, a space otherwise.
pub open spec fn marker(cur: Option<usize>, prev: Option<usize>, id: usize) -> Seq<char> {
    if cur == Some(id) {
        seq!['+']
    } else if prev == Some(id) {
        seq!['-']
    } else {
        seq![' ']
    }
}

/// The jobs that are not done, in order.
pub open spec fn not_done(jobs: Seq<JobEntry>) -> Seq<JobEntry>
    decreases jobs.len(),
{
    if jobs.len() == 0 {
        Seq::empty()
    } else if jobs[0].status == JobStatus::Done {
        not_done(jobs.drop_first())
    } else {
        seq![jobs[0]] + not_done(jobs.drop_first())
    }
}

/// The ids of the jobs that are done.
pub open spec fn done_ids(jobs: Seq<JobEntry>) -> Set<usize> {
    Set::new(
        |id: usize|
            exists|k: int|
                0 <= k < jobs.len() && #[trigger] jobs[k].status == JobStatus::Done && jobs[k].job_id
                    == id,
    )
}

/// Some job that is done is the current job.
pub open spec fn current_is_done(jobs: Seq<JobEntry>, cur: Option<usize>) -> bool {
    exists|k: int|
        0 <= k < jobs.len() && #[trigger] jobs[k].status == JobStatus::Done && Some(jobs[k].job_id)
            == cur
}

/// The greatest id among the jobs other than `cur`, if there is one.
pub open spec fn max_id_except(jobs: Seq<JobEntry>, cur: Option<usize>) -> Option<usize>
    decreases jobs.len(),
{
    if jobs.len() == 0 {
        None
    } else {
        let rest = max_id_except(jobs.drop_last(), cur);
        let id = jobs.last().job_id;
        if Some(id) == cur {
            rest
        } else {
            match rest {
                None => Some(id),
                Some(m) => Some(if id >= m { id } else { m }),
            }
        }
    }
}

/// The table once the jobs that are done are taken out: their ids become
/// free, the previous job becomes current if the current one was done, and
/// the previous job becomes the job with the greatest id other than the
/// current one.
pub open spec fn without_done(t: TableView) -> TableView {
    let (jobs, free, next, cur, prev) = t;
    let new_cur = if current_is_done(jobs, cur) { prev } else { cur };
    let kept = not_done(jobs);
    (kept, free.union(done_ids(jobs)), next, new_cur, max_id_except(kept, new_cur))
}

/// A job listed by `jobs`: its status word, left-aligned in 24 columns.
pub open spec fn status_field(s: JobStatus) -> Seq<char> {
    match s {
        JobStatus::Running => pad_right("Running"@, 24),
        JobStatus::Done => pad_right("Done"@, 24),
        JobStatus::Stopped => pad_right("Stopped"@, 24),
    }
}

/// The line that `jobs` prints for a job.
pub open spec fn job_line(job: JobEntry, cur: Option<usize>, prev: Option<usize>) -> Seq<char> {
    let m = marker(cur, prev, job.job_id);
    let cmd = if job.status == JobStatus::Done { job.cmd@ } else { job.cmd@ + seq![' ', '&'] };
    if m == seq![' '] {
        seq!['['] + decimal(job.job_id as nat) + seq![']', ' ', ' ', ' '] + status_field(job.status) + cmd + seq!['\n']
    } else {
        seq!['['] + decimal(job.job_id as nat) + seq![']'] + m + seq![' ', ' '] + status_field(job.status) + cmd + seq!['\n']
    }
}

/// The output of `jobs`: one line per job, in order.
pub open spec fn jobs_listing(jobs: Seq<JobEntry>, cur: Option<usize>, prev: Option<usize>) -> Seq<char>
    decreases jobs.len(),
{
    if jobs.len() == 0 {
        Seq::empty()
    } else {
        jobs_listing(jobs.drop_last(), cur, prev) + job_line(jobs.last(), cur, prev)
    }
}

/// The line announcing that a job is done.
pub open spec fn done_notice(job: JobEntry, cur: Option<usize>, prev: Option<usize>) -> Seq<char> {
    seq!['['] + decimal(job.job_id as nat) + seq![']'] + marker(cur, prev, job.job_id) + seq![' ', ' ']
        + pad_right("Done"@, 24) + job.cmd@ + seq!['\n']
}

/// The announcements of the jobs that are done, in order.
pub open spec fn done_notices(jobs: Seq<JobEntry>, cur: Option<usize>, prev: Option<usize>) -> Seq<char>
    decreases jobs.len(),
{
    if jobs.len() == 0 {
        Seq::empty()
    } else if jobs.last().status == JobStatus::Done {
        done_notices(jobs.drop_last(), cur, prev) + done_notice(jobs.last(), cur, prev)
    } else {
        done_notices(jobs.drop_last(), cur, prev)
    }
}

/// What `waitpid` reported for a job.
#[derive(Debug, PartialEq, Eq, Clone, Copy, Structural)]
pub enum WaitOutcome {
    /// The process exited.
    Exited,
    /// A signal ended the process.
    Signaled,
    /// A signal stopped the process.
    Stopped,
    /// Anything else: still running, continued, or an error.
    Other,
}

/// A job's status after `waitpid` reported `w` for it.
pub open spec fn status_after(s: JobStatus, w: WaitOutcome) -> JobStatus {
    match w {
        WaitOutcome::Exited => JobStatus::Done,
        WaitOutcome::Signaled => JobStatus::Done,
        WaitOutcome::Stopped => JobStatus::Stopped,
        WaitOutcome::Other => s,
    }
}

/// The jobs with their statuses brought up to date.
pub open spec fn updated_jobs(jobs: Seq<JobEntry>, ws: Seq<WaitOutcome>) -> Seq<JobEntry> {
    Seq::new(
        jobs.len(),
        |k: int|
            JobEntry {
                job_id: jobs[k].job_id,
                pid: jobs[k].pid,
                status: status_after(jobs[k].status, ws[k]),
                cmd: jobs[k].cmd,
            },
    )
}

fn is_some_of(o: Option<usize>, v: usize) -> (r: bool)
    ensures
        r == (o == Some(v)),
{
    match o {
        Some(x) => x == v,
        None => false,
    }
}

proof fn lemma_done_unfold(s: Seq<JobEntry>, cur: Option<usize>)
    requires
        s.len() > 0,
    ensures
        done_ids(s) == if s[0].status == JobStatus::Done {
            done_ids(s.drop_first()).insert(s[0].job_id)
        } else {
            done_ids(s.drop_first())
        },
        current_is_done(s, cur) == ((s[0].status == JobStatus::Done && Some(s[0].job_id) == cur)
            || current_is_done(s.drop_first(), cur)),
{
    let t = s.drop_first();
    let expected = if s[0].status == JobStatus::Done {
        done_ids(t).insert(s[0].job_id)
    } else {
        done_ids(t)
    };
    assert forall|id: usize| #[trigger] done_ids(s).contains(id) <==> expected.contains(id) by {
        if done_ids(s).contains(id) {
            let k = choose|k: int| 0 <= k < s.len() && #[trigger] s[k].status == JobStatus::Done && s[k].job_id == id;
            if k > 0 {
                assert(t[k - 1] == s[k]);
            }
        }
        if done_ids(t).contains(id) {
            let k = choose|k: int| 0 <= k < t.len() && #[trigger] t[k].status == JobStatus::Done && t[k].job_id == id;
            assert(s[k + 1] == t[k]);
        }
        if s[0].status == JobStatus::Done && id == s[0].job_id {
            assert(s[0].status == JobStatus::Done);
        }
    }
    assert(done_ids(s) =~= expected);
    if current_is_done(s, cur) {
        let k = choose|k: int| 0 <= k < s.len() && #[trigger] s[k].status == JobStatus::Done && Some(s[k].job_id) == cur;
        if k > 0 {
            assert(t[k - 1] == s[k]);
        }
    }
    if current_is_done(t, cur) {
        let k = choose|k: int| 0 <= k < t.len() && #[trigger] t[k].status == JobStatus::Done && Some(t[k].job_id) == cur;
        assert(s[k + 1] == t[k]);
    }
    if s[0].status == JobStatus::Done && Some(s[0].job_id) == cur {
        assert(s[0].status == JobStatus::Done);
    }
}

/// The job table a shell session starts with: no jobs, no free ids, the
/// first id 1, no current and no previous job.
pub fn get_job_table() -> (t: JobTable)
    ensures
        t@ == (Seq::<JobEntry>::empty(), Set::<usize>::empty(), 1usize, None::<usize>, None::<usize>),
        table_wf(t@),
{
    let t = JobTable {
        jobs: Vec::new(),
        free_list: BTreeSet::new(),
        next_id: 1,
        current_job_id: None,
        prev_job_id: None,
    };
    t
}

impl JobTable {
    /// Hands out a job id: the least free id if there is one, else the next
    /// fresh id, which then advances.
    pub fn allocate_job_id(&mut self) -> (id: usize)
        requires
            old(self).free_list@ == Set::<usize>::empty() ==> old(self).next_id < usize::MAX,
        ensures
            id == allocated_id(old(self)@),
            final(self)@ == after_allocate(old(self)@),
            old(self).free_list@ != Set::<usize>::empty() ==> is_least(old(self).free_list@, id),
    {
        match pop_first(&mut self.free_list) {
            Some(x) => {
                proof {
                    let y = choose|y: usize| is_least(old(self).free_list@, y);
                    assert(x <= y && y <= x);
                }
                x
            },
            None => {
                let id = self.next_id;
                self.next_id = self.next_id + 1;
                id
            },
        }
    }

    /// Makes `id` free for reuse.
    pub fn free_job_id(&mut self, id: usize)
        ensures
            final(self)@ == (old(self).jobs@, old(self).free_list@.insert(id), old(self).next_id,
                old(self).current_job_id, old(self).prev_job_id),
    {
        self.free_list.insert(id);
    }

    /// Takes the jobs that are done out of the table, as `without_done` says.
    pub fn remove_done_jobs(&mut self)
        ensures
            final(self)@ == without_done(old(self)@),
    {
        let ghost old_jobs = self.jobs@;
        let ghost old_free = self.free_list@;
        let mut current_removed = false;
        let mut i = self.jobs.len();
        assert(old_jobs.skip(i as int) =~= Seq::<JobEntry>::empty());
        assert(old_jobs.take(i as int) =~= old_jobs);
        assert(done_ids(Seq::<JobEntry>::empty()) =~= Set::<usize>::empty());
        assert(old_free.union(Set::<usize>::empty()) =~= old_free);
        while i > 0
            invariant
                i <= old_jobs.len(),
                self.jobs@ == old_jobs.take(i as int) + not_done(old_jobs.skip(i as int)),
                self.free_list@ == old_free.union(done_ids(old_jobs.skip(i as int))),
                current_removed == current_is_done(old_jobs.skip(i as int), self.current_job_id),
                self.next_id == old(self).next_id,
                self.current_job_id == old(self).current_job_id,
                self.prev_job_id == old(self).prev_job_id,
                old_jobs == old(self).jobs@,
                old_free == old(self).free_list@,
            decreases i,
        {
            i -= 1;
            let ghost s = old_jobs.skip(i as int);
            proof {
                assert(s.drop_first() =~= old_jobs.skip(i + 1));
                assert(s[0] == old_jobs[i as int]);
                lemma_done_unfold(s, self.current_job_id);
                assert(old_jobs.take(i + 1) =~= old_jobs.take(i as int).push(old_jobs[i as int]));
            }
            assert(self.jobs@[i as int] == old_jobs[i as int]);
            if self.jobs[i].status == JobStatus::Done {
                let job = self.jobs.remove(i);
                if is_some_of(self.current_job_id, job.job_id) {
                    current_removed = true;
                }
                self.free_job_id(job.job_id);
                assert(self.jobs@ =~= old_jobs.take(i as int) + not_done(s));
                assert(self.free_list@ =~= old_free.union(done_ids(s)));
            } else {
                assert(self.jobs@ =~= old_jobs.take(i as int) + not_done(s));
            }
        }
        assert(old_jobs.skip(0) =~= old_jobs);
        assert(old_jobs.take(0) =~= Seq::<JobEntry>::empty());
        assert(self.jobs@ =~= not_done(old_jobs));
        if current_removed {
            self.current_job_id = self.prev_job_id;
        }
        let current = self.current_job_id;
        let mut best: Option<usize> = None;
        let mut k: usize = 0;
        assert(self.jobs@.take(0) =~= Seq::<JobEntry>::empty());
        while k < self.jobs.len()
            invariant
                k <= self.jobs.len(),
                best == max_id_except(self.jobs@.take(k as int), current),
            decreases self.jobs.len() - k,
        {
            let id = self.jobs[k].job_id;
            proof {
                let t = self.jobs@.take(k + 1);
                assert(t.drop_last() =~= self.jobs@.take(k as int));
                assert(t.last() == self.jobs@[k as int]);
            }
            if !is_some_of(current, id) {
                best = match best {
                    None => Some(id),
                    Some(m) => Some(if id >= m { id } else { m }),
                };
            }
            k += 1;
        }
        assert(self.jobs@.take(k as int) =~= self.jobs@);
        self.prev_job_id = best;
    }

    /// Registers a job started in the background: allocates its id, appends
    /// it as running, makes it the current job and the old current job the
    /// previous one. Returns the job's id.
    pub fn add_background_job(&mut self, pid: u32, cmd: String) -> (id: usize)
        requires
            old(self).free_list@ == Set::<usize>::empty() ==> old(self).next_id < usize::MAX,
        ensures
            id == allocated_id(old(self)@),
            final(self)@ == with_background_job(old(self)@, id, pid, cmd),
    {
        let id = self.allocate_job_id();
        self.jobs.push(JobEntry { job_id: id, pid, status: JobStatus::Running, cmd });
        self.prev_job_id = self.current_job_id;
        self.current_job_id = Some(id);
        id
    }

    /// Brings each job's status up to date from what `waitpid` reported for
    /// it (`outcomes[k]` for `jobs[k]`).
    pub fn apply_wait_outcomes(&mut self, outcomes: &Vec<WaitOutcome>)
        requires
            outcomes.len() == old(self).jobs.len(),
        ensures
            final(self)@ == (updated_jobs(old(self).jobs@, outcomes@), old(self).free_list@,
                old(self).next_id, old(self).current_job_id, old(self).prev_job_id),
    {
        let mut i: usize = 0;
        while i < self.jobs.len()
            invariant
                i <= self.jobs.len(),
                self.jobs.len() == old(self).jobs.len(),
                outcomes.len() == old(self).jobs.len(),
                forall|k: int| 0 <= k < i ==> #[trigger] self.jobs@[k] == updated_jobs(old(self).jobs@, outcomes@)[k],
                forall|k: int| i <= k < self.jobs.len() ==> #[trigger] self.jobs@[k] == old(self).jobs@[k],
                self.free_list@ == old(self).free_list@,
                self.next_id == old(self).next_id,
                self.current_job_id == old(self).current_job_id,
                self.prev_job_id == old(self).prev_job_id,
            decreases self.jobs.len() - i,
        {
            let new_status = match outcomes[i] {
                WaitOutcome::Exited => JobStatus::Done,
                WaitOutcome::Signaled => JobStatus::Done,
                WaitOutcome::Stopped => JobStatus::Stopped,
                WaitOutcome::Other => self.jobs[i].status,
            };
            self.jobs[i].status = new_status;
            i += 1;
        }
        assert(self.jobs@ =~= updated_jobs(old(self).jobs@, outcomes@));
    }

    /// The marker of job `job_id` in listings.
    pub fn job_marker(&self, job_id: usize) -> (m: &'static str)
        ensures
            m@ == marker(self.current_job_id, self.prev_job_id, job_id),
    {
        if is_some_of(self.current_job_id, job_id) {
            proof {
                reveal_strlit("+");
            }
            "+"
        } else if is_some_of(self.prev_job_id, job_id) {
            proof {
                reveal_strlit("-");
            }
            "-"
        } else {
            proof {
                reveal_strlit(" ");
            }
            " "
        }
    }
}

fn push_padded_word(s: &mut String, word: &'static str, pad: usize)
    requires
        word@.len() + pad == 24,
    ensures
        final(s)@ == old(s)@ + pad_right(word@, 24),
{
    push_str(s, word);
    push_spaces(s, pad);
    assert(old(s)@ + word@ + spaces(pad as nat) =~= old(s)@ + pad_right(word@, 24));
}

fn push_status_field(s: &mut String, st: JobStatus)
    ensures
        final(s)@ == old(s)@ + status_field(st),
{
    match st {
        JobStatus::Running => {
            proof {
                reveal_strlit("Running");
            }
            push_padded_word(s, "Running", 17);
        },
        JobStatus::Done => {
            proof {
                reveal_strlit("Done");
            }
            push_padded_word(s, "Done", 20);
        },
        JobStatus::Stopped => {
            proof {
                reveal_strlit("Stopped");
            }
            push_padded_word(s, "Stopped", 17);
        },
    }
}

fn push_marker(s: &mut String, cur: Option<usize>, prev: Option<usize>, id: usize)
    ensures
        final(s)@ == old(s)@ + marker(cur, prev, id),
{
    if is_some_of(cur, id) {
        push_str_chars(s, &['+']);
    } else if is_some_of(prev, id) {
        push_str_chars(s, &['-']);
    } else {
        push_str_chars(s, &[' ']);
    }
}

fn push_job_line(s: &mut String, job: &JobEntry, cur: Option<usize>, prev: Option<usize>)
    ensures
        final(s)@ == old(s)@ + job_line(*job, cur, prev),
{
    let ghost s0 = s@;
    let plain = !is_some_of(cur, job.job_id) && !is_some_of(prev, job.job_id);
    let ghost m = marker(cur, prev, job.job_id);
    if !plain {
        assert(m[0] != ' ');
    }
    assert(plain == (m == seq![' ']));
    push_str_chars(s, &['[']);
    push_decimal(s, job.job_id);
    let ghost head;
    if plain {
        push_str_chars(s, &[']', ' ', ' ', ' ']);
        proof {
            head = seq!['['] + decimal(job.job_id as nat) + seq![']', ' ', ' ', ' '];
            assert(s@ =~= s0 + head);
        }
    } else {
        push_str_chars(s, &[']']);
        push_marker(s, cur, prev, job.job_id);
        push_str_chars(s, &[' ', ' ']);
        proof {
            head = seq!['['] + decimal(job.job_id as nat) + seq![']'] + m + seq![' ', ' '];
            assert(s@ =~= s0 + head);
        }
    }
    push_status_field(s, job.status);
    let ghost s1 = s@;
    assert(s1 =~= s0 + (head + status_field(job.status)));
    push_str(s, job.cmd.as_str());
    let ghost cmd = if job.status == JobStatus::Done { job.cmd@ } else { job.cmd@ + seq![' ', '&'] };
    if job.status != JobStatus::Done {
        push_str_chars(s, &[' ', '&']);
    }
    assert(s@ =~= s1 + cmd);
    push_str_chars(s, &['\n']);
    assert(s@ =~= s0 + (head + status_field(job.status) + cmd + seq!['\n']));
}

fn push_done_notice(s: &mut String, job: &JobEntry, cur: Option<usize>, prev: Option<usize>)
    ensures
        final(s)@ == old(s)@ + done_notice(*job, cur, prev),
{
    push_str_chars(s, &['[']);
    push_decimal(s, job.job_id);
    push_str_chars(s, &[']']);
    push_marker(s, cur, prev, job.job_id);
    push_str_chars(s, &[' ', ' ']);
    proof {
        reveal_strlit("Done");
    }
    push_padded_word(s, "Done", 20);
    push_str(s, job.cmd.as_str());
    push_str_chars(s, &['\n']);
    assert(final(s)@ =~= old(s)@ + done_notice(*job, cur, prev));
}

/// The output of the `jobs` builtin: one line per job; afterwards the jobs
/// that are done are taken out of the table.
pub fn list_jobs(table: &mut JobTable) -> (out: String)
    ensures
        out@ == jobs_listing(old(table).jobs@, old(table).current_job_id, old(table).prev_job_id),
        final(table)@ == without_done(old(table)@),
{
    let mut out = String::new();
    let mut i: usize = 0;
    assert(table.jobs@.take(0) =~= Seq::<JobEntry>::empty());
    while i < table.jobs.len()
        invariant
            i <= table.jobs.len(),
            out@ == jobs_listing(table.jobs@.take(i as int), table.current_job_id, table.prev_job_id),
        decreases table.jobs.len() - i,
    {
        push_job_line(&mut out, &table.jobs[i], table.current_job_id, table.prev_job_id);
        proof {
            let t = table.jobs@.take(i + 1);
            assert(t.drop_last() =~= table.jobs@.take(i as int));
            assert(t.last() == table.jobs@[i as int]);
        }
        i += 1;
    }
    assert(table.jobs@.take(i as int) =~= table.jobs@);
    table.remove_done_jobs();
    out
}

/// Brings the jobs' statuses up to date from what `waitpid` reported for
/// each (`outcomes[k]` for the k-th job). When `notify` holds, returns a
/// line for each job that is done and takes those jobs out of the table;
/// otherwise returns nothing more.
pub fn reap_children(table: &mut JobTable, outcomes: &Vec<WaitOutcome>, notify: bool) -> (out: String)
    requires
        outcomes.len() == old(table).jobs.len(),
    ensures
        ({
            let updated = (updated_jobs(old(table).jobs@, outcomes@), old(table).free_list@,
                old(table).next_id, old(table).current_job_id, old(table).prev_job_id);
            if notify {
                &&& out@ == done_notices(updated.0, updated.3, updated.4)
                &&& final(table)@ == without_done(updated)
            } else {
                &&& out@ == Seq::<char>::empty()
                &&& final(table)@ == updated
            }
        }),
{
    table.apply_wait_outcomes(outcomes);
    let mut out = String::new();
    if notify {
        let mut i: usize = 0;
        assert(table.jobs@.take(0) =~= Seq::<JobEntry>::empty());
        while i < table.jobs.len()
            invariant
                i <= table.jobs.len(),
                out@ == done_notices(table.jobs@.take(i as int), table.current_job_id, table.prev_job_id),
            decreases table.jobs.len() - i,
        {
            if table.jobs[i].status == JobStatus::Done {
                push_done_notice(&mut out, &table.jobs[i], table.current_job_id, table.prev_job_id);
            }
            proof {
                let t = table.jobs@.take(i + 1);
                assert(t.drop_last() =~= table.jobs@.take(i as int));
                assert(t.last() == table.jobs@[i as int]);
            }
            i += 1;
        }
        assert(table.jobs@.take(i as int) =~= table.jobs@);
        table.remove_done_jobs();
    }
    out
}

} // verus!
