//! What every operation on the job table keeps, and what repeating one
//! changes.
use vstd::prelude::*;
use crate::jobs::{JobEntry, JobStatus, TableView, WaitOutcome, table_wf, allocated_id, after_allocate, is_least, not_done, done_ids, current_is_done, max_id_except, without_done, updated_jobs, with_background_job, done_notice, done_notices};

verus! {

/// The ids of the jobs are pairwise distinct.
pub open spec fn ids_distinct(s: Seq<JobEntry>) -> bool {
    forall|a: int, b: int|
        0 <= a < s.len() && 0 <= b < s.len() && a != b ==> #[trigger] s[a].job_id != #[trigger] s[b].job_id
}

proof fn lemma_not_done(s: Seq<JobEntry>)
    ensures
        forall|k: int|
            0 <= k < not_done(s).len() ==> (#[trigger] not_done(s)[k]).status != JobStatus::Done
                && exists|j: int| 0 <= j < s.len() && s[j] == not_done(s)[k],
        ids_distinct(s) ==> ids_distinct(not_done(s)),
    decreases s.len(),
{
    if s.len() > 0 {
        let rest = s.drop_first();
        lemma_not_done(rest);
        let nd = not_done(s);
        let ndr = not_done(rest);
        assert forall|k: int| 0 <= k < nd.len() implies (#[trigger] nd[k]).status != JobStatus::Done
            && exists|j: int| 0 <= j < s.len() && s[j] == nd[k] by {
            if s[0].status == JobStatus::Done {
                let j = choose|j: int| 0 <= j < rest.len() && rest[j] == ndr[k];
                assert(s[j + 1] == nd[k]);
            } else if k == 0 {
                assert(s[0] == nd[k]);
            } else {
                assert(nd[k] == ndr[k - 1]);
                let j = choose|j: int| 0 <= j < rest.len() && rest[j] == ndr[k - 1];
                assert(s[j + 1] == nd[k]);
            }
        }
        if ids_distinct(s) {
            assert(ids_distinct(rest)) by {
                assert forall|a: int, b: int|
                    0 <= a < rest.len() && 0 <= b < rest.len() && a != b implies #[trigger] rest[a].job_id
                    != #[trigger] rest[b].job_id by {
                    assert(rest[a] == s[a + 1] && rest[b] == s[b + 1]);
                }
            }
            if s[0].status != JobStatus::Done {
                assert forall|a: int, b: int|
                    0 <= a < nd.len() && 0 <= b < nd.len() && a != b implies #[trigger] nd[a].job_id
                    != #[trigger] nd[b].job_id by {
                    if a == 0 {
                        assert(nd[b] == ndr[b - 1]);
                        let j = choose|j: int| 0 <= j < rest.len() && rest[j] == ndr[b - 1];
                        assert(s[j + 1] == nd[b]);
                    } else if b == 0 {
                        assert(nd[a] == ndr[a - 1]);
                        let j = choose|j: int| 0 <= j < rest.len() && rest[j] == ndr[a - 1];
                        assert(s[j + 1] == nd[a]);
                    } else {
                        assert(nd[a] == ndr[a - 1] && nd[b] == ndr[b - 1]);
                    }
                }
            }
        }
    }
}

proof fn lemma_not_done_of_running(s: Seq<JobEntry>)
    requires
        forall|k: int| 0 <= k < s.len() ==> (#[trigger] s[k]).status != JobStatus::Done,
    ensures
        not_done(s) == s,
    decreases s.len(),
{
    if s.len() > 0 {
        let rest = s.drop_first();
        assert forall|k: int| 0 <= k < rest.len() implies (#[trigger] rest[k]).status != JobStatus::Done by {
            assert(rest[k] == s[k + 1]);
        }
        lemma_not_done_of_running(rest);
        assert(seq![s[0]] + rest =~= s);
    }
}

proof fn lemma_least_exists(s: Set<usize>, x: usize)
    requires
        s.contains(x),
    ensures
        exists|y: usize| is_least(s, y),
    decreases x,
{
    if exists|z: usize| s.contains(z) && z < x {
        let z = choose|z: usize| s.contains(z) && z < x;
        lemma_least_exists(s, z);
    } else {
        assert(is_least(s, x));
    }
}

/// An allocated id is in use by no job and is no longer free; a freed id is
/// handed out before any fresh one; allocation keeps the table well formed.
pub proof fn law_allocate_fresh(t: TableView)
    requires
        table_wf(t),
        t.1 == Set::<usize>::empty() ==> t.2 < usize::MAX,
    ensures
        forall|k: int| 0 <= k < t.0.len() ==> (#[trigger] t.0[k]).job_id != allocated_id(t),
        0 < allocated_id(t) < after_allocate(t).2,
        !after_allocate(t).1.contains(allocated_id(t)),
        t.1 != Set::<usize>::empty() ==> allocated_id(t) < t.2 && is_least(t.1, allocated_id(t)),
        table_wf(after_allocate(t)),
{
    if t.1 != Set::<usize>::empty() {
        let x = t.1.choose();
        assert(t.1.contains(x)) by {
            assert(!(t.1 =~= Set::<usize>::empty()));
        }
        lemma_least_exists(t.1, x);
        let id = allocated_id(t);
        assert(is_least(t.1, id));
        assert forall|k: int| 0 <= k < t.0.len() implies (#[trigger] t.0[k]).job_id != id by {
            assert(0 < t.0[k].job_id < t.2);
        }
    }
}

/// Starting a background job keeps the table well formed: the new job's id
/// differs from every other job's.
pub proof fn law_background_job_wf(t: TableView, pid: u32, cmd: String)
    requires
        table_wf(t),
        t.1 == Set::<usize>::empty() ==> t.2 < usize::MAX,
    ensures
        table_wf(with_background_job(t, allocated_id(t), pid, cmd)),
        forall|k: int|
            0 <= k < t.0.len() ==> (#[trigger] t.0[k]).job_id != allocated_id(t),
{
    law_allocate_fresh(t);
    let id = allocated_id(t);
    let n = with_background_job(t, id, pid, cmd);
    let a = after_allocate(t);
    assert forall|k: int| 0 <= k < n.0.len() implies 0 < #[trigger] n.0[k].job_id < n.2
        && !n.1.contains(n.0[k].job_id) by {
        if k < t.0.len() {
            assert(n.0[k] == t.0[k]);
        }
    }
    assert forall|x: int, y: int|
        0 <= x < n.0.len() && 0 <= y < n.0.len() && x != y implies #[trigger] n.0[x].job_id
        != #[trigger] n.0[y].job_id by {
        if x < t.0.len() && y < t.0.len() {
            assert(n.0[x] == t.0[x] && n.0[y] == t.0[y]);
        } else if x < t.0.len() {
            assert(n.0[x] == t.0[x]);
        } else {
            assert(n.0[y] == t.0[y]);
        }
    }
}

/// Taking out the jobs that are done keeps the table well formed, leaves no
/// job that is done, and never leaves the previous job equal to the current.
pub proof fn law_without_done_wf(t: TableView)
    requires
        table_wf(t),
    ensures
        table_wf(without_done(t)),
        forall|k: int| 0 <= k < without_done(t).0.len() ==> (#[trigger] without_done(t).0[k]).status
            != JobStatus::Done,
        without_done(t).4 is Some ==> without_done(t).4 != without_done(t).3,
{
    let (jobs, free, next, cur, prev) = t;
    lemma_not_done(jobs);
    assert(ids_distinct(jobs));
    let w = without_done(t);
    let nd = not_done(jobs);
    assert forall|k: int| 0 <= k < nd.len() implies 0 < #[trigger] nd[k].job_id < next
        && !w.1.contains(nd[k].job_id) by {
        let j = choose|j: int| 0 <= j < jobs.len() && jobs[j] == nd[k];
        assert(jobs[j] == nd[k]);
        if done_ids(jobs).contains(nd[k].job_id) {
            let d = choose|d: int| 0 <= d < jobs.len() && #[trigger] jobs[d].status == JobStatus::Done && jobs[d].job_id == nd[k].job_id;
            assert(d != j);
        }
    }
    assert forall|id: usize| #[trigger] w.1.contains(id) implies 0 < id < next by {
        if done_ids(jobs).contains(id) {
            let d = choose|d: int| 0 <= d < jobs.len() && #[trigger] jobs[d].status == JobStatus::Done && jobs[d].job_id == id;
            assert(0 < jobs[d].job_id < next);
        }
    }
    lemma_max_id_except(nd, w.3);
}

proof fn lemma_max_id_except(s: Seq<JobEntry>, cur: Option<usize>)
    ensures
        max_id_except(s, cur) is Some ==> max_id_except(s, cur) != cur,
        max_id_except(s, cur) matches Some(p) ==> exists|k: int| 0 <= k < s.len() && (#[trigger] s[k]).job_id == p,
        max_id_except(s, cur) matches Some(p) ==> forall|k: int|
            0 <= k < s.len() && Some((#[trigger] s[k]).job_id) != cur ==> s[k].job_id <= p,
        max_id_except(s, cur) is None ==> forall|k: int| 0 <= k < s.len() ==> Some((#[trigger] s[k]).job_id) == cur,
    decreases s.len(),
{
    if s.len() > 0 {
        let r = s.drop_last();
        lemma_max_id_except(r, cur);
        let n = s.len() - 1;
        assert forall|k: int| 0 <= k < n implies #[trigger] s[k] == r[k] by {}
        if let Some(p) = max_id_except(r, cur) {
            let k = choose|k: int| 0 <= k < r.len() && (#[trigger] r[k]).job_id == p;
            assert(s[k] == r[k]);
        }
        assert(s.last() == s[n]);
    }
}

/// After the jobs that are done are taken out, the previous job is the job
/// with the greatest id other than the current job: when there is one, it
/// is one of the remaining jobs, it is not the current job, and every other
/// remaining job but the current one has a smaller id; when there is none,
/// every remaining job is the current job.
pub proof fn law_previous_is_greatest(t: TableView)
    ensures
        ({
            let w = without_done(t);
            &&& w.4 matches Some(p) ==> {
                &&& w.4 != w.3
                &&& exists|k: int| 0 <= k < w.0.len() && (#[trigger] w.0[k]).job_id == p
                &&& forall|k: int| 0 <= k < w.0.len() && Some((#[trigger] w.0[k]).job_id) != w.3 ==> w.0[k].job_id <= p
            }
            &&& w.4 is None ==> forall|k: int| 0 <= k < w.0.len() ==> Some((#[trigger] w.0[k]).job_id) == w.3
        }),
{
    let w = without_done(t);
    lemma_max_id_except(w.0, w.3);
}

/// The announcements of all the given jobs, one after another.
pub open spec fn notices_of_all(jobs: Seq<JobEntry>, cur: Option<usize>, prev: Option<usize>) -> Seq<char>
    decreases jobs.len(),
{
    if jobs.len() == 0 {
        Seq::empty()
    } else {
        notices_of_all(jobs.drop_last(), cur, prev) + done_notice(jobs.last(), cur, prev)
    }
}

/// The announcements name exactly the jobs that are done, in their order:
/// they are the announcements of the jobs left when those that are not done
/// are filtered out. So where no job is done, nothing is announced.
pub proof fn law_notices_only_done(jobs: Seq<JobEntry>, cur: Option<usize>, prev: Option<usize>)
    ensures
        done_notices(jobs, cur, prev) == notices_of_all(jobs.filter(|j: JobEntry| j.status == JobStatus::Done), cur, prev),
        (forall|k: int| 0 <= k < jobs.len() ==> (#[trigger] jobs[k]).status != JobStatus::Done)
            ==> done_notices(jobs, cur, prev) == Seq::<char>::empty(),
    decreases jobs.len(),
{
    let pred = |j: JobEntry| j.status == JobStatus::Done;
    reveal_with_fuel(Seq::filter, 1);
    if jobs.len() > 0 {
        let r = jobs.drop_last();
        law_notices_only_done(r, cur, prev);
        let fr = r.filter(pred);
        if pred(jobs.last()) {
            let f = fr.push(jobs.last());
            assert(f.drop_last() =~= fr);
            assert(f.last() == jobs.last());
        }
        if forall|k: int| 0 <= k < jobs.len() ==> (#[trigger] jobs[k]).status != JobStatus::Done {
            assert forall|k: int| 0 <= k < r.len() implies (#[trigger] r[k]).status != JobStatus::Done by {
                assert(r[k] == jobs[k]);
            }
            assert(jobs.last() == jobs[jobs.len() - 1]);
        }
    }
}

/// A job that `waitpid` reports stopped or still running is not announced:
/// where no job was done and every report is a stop or neither an exit nor a
/// signal, the jobs brought up to date give no announcement.
pub proof fn law_stopped_not_announced(jobs: Seq<JobEntry>, ws: Seq<WaitOutcome>, cur: Option<usize>, prev: Option<usize>)
    requires
        ws.len() == jobs.len(),
        forall|k: int| 0 <= k < jobs.len() ==> (#[trigger] jobs[k]).status != JobStatus::Done,
        forall|k: int| 0 <= k < ws.len() ==> #[trigger] ws[k] == WaitOutcome::Stopped || ws[k] == WaitOutcome::Other,
    ensures
        done_notices(updated_jobs(jobs, ws), cur, prev) == Seq::<char>::empty(),
{
    let u = updated_jobs(jobs, ws);
    assert forall|k: int| 0 <= k < u.len() implies (#[trigger] u[k]).status != JobStatus::Done by {
        assert(jobs[k].status != JobStatus::Done);
        assert(ws[k] == WaitOutcome::Stopped || ws[k] == WaitOutcome::Other);
    }
    law_notices_only_done(u, cur, prev);
}

/// Taking out the jobs that are done a second time changes nothing.
pub proof fn law_without_done_idempotent(t: TableView)
    ensures
        without_done(without_done(t)) == without_done(t),
{
    let (jobs, free, next, cur, prev) = t;
    lemma_not_done(jobs);
    let nd = not_done(jobs);
    lemma_not_done_of_running(nd);
    assert(done_ids(nd) =~= Set::<usize>::empty());
    assert(!current_is_done(nd, without_done(t).3));
    let w = without_done(t);
    assert(w.1.union(Set::<usize>::empty()) =~= w.1);
}

/// Bringing statuses up to date keeps the table well formed.
pub proof fn law_wait_outcomes_wf(t: TableView, ws: Seq<WaitOutcome>)
    requires
        table_wf(t),
        ws.len() == t.0.len(),
    ensures
        table_wf((updated_jobs(t.0, ws), t.1, t.2, t.3, t.4)),
{
    let u = updated_jobs(t.0, ws);
    assert forall|k: int| 0 <= k < u.len() implies 0 < #[trigger] u[k].job_id < t.2 && !t.1.contains(u[k].job_id) by {
        assert(u[k].job_id == t.0[k].job_id);
    }
    assert forall|a: int, b: int|
        0 <= a < u.len() && 0 <= b < u.len() && a != b implies #[trigger] u[a].job_id != #[trigger] u[b].job_id by {
        assert(u[a].job_id == t.0[a].job_id && u[b].job_id == t.0[b].job_id);
    }
}

} // verus!
