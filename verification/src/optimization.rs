//! Bookkeeping of parameter-optimisation jobs: each submitted job is pending
//! until it runs, and ends completed with its best outcome or failed.
use vstd::prelude::*;
use crate::options::{OptimizationMethod, ObjectiveMetric};
use crate::text::{string_views, text_le, sort_strings};

verus! {

/// Status of an optimization job.
#[derive(Debug, Clone)]
pub enum OptimizationStatus {
    Pending,
    Running,
    Completed,
    Failed(String),
}

/// Request to run an optimization job.
#[derive(Debug)]
pub struct OptimizationRequest {
    pub id: String,
    pub strategy_type: String,
    /// JSON description of the parameter space.
    pub param_space: serde_json::Value,
    pub method: OptimizationMethod,
    pub max_iter: usize,
    pub objective: ObjectiveMetric,
}

/// State of an optimization job; `best` is the best outcome found.
#[derive(Debug)]
pub struct OptimizationResponse<R> {
    pub id: String,
    pub status: OptimizationStatus,
    pub best: Option<R>,
    pub iterations_completed: usize,
    pub total_iterations: usize,
    /// Serialized results.
    pub results: Vec<serde_json::Value>,
}

struct JobEntry<R> {
    key: String,
    request: OptimizationRequest,
    response: OptimizationResponse<R>,
}

/// In-process optimization service, keyed by job id.
pub struct OptimizationService<R> {
    jobs: Vec<JobEntry<R>>,
}

/// The text of the error for a job id that was never submitted.
pub open spec fn job_not_found(id: Seq<char>) -> Seq<char> {
    "Job '"@ + id + "' not found"@
}

/// `r` is the response of a freshly submitted job `id` of `total` iterations.
pub open spec fn pending_response<R>(r: OptimizationResponse<R>, id: Seq<char>, total: usize) -> bool {
    &&& r.id@ == id
    &&& r.status is Pending
    &&& r.best is None
    &&& r.iterations_completed == 0
    &&& r.total_iterations == total
    &&& r.results@.len() == 0
}

/// `n` is `o` but for its status.
pub open spec fn with_status<R>(o: OptimizationResponse<R>, n: OptimizationResponse<R>) -> bool {
    &&& n.id == o.id
    &&& n.best == o.best
    &&& n.iterations_completed == o.iterations_completed
    &&& n.total_iterations == o.total_iterations
    &&& n.results == o.results
}

spec fn job_slot<R>(s: Seq<JobEntry<R>>, id: Seq<char>) -> int {
    if exists|i: int| 0 <= i < s.len() && s[i].key@ == id {
        choose|i: int| 0 <= i < s.len() && s[i].key@ == id
    } else {
        -1
    }
}

impl<R> OptimizationService<R> {
    /// The submitted job ids, in submission order.
    pub closed spec fn ids(self) -> Seq<Seq<char>> {
        Seq::new(self.jobs@.len(), |i: int| self.jobs@[i].key@)
    }

    /// The state of job `id`.
    pub closed spec fn job(self, id: Seq<char>) -> Option<OptimizationResponse<R>> {
        let i = job_slot(self.jobs@, id);
        if i >= 0 {
            Some(self.jobs@[i].response)
        } else {
            None
        }
    }

    /// The request job `id` was submitted with.
    pub closed spec fn request(self, id: Seq<char>) -> Option<OptimizationRequest> {
        let i = job_slot(self.jobs@, id);
        if i >= 0 {
            Some(self.jobs@[i].request)
        } else {
            None
        }
    }

    /// No job id is stored twice.
    pub closed spec fn wf(self) -> bool {
        forall|i: int, j: int| 0 <= i < j < self.jobs@.len() ==> self.jobs@[i].key@ != self.jobs@[j].key@
    }

    proof fn lemma_at(self, i: int)
        requires
            self.wf(),
            0 <= i < self.jobs@.len(),
        ensures
            job_slot(self.jobs@, self.jobs@[i].key@) == i,
            self.job(self.jobs@[i].key@) == Some(self.jobs@[i].response),
            self.request(self.jobs@[i].key@) == Some(self.jobs@[i].request),
            self.ids()[i] == self.jobs@[i].key@,
    {
        let id = self.jobs@[i].key@;
        assert(0 <= i < self.jobs@.len() && self.jobs@[i].key@ == id);
        let k = job_slot(self.jobs@, id);
        if k != i {
            if k < i {
                assert(self.jobs@[k].key@ != self.jobs@[i].key@);
            } else {
                assert(self.jobs@[i].key@ != self.jobs@[k].key@);
            }
        }
    }

    proof fn lemma_absent(self, id: Seq<char>)
        requires
            forall|j: int| 0 <= j < self.jobs@.len() ==> self.jobs@[j].key@ != id,
        ensures
            self.job(id) is None,
            self.request(id) is None,
            !self.ids().contains(id),
    {
        if self.ids().contains(id) {
            let j = choose|j: int| 0 <= j < self.ids().len() && self.ids()[j] == id;
            assert(self.jobs@[j].key@ == id);
        }
    }

    /// Replacing the entry at `i` by one under the same key changes only what
    /// that key maps to.
    proof fn lemma_update_at(self, other: Self, i: int)
        requires
            self.wf(),
            0 <= i < self.jobs@.len(),
            other.jobs@.len() == self.jobs@.len(),
            other.jobs@[i].key@ == self.jobs@[i].key@,
            forall|j: int| 0 <= j < self.jobs@.len() && j != i ==> other.jobs@[j] == self.jobs@[j],
        ensures
            other.wf(),
            other.ids() == self.ids(),
            other.job(self.jobs@[i].key@) == Some(other.jobs@[i].response),
            other.request(self.jobs@[i].key@) == Some(other.jobs@[i].request),
            forall|k: Seq<char>| k != self.jobs@[i].key@ ==> #[trigger] other.job(k) == self.job(k),
            forall|k: Seq<char>| k != self.jobs@[i].key@ ==> #[trigger] other.request(k) == self.request(k),
    {
        let key = self.jobs@[i].key@;
        assert forall|a: int, b: int| 0 <= a < b < other.jobs@.len() implies other.jobs@[a].key@ != other.jobs@[b].key@ by {
            assert(self.jobs@[a].key@ != self.jobs@[b].key@);
        }
        other.lemma_at(i);
        assert(other.ids() =~= self.ids()) by {
            assert forall|j: int| 0 <= j < self.jobs@.len() implies other.ids()[j] == self.ids()[j] by {
                if j != i {
                    assert(other.jobs@[j] == self.jobs@[j]);
                }
            }
        }
        assert forall|k: Seq<char>| k != key implies #[trigger] other.job(k) == self.job(k) && other.request(k)
            == self.request(k) by {
            let ok = job_slot(self.jobs@, k);
            if ok >= 0 {
                assert(self.jobs@[ok].key@ == k);
                other.lemma_at(ok);
                self.lemma_at(ok);
            } else {
                assert forall|j: int| 0 <= j < other.jobs@.len() implies other.jobs@[j].key@ != k by {
                    if j != i {
                        if self.jobs@[j].key@ == k {
                            assert(0 <= j < self.jobs@.len() && self.jobs@[j].key@ == k);
                        }
                    }
                }
                other.lemma_absent(k);
            }
        }
        assert forall|k: Seq<char>| k != key implies #[trigger] other.request(k) == self.request(k) by {
            assert(other.job(k) == self.job(k));
        }
    }

    /// Finds the position of job `id`.
    fn find(&self, id: &str) -> (r: Option<usize>)
        requires
            self.wf(),
        ensures
            match r {
                Some(i) => i < self.jobs@.len() && self.jobs@[i as int].key@ == id@ && self.job(id@) == Some(
                    self.jobs@[i as int].response,
                ) && self.request(id@) == Some(self.jobs@[i as int].request),
                None => self.job(id@) is None && self.request(id@) is None && !self.ids().contains(id@)
                    && forall|j: int| 0 <= j < self.jobs@.len() ==> self.jobs@[j].key@ != id@,
            },
    {
        let key = id.to_owned();
        let mut i: usize = 0;
        while i < self.jobs.len()
            invariant
                self.wf(),
                key@ == id@,
                0 <= i <= self.jobs@.len(),
                forall|j: int| 0 <= j < i ==> self.jobs@[j].key@ != id@,
            decreases self.jobs@.len() - i,
        {
            if self.jobs[i].key == key {
                proof {
                    self.lemma_at(i as int);
                }
                return Some(i);
            }
            i = i + 1;
        }
        proof {
            self.lemma_absent(id@);
        }
        None
    }

    pub fn new() -> (r: Self)
        ensures
            r.wf(),
            r.ids() == Seq::<Seq<char>>::empty(),
            forall|id: Seq<char>| #[trigger] r.job(id) is None,
    {
        let r = Self { jobs: Vec::new() };
        proof {
            assert(r.ids() =~= Seq::<Seq<char>>::empty());
            assert forall|id: Seq<char>| #[trigger] r.job(id) is None by {
                r.lemma_absent(id);
            }
        }
        r
    }

    /// Submits a job under its request's id, pending and with the request's
    /// iteration budget; a job already under that id is replaced. Returns the
    /// job id.
    pub fn submit(&mut self, request: OptimizationRequest) -> (r: String)
        requires
            old(self).wf(),
        ensures
            final(self).wf(),
            r@ == request.id@,
            final(self).job(request.id@) matches Some(j) && pending_response(j, request.id@, request.max_iter),
            final(self).request(request.id@) == Some(request),
            forall|k: Seq<char>| k != request.id@ ==> #[trigger] final(self).job(k) == old(self).job(k),
            forall|k: Seq<char>| k != request.id@ ==> #[trigger] final(self).request(k) == old(self).request(k),
            final(self).ids() == (if old(self).ids().contains(request.id@) {
                old(self).ids()
            } else {
                old(self).ids().push(request.id@)
            }),
    {
        let ghost old_self = *self;
        let ghost key = request.id@;
        let ghost req = request;
        let id = request.id.clone();
        let total_iterations = request.max_iter;
        let response = OptimizationResponse {
            id: id.clone(),
            status: OptimizationStatus::Pending,
            best: None,
            iterations_completed: 0,
            total_iterations,
            results: Vec::new(),
        };
        let found = self.find(request.id.as_str());
        let entry = JobEntry { key: id.clone(), request, response };
        match found {
            Some(i) => {
                let _ = self.jobs.remove(i);
                self.jobs.insert(i, entry);
                proof {
                    old_self.lemma_update_at(*self, i as int);
                    old_self.lemma_at(i as int);
                }
            },
            None => {
                self.jobs.push(entry);
                proof {
                    let n = old_self.jobs@.len() as int;
                    assert forall|a: int, b: int| 0 <= a < b < self.jobs@.len() implies self.jobs@[a].key@
                        != self.jobs@[b].key@ by {
                        if b < n {
                            assert(self.jobs@[a] == old_self.jobs@[a]);
                            assert(self.jobs@[b] == old_self.jobs@[b]);
                        } else {
                            assert(self.jobs@[a] == old_self.jobs@[a]);
                        }
                    }
                    self.lemma_at(n);
                    assert(self.ids() =~= old_self.ids().push(key)) by {
                        assert forall|j: int| 0 <= j < n implies self.ids()[j] == old_self.ids()[j] by {
                            assert(self.jobs@[j] == old_self.jobs@[j]);
                        }
                    }
                    assert forall|k: Seq<char>| k != key implies #[trigger] self.job(k) == old_self.job(k)
                        && self.request(k) == old_self.request(k) by {
                        let ok = job_slot(old_self.jobs@, k);
                        if ok >= 0 {
                            assert(old_self.jobs@[ok].key@ == k);
                            assert(self.jobs@[ok] == old_self.jobs@[ok]);
                            self.lemma_at(ok);
                            old_self.lemma_at(ok);
                        } else {
                            assert forall|j: int| 0 <= j < self.jobs@.len() implies self.jobs@[j].key@ != k by {
                                if j < n {
                                    assert(self.jobs@[j] == old_self.jobs@[j]);
                                    if old_self.jobs@[j].key@ == k {
                                        assert(0 <= j < old_self.jobs@.len() && old_self.jobs@[j].key@ == k);
                                    }
                                }
                            }
                            self.lemma_absent(k);
                        }
                    }
                    assert forall|k: Seq<char>| k != key implies #[trigger] self.request(k) == old_self.request(k) by {
                        assert(self.job(k) == old_self.job(k));
                    }
                }
            },
        }
        id
    }

    /// The state of job `id`.
    pub fn get_status(&self, id: &str) -> (r: Option<&OptimizationResponse<R>>)
        requires
            self.wf(),
        ensures
            match r {
                Some(x) => self.job(id@) == Some(*x),
                None => self.job(id@) is None,
            },
    {
        match self.find(id) {
            Some(i) => Some(&self.jobs[i].response),
            None => None,
        }
    }

    /// The request job `id` was submitted with.
    pub fn get_request(&self, id: &str) -> (r: Option<&OptimizationRequest>)
        requires
            self.wf(),
        ensures
            match r {
                Some(x) => self.request(id@) == Some(*x),
                None => self.request(id@) is None,
            },
    {
        match self.find(id) {
            Some(i) => Some(&self.jobs[i].request),
            None => None,
        }
    }

    /// All job ids, in code-point order.
    pub fn list_jobs(&self) -> (r: Vec<String>)
        ensures
            string_views(r@) == self.ids().sort_by(|a: Seq<char>, b: Seq<char>| text_le(a, b)),
    {
        let mut ids: Vec<String> = Vec::new();
        let mut i: usize = 0;
        while i < self.jobs.len()
            invariant
                0 <= i <= self.jobs@.len(),
                ids@.len() == i,
                forall|j: int| 0 <= j < i ==> #[trigger] ids@[j]@ == self.jobs@[j].key@,
            decreases self.jobs@.len() - i,
        {
            ids.push(self.jobs[i].key.clone());
            i = i + 1;
        }
        assert(string_views(ids@) =~= self.ids());
        sort_strings(&ids)
    }

    /// Marks job `id` failed as cancelled; `false` when there is no such job.
    pub fn cancel_job(&mut self, id: &str) -> (r: bool)
        requires
            old(self).wf(),
        ensures
            final(self).wf(),
            final(self).ids() == old(self).ids(),
            r == old(self).job(id@) is Some,
            forall|k: Seq<char>| k != id@ ==> #[trigger] final(self).job(k) == old(self).job(k),
            forall|k: Seq<char>| #[trigger] final(self).request(k) == old(self).request(k),
            match old(self).job(id@) {
                None => final(self).job(id@) is None,
                Some(o) => final(self).job(id@) matches Some(n) && with_status(o, n) && (n.status matches OptimizationStatus::Failed(
                    m,
                ) && m@ == "cancelled"@),
            },
    {
        let ghost old_self = *self;
        match self.find(id) {
            Some(i) => {
                let mut entry = self.jobs.remove(i);
                entry.response.status = OptimizationStatus::Failed(String::from_str("cancelled"));
                self.jobs.insert(i, entry);
                proof {
                    old_self.lemma_update_at(*self, i as int);
                    old_self.lemma_at(i as int);
                }
                true
            },
            None => false,
        }
    }

    /// Marks job `id` running, before its search; fails with the job's id
    /// when it was never submitted.
    pub fn start_job(&mut self, id: &str) -> (r: Result<(), String>)
        requires
            old(self).wf(),
        ensures
            final(self).wf(),
            final(self).ids() == old(self).ids(),
            forall|k: Seq<char>| k != id@ ==> #[trigger] final(self).job(k) == old(self).job(k),
            forall|k: Seq<char>| #[trigger] final(self).request(k) == old(self).request(k),
            match old(self).job(id@) {
                None => (r matches Err(m) && m@ == job_not_found(id@)) && final(self).job(id@) is None,
                Some(o) => r is Ok && (final(self).job(id@) matches Some(n) && with_status(o, n)
                    && n.status is Running),
            },
    {
        let ghost old_self = *self;
        match self.find(id) {
            Some(i) => {
                let mut entry = self.jobs.remove(i);
                entry.response.status = OptimizationStatus::Running;
                self.jobs.insert(i, entry);
                proof {
                    old_self.lemma_update_at(*self, i as int);
                    old_self.lemma_at(i as int);
                }
                Ok(())
            },
            None => {
                let mut msg = String::from_str("Job '");
                msg.append(id);
                msg.append("' not found");
                Err(msg)
            },
        }
    }

    /// Records the outcome of job `id`'s search and marks it completed;
    /// nothing changes when there is no such job.
    pub fn complete_job(
        &mut self,
        id: &str,
        best: Option<R>,
        iterations_completed: usize,
        results: Vec<serde_json::Value>,
    )
        requires
            old(self).wf(),
        ensures
            final(self).wf(),
            final(self).ids() == old(self).ids(),
            forall|k: Seq<char>| k != id@ ==> #[trigger] final(self).job(k) == old(self).job(k),
            forall|k: Seq<char>| #[trigger] final(self).request(k) == old(self).request(k),
            match old(self).job(id@) {
                None => final(self).job(id@) is None,
                Some(o) => final(self).job(id@) matches Some(n) && n.id == o.id && n.total_iterations
                    == o.total_iterations && n.status is Completed && n.best == best
                    && n.iterations_completed == iterations_completed && n.results == results,
            },
    {
        let ghost old_self = *self;
        match self.find(id) {
            Some(i) => {
                let mut entry = self.jobs.remove(i);
                entry.response.status = OptimizationStatus::Completed;
                entry.response.best = best;
                entry.response.iterations_completed = iterations_completed;
                entry.response.results = results;
                self.jobs.insert(i, entry);
                proof {
                    old_self.lemma_update_at(*self, i as int);
                    old_self.lemma_at(i as int);
                }
            },
            None => {},
        }
    }
}

impl<R> Default for OptimizationService<R> {
    fn default() -> (r: Self)
        ensures
            r.wf(),
            r.ids() == Seq::<Seq<char>>::empty(),
            forall|id: Seq<char>| #[trigger] r.job(id) is None,
    {
        Self::new()
    }
}

} // verus!
