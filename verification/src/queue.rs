//! The bounded job queue and the shared status store. The store admits only
//! forward lifecycle transitions, which makes any observable status history a
//! prefix of `Queued`, `Processing` with non-decreasing progress, then one
//! terminal state. The queue is a FIFO buffer with a hard capacity; an
//! optional durable mirror is modeled as a routing decision whose transport
//! the caller performs.
use vstd::prelude::*;
use crate::strutil::str_eq;

verus! {

/// A job descriptor handed from the submission path to the dispatcher.
pub struct JobMessage {
    pub job_id: String,
    pub user_id: String,
    pub job_type: String,
    pub media_location: String,
}

/// Lifecycle state of a job, as seen by pollers.
pub enum JobStatus {
    Queued,
    Processing { progress: u32 },
    Completed { result_url: String },
    Failed { error: String },
}

impl JobStatus {
    /// Completed and Failed are terminal: nothing may be written after them.
    pub open spec fn is_terminal(self) -> bool {
        self is Completed || self is Failed
    }

    /// The progress of a Processing state, zero for the others.
    pub open spec fn spec_progress(self) -> int {
        match self {
            JobStatus::Processing { progress } => progress as int,
            _ => 0,
        }
    }
}

/// The transitions the status store admits: a job appears as Queued, moves to
/// Processing with progress below 100, progresses monotonically, and ends in
/// exactly one terminal write. Progress reaches 100 only through Completed.
pub open spec fn status_step_ok(cur: Option<JobStatus>, next: JobStatus) -> bool {
    match cur {
        None => next is Queued,
        Some(s) => match s {
            JobStatus::Queued => match next {
                JobStatus::Queued => false,
                JobStatus::Processing { progress } => progress < 100,
                JobStatus::Completed { .. } => true,
                JobStatus::Failed { .. } => true,
            },
            JobStatus::Processing { progress: p } => match next {
                JobStatus::Queued => false,
                JobStatus::Processing { progress: q } => p <= q && q < 100,
                JobStatus::Completed { .. } => true,
                JobStatus::Failed { .. } => true,
            },
            JobStatus::Completed { .. } => false,
            JobStatus::Failed { .. } => false,
        },
    }
}

/// A per-job sequence of status writes, each admitted by the store's
/// transition discipline, starting from an absent entry.
pub open spec fn valid_history(h: Seq<JobStatus>) -> bool {
    (h.len() > 0 ==> status_step_ok(None, h[0])) && (forall|i: int|
        0 <= i < h.len() - 1 ==> status_step_ok(Some(#[trigger] h[i]), h[i + 1]))
}

/// The status sequence a poller can observe is a prefix of `Queued`, then
/// `Processing` with non-decreasing progress below 100, then one terminal
/// state: `Queued` stands only first, a terminal state only last, and
/// progress never decreases.
pub proof fn lemma_status_history_shape(h: Seq<JobStatus>)
    requires
        valid_history(h),
    ensures
        forall|i: int| 0 < i < h.len() ==> !(#[trigger] h[i] is Queued),
        forall|i: int| 0 <= i < h.len() - 1 ==> !(#[trigger] h[i]).is_terminal(),
        forall|i: int, j: int|
            0 <= i <= j < h.len() && h[i] is Processing && h[j] is Processing ==> (
            #[trigger] h[i]).spec_progress() <= (#[trigger] h[j]).spec_progress(),
{
    assert forall|i: int| 0 < i < h.len() implies !(#[trigger] h[i] is Queued) by {
        assert(status_step_ok(Some(h[i - 1]), h[i]));
    }
    assert forall|i: int| 0 <= i < h.len() - 1 implies !(#[trigger] h[i]).is_terminal() by {
        assert(status_step_ok(Some(h[i]), h[i + 1]));
    }
    assert forall|i: int, j: int|
        0 <= i <= j < h.len() && h[i] is Processing && h[j] is Processing implies (
    #[trigger] h[i]).spec_progress() <= (#[trigger] h[j]).spec_progress() by {
        lemma_progress_monotone(h, i, j);
    }
}

/// Between two Processing observations the progress is non-decreasing.
proof fn lemma_progress_monotone(h: Seq<JobStatus>, i: int, j: int)
    requires
        valid_history(h),
        0 <= i <= j < h.len(),
        h[i] is Processing,
        h[j] is Processing,
    ensures
        h[i].spec_progress() <= h[j].spec_progress(),
    decreases j - i,
{
    if i < j {
        assert(status_step_ok(Some(h[j - 1]), h[j]));
        if h[j - 1] is Processing {
            lemma_progress_monotone(h, i, j - 1);
        } else {
            assert(h[j - 1] is Queued);
            if j - 1 > 0 {
                assert(status_step_ok(Some(h[j - 2]), h[j - 1]));
                assert(false);
            }
            assert(i == j - 1);
            assert(false);
        }
    }
}

/// The mapping an association list denotes; a later entry for the same key
/// would win, and the store keeps keys unique.
pub open spec fn entries_map(s: Seq<(String, JobStatus)>) -> Map<Seq<char>, JobStatus>
    decreases s.len(),
{
    if s.len() == 0 {
        Map::empty()
    } else {
        entries_map(s.drop_last()).insert(s.last().0@, s.last().1)
    }
}

/// No two entries share a key.
pub open spec fn keys_unique(s: Seq<(String, JobStatus)>) -> bool {
    forall|i: int, j: int| 0 <= i < j < s.len() ==> s[i].0@ != s[j].0@
}

/// A key is in the denoted map exactly when some entry holds it.
proof fn lemma_entries_map_domain(s: Seq<(String, JobStatus)>, k: Seq<char>)
    ensures
        entries_map(s).contains_key(k) <==> (exists|i: int| 0 <= i < s.len() && s[i].0@ == k),
    decreases s.len(),
{
    if s.len() > 0 {
        lemma_entries_map_domain(s.drop_last(), k);
        if s.last().0@ == k {
            assert(s[s.len() - 1].0@ == k);
        } else if entries_map(s).contains_key(k) {
            let i = choose|i: int| 0 <= i < s.drop_last().len() && s.drop_last()[i].0@ == k;
            assert(s[i].0@ == k);
        } else {
            if exists|i: int| 0 <= i < s.len() && s[i].0@ == k {
                let i = choose|i: int| 0 <= i < s.len() && s[i].0@ == k;
                assert(0 <= i < s.len() - 1);
                assert(s.drop_last()[i].0@ == k);
            }
        }
    }
}

/// With unique keys, the entry at `i` gives the mapped value of its key.
proof fn lemma_entries_map_get(s: Seq<(String, JobStatus)>, i: int)
    requires
        keys_unique(s),
        0 <= i < s.len(),
    ensures
        entries_map(s).contains_key(s[i].0@),
        entries_map(s)[s[i].0@] == s[i].1,
    decreases s.len(),
{
    if i == s.len() - 1 {
    } else {
        assert(keys_unique(s.drop_last()));
        assert(s.drop_last()[i] == s[i]);
        lemma_entries_map_get(s.drop_last(), i);
        assert(s[i].0@ != s.last().0@);
    }
}

/// Updating the entry that holds a key denotes an insert of that key.
proof fn lemma_entries_map_update(s: Seq<(String, JobStatus)>, i: int, e: (String, JobStatus))
    requires
        keys_unique(s),
        0 <= i < s.len(),
        e.0@ == s[i].0@,
    ensures
        entries_map(s.update(i, e)) =~= entries_map(s).insert(e.0@, e.1),
    decreases s.len(),
{
    let t = s.update(i, e);
    if i == s.len() - 1 {
        assert(t.drop_last() =~= s.drop_last());
        assert(t.last() == e);
    } else {
        assert(t.drop_last() =~= s.drop_last().update(i, e));
        assert(s.drop_last()[i] == s[i]);
        assert(keys_unique(s.drop_last()));
        lemma_entries_map_update(s.drop_last(), i, e);
        assert(t.last() == s.last());
        assert(s[i].0@ != s.last().0@);
        assert(entries_map(t) =~= entries_map(s.drop_last()).insert(e.0@, e.1).insert(
            s.last().0@,
            s.last().1,
        ));
        assert(entries_map(s.drop_last()).insert(e.0@, e.1).insert(s.last().0@, s.last().1)
            =~= entries_map(s.drop_last()).insert(s.last().0@, s.last().1).insert(e.0@, e.1));
    }
}

/// The shared status store: one lifecycle entry per job identifier, written
/// through transition-checked updates only.
pub struct StatusStore {
    pub entries: Vec<(String, JobStatus)>,
}

impl StatusStore {
    /// The mapping from job identifier to current status.
    pub open spec fn view(self) -> Map<Seq<char>, JobStatus> {
        entries_map(self.entries@)
    }

    /// One entry per job identifier.
    pub open spec fn wf(self) -> bool {
        keys_unique(self.entries@)
    }

    /// The current status of a job, if any, as the store's map sees it.
    pub open spec fn spec_get(self, k: Seq<char>) -> Option<JobStatus> {
        if self.view().contains_key(k) {
            Some(self.view()[k])
        } else {
            None
        }
    }

    /// An empty store.
    pub fn new() -> (s: StatusStore)
        ensures
            s.wf(),
            s.view() == Map::<Seq<char>, JobStatus>::empty(),
    {
        StatusStore { entries: Vec::new() }
    }

    /// Look up the status of a job.
    pub fn get(&self, job_id: &str) -> (r: Option<&JobStatus>)
        requires
            self.wf(),
        ensures
            match r {
                Some(st) => self.spec_get(job_id@) == Some(*st),
                None => self.spec_get(job_id@) is None,
            },
    {
        let n = self.entries.len();
        let mut i: usize = 0;
        while i < n
            invariant
                self.wf(),
                n == self.entries@.len(),
                i <= n,
                forall|j: int| 0 <= j < i ==> self.entries@[j].0@ != job_id@,
            decreases n - i,
        {
            let e = &self.entries[i];
            if str_eq(e.0.as_str(), job_id) {
                proof {
                    lemma_entries_map_get(self.entries@, i as int);
                }
                return Some(&self.entries[i].1);
            }
            i = i + 1;
        }
        proof {
            lemma_entries_map_domain(self.entries@, job_id@);
        }
        None
    }

    /// Write a status for a job. Only forward transitions are admitted: the
    /// caller must hold the current status to one of the legal steps.
    pub fn set(&mut self, job_id: &String, status: JobStatus)
        requires
            old(self).wf(),
            status_step_ok(old(self).spec_get(job_id@), status),
        ensures
            final(self).wf(),
            final(self).view() == old(self).view().insert(job_id@, status),
    {
        let n = self.entries.len();
        let mut i: usize = 0;
        while i < n
            invariant
                self.wf(),
                n == self.entries@.len(),
                i <= n,
                forall|j: int| 0 <= j < i ==> self.entries@[j].0@ != job_id@,
                self == old(self),
            decreases n - i,
        {
            let e = &self.entries[i];
            if str_eq(e.0.as_str(), job_id) {
                let newkey = job_id.clone();
                proof {
                    lemma_entries_map_update(
                        self.entries@,
                        i as int,
                        (newkey, status),
                    );
                }
                self.entries.set(i, (newkey, status));
                proof {
                    assert forall|a: int, b: int|
                        0 <= a < b < self.entries@.len() implies self.entries@[a].0@
                        != self.entries@[b].0@ by {
                        assert(old(self).entries@[a].0@ != old(self).entries@[b].0@);
                    }
                }
                return ;
            }
            i = i + 1;
        }
        proof {
            lemma_entries_map_domain(self.entries@, job_id@);
        }
        let newkey = job_id.clone();
        self.entries.push((newkey, status));
        proof {
            assert(self.entries@.drop_last() =~= old(self).entries@);
            assert forall|a: int, b: int|
                0 <= a < b < self.entries@.len() implies self.entries@[a].0@
                != self.entries@[b].0@ by {
                if b < self.entries@.len() - 1 {
                    assert(old(self).entries@[a].0@ != old(self).entries@[b].0@);
                } else {
                    assert(old(self).entries@[a].0@ != job_id@);
                }
            }
        }
    }
}

/// Errors of the submission path.
#[derive(Debug)]
pub enum QueueError {
    /// The local buffer is at capacity and no durable mirror can take the
    /// job; the submission is refused rather than blocked.
    Saturated,
}

/// Where `enqueue` routed a job.
#[derive(Debug)]
pub enum EnqueuePath {
    /// The job was recorded and must now be pushed onto the durable mirror
    /// by the caller; on transport failure the caller falls back to
    /// `forward_to_local`.
    Mirrored,
    /// The job was placed into the local in-process buffer.
    Local,
}

/// The bounded job queue: a FIFO buffer with a hard capacity, the shared
/// status store, and the flag for an optional durable mirror.
pub struct Queue {
    pub capacity: usize,
    pub buffer: Vec<JobMessage>,
    pub statuses: StatusStore,
    pub mirror: bool,
}

impl Queue {
    /// The buffer never exceeds its capacity and the store is well-formed.
    pub open spec fn wf(self) -> bool {
        self.buffer@.len() <= self.capacity && self.statuses.wf()
    }

    /// A fresh queue with the given capacity; `mirror` says whether a
    /// durable mirror is configured.
    pub fn new(capacity: usize, mirror: bool) -> (q: Queue)
        ensures
            q.wf(),
            q.capacity == capacity,
            q.mirror == mirror,
            q.buffer@.len() == 0,
            q.statuses.view() == Map::<Seq<char>, JobStatus>::empty(),
    {
        Queue { capacity, buffer: Vec::new(), statuses: StatusStore::new(), mirror }
    }

    /// Admit a new job: first record it as Queued (so Queued is the first
    /// status any poller can observe), then either hand it to the durable
    /// mirror (when one is configured) or place it into the local buffer.
    /// With no mirror and a full buffer the submission is refused with
    /// `Saturated`; the Queued record stands, but the job holds no buffer
    /// slot.
    pub fn enqueue(&mut self, job: JobMessage) -> (r: Result<EnqueuePath, QueueError>)
        requires
            old(self).wf(),
            old(self).statuses.spec_get(job.job_id@) is None,
        ensures
            final(self).wf(),
            final(self).capacity == old(self).capacity,
            final(self).mirror == old(self).mirror,
            final(self).statuses.view() == old(self).statuses.view().insert(
                job.job_id@,
                JobStatus::Queued,
            ),
            r is Err <==> (!old(self).mirror && old(self).buffer@.len() >= old(self).capacity),
            r matches Ok(EnqueuePath::Mirrored) ==> old(self).mirror && final(self).buffer@ == old(
                self,
            ).buffer@,
            r matches Ok(EnqueuePath::Local) ==> !old(self).mirror && final(self).buffer@ == old(
                self,
            ).buffer@.push(job),
            r is Err ==> final(self).buffer@ == old(self).buffer@,
    {
        let id = clone_string(&job.job_id);
        self.statuses.set(&id, JobStatus::Queued);
        if self.mirror {
            Ok(EnqueuePath::Mirrored)
        } else {
            if self.buffer.len() >= self.capacity {
                return Err(QueueError::Saturated);
            }
            self.buffer.push(job);
            Ok(EnqueuePath::Local)
        }
    }

    /// Place a job into the local buffer without touching the status store:
    /// the redelivery task and the mirror fallback converge here. Refused
    /// with `Saturated` when the buffer is full.
    pub fn forward_to_local(&mut self, job: JobMessage) -> (r: Result<(), QueueError>)
        requires
            old(self).wf(),
        ensures
            final(self).wf(),
            final(self).capacity == old(self).capacity,
            final(self).mirror == old(self).mirror,
            final(self).statuses == old(self).statuses,
            r is Ok <==> old(self).buffer@.len() < old(self).capacity,
            r is Ok ==> final(self).buffer@ == old(self).buffer@.push(job),
            r is Err ==> final(self).buffer@ == old(self).buffer@,
    {
        if self.buffer.len() >= self.capacity {
            return Err(QueueError::Saturated);
        }
        self.buffer.push(job);
        Ok(())
    }

    /// Take the oldest buffered job, if any; delivery is strictly FIFO.
    pub fn dequeue(&mut self) -> (r: Option<JobMessage>)
        requires
            old(self).wf(),
        ensures
            final(self).wf(),
            final(self).capacity == old(self).capacity,
            final(self).mirror == old(self).mirror,
            final(self).statuses == old(self).statuses,
            match r {
                Some(job) => old(self).buffer@.len() > 0 && job == old(self).buffer@[0] && final(self).buffer@ == old(self).buffer@.skip(1),
                None => old(self).buffer@.len() == 0 && final(self).buffer@ == old(self).buffer@,
            },
    {
        if self.buffer.len() == 0 {
            return None;
        }
        let job = self.buffer.remove(0);
        proof {
            assert(final(self).buffer@ =~= old(self).buffer@.skip(1));
        }
        Some(job)
    }

    /// Current status of a job, cloned out of the store.
    pub fn get_status(&self, job_id: &str) -> (r: Option<JobStatus>)
        requires
            self.wf(),
        ensures
            match r {
                Some(st) => self.statuses.spec_get(job_id@) == Some(st),
                None => self.statuses.spec_get(job_id@) is None,
            },
    {
        match self.statuses.get(job_id) {
            Some(st) => Some(clone_status(st)),
            None => None,
        }
    }

    /// Write a job's status through the store's transition discipline.
    pub fn set_status(&mut self, job_id: &String, status: JobStatus)
        requires
            old(self).wf(),
            status_step_ok(old(self).statuses.spec_get(job_id@), status),
        ensures
            final(self).wf(),
            final(self).capacity == old(self).capacity,
            final(self).mirror == old(self).mirror,
            final(self).buffer@ == old(self).buffer@,
            final(self).statuses.view() == old(self).statuses.view().insert(job_id@, status),
    {
        self.statuses.set(job_id, status);
    }
}

/// An equal copy of a string.
pub fn clone_string(s: &String) -> (r: String)
    ensures
        r == *s,
        r@ == s@,
{
    s.clone()
}

/// An equal copy of a status value.
pub fn clone_status(s: &JobStatus) -> (r: JobStatus)
    ensures
        r == *s,
{
    match s {
        JobStatus::Queued => JobStatus::Queued,
        JobStatus::Processing { progress } => JobStatus::Processing { progress: *progress },
        JobStatus::Completed { result_url } => JobStatus::Completed {
            result_url: clone_string(result_url),
        },
        JobStatus::Failed { error } => JobStatus::Failed { error: clone_string(error) },
    }
}

} // verus!
