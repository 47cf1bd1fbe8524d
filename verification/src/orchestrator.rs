use vstd::prelude::*;
use crate::clock::{new_uuid, now_rfc3339, now_unix_millis};
use crate::csv::strings;
use crate::orchestrator_config::OrchestratorConfig;
use crate::registry::ProfileRegistry;
use crate::resource::{ResourceMonitor, ResourceSnapshot, ResourceStatus};
use crate::table::{
    copy_opt, has_key, key_index, lemma_key_index, lookup, upserted, views, Keyed, Table,
};
use crate::clock::rfc3339_of;
use crate::text::{decimal, decimal_chars, join_seqs, join_with, push_chars, push_str, string_of};

verus! {

/// Why a request to open a profile was refused.
#[derive(PartialEq, Eq, Structural, Clone, Copy, Debug)]
pub enum ReasonCode {
    LimitExceeded,
    ResourceExhausted,
    CircuitBreakerOpen,
    ProfileNotFound,
    ProfileAlreadyOpen,
    AuthFailed,
    InvalidRequest,
    ProfileCooldown,
}

/// What a queued job does.
#[derive(PartialEq, Eq, Structural, Clone, Copy, Debug)]
pub enum JobType {
    Navigate,
    Comment,
    Close,
    CustomScript,
}

/// Where a job is in its life.
#[derive(PartialEq, Eq, Structural, Clone, Copy, Debug)]
pub enum JobState {
    Pending,
    Running,
    Done,
    Failed,
}

/// A unit of work for one profile. `payload` is JSON text.
#[derive(Debug)]
pub struct Job {
    pub id: String,
    pub profile_id: String,
    pub job_type: JobType,
    pub payload: String,
    pub priority: u8,
    pub state: JobState,
    pub created_at: String,
    pub started_at: Option<String>,
    pub error: Option<String>,
}

/// The priority a job gets when none is given: 128, the middle (lower numbers go first).
pub fn default_priority() -> (p: u8)
    ensures
        p == 128,
{
    128
}

/// Failure accounting of one profile: after `max_failures` failures it stays closed to new
/// opens until `cooldown_until` (milliseconds since the Unix epoch).
#[derive(Debug)]
pub struct CircuitBreakerState {
    pub profile_id: String,
    pub failure_count: u8,
    pub cooldown_until: Option<u64>,
    pub max_failures: u8,
    pub cooldown_secs: u64,
}

/// `a + b`, or `u64::MAX` when that does not fit.
pub open spec fn sat_add(a: u64, b: int) -> u64 {
    if a + b <= u64::MAX {
        (a + b) as u64
    } else {
        u64::MAX
    }
}

/// A breaker that has not yet failed often enough has no cooldown.
pub open spec fn breaker_consistent(b: CircuitBreakerState) -> bool {
    b.failure_count < b.max_failures ==> b.cooldown_until is None
}

/// The breaker after a failure at time `now`.
pub open spec fn after_failure(b: CircuitBreakerState, now: u64) -> CircuitBreakerState {
    let count = (b.failure_count + 1) as u8;
    CircuitBreakerState {
        failure_count: count,
        cooldown_until: if count >= b.max_failures {
            Some(sat_add(now, b.cooldown_secs * 1000))
        } else {
            b.cooldown_until
        },
        ..b
    }
}

/// Whether the breaker refuses opens at time `now`.
pub open spec fn open_at(b: CircuitBreakerState, now: u64) -> bool {
    b.cooldown_until matches Some(cd) && now < cd
}

impl View for CircuitBreakerState {
    type V = CircuitBreakerState;

    open spec fn view(&self) -> CircuitBreakerState {
        *self
    }
}

impl Keyed for CircuitBreakerState {
    open spec fn key(&self) -> Seq<char> {
        self.profile_id@
    }

    fn key_string(&self) -> (r: &String) {
        &self.profile_id
    }

    fn duplicate(&self) -> (r: Self) {
        CircuitBreakerState {
            profile_id: self.profile_id.clone(),
            failure_count: self.failure_count,
            cooldown_until: self.cooldown_until,
            max_failures: self.max_failures,
            cooldown_secs: self.cooldown_secs,
        }
    }
}

impl CircuitBreakerState {
    /// A breaker with no failures that opens after 3 failures for 120 seconds.
    pub fn new(profile_id: &str) -> (b: Self)
        ensures
            b.profile_id@ == profile_id@,
            b.failure_count == 0,
            b.cooldown_until is None,
            b.max_failures == 3,
            b.cooldown_secs == 120,
            breaker_consistent(b),
    {
        CircuitBreakerState {
            profile_id: profile_id.to_owned(),
            failure_count: 0,
            cooldown_until: None,
            max_failures: 3,
            cooldown_secs: 120,
        }
    }

    /// Whether the breaker refuses opens at time `now` (milliseconds since the epoch).
    pub fn is_open_at(&self, now: u64) -> (r: bool)
        ensures
            r == open_at(*self, now),
    {
        match self.cooldown_until {
            Some(cd) => now < cd,
            None => false,
        }
    }

    /// Whether the breaker refuses opens now.
    pub fn is_open(&self) -> (r: bool)
        ensures
            exists|now: u64| r == open_at(*self, now),
    {
        let now = now_unix_millis();
        self.is_open_at(now)
    }

    /// Counts a failure at time `now`; from the `max_failures`-th failure on, the breaker
    /// refuses opens for `cooldown_secs` after it.
    pub fn record_failure_at(&mut self, now: u64)
        requires
            old(self).failure_count < 255,
        ensures
            *final(self) == after_failure(*old(self), now),
            breaker_consistent(*old(self)) ==> breaker_consistent(*final(self)),
    {
        self.failure_count = self.failure_count + 1;
        if self.failure_count >= self.max_failures {
            let until: u64 = if self.cooldown_secs <= u64::MAX / 1000 {
                now.saturating_add(self.cooldown_secs * 1000)
            } else {
                u64::MAX
            };
            self.cooldown_until = Some(until);
        }
    }

    /// Counts a failure now.
    pub fn record_failure(&mut self)
        requires
            old(self).failure_count < 255,
        ensures
            exists|now: u64| *final(self) == after_failure(*old(self), now),
            breaker_consistent(*old(self)) ==> breaker_consistent(*final(self)),
    {
        let now = now_unix_millis();
        self.record_failure_at(now);
    }

    /// Forgets all failures.
    pub fn reset(&mut self)
        ensures
            *final(self) == (CircuitBreakerState { failure_count: 0, cooldown_until: None, ..*old(self) }),
            breaker_consistent(*final(self)),
    {
        self.failure_count = 0;
        self.cooldown_until = None;
    }
}

impl View for Job {
    type V = Job;

    open spec fn view(&self) -> Job {
        *self
    }
}

impl Job {
    /// An exact copy.
    pub fn duplicate(&self) -> (r: Self)
        ensures
            r == *self,
    {
        Job {
            id: self.id.clone(),
            profile_id: self.profile_id.clone(),
            job_type: self.job_type,
            payload: self.payload.clone(),
            priority: self.priority,
            state: self.state,
            created_at: self.created_at.clone(),
            started_at: copy_opt(&self.started_at),
            error: copy_opt(&self.error),
        }
    }
}

/// The pending jobs of one profile, in the order they will run.
#[derive(Debug)]
pub struct ProfileQueue {
    pub profile_id: String,
    pub jobs: Vec<Job>,
}

/// A profile queue with its jobs as a sequence.
pub struct ProfileQueueView {
    pub profile_id: String,
    pub jobs: Seq<Job>,
}

impl View for ProfileQueue {
    type V = ProfileQueueView;

    open spec fn view(&self) -> ProfileQueueView {
        ProfileQueueView { profile_id: self.profile_id, jobs: self.jobs@ }
    }
}

fn copy_jobs(v: &Vec<Job>) -> (r: Vec<Job>)
    ensures
        r@ == v@,
{
    let mut r: Vec<Job> = Vec::new();
    let mut i: usize = 0;
    while i < v.len()
        invariant
            0 <= i <= v@.len(),
            r@ == v@.take(i as int),
        decreases v.len() - i,
    {
        r.push(v[i].duplicate());
        i = i + 1;
        assert(r@ == v@.take(i as int));
    }
    assert(v@.take(v@.len() as int) == v@);
    r
}

impl Keyed for ProfileQueue {
    open spec fn key(&self) -> Seq<char> {
        self.profile_id@
    }

    fn key_string(&self) -> (r: &String) {
        &self.profile_id
    }

    fn duplicate(&self) -> (r: Self) {
        ProfileQueue { profile_id: self.profile_id.clone(), jobs: copy_jobs(&self.jobs) }
    }
}

/// Jobs ordered by priority, lower numbers first.
pub open spec fn sorted_by_priority(jobs: Seq<Job>) -> bool {
    forall|i: int, j: int| 0 <= i <= j < jobs.len() ==> #[trigger] jobs[i].priority <= #[trigger] jobs[j].priority
}

/// How many jobs of `jobs` have a priority number at most `p`.
pub open spec fn count_at_most(jobs: Seq<Job>, p: u8) -> nat
    decreases jobs.len(),
{
    if jobs.len() == 0 {
        0
    } else {
        count_at_most(jobs.drop_last(), p) + if jobs.last().priority <= p { 1nat } else { 0nat }
    }
}

/// `jobs` with `job` placed after every job of the same or a lower priority number: what a
/// stable sort by priority makes of a sorted queue with `job` appended.
pub open spec fn insert_by_priority(jobs: Seq<Job>, job: Job) -> Seq<Job> {
    let k = count_at_most(jobs, job.priority) as int;
    jobs.take(k) + seq![job] + jobs.skip(k)
}

/// The pending jobs of a profile, empty when it has no queue.
pub open spec fn queue_of(qs: Seq<ProfileQueue>, profile_id: Seq<char>) -> Seq<Job> {
    match lookup(qs, profile_id) {
        Some(q) => q.jobs@,
        None => Seq::empty(),
    }
}

/// Total number of jobs in all queues.
pub open spec fn total_jobs(qs: Seq<ProfileQueue>) -> nat
    decreases qs.len(),
{
    if qs.len() == 0 {
        0
    } else {
        total_jobs(qs.drop_last()) + qs.last().jobs@.len()
    }
}

proof fn lemma_total_update(qs: Seq<ProfileQueue>, i: int, q: ProfileQueue)
    requires
        0 <= i < qs.len(),
    ensures
        total_jobs(qs.update(i, q)) == total_jobs(qs) - qs[i].jobs@.len() + q.jobs@.len(),
    decreases qs.len(),
{
    let u = qs.update(i, q);
    if i == qs.len() - 1 {
        assert(u.drop_last() =~= qs.drop_last());
    } else {
        lemma_total_update(qs.drop_last(), i, q);
        assert(u.drop_last() =~= qs.drop_last().update(i, q));
    }
}

proof fn lemma_total_push(qs: Seq<ProfileQueue>, q: ProfileQueue)
    ensures
        total_jobs(qs.push(q)) == total_jobs(qs) + q.jobs@.len(),
{
    assert(qs.push(q).drop_last() =~= qs);
}

/// The profiles whose queue holds a pending job, in queue order.
pub open spec fn pending_ids(qs: Seq<ProfileQueue>) -> Seq<String>
    decreases qs.len(),
{
    if qs.len() == 0 {
        Seq::empty()
    } else {
        let r = pending_ids(qs.drop_last());
        if qs.last().jobs@.len() > 0 {
            r.push(qs.last().profile_id)
        } else {
            r
        }
    }
}

proof fn lemma_pending_prefix(qs: Seq<ProfileQueue>, i: int, j: int)
    requires
        0 <= i <= j <= qs.len(),
    ensures
        pending_ids(qs.take(i)).len() <= pending_ids(qs.take(j)).len(),
        pending_ids(qs.take(j)).take(pending_ids(qs.take(i)).len() as int) == pending_ids(qs.take(i)),
    decreases j - i,
{
    if i < j {
        lemma_pending_prefix(qs, i, j - 1);
        assert(qs.take(j).drop_last() =~= qs.take(j - 1));
        let a = pending_ids(qs.take(i));
        let b = pending_ids(qs.take(j - 1));
        let c = pending_ids(qs.take(j));
        assert(b.take(a.len() as int) == a);
        assert forall|k: int| 0 <= k < a.len() implies c[k] == a[k] by {
            assert(b.take(a.len() as int)[k] == b[k]);
        }
        assert(c.take(a.len() as int) =~= a);
    } else {
        assert(pending_ids(qs.take(j)).take(pending_ids(qs.take(i)).len() as int) =~= pending_ids(qs.take(i)));
    }
}

proof fn lemma_count_at_most_bound(jobs: Seq<Job>, p: u8)
    ensures
        count_at_most(jobs, p) <= jobs.len(),
    decreases jobs.len(),
{
    if jobs.len() > 0 {
        lemma_count_at_most_bound(jobs.drop_last(), p);
    }
}

proof fn lemma_count_prefix(jobs: Seq<Job>, p: u8, k: int)
    requires
        sorted_by_priority(jobs),
        0 <= k <= jobs.len(),
        forall|i: int| 0 <= i < k ==> #[trigger] jobs[i].priority <= p,
        k == jobs.len() || jobs[k].priority > p,
    ensures
        count_at_most(jobs, p) == k,
    decreases jobs.len(),
{
    if jobs.len() > 0 {
        let d = jobs.drop_last();
        if k == jobs.len() {
            lemma_count_prefix(d, p, k - 1);
        } else {
            assert(jobs.last().priority >= jobs[k].priority);
            lemma_count_prefix(d, p, k);
        }
    }
}

proof fn lemma_insert_sorted(jobs: Seq<Job>, job: Job, k: int)
    requires
        sorted_by_priority(jobs),
        0 <= k <= jobs.len(),
        forall|i: int| 0 <= i < k ==> #[trigger] jobs[i].priority <= job.priority,
        k == jobs.len() || jobs[k].priority > job.priority,
    ensures
        sorted_by_priority(jobs.take(k) + seq![job] + jobs.skip(k)),
{
    let r = jobs.take(k) + seq![job] + jobs.skip(k);
    assert forall|i: int, j: int| 0 <= i <= j < r.len() implies #[trigger] r[i].priority <= #[trigger] r[j].priority by {
        if i < k && j < k {
            assert(r[i] == jobs[i] && r[j] == jobs[j]);
        } else if i < k && j == k {
            assert(r[i] == jobs[i]);
        } else if i < k {
            assert(r[i] == jobs[i] && r[j] == jobs[j - 1]);
        } else if i == k && j == k {
        } else if i == k {
            assert(r[j] == jobs[j - 1]);
            assert(jobs[k].priority <= jobs[j - 1].priority);
        } else {
            assert(r[i] == jobs[i - 1] && r[j] == jobs[j - 1]);
        }
    }
}

/// Pending jobs per profile.
pub struct JobQueue {
    pub queues: Table<ProfileQueue>,
}

/// Every queue of a well-formed job queue runs lower priority numbers first.
proof fn lemma_sorted_rows(q: JobQueue, i: int)
    requires
        q.wf(),
        0 <= i < q.queues().len(),
    ensures
        sorted_by_priority(q.queues()[i].jobs@),
{
    assert(sorted_by_priority(q.queues.rows@[i].jobs@));
}

impl JobQueue {
    /// Profiles have one queue each, and every queue runs lower priority numbers first.
    pub open spec fn wf(&self) -> bool {
        &&& self.queues.wf()
        &&& forall|i: int| 0 <= i < self.queues.rows@.len() ==> sorted_by_priority(#[trigger] self.queues.rows@[i].jobs@)
    }

    /// The queues, in the order their profiles first got a job.
    pub open spec fn queues(&self) -> Seq<ProfileQueue> {
        self.queues.rows@
    }

    /// No jobs.
    pub fn new() -> (q: Self)
        ensures
            q.wf(),
            q.queues() == Seq::<ProfileQueue>::empty(),
    {
        JobQueue { queues: Table::new() }
    }

    /// Queues `job` for its profile after every job of the same or a lower priority number, and
    /// returns the length of that profile's queue after the job was added.
    pub fn enqueue(&mut self, job: Job) -> (pos: usize)
        requires
            old(self).wf(),
            queue_of(old(self).queues(), job.profile_id@).len() < usize::MAX,
        ensures
            final(self).wf(),
            pos == queue_of(old(self).queues(), job.profile_id@).len() + 1,
            total_jobs(final(self).queues()) == total_jobs(old(self).queues()) + 1,
            queue_of(final(self).queues(), job.profile_id@) == insert_by_priority(
                queue_of(old(self).queues(), job.profile_id@),
                job,
            ),
            forall|k: Seq<char>| k != job.profile_id@ ==> #[trigger] queue_of(final(self).queues(), k)
                == queue_of(old(self).queues(), k),
    {
        let ghost old_q = queue_of(self.queues(), job.profile_id@);
        let idx = match self.queues.find(job.profile_id.as_str()) {
            Some(i) => {
                proof {
                    assert forall|j: int| 0 <= j < self.queues().len() implies sorted_by_priority(
                        #[trigger] self.queues()[j].jobs@,
                    ) by {
                        lemma_sorted_rows(*old(self), j);
                    }
                }
                i
            },
            None => {
                let q = ProfileQueue { profile_id: job.profile_id.clone(), jobs: Vec::new() };
                self.queues.upsert(q);
                proof {
                    assert(self.queues() == old(self).queues().push(q));
                    lemma_total_push(old(self).queues(), q);
                    crate::table::lemma_lookup_upserted(old(self).queues(), q, job.profile_id@);
                    assert forall|k: Seq<char>| k != job.profile_id@ implies #[trigger] lookup(self.queues(), k) == lookup(old(self).queues(), k) by {
                        crate::table::lemma_lookup_upserted(old(self).queues(), q, k);
                    }
                    assert(self.queues()[old(self).queues().len() as int] == q);
                    lemma_key_index(self.queues(), old(self).queues().len() as int);
                    assert forall|i: int| 0 <= i < self.queues().len() implies sorted_by_priority(
                        #[trigger] self.queues()[i].jobs@,
                    ) by {
                        if i < old(self).queues().len() {
                            lemma_sorted_rows(*old(self), i);
                            assert(self.queues()[i] == old(self).queues()[i]);
                        } else {
                            assert(self.queues()[i] == q);
                            assert(q.jobs@.len() == 0);
                        }
                    }
                }
                self.queues.rows.len() - 1
            },
        };
        let ghost mid = self.queues();
        proof {
            lemma_key_index(mid, idx as int);
            assert(mid[idx as int].jobs@ == old_q);
        }
        assert(forall|i: int| 0 <= i < mid.len() ==> sorted_by_priority(#[trigger] mid[i].jobs@));
        let mut q = self.queues.rows[idx].duplicate();
        let pos = q.jobs.len() + 1;
        let p = job.priority;
        let mut k: usize = 0;
        while k < q.jobs.len() && q.jobs[k].priority <= p
            invariant
                0 <= k <= q.jobs@.len(),
                q.jobs@ == old_q,
                forall|i: int| 0 <= i < k ==> #[trigger] q.jobs@[i].priority <= p,
            decreases q.jobs.len() - k,
        {
            k = k + 1;
        }
        proof {
            assert(sorted_by_priority(old_q));
            lemma_count_prefix(old_q, p, k as int);
            lemma_insert_sorted(old_q, job, k as int);
        }
        q.jobs.insert(k, job);
        assert(q.jobs@ == old_q.take(k as int) + seq![job] + old_q.skip(k as int));
        let ghost nq = q;
        assert(sorted_by_priority(nq.jobs@));
        self.queues.set_at(idx, q);
        proof {
            let rows = self.queues();
            lemma_total_update(mid, idx as int, nq);
            assert(total_jobs(mid) == total_jobs(old(self).queues()));
            assert forall|i: int| 0 <= i < rows.len() implies sorted_by_priority(#[trigger] rows[i].jobs@) by {
                if i != idx {
                    assert(rows[i] == mid[i]);
                    assert(sorted_by_priority(mid[i].jobs@));
                } else {
                    assert(rows[i] == nq);
                }
            }
            lemma_key_index(rows, idx as int);
            assert forall|key: Seq<char>| key != job.profile_id@ implies #[trigger] queue_of(rows, key) == queue_of(old(self).queues(), key) by {
                assert(lookup(mid, key) == lookup(old(self).queues(), key));
                if has_key(mid, key) {
                    let j = key_index(mid, key);
                    assert(j != idx);
                    assert(rows[j] == mid[j]);
                    lemma_key_index(rows, j);
                } else {
                    assert forall|m: int| 0 <= m < rows.len() implies #[trigger] rows[m].key() != key by {
                        if m != idx {
                            assert(rows[m] == mid[m]);
                        }
                    }
                }
            }
        }
        pos
    }

    /// Takes the first pending job of a profile.
    pub fn dequeue(&mut self, profile_id: &str) -> (r: Option<Job>)
        requires
            old(self).wf(),
        ensures
            final(self).wf(),
            queue_of(old(self).queues(), profile_id@).len() == 0 ==> r is None
                && final(self).queues() == old(self).queues(),
            queue_of(old(self).queues(), profile_id@).len() > 0 ==> r == Some(
                queue_of(old(self).queues(), profile_id@)[0],
            ) && queue_of(final(self).queues(), profile_id@) == queue_of(
                old(self).queues(),
                profile_id@,
            ).drop_first() && total_jobs(final(self).queues()) + 1 == total_jobs(old(self).queues()),
            forall|k: Seq<char>| k != profile_id@ ==> #[trigger] queue_of(final(self).queues(), k)
                == queue_of(old(self).queues(), k),
    {
        match self.queues.find(profile_id) {
            None => None,
            Some(idx) => {
                proof {
                    lemma_key_index(self.queues(), idx as int);
                }
                if self.queues.rows[idx].jobs.len() == 0 {
                    return None;
                }
                let ghost mid = self.queues();
                let mut q = self.queues.rows[idx].duplicate();
                let first = q.jobs.remove(0);
                let ghost old_jobs = mid[idx as int].jobs@;
                assert(q.jobs@ == old_jobs.drop_first());
                proof {
                    assert forall|i: int, j: int| 0 <= i <= j < q.jobs@.len() implies #[trigger] q.jobs@[i].priority <= #[trigger] q.jobs@[j].priority by {
                        assert(q.jobs@[i] == old_jobs[i + 1]);
                        assert(q.jobs@[j] == old_jobs[j + 1]);
                    }
                }
                let ghost nq = q;
                assert(sorted_by_priority(nq.jobs@));
                self.queues.set_at(idx, q);
                proof {
                    let rows = self.queues();
                    lemma_total_update(mid, idx as int, nq);
                    assert forall|i: int| 0 <= i < rows.len() implies sorted_by_priority(#[trigger] rows[i].jobs@) by {
                        if i != idx {
                            assert(rows[i] == mid[i]);
                            lemma_sorted_rows(*old(self), i);
                        } else {
                            assert(rows[i] == nq);
                        }
                    }
                    lemma_key_index(rows, idx as int);
                    assert forall|key: Seq<char>| key != profile_id@ implies #[trigger] queue_of(rows, key) == queue_of(mid, key) by {
                        if has_key(mid, key) {
                            let j = key_index(mid, key);
                            assert(j != idx);
                            assert(rows[j] == mid[j]);
                            lemma_key_index(rows, j);
                        } else {
                            assert forall|m: int| 0 <= m < rows.len() implies #[trigger] rows[m].key() != key by {
                                if m != idx {
                                    assert(rows[m] == mid[m]);
                                }
                            }
                        }
                    }
                }
                Some(first)
            },
        }
    }

    /// Number of pending jobs over all profiles, saturated at `usize::MAX`.
    pub fn pending_count(&self) -> (n: usize)
        ensures
            n == if total_jobs(self.queues()) <= usize::MAX {
                total_jobs(self.queues())
            } else {
                usize::MAX as nat
            },
    {
        let mut n: usize = 0;
        let mut i: usize = 0;
        let ghost mut exact: nat = 0;
        while i < self.queues.rows.len()
            invariant
                0 <= i <= self.queues().len(),
                exact == total_jobs(self.queues().take(i as int)),
                n == if exact <= usize::MAX { exact } else { usize::MAX as nat },
            decreases self.queues.rows.len() - i,
        {
            let l = self.queues.rows[i].jobs.len();
            n = n.saturating_add(l);
            proof {
                let t = self.queues().take(i + 1);
                assert(t.drop_last() == self.queues().take(i as int));
                exact = exact + l as nat;
            }
            i = i + 1;
        }
        assert(self.queues().take(self.queues().len() as int) == self.queues());
        n
    }

    /// Number of pending jobs of a profile.
    pub fn profile_queue_len(&self, profile_id: &str) -> (n: usize)
        requires
            self.wf(),
        ensures
            n == queue_of(self.queues(), profile_id@).len(),
    {
        match self.queues.get(profile_id) {
            Some(q) => q.jobs.len(),
            None => 0,
        }
    }

    /// The profiles that have a queue, in the order they first got a job.
    pub fn queued_ids(&self) -> (r: Vec<String>)
        ensures
            r@.len() == self.queues().len(),
            forall|k: int| 0 <= k < r@.len() ==> #[trigger] r@[k] == self.queues()[k].profile_id,
    {
        let mut r: Vec<String> = Vec::new();
        let mut i: usize = 0;
        while i < self.queues.rows.len()
            invariant
                0 <= i <= self.queues().len(),
                r@.len() == i,
                forall|k: int| 0 <= k < i ==> #[trigger] r@[k] == self.queues()[k].profile_id,
            decreases self.queues.rows.len() - i,
        {
            r.push(self.queues.rows[i].profile_id.clone());
            i = i + 1;
        }
        r
    }
}

} // verus!

verus! {

/// `"profile {id} is in cooldown"`.
pub open spec fn cooldown_message(id: Seq<char>) -> Seq<char> {
    "profile "@ + id + " is in cooldown"@
}

/// `"max_active_profiles {active}/{max}"`.
pub open spec fn limit_message(active: usize, max: usize) -> Seq<char> {
    "max_active_profiles "@ + decimal(active as nat) + "/"@ + decimal(max as nat)
}

/// What the orchestrator reports of one circuit breaker.
#[derive(Debug)]
pub struct CircuitBreakerStatus {
    pub profile_id: String,
    pub state: String,
    pub cooldown_until: Option<String>,
}

/// What the orchestrator reports of itself.
#[derive(Debug)]
pub struct OrchestratorStatus {
    pub active_profiles: usize,
    pub max_active_profiles: usize,
    pub queue_depth: usize,
    pub resources: ResourceSnapshot,
    pub circuit_breakers: Vec<CircuitBreakerStatus>,
}

/// Decides whether profiles may be opened, and keeps the queue and the circuit breakers.
pub struct Orchestrator {
    pub config: OrchestratorConfig,
    pub resource_monitor: ResourceMonitor,
    pub job_queue: JobQueue,
    pub circuit_breakers: Table<CircuitBreakerState>,
}

/// The breaker kept for `profile_id`, if any.
pub open spec fn breaker_of(bs: Seq<CircuitBreakerState>, profile_id: Seq<char>) -> Option<CircuitBreakerState> {
    lookup(bs, profile_id)
}

impl Orchestrator {
    /// Queue and breakers are well formed, every breaker is consistent, and the monitor
    /// checks the orchestrator's limits.
    pub open spec fn wf(&self) -> bool {
        &&& self.job_queue.wf()
        &&& self.circuit_breakers.wf()
        &&& forall|i: int| 0 <= i < self.circuit_breakers.rows@.len() ==> breaker_consistent(#[trigger] self.circuit_breakers.rows@[i])
        &&& self.resource_monitor.conf == self.config
    }

    /// The breakers, in the order their profiles first failed.
    pub open spec fn breakers(&self) -> Seq<CircuitBreakerState> {
        self.circuit_breakers.rows@
    }

    /// An orchestrator with the given limits, no queued jobs and no breakers.
    pub fn new(config: OrchestratorConfig) -> (o: Self)
        ensures
            o.wf(),
            o.config == config,
            o.job_queue.queues() == Seq::<ProfileQueue>::empty(),
            o.breakers() == Seq::<CircuitBreakerState>::empty(),
    {
        let resource_monitor = ResourceMonitor::new(config.duplicate());
        Orchestrator { config, resource_monitor, job_queue: JobQueue::new(), circuit_breakers: Table::new() }
    }

    /// The verdict on opening `profile_id` at time `now` with `active` profiles open and the
    /// resource verdict `resources`: refused with the cooldown message while its breaker is open,
    /// then with the limit message when the limit is reached, then with the resource reasons
    /// when resources are exhausted, else allowed.
    pub open spec fn open_verdict(
        &self,
        now: u64,
        profile_id: Seq<char>,
        active: nat,
        resources: ResourceStatus,
        r: Result<(), (ReasonCode, String)>,
    ) -> bool {
        if breaker_of(self.breakers(), profile_id) matches Some(b) && open_at(b, now) {
            r matches Err(e) && e.0 == ReasonCode::CircuitBreakerOpen && e.1@ == cooldown_message(profile_id)
        } else if active >= self.config.max_active_profiles {
            r matches Err(e) && e.0 == ReasonCode::LimitExceeded && e.1@ == limit_message(
                active as usize,
                self.config.max_active_profiles,
            )
        } else if resources.exhausted {
            r matches Err(e) && e.0 == ReasonCode::ResourceExhausted && e.1@ == join_seqs(
                strings(resources.reasons@),
                "; "@,
            )
        } else {
            r is Ok
        }
    }

    /// Whether profile `profile_id` may be opened at time `now`, with `registry` the profiles
    /// already open and `resources` the verdict on the machine: refused while its breaker is
    /// open, then when the limit of open profiles is reached, then when resources are exhausted.
    pub fn check_can_open_at(
        &self,
        now: u64,
        profile_id: &str,
        registry: &ProfileRegistry,
        resources: &ResourceStatus,
    ) -> (r: Result<(), (ReasonCode, String)>)
        requires
            self.wf(),
        ensures
            self.open_verdict(now, profile_id@, registry.entries().len(), *resources, r),
            (breaker_of(self.breakers(), profile_id@) matches Some(b) && open_at(b, now)) ==> (r matches Err(e)
                && e.0 == ReasonCode::CircuitBreakerOpen && e.1@ == cooldown_message(profile_id@)),
            !(breaker_of(self.breakers(), profile_id@) matches Some(b) && open_at(b, now))
                && registry.entries().len() >= self.config.max_active_profiles ==> (r matches Err(e)
                && e.0 == ReasonCode::LimitExceeded && e.1@ == limit_message(
                registry.entries().len() as usize,
                self.config.max_active_profiles,
            )),
            !(breaker_of(self.breakers(), profile_id@) matches Some(b) && open_at(b, now))
                && registry.entries().len() < self.config.max_active_profiles && resources.exhausted
                ==> (r matches Err(e) && e.0 == ReasonCode::ResourceExhausted && e.1@ == join_seqs(
                strings(resources.reasons@),
                "; "@,
            )),
            !(breaker_of(self.breakers(), profile_id@) matches Some(b) && open_at(b, now))
                && registry.entries().len() < self.config.max_active_profiles && !resources.exhausted
                ==> r is Ok,
    {
        if let Some(cb) = self.circuit_breakers.get(profile_id) {
            if cb.is_open_at(now) {
                let mut v: Vec<char> = Vec::new();
                push_str(&mut v, "profile ");
                push_str(&mut v, profile_id);
                push_str(&mut v, " is in cooldown");
                return Err((ReasonCode::CircuitBreakerOpen, string_of(&v)));
            }
        }
        let active_count = registry.len();
        if active_count >= self.config.max_active_profiles {
            let mut v: Vec<char> = Vec::new();
            push_str(&mut v, "max_active_profiles ");
            push_chars(&mut v, &decimal_chars(active_count as u64));
            push_str(&mut v, "/");
            push_chars(&mut v, &decimal_chars(self.config.max_active_profiles as u64));
            return Err((ReasonCode::LimitExceeded, string_of(&v)));
        }
        if resources.exhausted {
            return Err((ReasonCode::ResourceExhausted, join_with(&resources.reasons, "; ")));
        }
        Ok(())
    }

    /// `check_can_open_at` at the current time.
    pub fn check_can_open(
        &self,
        profile_id: &str,
        registry: &ProfileRegistry,
        resources: &ResourceStatus,
    ) -> (r: Result<(), (ReasonCode, String)>)
        requires
            self.wf(),
        ensures
            exists|now: u64| #[trigger] self.open_verdict(now, profile_id@, registry.entries().len(), *resources, r),
            r is Ok ==> registry.entries().len() < self.config.max_active_profiles && !resources.exhausted,
            breaker_of(self.breakers(), profile_id@) is None ==> self.open_verdict(
                0,
                profile_id@,
                registry.entries().len(),
                *resources,
                r,
            ),
            r matches Err(e) && e.0 == ReasonCode::CircuitBreakerOpen ==> breaker_of(self.breakers(), profile_id@) is Some,
    {
        let now = now_unix_millis();
        let r = self.check_can_open_at(now, profile_id, registry, resources);
        assert(self.open_verdict(now, profile_id@, registry.entries().len(), *resources, r));
        r
    }

    /// The breakers `after` are `before` with a failure of `profile_id` counted at time `now`:
    /// its breaker (a new one, closed, opening after 3 failures for 120 seconds, on the first
    /// failure) is `after_failure` of it at `now`, and every other breaker is kept.
    pub open spec fn failure_recorded(
        before: Seq<CircuitBreakerState>,
        after: Seq<CircuitBreakerState>,
        profile_id: Seq<char>,
        now: u64,
    ) -> bool {
        &&& breaker_of(after, profile_id) == Some(after_failure(
            match breaker_of(before, profile_id) {
                Some(b) => b,
                None => CircuitBreakerState {
                    profile_id: breaker_of(after, profile_id)->0.profile_id,
                    failure_count: 0,
                    cooldown_until: None,
                    max_failures: 3,
                    cooldown_secs: 120,
                },
            },
            now,
        ))
        &&& forall|k: Seq<char>| k != profile_id ==> #[trigger] breaker_of(after, k) == breaker_of(before, k)
    }

    /// Counts a failure to open `profile_id` at time `now`, giving it a breaker on its first
    /// failure.
    pub fn record_failure_at(&mut self, now: u64, profile_id: &str)
        requires
            old(self).wf(),
            breaker_of(old(self).breakers(), profile_id@) matches Some(b) ==> b.failure_count < 255,
        ensures
            final(self).wf(),
            final(self).config == old(self).config,
            final(self).job_queue == old(self).job_queue,
            breaker_of(final(self).breakers(), profile_id@) == Some(after_failure(
                match breaker_of(old(self).breakers(), profile_id@) {
                    Some(b) => b,
                    None => CircuitBreakerState {
                        profile_id: breaker_of(final(self).breakers(), profile_id@)->0.profile_id,
                        failure_count: 0,
                        cooldown_until: None,
                        max_failures: 3,
                        cooldown_secs: 120,
                    },
                },
                now,
            )),
            forall|k: Seq<char>| k != profile_id@ ==> #[trigger] breaker_of(final(self).breakers(), k)
                == breaker_of(old(self).breakers(), k),
    {
        let (idx, fresh) = match self.circuit_breakers.find(profile_id) {
            Some(i) => (i, false),
            None => {
                let b = CircuitBreakerState::new(profile_id);
                self.circuit_breakers.upsert(b);
                (self.circuit_breakers.rows.len() - 1, true)
            },
        };
        let ghost mid = self.breakers();
        proof {
            if fresh {
                assert(mid == old(self).breakers().push(mid.last()));
                assert forall|i: int| 0 <= i < mid.len() implies breaker_consistent(#[trigger] mid[i]) by {
                    if i < old(self).breakers().len() {
                        assert(mid[i] == old(self).breakers()[i]);
                    }
                }
            }
            lemma_key_index(mid, idx as int);
        }
        let mut b = self.circuit_breakers.rows[idx].duplicate();
        b.record_failure_at(now);
        self.circuit_breakers.set_at(idx, b);
        proof {
            let rows = self.breakers();
            assert forall|i: int| 0 <= i < rows.len() implies breaker_consistent(#[trigger] rows[i]) by {
                if i != idx {
                    assert(rows[i] == mid[i]);
                }
            }
            lemma_key_index(rows, idx as int);
            assert forall|key: Seq<char>| key != profile_id@ implies #[trigger] breaker_of(rows, key) == breaker_of(old(self).breakers(), key) by {
                if has_key(old(self).breakers(), key) {
                    let j = key_index(old(self).breakers(), key);
                    assert(old(self).breakers()[j] == mid[j]);
                    lemma_key_index(old(self).breakers(), j);
                    assert(j != idx);
                    assert(rows[j] == mid[j]);
                    lemma_key_index(rows, j);
                } else {
                    assert forall|m: int| 0 <= m < rows.len() implies #[trigger] rows[m].key() != key by {
                        if m != idx {
                            assert(rows[m] == mid[m]);
                            if m < old(self).breakers().len() {
                                assert(mid[m] == old(self).breakers()[m]);
                            }
                        }
                    }
                }
            }
        }
    }

    /// Counts a failure to open `profile_id` now.
    pub fn record_failure(&mut self, profile_id: &str)
        requires
            old(self).wf(),
            breaker_of(old(self).breakers(), profile_id@) matches Some(b) ==> b.failure_count < 255,
        ensures
            final(self).wf(),
            final(self).config == old(self).config,
            final(self).job_queue == old(self).job_queue,
            exists|now: u64| #[trigger] Self::failure_recorded(old(self).breakers(), final(self).breakers(), profile_id@, now),
            breaker_of(final(self).breakers(), profile_id@) matches Some(b) && b.failure_count == match breaker_of(old(self).breakers(), profile_id@) {
                Some(o) => o.failure_count + 1,
                None => 1,
            },
            forall|k: Seq<char>| k != profile_id@ ==> #[trigger] breaker_of(final(self).breakers(), k)
                == breaker_of(old(self).breakers(), k),
    {
        let now = now_unix_millis();
        self.record_failure_at(now, profile_id);
        assert(Self::failure_recorded(old(self).breakers(), self.breakers(), profile_id@, now));
    }

    /// Forgets the failures of `profile_id`.
    pub fn record_success(&mut self, profile_id: &str)
        requires
            old(self).wf(),
        ensures
            final(self).wf(),
            final(self).config == old(self).config,
            final(self).job_queue == old(self).job_queue,
            breaker_of(final(self).breakers(), profile_id@) == match breaker_of(old(self).breakers(), profile_id@) {
                Some(b) => Some(CircuitBreakerState { failure_count: 0, cooldown_until: None, ..b }),
                None => None,
            },
            forall|k: Seq<char>| k != profile_id@ ==> #[trigger] breaker_of(final(self).breakers(), k)
                == breaker_of(old(self).breakers(), k),
    {
        match self.circuit_breakers.find(profile_id) {
            None => {},
            Some(idx) => {
                let ghost mid = self.breakers();
                proof { lemma_key_index(mid, idx as int); }
                let mut b = self.circuit_breakers.rows[idx].duplicate();
                b.reset();
                self.circuit_breakers.set_at(idx, b);
                proof {
                    let rows = self.breakers();
                    assert forall|i: int| 0 <= i < rows.len() implies breaker_consistent(#[trigger] rows[i]) by {
                        if i != idx {
                            assert(rows[i] == mid[i]);
                        }
                    }
                    lemma_key_index(rows, idx as int);
                    assert forall|key: Seq<char>| key != profile_id@ implies #[trigger] breaker_of(rows, key) == breaker_of(mid, key) by {
                        if has_key(mid, key) {
                            let j = key_index(mid, key);
                            assert(j != idx);
                            assert(rows[j] == mid[j]);
                            lemma_key_index(rows, j);
                        } else {
                            assert forall|m: int| 0 <= m < rows.len() implies #[trigger] rows[m].key() != key by {
                                if m != idx {
                                    assert(rows[m] == mid[m]);
                                }
                            }
                        }
                    }
                }
            },
        }
    }

    /// Queues a request to open `profile_id` with priority `priority` (lower numbers go first),
    /// when queueing is on: the length of that profile's queue after it, or `None` when queueing
    /// is off.
    pub fn enqueue_open_request(&mut self, profile_id: &str, priority: u8) -> (r: Option<usize>)
        requires
            old(self).wf(),
            queue_of(old(self).job_queue.queues(), profile_id@).len() < usize::MAX,
        ensures
            final(self).wf(),
            final(self).config == old(self).config,
            final(self).breakers() == old(self).breakers(),
            !old(self).config.queue_enabled ==> r is None && final(self).job_queue == old(self).job_queue,
            old(self).config.queue_enabled ==> {
                &&& r == Some((queue_of(old(self).job_queue.queues(), profile_id@).len() + 1) as usize)
                &&& exists|job: Job|
                    #![trigger insert_by_priority(queue_of(old(self).job_queue.queues(), profile_id@), job)]
                    job.profile_id@ == profile_id@ && job.job_type == JobType::Close && job.priority == priority
                        && job.state == JobState::Pending && job.payload@ == "null"@
                        && job.started_at is None && job.error is None
                        && queue_of(final(self).job_queue.queues(), profile_id@) == insert_by_priority(
                        queue_of(old(self).job_queue.queues(), profile_id@),
                        job,
                    )
                &&& forall|k: Seq<char>| k != profile_id@ ==> #[trigger] queue_of(final(self).job_queue.queues(), k)
                    == queue_of(old(self).job_queue.queues(), k)
            },
    {
        if !self.config.queue_enabled {
            return None;
        }
        let job = Job {
            id: new_uuid(),
            profile_id: profile_id.to_owned(),
            job_type: JobType::Close,
            payload: "null".to_owned(),
            priority,
            state: JobState::Pending,
            created_at: now_rfc3339(),
            started_at: None,
            error: None,
        };
        let ghost gj = job;
        let pos = self.job_queue.enqueue(job);
        assert(insert_by_priority(queue_of(old(self).job_queue.queues(), profile_id@), gj) == queue_of(self.job_queue.queues(), profile_id@));
        Some(pos)
    }

    /// The profiles that would be drained from the queue now: the first profiles, in queue
    /// order, that have a pending job, as many as there are free slots below the limit.
    pub fn try_drain_slots(&self, registry: &ProfileRegistry) -> (r: Vec<String>)
        ensures
            r@ == ({
                let p = pending_ids(self.job_queue.queues());
                let slots = if self.config.max_active_profiles > registry.entries().len() {
                    self.config.max_active_profiles - registry.entries().len()
                } else {
                    0
                };
                if p.len() <= slots {
                    p
                } else {
                    p.take(slots)
                }
            }),
    {
        let active = registry.len();
        let slots = self.config.max_active_profiles.saturating_sub(active);
        let ghost qs = self.job_queue.queues();
        let mut r: Vec<String> = Vec::new();
        let mut i: usize = 0;
        while i < self.job_queue.queues.rows.len() && r.len() < slots
            invariant
                0 <= i <= qs.len(),
                qs == self.job_queue.queues(),
                r@ == pending_ids(qs.take(i as int)),
                r@.len() <= slots,
            decreases qs.len() - i,
        {
            let q = &self.job_queue.queues.rows[i];
            proof {
                assert(qs.take(i + 1).drop_last() =~= qs.take(i as int));
                assert(qs.take(i + 1).last() == qs[i as int]);
            }
            if q.jobs.len() > 0 {
                r.push(q.profile_id.clone());
            }
            i = i + 1;
        }
        proof {
            lemma_pending_prefix(qs, i as int, qs.len() as int);
            assert(qs.take(qs.len() as int) =~= qs);
            if r@.len() == slots {
                assert(pending_ids(qs).take(slots as int) =~= r@);
            }
        }
        r
    }

    /// Whether `s` is the report at time `now` with `active` profiles open and the resource
    /// snapshot `snap`: open profiles, limit, pending jobs (saturated at `usize::MAX`), the
    /// snapshot, and each breaker with its state at `now` and its cooldown end.
    pub open spec fn reports(&self, now: u64, active: nat, snap: ResourceSnapshot, s: OrchestratorStatus) -> bool {
        &&& s.active_profiles == active
        &&& s.max_active_profiles == self.config.max_active_profiles
        &&& s.queue_depth == if total_jobs(self.job_queue.queues()) <= usize::MAX {
            total_jobs(self.job_queue.queues())
        } else {
            usize::MAX as nat
        }
        &&& s.resources == snap
        &&& s.circuit_breakers@.len() == self.breakers().len()
        &&& forall|k: int| 0 <= k < self.breakers().len() ==> {
            let b = #[trigger] self.breakers()[k];
            let c = s.circuit_breakers@[k];
            &&& c.profile_id == b.profile_id
            &&& c.state@ == (if open_at(b, now) { "open"@ } else { "closed"@ })
            &&& c.cooldown_until == match b.cooldown_until {
                Some(cd) => Some(c.cooldown_until->0),
                None => None::<String>,
            }
            &&& (b.cooldown_until matches Some(cd) ==> c.cooldown_until->0@ == rfc3339_of(
                (cd / 1000) as i64,
                0,
            ))
        }
    }

    /// The orchestrator's report at time `now`: open profiles, limit, queue depth, the resource
    /// snapshot `snap`, and each breaker with its state and cooldown end.
    pub fn status_at(&self, now: u64, registry: &ProfileRegistry, snap: ResourceSnapshot) -> (s: OrchestratorStatus)
        ensures
            self.reports(now, registry.entries().len(), snap, s),
            s.active_profiles == registry.entries().len(),
            s.max_active_profiles == self.config.max_active_profiles,
            s.queue_depth == if total_jobs(self.job_queue.queues()) <= usize::MAX {
                total_jobs(self.job_queue.queues())
            } else {
                usize::MAX as nat
            },
            s.resources == snap,
            s.circuit_breakers@.len() == self.breakers().len(),
            forall|k: int| 0 <= k < self.breakers().len() ==> {
                let b = #[trigger] self.breakers()[k];
                let c = s.circuit_breakers@[k];
                &&& c.profile_id == b.profile_id
                &&& c.state@ == (if open_at(b, now) { "open"@ } else { "closed"@ })
                &&& c.cooldown_until == match b.cooldown_until {
                    Some(cd) => Some(c.cooldown_until->0),
                    None => None::<String>,
                }
                &&& (b.cooldown_until matches Some(cd) ==> c.cooldown_until->0@ == rfc3339_of(
                    (cd / 1000) as i64,
                    0,
                ))
            },
    {
        let mut cbs: Vec<CircuitBreakerStatus> = Vec::new();
        let mut i: usize = 0;
        while i < self.circuit_breakers.rows.len()
            invariant
                0 <= i <= self.breakers().len(),
                cbs@.len() == i,
                forall|k: int| 0 <= k < i ==> {
                    let b = #[trigger] self.breakers()[k];
                    let c = cbs@[k];
                    &&& c.profile_id == b.profile_id
                    &&& c.state@ == (if open_at(b, now) { "open"@ } else { "closed"@ })
                    &&& c.cooldown_until == match b.cooldown_until {
                        Some(cd) => Some(c.cooldown_until->0),
                        None => None::<String>,
                    }
                    &&& (b.cooldown_until matches Some(cd) ==> c.cooldown_until->0@ == rfc3339_of(
                        (cd / 1000) as i64,
                        0,
                    ))
                },
            decreases self.circuit_breakers.rows.len() - i,
        {
            let b = &self.circuit_breakers.rows[i];
            let state = if b.is_open_at(now) { "open".to_owned() } else { "closed".to_owned() };
            let cooldown_until = match b.cooldown_until {
                Some(cd) => Some(crate::clock::rfc3339_from_timestamp((cd / 1000) as i64, 0)),
                None => None,
            };
            cbs.push(CircuitBreakerStatus { profile_id: b.profile_id.clone(), state, cooldown_until });
            i = i + 1;
        }
        OrchestratorStatus {
            active_profiles: registry.len(),
            max_active_profiles: self.config.max_active_profiles,
            queue_depth: self.job_queue.pending_count(),
            resources: snap,
            circuit_breakers: cbs,
        }
    }

    /// The verdict of the resource monitor on a snapshot, with the load reason when the load is
    /// over its threshold.
    pub fn snapshot_resources(&self, snap: ResourceSnapshot, load_reason: Option<String>) -> (st: ResourceStatus)
        ensures
            crate::resource::is_verdict(self.resource_monitor.conf, snap, match load_reason {
                Some(x) => Some(x@),
                None => None::<Seq<char>>,
            }, st),
    {
        self.resource_monitor.check_thresholds(snap, load_reason)
    }

    /// The orchestrator's report now.
    pub fn status(&self, registry: &ProfileRegistry, snap: ResourceSnapshot) -> (s: OrchestratorStatus)
        ensures
            s.active_profiles == registry.entries().len(),
            s.max_active_profiles == self.config.max_active_profiles,
            s.resources == snap,
            s.circuit_breakers@.len() == self.breakers().len(),
            exists|now: u64| #[trigger] self.reports(now, registry.entries().len(), snap, s),
    {
        let now = now_unix_millis();
        let s = self.status_at(now, registry, snap);
        assert(self.reports(now, registry.entries().len(), snap, s));
        s
    }
}

} // verus!
verus! {

/// A consistent breaker that has failed fewer than `max_failures` times never refuses opens.
pub proof fn lemma_breaker_closed_below_max(b: CircuitBreakerState, now: u64)
    requires
        breaker_consistent(b),
        b.failure_count < b.max_failures,
    ensures
        !open_at(b, now),
{
}

/// The failure that reaches `max_failures` makes the breaker refuse opens for the whole
/// cooldown that follows it.
pub proof fn lemma_breaker_opens_at_max(b: CircuitBreakerState, now: u64, t: u64)
    requires
        b.failure_count < 255,
        b.failure_count + 1 >= b.max_failures,
        now <= t,
        t < now + b.cooldown_secs * 1000,
        now + b.cooldown_secs * 1000 <= u64::MAX,
    ensures
        open_at(after_failure(b, now), t),
{
    assert(((b.failure_count + 1) as u8) == b.failure_count + 1);
}

/// Forgetting failures reopens the profile at once.
pub proof fn lemma_breaker_reset_closes(b: CircuitBreakerState, now: u64)
    ensures
        !open_at(CircuitBreakerState { failure_count: 0, cooldown_until: None, ..b }, now),
        breaker_consistent(CircuitBreakerState { failure_count: 0, cooldown_until: None, ..b }),
{
}

/// The breaker after failures at `times`, in order, starting from `b`.
pub open spec fn after_failures(b: CircuitBreakerState, times: Seq<u64>) -> CircuitBreakerState
    decreases times.len(),
{
    if times.len() == 0 {
        b
    } else {
        after_failure(after_failures(b, times.drop_last()), times.last())
    }
}

proof fn lemma_failures_below_max(b: CircuitBreakerState, times: Seq<u64>)
    requires
        b.failure_count == 0,
        b.cooldown_until is None,
        times.len() < b.max_failures,
    ensures
        after_failures(b, times) == (CircuitBreakerState { failure_count: times.len() as u8, ..b }),
    decreases times.len(),
{
    if times.len() > 0 {
        lemma_failures_below_max(b, times.drop_last());
    }
}

/// A breaker that a failure at time `t0` trips refuses opens of its profile until the cooldown
/// after `t0` has passed, and from then on no longer does: a check at or after that moment is
/// decided by the limit of open profiles and the resources alone, and passes when neither
/// refuses.
pub proof fn law_cooldown_ends(
    before: Orchestrator,
    after: Orchestrator,
    profile_id: Seq<char>,
    t0: u64,
    now: u64,
    active: nat,
    resources: ResourceStatus,
    r: Result<(), (ReasonCode, String)>,
)
    requires
        Orchestrator::failure_recorded(before.breakers(), after.breakers(), profile_id, t0),
        breaker_of(after.breakers(), profile_id)->0.failure_count >= breaker_of(
            after.breakers(),
            profile_id,
        )->0.max_failures,
        after.open_verdict(now, profile_id, active, resources, r),
    ensures
        (r matches Err(e) && e.0 == ReasonCode::CircuitBreakerOpen) <==> now < sat_add(
            t0,
            breaker_of(after.breakers(), profile_id)->0.cooldown_secs * 1000,
        ),
        now >= sat_add(t0, breaker_of(after.breakers(), profile_id)->0.cooldown_secs * 1000) && active
            < after.config.max_active_profiles && !resources.exhausted ==> r is Ok,
{
}

/// After a reset (no failures, no cooldown), a breaker stays closed to opens through fewer than
/// `max_failures` failures, counting each; the failure that reaches `max_failures` closes it to
/// opens from that failure until the cooldown after it has passed.
pub proof fn law_breaker_after_reset(b: CircuitBreakerState, times: Seq<u64>, now: u64)
    requires
        b.failure_count == 0,
        b.cooldown_until is None,
        times.len() <= b.max_failures,
    ensures
        times.len() < b.max_failures ==> !open_at(after_failures(b, times), now) && after_failures(
            b,
            times,
        ).failure_count == times.len(),
        times.len() == b.max_failures && times.len() > 0 && times.last() <= now && now < sat_add(
            times.last(),
            b.cooldown_secs * 1000,
        ) ==> open_at(after_failures(b, times), now),
{
    if times.len() < b.max_failures {
        lemma_failures_below_max(b, times);
    } else if times.len() > 0 {
        lemma_failures_below_max(b, times.drop_last());
    }
}

/// A queued job comes after every job already queued with the same or a lower priority number
/// and before every job with a higher one; the queue stays ordered by priority.
pub proof fn lemma_queue_order(q: Seq<Job>, job: Job)
    requires
        sorted_by_priority(q),
    ensures
        sorted_by_priority(insert_by_priority(q, job)),
        insert_by_priority(q, job).len() == q.len() + 1,
        ({
            let k = count_at_most(q, job.priority) as int;
            let r = insert_by_priority(q, job);
            &&& 0 <= k <= q.len()
            &&& r[k] == job
            &&& forall|i: int| 0 <= i < k ==> #[trigger] r[i] == q[i] && q[i].priority <= job.priority
            &&& forall|i: int| k < i < r.len() ==> #[trigger] r[i] == q[i - 1] && q[i - 1].priority > job.priority
        }),
{
    let p = job.priority;
    lemma_count_at_most_bound(q, p);
    lemma_count_shape(q, p);
    let k = count_at_most(q, p) as int;
    lemma_insert_sorted(q, job, k);
    let r = insert_by_priority(q, job);
    assert forall|i: int| k < i < r.len() implies #[trigger] r[i] == q[i - 1] && q[i - 1].priority > job.priority by {
        assert(q[k].priority > p);
        assert(q[k].priority <= q[i - 1].priority);
    }
}

proof fn lemma_count_shape(q: Seq<Job>, p: u8)
    requires
        sorted_by_priority(q),
    ensures
        count_at_most(q, p) <= q.len(),
        forall|i: int| 0 <= i < count_at_most(q, p) ==> #[trigger] q[i].priority <= p,
        count_at_most(q, p) == q.len() || q[count_at_most(q, p) as int].priority > p,
    decreases q.len(),
{
    if q.len() > 0 {
        let d = q.drop_last();
        assert(sorted_by_priority(d)) by {
            assert forall|i: int, j: int| 0 <= i <= j < d.len() implies #[trigger] d[i].priority <= #[trigger] d[j].priority by {
                assert(d[i] == q[i] && d[j] == q[j]);
            }
        }
        lemma_count_shape(d, p);
        let c = count_at_most(d, p);
        if q.last().priority <= p {
            if c < d.len() {
                assert(d[c as int] == q[c as int]);
                assert(q[c as int].priority <= q.last().priority);
            }
            assert forall|i: int| 0 <= i < count_at_most(q, p) implies #[trigger] q[i].priority <= p by {
                assert(q[i].priority <= q.last().priority);
            }
        } else {
            assert forall|i: int| 0 <= i < count_at_most(q, p) implies #[trigger] q[i].priority <= p by {
                assert(d[i] == q[i]);
            }
            if c < d.len() {
                assert(d[c as int] == q[c as int]);
            }
        }
    }
}

/// The job a queue hands out first has the lowest priority number of the queue.
pub proof fn lemma_dequeue_lowest(q: Seq<Job>)
    requires
        sorted_by_priority(q),
        q.len() > 0,
    ensures
        forall|i: int| 0 <= i < q.len() ==> q[0].priority <= #[trigger] q[i].priority,
{
}

} // verus!
