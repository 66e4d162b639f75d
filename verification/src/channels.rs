//! The jobs that shares may be submitted for, and the channels that submit them.

use crate::messages::NewExtendedMiningJob;
use std::collections::{HashMap, VecDeque};
use vstd::prelude::*;

verus! {

pub type ChannelId = u32;

pub type BlockHeight = u32;

/// Tells the sources of templates apart. Each has one cache of jobs.
pub type JobSourceId = u32;

/// How many jobs are kept.
pub const JOB_CACHE_SIZE: usize = 256;

/// A job with the Merkle root of each standard channel that works on it.
#[derive(Debug)]
pub struct JobWithCache {
    pub job_generic: NewExtendedMiningJob,
    pub merkle_root_cache: HashMap<ChannelId, [u8; 32]>,
}

impl JobWithCache {
    /// The id of the job.
    pub open spec fn id(self) -> u32 {
        self.job_generic.job_id
    }

    pub fn job_id(&self) -> (r: u32)
        ensures
            r == self.id(),
            r == self.job_generic.job_id,
    {
        self.job_generic.job_id
    }
}

/// A submitted share, of a standard or of an extended channel.
#[derive(Debug, PartialEq, Eq)]
pub struct AnyShare {
    pub channel_id: u32,
    pub sequence_number: u32,
    pub job_id: u32,
    pub nonce: u32,
    pub ntime: u32,
    pub version: u32,
    pub extranonce: Option<Vec<u8>>,
}

/// A share that an extended channel submits.
#[derive(Debug, PartialEq, Eq)]
pub struct SubmitSharesExtended {
    pub channel_id: u32,
    pub sequence_number: u32,
    pub job_id: u32,
    pub nonce: u32,
    pub ntime: u32,
    pub version: u32,
    pub extranonce: Vec<u8>,
}

/// A share that a standard channel submits.
#[derive(Debug, PartialEq, Eq)]
pub struct SubmitSharesStandard {
    pub channel_id: u32,
    pub sequence_number: u32,
    pub job_id: u32,
    pub nonce: u32,
    pub ntime: u32,
    pub version: u32,
}

/// The share of an extended channel, with its extranonce.
pub open spec fn extended_share(value: SubmitSharesExtended) -> AnyShare {
    AnyShare {
        channel_id: value.channel_id,
        sequence_number: value.sequence_number,
        job_id: value.job_id,
        nonce: value.nonce,
        ntime: value.ntime,
        version: value.version,
        extranonce: Some(value.extranonce),
    }
}

impl From<SubmitSharesExtended> for AnyShare {
    fn from(value: SubmitSharesExtended) -> (r: Self) {
        AnyShare {
            channel_id: value.channel_id,
            sequence_number: value.sequence_number,
            job_id: value.job_id,
            nonce: value.nonce,
            ntime: value.ntime,
            version: value.version,
            extranonce: Some(value.extranonce),
        }
    }
}

impl vstd::std_specs::convert::FromSpecImpl<SubmitSharesExtended> for AnyShare {
    open spec fn obeys_from_spec() -> bool {
        true
    }

    open spec fn from_spec(value: SubmitSharesExtended) -> AnyShare {
        extended_share(value)
    }
}

/// The share of a standard channel, which has no extranonce.
pub open spec fn standard_share(value: SubmitSharesStandard) -> AnyShare {
    AnyShare {
        channel_id: value.channel_id,
        sequence_number: value.sequence_number,
        job_id: value.job_id,
        nonce: value.nonce,
        ntime: value.ntime,
        version: value.version,
        extranonce: None,
    }
}

impl From<SubmitSharesStandard> for AnyShare {
    fn from(value: SubmitSharesStandard) -> (r: Self) {
        AnyShare {
            channel_id: value.channel_id,
            sequence_number: value.sequence_number,
            job_id: value.job_id,
            nonce: value.nonce,
            ntime: value.ntime,
            version: value.version,
            extranonce: None,
        }
    }
}

impl vstd::std_specs::convert::FromSpecImpl<SubmitSharesStandard> for AnyShare {
    open spec fn obeys_from_spec() -> bool {
        true
    }

    open spec fn from_spec(value: SubmitSharesStandard) -> AnyShare {
        standard_share(value)
    }
}

/// A share that counts.
#[derive(Debug, Clone, Copy, PartialEq, Eq)]
pub enum ShareValidationResult {
    /// The share with the given hash meets the target of its channel.
    Valid([u8; 32]),
    /// The share with the given hash meets the target of the block.
    BlockFound([u8; 32]),
}

/// A share that does not count.
#[derive(Debug, Clone, Copy, PartialEq, Eq)]
pub enum ShareValidationError {
    /// The share is for no job that is kept.
    InvalidJobId,
    /// The share was refused when it was looked at.
    Refused,
}

/// The first of the jobs that has the given id.
pub open spec fn first_with_id(jobs: Seq<JobWithCache>, job_id: u32) -> Option<JobWithCache>
    decreases jobs.len(),
{
    if jobs.len() == 0 {
        None
    } else if jobs[0].id() == job_id {
        Some(jobs[0])
    } else {
        first_with_id(jobs.drop_first(), job_id)
    }
}

/// The jobs with a new one in front, and without the last if there are too many.
pub open spec fn with_job(jobs: Seq<JobWithCache>, job: JobWithCache) -> Seq<JobWithCache> {
    let all = seq![job] + jobs;
    if all.len() > JOB_CACHE_SIZE {
        all.drop_last()
    } else {
        all
    }
}

/// What a cache holds: the jobs, newest first, and the height and the hash of the tip.
#[verifier::ext_equal]
pub struct CacheView {
    pub jobs: Seq<JobWithCache>,
    pub height: u32,
    pub prevhash: [u8; 32],
}

/// What can be written to a cache.
pub enum CacheWrite {
    AddJob(JobWithCache),
    UpdateTip(u32, [u8; 32]),
}

impl CacheView {
    /// What the cache holds after a write.
    pub open spec fn after(self, write: CacheWrite) -> CacheView {
        match write {
            CacheWrite::AddJob(job) => CacheView { jobs: with_job(self.jobs, job), ..self },
            CacheWrite::UpdateTip(height, prevhash) => CacheView { height, prevhash, ..self },
        }
    }

    /// What the cache holds after several writes, the earliest first.
    pub open spec fn after_all(self, writes: Seq<CacheWrite>) -> CacheView
        decreases writes.len(),
    {
        if writes.len() == 0 {
            self
        } else {
            self.after_all(writes.drop_last()).after(writes.last())
        }
    }
}

/// Keeps the jobs of one source of templates and the tip of the chain.
#[derive(Debug)]
pub struct JobCacheWriter {
    source: JobSourceId,
    height: u32,
    prevhash: [u8; 32],
    job_cache: VecDeque<JobWithCache>,
}

impl View for JobCacheWriter {
    type V = CacheView;

    closed spec fn view(&self) -> CacheView {
        CacheView { jobs: self.job_cache@, height: self.height, prevhash: self.prevhash }
    }
}

impl JobCacheWriter {
    /// The source of templates that the jobs are made of.
    pub closed spec fn job_source(self) -> JobSourceId {
        self.source
    }

    /// No more jobs are kept than [`JOB_CACHE_SIZE`].
    pub open spec fn wf(self) -> bool {
        self@.jobs.len() <= JOB_CACHE_SIZE
    }

    /// A cache without jobs.
    pub fn new(source: JobSourceId, height: u32, prevhash: [u8; 32]) -> (r: Self)
        ensures
            r.wf(),
            r.job_source() == source,
            r@ == (CacheView { jobs: Seq::empty(), height, prevhash }),
    {
        JobCacheWriter { source, height, prevhash, job_cache: VecDeque::new() }
    }

    /// The source of templates that the jobs are made of.
    pub fn source(&self) -> (r: JobSourceId)
        ensures
            r == self.job_source(),
    {
        self.source
    }

    /// A reader of this cache. It reads what the cache holds when it is used, whatever was
    /// written in between.
    pub fn reader(&self) -> (r: JobCacheReader)
        ensures
            r.reads(*self),
            r.source_read() == self.job_source(),
    {
        JobCacheReader { source: self.source }
    }

    /// Adds the newest job. If there are too many then, the oldest is dropped.
    pub fn add_active_job(&mut self, job: JobWithCache)
        requires
            old(self).wf(),
        ensures
            final(self).wf(),
            final(self)@ == old(self)@.after(CacheWrite::AddJob(job)),
            final(self).job_source() == old(self).job_source(),
            final(self)@.jobs[0] == job,
            final(self)@.jobs.len() == (if old(self)@.jobs.len() < 256 {
                old(self)@.jobs.len() + 1
            } else {
                256
            }),
            forall|i: int|
                1 <= i < final(self)@.jobs.len() ==> #[trigger] final(self)@.jobs[i]
                    == old(self)@.jobs[i - 1],
            final(self)@.height == old(self)@.height,
            final(self)@.prevhash == old(self)@.prevhash,
    {
        self.job_cache.push_front(job);
        if self.job_cache.len() > JOB_CACHE_SIZE {
            self.job_cache.pop_back();
        }
        assert(self@ =~= old(self)@.after(CacheWrite::AddJob(job)));
    }

    /// Sets the tip, by which stale shares are told.
    pub fn update_tip(&mut self, height: u32, prevhash: [u8; 32])
        ensures
            final(self)@ == old(self)@.after(CacheWrite::UpdateTip(height, prevhash)),
            final(self)@.height == height,
            final(self)@.prevhash == prevhash,
            final(self)@.jobs == old(self)@.jobs,
            final(self).job_source() == old(self).job_source(),
    {
        self.height = height;
        self.prevhash = prevhash;
    }
}

/// Reads the cache of one source of templates. A reader can be taken at any time and kept: what
/// it reads is what the cache holds when it is used.
#[derive(Debug, Clone, Copy, PartialEq, Eq)]
pub struct JobCacheReader {
    source: JobSourceId,
}

impl JobCacheReader {
    /// The source of templates whose cache this reads.
    pub closed spec fn source_read(self) -> JobSourceId {
        self.source
    }

    /// A reader reads the cache of its source, and no other.
    pub proof fn reader_reads_its_source(self, cache: JobCacheWriter)
        ensures
            self.reads(cache) <==> self.source_read() == cache.job_source(),
    {
    }

    /// Whether this is a reader of the given cache.
    pub closed spec fn reads(self, cache: JobCacheWriter) -> bool {
        self.source == cache.source
    }

    /// A reader of a cache stays one, whatever is written to the cache.
    pub proof fn reader_stays(self, before: JobCacheWriter, after: JobCacheWriter)
        requires
            self.reads(before),
            after.job_source() == before.job_source(),
        ensures
            self.reads(after),
    {
    }

    /// Whether this is a reader of the given cache.
    pub fn is_reader_of(&self, cache: &JobCacheWriter) -> (r: bool)
        ensures
            r == self.reads(*cache),
    {
        self.source == cache.source
    }

    /// Has the newest job with the given id look at a share. A share for a job that is not kept is
    /// refused without a look.
    pub fn try_validate_share_with_func<F>(
        &self,
        cache: &JobCacheWriter,
        job_id: u32,
        share: AnyShare,
        validation_func: F,
    ) -> (r: Result<ShareValidationResult, ShareValidationError>) where
        F: FnOnce(&JobWithCache, AnyShare, BlockHeight) -> Result<
            ShareValidationResult,
            ShareValidationError,
        >,

        requires
            self.reads(*cache),
            first_with_id(cache@.jobs, job_id) matches Some(job) ==> call_requires(
                validation_func,
                (&job, share, cache@.height),
            ),
        ensures
            match first_with_id(cache@.jobs, job_id) {
                Some(job) => call_ensures(validation_func, (&job, share, cache@.height), r),
                None => r == Err::<ShareValidationResult, ShareValidationError>(
                    ShareValidationError::InvalidJobId,
                ),
            },
            forall|i: int|
                0 <= i < cache@.jobs.len() && (
                #[trigger] cache@.jobs[i]).job_generic.job_id == job_id && (forall|m: int|
                    0 <= m < i ==> (#[trigger] cache@.jobs[m]).job_generic.job_id != job_id)
                    ==> call_ensures(
                    validation_func,
                    (&cache@.jobs[i], share, cache@.height),
                    r,
                ),
            (forall|i: int|
                0 <= i < cache@.jobs.len() ==> (#[trigger] cache@.jobs[i]).job_generic.job_id
                    != job_id) ==> r == Err::<ShareValidationResult, ShareValidationError>(
                ShareValidationError::InvalidJobId,
            ),
    {
        proof {
            lemma_first_with_id(cache@.jobs, job_id);
        }
        let ghost jobs = cache@.jobs;
        let mut i: usize = 0;
        assert(jobs.skip(0) =~= jobs);
        while i < cache.job_cache.len()
            invariant
                i <= cache.job_cache@.len(),
                jobs == cache.job_cache@,
                jobs == cache@.jobs,
                first_with_id(jobs, job_id) == first_with_id(jobs.skip(i as int), job_id),
                first_with_id(jobs, job_id) matches Some(job) ==> call_requires(
                    validation_func,
                    (&job, share, cache@.height),
                ),
            decreases cache.job_cache@.len() - i,
        {
            let job = &cache.job_cache[i];
            assert(jobs.skip(i as int).drop_first() =~= jobs.skip(i + 1));
            if job.job_id() == job_id {
                proof {
                    lemma_first_with_id(jobs, job_id);
                }
                return validation_func(job, share, cache.height);
            }
            i += 1;
        }
        Err(ShareValidationError::InvalidJobId)
    }
}

/// The jobs among several writes, the earliest first.
pub open spec fn added_jobs(writes: Seq<CacheWrite>) -> Seq<JobWithCache>
    decreases writes.len(),
{
    if writes.len() == 0 {
        Seq::empty()
    } else {
        match writes.last() {
            CacheWrite::AddJob(job) => added_jobs(writes.drop_last()).push(job),
            CacheWrite::UpdateTip(_, _) => added_jobs(writes.drop_last()),
        }
    }
}

/// The tip that was set last among several writes, or the one from the start.
pub open spec fn last_tip(start: (u32, [u8; 32]), writes: Seq<CacheWrite>) -> (u32, [u8; 32])
    decreases writes.len(),
{
    if writes.len() == 0 {
        start
    } else {
        match writes.last() {
            CacheWrite::AddJob(_) => last_tip(start, writes.drop_last()),
            CacheWrite::UpdateTip(height, prevhash) => (height, prevhash),
        }
    }
}

/// The last `n` jobs, or all of them if there are fewer.
pub open spec fn last_jobs(jobs: Seq<JobWithCache>, n: int) -> Seq<JobWithCache> {
    if jobs.len() <= n {
        jobs
    } else {
        jobs.skip(jobs.len() - n)
    }
}

/// Whatever is written to a new cache, it holds the last [`JOB_CACHE_SIZE`] jobs that were added,
/// newest first, and the tip that was set last.
pub proof fn cache_holds_the_last_jobs(start: CacheView, writes: Seq<CacheWrite>)
    requires
        start.jobs.len() == 0,
    ensures
        start.after_all(writes).jobs == last_jobs(
            added_jobs(writes),
            JOB_CACHE_SIZE as int,
        ).reverse(),
        (start.after_all(writes).height, start.after_all(writes).prevhash) == last_tip(
            (start.height, start.prevhash),
            writes,
        ),
    decreases writes.len(),
{
    let n = JOB_CACHE_SIZE as int;
    let now = start.after_all(writes).jobs;
    if writes.len() == 0 {
        assert(now =~= last_jobs(added_jobs(writes), n).reverse());
    } else {
        let before = writes.drop_last();
        cache_holds_the_last_jobs(start, before);
        if let CacheWrite::AddJob(job) = writes.last() {
            let jobs = added_jobs(before);
            assert(now == with_job(last_jobs(jobs, n).reverse(), job));
            assert(now =~= last_jobs(jobs.push(job), n).reverse());
        }
    }
}

/// What a reader finds in a cache after any writes: the job that was added last among those with
/// the given id, if it is one of the last [`JOB_CACHE_SIZE`].
pub proof fn reader_finds_the_newest_job(
    start: CacheView,
    writes: Seq<CacheWrite>,
    job_id: u32,
    k: int,
)
    requires
        start.jobs.len() == 0,
        0 <= k < added_jobs(writes).len(),
        k >= added_jobs(writes).len() - JOB_CACHE_SIZE,
        added_jobs(writes)[k].id() == job_id,
        forall|j: int|
            k < j < added_jobs(writes).len() ==> (#[trigger] added_jobs(writes)[j]).id() != job_id,
    ensures
        first_with_id(start.after_all(writes).jobs, job_id) == Some(added_jobs(writes)[k]),
{
    let added = added_jobs(writes);
    let jobs = start.after_all(writes).jobs;
    cache_holds_the_last_jobs(start, writes);
    let i = added.len() - 1 - k;
    assert(jobs[i] == added[k]);
    assert forall|m: int| 0 <= m < i implies (#[trigger] jobs[m]).id() != job_id by {
        assert(jobs[m] == added[added.len() - 1 - m]);
    }
    lemma_first_with_id_at(jobs, job_id, i);
}

/// What a reader does not find in a cache after any writes: a job with an id that none of the
/// last [`JOB_CACHE_SIZE`] has.
pub proof fn reader_finds_no_other_job(start: CacheView, writes: Seq<CacheWrite>, job_id: u32)
    requires
        start.jobs.len() == 0,
        forall|j: int|
            0 <= j < added_jobs(writes).len() && j >= added_jobs(writes).len() - JOB_CACHE_SIZE
                ==> (#[trigger] added_jobs(writes)[j]).id() != job_id,
    ensures
        first_with_id(start.after_all(writes).jobs, job_id) is None,
{
    let added = added_jobs(writes);
    let jobs = start.after_all(writes).jobs;
    cache_holds_the_last_jobs(start, writes);
    assert forall|m: int| 0 <= m < jobs.len() implies (#[trigger] jobs[m]).id() != job_id by {
        assert(jobs[m] == added[added.len() - 1 - m]);
    }
    lemma_first_with_id_none(jobs, job_id);
}

/// What looking for an id gives: the first job that has it, or none if no job has it.
pub proof fn looking_finds_the_first(jobs: Seq<JobWithCache>, job_id: u32)
    ensures
        first_with_id(jobs, job_id) matches Some(job) ==> exists|i: int|
            0 <= i < jobs.len() && #[trigger] jobs[i] == job && job.job_generic.job_id == job_id
                && forall|m: int|
                0 <= m < i ==> (#[trigger] jobs[m]).job_generic.job_id != job_id,
        first_with_id(jobs, job_id) is None <==> forall|i: int|
            0 <= i < jobs.len() ==> (#[trigger] jobs[i]).job_generic.job_id != job_id,
    decreases jobs.len(),
{
    if jobs.len() > 0 && jobs[0].id() != job_id {
        let rest = jobs.drop_first();
        looking_finds_the_first(rest, job_id);
        if let Some(job) = first_with_id(rest, job_id) {
            let i = choose|i: int|
                0 <= i < rest.len() && #[trigger] rest[i] == job && job.job_generic.job_id == job_id
                    && forall|m: int|
                    0 <= m < i ==> (#[trigger] rest[m]).job_generic.job_id != job_id;
            assert(jobs[i + 1] == job);
            assert forall|m: int| 0 <= m < i + 1 implies (
            #[trigger] jobs[m]).job_generic.job_id != job_id by {
                if m > 0 {
                    assert(rest[m - 1] == jobs[m]);
                }
            }
        } else {
            assert forall|i: int| 0 <= i < jobs.len() implies (
            #[trigger] jobs[i]).job_generic.job_id != job_id by {
                if i > 0 {
                    assert(rest[i - 1] == jobs[i]);
                }
            }
        }
    }
}

proof fn lemma_first_with_id(jobs: Seq<JobWithCache>, job_id: u32)
    ensures
        forall|i: int|
            0 <= i < jobs.len() && (#[trigger] jobs[i]).job_generic.job_id == job_id && (forall|
                m: int,
            |
                0 <= m < i ==> (#[trigger] jobs[m]).job_generic.job_id != job_id)
                ==> first_with_id(jobs, job_id) == Some(jobs[i]),
        (forall|i: int|
            0 <= i < jobs.len() ==> (#[trigger] jobs[i]).job_generic.job_id != job_id)
            ==> first_with_id(jobs, job_id) is None,
{
    looking_finds_the_first(jobs, job_id);
    assert forall|i: int|
        0 <= i < jobs.len() && (#[trigger] jobs[i]).job_generic.job_id == job_id && (forall|m: int|
            0 <= m < i ==> (#[trigger] jobs[m]).job_generic.job_id != job_id)
        implies first_with_id(jobs, job_id) == Some(jobs[i]) by {
        lemma_first_with_id_at(jobs, job_id, i);
    }
}

/// Of the jobs that are kept the new one is the first, the others follow in their order, and no
/// more than 256 are kept.
pub proof fn new_job_comes_first(jobs: Seq<JobWithCache>, job: JobWithCache)
    ensures
        with_job(jobs, job)[0] == job,
        forall|i: int|
            1 <= i < with_job(jobs, job).len() ==> #[trigger] with_job(jobs, job)[i] == jobs[i - 1],
        jobs.len() < 256 ==> with_job(jobs, job).len() == jobs.len() + 1,
        jobs.len() >= 256 ==> with_job(jobs, job).len() == jobs.len(),
{
}

/// A write changes what it writes, and nothing else.
pub proof fn write_changes_only_its_part(
    c: CacheView,
    job: JobWithCache,
    height: u32,
    prevhash: [u8; 32],
)
    ensures
        c.after(CacheWrite::AddJob(job)).jobs == with_job(c.jobs, job),
        c.after(CacheWrite::AddJob(job)).height == c.height,
        c.after(CacheWrite::AddJob(job)).prevhash == c.prevhash,
        c.after(CacheWrite::UpdateTip(height, prevhash)).jobs == c.jobs,
        c.after(CacheWrite::UpdateTip(height, prevhash)).height == height,
        c.after(CacheWrite::UpdateTip(height, prevhash)).prevhash == prevhash,
{
}

/// A share of either channel keeps every field that was submitted. One of a standard channel has
/// no extranonce.
pub proof fn shares_keep_what_was_submitted(a: SubmitSharesStandard, b: SubmitSharesExtended)
    ensures
        standard_share(a).channel_id == a.channel_id,
        standard_share(a).sequence_number == a.sequence_number,
        standard_share(a).job_id == a.job_id,
        standard_share(a).nonce == a.nonce,
        standard_share(a).ntime == a.ntime,
        standard_share(a).version == a.version,
        standard_share(a).extranonce is None,
        extended_share(b).channel_id == b.channel_id,
        extended_share(b).sequence_number == b.sequence_number,
        extended_share(b).job_id == b.job_id,
        extended_share(b).nonce == b.nonce,
        extended_share(b).ntime == b.ntime,
        extended_share(b).version == b.version,
        extended_share(b).extranonce == Some(b.extranonce),
{
}

proof fn lemma_first_with_id_at(jobs: Seq<JobWithCache>, job_id: u32, i: int)
    requires
        0 <= i < jobs.len(),
        jobs[i].id() == job_id,
        forall|m: int| 0 <= m < i ==> (#[trigger] jobs[m]).id() != job_id,
    ensures
        first_with_id(jobs, job_id) == Some(jobs[i]),
    decreases jobs.len(),
{
    if i > 0 {
        let rest = jobs.drop_first();
        assert(jobs[0].id() != job_id);
        assert(rest[i - 1] == jobs[i]);
        assert forall|m: int| 0 <= m < i - 1 implies (#[trigger] rest[m]).id() != job_id by {
            assert(rest[m] == jobs[m + 1]);
        }
        lemma_first_with_id_at(rest, job_id, i - 1);
    }
}

/// The newest job is found under its id.
pub proof fn added_job_is_found(jobs: Seq<JobWithCache>, job: JobWithCache)
    ensures
        first_with_id(with_job(jobs, job), job.id()) == Some(job),
{
    assert(with_job(jobs, job)[0] == job);
}

/// Adding a job does not change what is found under other ids, unless the oldest job is dropped
/// and was the one.
pub proof fn other_jobs_stay_found(jobs: Seq<JobWithCache>, job: JobWithCache, job_id: u32)
    requires
        job_id != job.id(),
        jobs.len() >= JOB_CACHE_SIZE ==> jobs.last().id() != job_id,
    ensures
        first_with_id(with_job(jobs, job), job_id) == first_with_id(jobs, job_id),
{
    let all = seq![job] + jobs;
    assert(all.drop_first() =~= jobs);
    if all.len() > JOB_CACHE_SIZE {
        lemma_first_with_id_drop_last(all, job_id);
    }
}

/// A job that is dropped is not found again, unless another has its id.
pub proof fn dropped_job_is_not_found(jobs: Seq<JobWithCache>, job: JobWithCache, job_id: u32)
    requires
        jobs.len() >= JOB_CACHE_SIZE,
        job_id != job.id(),
        forall|i: int| 0 <= i < jobs.len() - 1 ==> (#[trigger] jobs[i]).id() != job_id,
    ensures
        first_with_id(with_job(jobs, job), job_id) is None,
{
    let kept = with_job(jobs, job);
    assert forall|i: int| 0 <= i < kept.len() implies (#[trigger] kept[i]).id() != job_id by {
        if i > 0 {
            assert(kept[i] == jobs[i - 1]);
        }
    }
    lemma_first_with_id_none(kept, job_id);
}

proof fn lemma_first_with_id_drop_last(jobs: Seq<JobWithCache>, job_id: u32)
    requires
        jobs.len() > 0,
        jobs.last().id() != job_id,
    ensures
        first_with_id(jobs.drop_last(), job_id) == first_with_id(jobs, job_id),
    decreases jobs.len(),
{
    if jobs.len() > 1 {
        assert(jobs.drop_first().drop_last() =~= jobs.drop_last().drop_first());
        assert(jobs.drop_last()[0] == jobs[0]);
        lemma_first_with_id_drop_last(jobs.drop_first(), job_id);
    } else {
        assert(jobs[0] == jobs.last());
        assert(first_with_id(jobs.drop_first(), job_id) is None);
    }
}

proof fn lemma_first_with_id_none(jobs: Seq<JobWithCache>, job_id: u32)
    requires
        forall|i: int| 0 <= i < jobs.len() ==> (#[trigger] jobs[i]).id() != job_id,
    ensures
        first_with_id(jobs, job_id) is None,
    decreases jobs.len(),
{
    if jobs.len() > 0 {
        assert forall|i: int| 0 <= i < jobs.drop_first().len() implies (
        #[trigger] jobs.drop_first()[i]).id() != job_id by {
            assert(jobs[i + 1].id() != job_id);
        }
        lemma_first_with_id_none(jobs.drop_first(), job_id);
    }
}

/// Counts the shares of a channel.
#[derive(Debug, Clone, Copy, PartialEq, Eq)]
pub struct DifficultyManager {
    pub valid_shares: u64,
}

impl DifficultyManager {
    /// Counts a share.
    pub fn tally_valid_share(&mut self)
        requires
            old(self).valid_shares < u64::MAX,
        ensures
            final(self).valid_shares == old(self).valid_shares + 1,
    {
        self.valid_shares += 1;
    }
}

/// A channel of a client.
#[derive(Debug)]
pub struct ChannelState {
    pub channel_id: ChannelId,
    pub user_identity: String,
    /// Reads the jobs that the channel works on.
    pub default_job_cache_reader: JobCacheReader,
    pub difficulty_manager: DifficultyManager,
    pub rollable_extranonce_size: u16,
}

impl ChannelState {
    /// The channel after a share: one more is counted if it is valid or a block.
    pub open spec fn after_share(
        self,
        res: Result<ShareValidationResult, ShareValidationError>,
    ) -> ChannelState {
        if res is Ok {
            ChannelState {
                difficulty_manager: DifficultyManager {
                    valid_shares: (self.difficulty_manager.valid_shares + 1) as u64,
                },
                ..self
            }
        } else {
            self
        }
    }
}

/// Whether `res` is an outcome that the validation of a share can have.
pub open spec fn can_validate<F>(
    jobs: Seq<JobWithCache>,
    height: BlockHeight,
    share: AnyShare,
    validation_func: F,
    res: Result<ShareValidationResult, ShareValidationError>,
) -> bool where
    F: FnOnce(&JobWithCache, AnyShare, BlockHeight) -> Result<
        ShareValidationResult,
        ShareValidationError,
    >,
 {
    match first_with_id(jobs, share.job_id) {
        Some(job) => call_ensures(validation_func, (&job, share, height), res),
        None => res == Err::<ShareValidationResult, ShareValidationError>(
            ShareValidationError::InvalidJobId,
        ),
    }
}

/// Whether handling a share can lead from the channels `before` to the channels `after`: the
/// share is validated, and its channel counts it accordingly.
pub open spec fn can_handle<F>(
    before: Map<ChannelId, ChannelState>,
    jobs: Seq<JobWithCache>,
    height: BlockHeight,
    share: AnyShare,
    validation_func: F,
    after: Map<ChannelId, ChannelState>,
) -> bool where
    F: FnOnce(&JobWithCache, AnyShare, BlockHeight) -> Result<
        ShareValidationResult,
        ShareValidationError,
    >,
 {
    exists|res: Result<ShareValidationResult, ShareValidationError>| #[trigger]
        can_validate(jobs, height, share, validation_func, res) && after == before.insert(
            share.channel_id,
            before[share.channel_id].after_share(res),
        )
}

/// Handling a share touches no channel but the share's own, and of that nothing but the count. The
/// count goes up by one exactly if the newest job with the share's job id, looking at the share as
/// it was submitted and at the height of the tip, can find it valid or a block; a share for no job
/// is not counted.
pub proof fn handling_counts_only_valid_shares<F>(
    before: Map<ChannelId, ChannelState>,
    jobs: Seq<JobWithCache>,
    height: BlockHeight,
    share: AnyShare,
    validation_func: F,
    after: Map<ChannelId, ChannelState>,
) where
    F: FnOnce(&JobWithCache, AnyShare, BlockHeight) -> Result<
        ShareValidationResult,
        ShareValidationError,
    >,

    requires
        can_handle(before, jobs, height, share, validation_func, after),
        before.contains_key(share.channel_id),
        before[share.channel_id].difficulty_manager.valid_shares < u64::MAX,
    ensures
        ({
            let (a, b) = (before[share.channel_id], after[share.channel_id]);
            let (m, n) = (a.difficulty_manager.valid_shares, b.difficulty_manager.valid_shares);
            &&& after.dom() == before.dom()
            &&& forall|c: ChannelId|
                c != share.channel_id && before.contains_key(c) ==> #[trigger] after[c]
                    == before[c]
            &&& b.channel_id == a.channel_id
            &&& b.user_identity == a.user_identity
            &&& b.default_job_cache_reader == a.default_job_cache_reader
            &&& b.rollable_extranonce_size == a.rollable_extranonce_size
            &&& n == m || n == m + 1
            &&& n == m + 1 ==> exists|
                i: int,
                res: Result<ShareValidationResult, ShareValidationError>,
            |
                0 <= i < jobs.len() && jobs[i].job_generic.job_id == share.job_id && (forall|k: int|
                    0 <= k < i ==> (#[trigger] jobs[k]).job_generic.job_id != share.job_id) && res
                    is Ok && #[trigger] call_ensures(
                    validation_func,
                    (&jobs[i], share, height),
                    res,
                )
            &&& n == m && (exists|i: int|
                0 <= i < jobs.len() && (#[trigger] jobs[i]).job_generic.job_id == share.job_id)
                ==> exists|i: int, res: Result<ShareValidationResult, ShareValidationError>|
                0 <= i < jobs.len() && jobs[i].job_generic.job_id == share.job_id && (forall|k: int|
                    0 <= k < i ==> (#[trigger] jobs[k]).job_generic.job_id != share.job_id) && res
                    is Err && #[trigger] call_ensures(
                    validation_func,
                    (&jobs[i], share, height),
                    res,
                )
        }),
{
    let res = choose|res: Result<ShareValidationResult, ShareValidationError>| #[trigger]
        can_validate(jobs, height, share, validation_func, res) && after == before.insert(
            share.channel_id,
            before[share.channel_id].after_share(res),
        );
    assert(after.dom() =~= before.dom());
    looking_finds_the_first(jobs, share.job_id);
    if let Some(job) = first_with_id(jobs, share.job_id) {
        let i = choose|i: int|
            0 <= i < jobs.len() && #[trigger] jobs[i] == job && job.job_generic.job_id
                == share.job_id && forall|m: int|
                0 <= m < i ==> (#[trigger] jobs[m]).job_generic.job_id != share.job_id;
        assert(call_ensures(validation_func, (&jobs[i], share, height), res));
    }
}

/// An outcome that a validation can have is one of the newest job with the share's job id, which
/// looks at the share as it was submitted and at the height of the tip; without such a job it is
/// the error that there is none.
pub proof fn validation_is_by_the_newest_job<F>(
    jobs: Seq<JobWithCache>,
    height: BlockHeight,
    share: AnyShare,
    validation_func: F,
    res: Result<ShareValidationResult, ShareValidationError>,
    i: int,
) where
    F: FnOnce(&JobWithCache, AnyShare, BlockHeight) -> Result<
        ShareValidationResult,
        ShareValidationError,
    >,

    requires
        can_validate(jobs, height, share, validation_func, res),
    ensures
        0 <= i < jobs.len() && jobs[i].job_generic.job_id == share.job_id && (forall|m: int|
            0 <= m < i ==> (#[trigger] jobs[m]).job_generic.job_id != share.job_id)
            ==> call_ensures(validation_func, (&jobs[i], share, height), res),
        (forall|m: int|
            0 <= m < jobs.len() ==> (#[trigger] jobs[m]).job_generic.job_id != share.job_id)
            ==> res == Err::<ShareValidationResult, ShareValidationError>(
            ShareValidationError::InvalidJobId,
        ),
{
    lemma_first_with_id(jobs, share.job_id);
}

/// The channels of one connection. More than one makes a group.
#[derive(Debug)]
pub struct ClientConnection {
    channels: HashMap<ChannelId, ChannelState>,
}

impl ClientConnection {
    /// The channels by their ids.
    pub closed spec fn channels(self) -> Map<ChannelId, ChannelState> {
        self.channels@
    }

    /// A connection without channels.
    pub fn new() -> (r: Self)
        ensures
            r.channels() == Map::<ChannelId, ChannelState>::empty(),
    {
        ClientConnection { channels: HashMap::new() }
    }

    /// Adds a channel, in place of one with the same id.
    pub fn add_channel(&mut self, channel: ChannelState)
        ensures
            final(self).channels() == old(self).channels().insert(channel.channel_id, channel),
    {
        broadcast use vstd::std_specs::hash::group_hash_axioms;

        self.channels.insert(channel.channel_id, channel);
    }

    /// The channel with the given id.
    pub fn channel(&self, channel_id: ChannelId) -> (r: Option<&ChannelState>)
        ensures
            match r {
                Some(c) => self.channels().contains_key(channel_id) && *c
                    == self.channels()[channel_id],
                None => !self.channels().contains_key(channel_id),
            },
    {
        broadcast use vstd::std_specs::hash::group_hash_axioms;

        self.channels.get(&channel_id)
    }

    /// Handles a share of a standard channel, with the cache that the channel reads.
    pub fn handle_submit_share_standard<F>(
        &mut self,
        share: SubmitSharesStandard,
        cache: &JobCacheWriter,
        validation_func: F,
    ) where
        F: FnOnce(&JobWithCache, AnyShare, BlockHeight) -> Result<
            ShareValidationResult,
            ShareValidationError,
        >,

        requires
            old(self).channels().contains_key(share.channel_id),
            old(self).channels()[share.channel_id].default_job_cache_reader.reads(*cache),
            old(self).channels()[share.channel_id].difficulty_manager.valid_shares < u64::MAX,
            first_with_id(cache@.jobs, share.job_id) matches Some(job) ==> call_requires(
                validation_func,
                (&job, standard_share(share), cache@.height),
            ),
        ensures
            can_handle(
                old(self).channels(),
                cache@.jobs,
                cache@.height,
                standard_share(share),
                validation_func,
                final(self).channels(),
            ),
    {
        let any_share = AnyShare::from(share);
        self._handle_submit_share(any_share, cache, validation_func);
    }

    /// Handles a share of an extended channel, with the cache that the channel reads.
    pub fn handle_submit_share_extended<F>(
        &mut self,
        share: SubmitSharesExtended,
        cache: &JobCacheWriter,
        validation_func: F,
    ) where
        F: FnOnce(&JobWithCache, AnyShare, BlockHeight) -> Result<
            ShareValidationResult,
            ShareValidationError,
        >,

        requires
            old(self).channels().contains_key(share.channel_id),
            old(self).channels()[share.channel_id].default_job_cache_reader.reads(*cache),
            old(self).channels()[share.channel_id].difficulty_manager.valid_shares < u64::MAX,
            first_with_id(cache@.jobs, share.job_id) matches Some(job) ==> call_requires(
                validation_func,
                (&job, extended_share(share), cache@.height),
            ),
        ensures
            can_handle(
                old(self).channels(),
                cache@.jobs,
                cache@.height,
                extended_share(share),
                validation_func,
                final(self).channels(),
            ),
    {
        let any_share = AnyShare::from(share);
        self._handle_submit_share(any_share, cache, validation_func);
    }

    /// Handles a share: it is validated with the cache that its channel reads, and its channel
    /// counts it if it is valid or a block.
    pub fn _handle_submit_share<F>(
        &mut self,
        any_share: AnyShare,
        cache: &JobCacheWriter,
        validation_func: F,
    ) where
        F: FnOnce(&JobWithCache, AnyShare, BlockHeight) -> Result<
            ShareValidationResult,
            ShareValidationError,
        >,

        requires
            old(self).channels().contains_key(any_share.channel_id),
            old(self).channels()[any_share.channel_id].default_job_cache_reader.reads(*cache),
            old(self).channels()[any_share.channel_id].difficulty_manager.valid_shares < u64::MAX,
            first_with_id(cache@.jobs, any_share.job_id) matches Some(job) ==> call_requires(
                validation_func,
                (&job, any_share, cache@.height),
            ),
        ensures
            can_handle(
                old(self).channels(),
                cache@.jobs,
                cache@.height,
                any_share,
                validation_func,
                final(self).channels(),
            ),
    {
        let channel_id = any_share.channel_id;
        broadcast use vstd::std_specs::hash::group_hash_axioms;

        let reader = match self.channels.get(&channel_id) {
            Some(channel) => channel.default_job_cache_reader,
            None => cache.reader(),
        };
        let res = reader.try_validate_share_with_func(
            cache,
            any_share.job_id,
            any_share,
            validation_func,
        );
        assert(can_validate(
            cache@.jobs,
            cache@.height,
            any_share,
            validation_func,
            res,
        ));
        self.tally_share(channel_id, &res);
    }

    /// Counts a share that was validated.
    pub fn tally_share(
        &mut self,
        channel_id: ChannelId,
        res: &Result<ShareValidationResult, ShareValidationError>,
    )
        requires
            old(self).channels().contains_key(channel_id),
            old(self).channels()[channel_id].difficulty_manager.valid_shares < u64::MAX,
        ensures
            final(self).channels() == old(self).channels().insert(
                channel_id,
                old(self).channels()[channel_id].after_share(*res),
            ),
            final(self).channels().dom() == old(self).channels().dom(),
            forall|c: ChannelId|
                c != channel_id && old(self).channels().contains_key(c)
                    ==> #[trigger] final(self).channels()[c] == old(self).channels()[c],
            final(self).channels()[channel_id].difficulty_manager.valid_shares == old(
                self,
            ).channels()[channel_id].difficulty_manager.valid_shares + (if *res is Ok {
                1int
            } else {
                0
            }),
            final(self).channels()[channel_id].channel_id == old(
                self,
            ).channels()[channel_id].channel_id,
            final(self).channels()[channel_id].user_identity == old(
                self,
            ).channels()[channel_id].user_identity,
            final(self).channels()[channel_id].default_job_cache_reader == old(
                self,
            ).channels()[channel_id].default_job_cache_reader,
            final(self).channels()[channel_id].rollable_extranonce_size == old(
                self,
            ).channels()[channel_id].rollable_extranonce_size,
    {
        broadcast use vstd::std_specs::hash::group_hash_axioms;

        match res {
            Ok(ShareValidationResult::BlockFound(_)) | Ok(ShareValidationResult::Valid(_)) => {
                if let Some(mut channel) = self.channels.remove(&channel_id) {
                    channel.difficulty_manager.tally_valid_share();
                    self.channels.insert(channel_id, channel);
                }
            },
            Err(_) => {},
        }
        assert(self.channels() =~= old(self).channels().insert(
            channel_id,
            old(self).channels()[channel_id].after_share(*res),
        ));
        assert(self.channels().dom() =~= old(self).channels().dom());
    }
}

} // verus!
