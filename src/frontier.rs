//! The frontier: the work queue of discovered URLs, one record per URL, with
//! its claim, discover, complete and fail transitions.

use vstd::prelude::*;

verus! {

/// Priority of a record at depth zero; deeper records get less.
pub const PRIORITY_CAP: i64 = 10;

/// Crawl state of a frontier record.
#[derive(Clone, Copy, Debug, PartialEq, Eq, Structural)]
pub enum CrawlStatus {
    Pending,
    Processing,
    Completed,
    Failed,
}

/// One discovered URL and where it stands.
#[derive(Debug)]
pub struct FrontierRecord {
    pub id: u64,
    pub url: String,
    pub depth: u32,
    pub priority: i64,
    pub status: CrawlStatus,
    pub error_count: u64,
    pub created_at: u64,
    pub last_crawled: Option<u64>,
}

/// A frontier record with its URL as a character sequence.
pub struct RecordView {
    pub id: u64,
    pub url: Seq<char>,
    pub depth: u32,
    pub priority: i64,
    pub status: CrawlStatus,
    pub error_count: u64,
    pub created_at: u64,
    pub last_crawled: Option<u64>,
}

impl View for FrontierRecord {
    type V = RecordView;

    open spec fn view(&self) -> RecordView {
        RecordView {
            id: self.id,
            url: self.url@,
            depth: self.depth,
            priority: self.priority,
            status: self.status,
            error_count: self.error_count,
            created_at: self.created_at,
            last_crawled: self.last_crawled,
        }
    }
}

/// The priority that a record at `depth` gets: shallower pages first.
pub open spec fn priority_of(depth: u32) -> int {
    PRIORITY_CAP - depth
}

/// The priority of a record discovered at `depth`.
pub fn priority_for(depth: u32) -> (r: i64)
    ensures
        r == priority_of(depth),
{
    PRIORITY_CAP - depth as i64
}

pub open spec fn is_terminal(s: CrawlStatus) -> bool {
    s == CrawlStatus::Completed || s == CrawlStatus::Failed
}

/// The record that discovering `url` at `depth` creates as the `id`-th one.
pub open spec fn fresh_record(id: nat, url: Seq<char>, depth: u32) -> RecordView {
    RecordView {
        id: id as u64,
        url,
        depth,
        priority: priority_of(depth) as i64,
        status: CrawlStatus::Pending,
        error_count: 0,
        created_at: id as u64,
        last_crawled: None,
    }
}

/// Ids and creation stamps follow the order of insertion, the priority
/// follows the depth, and no two records share a URL.
pub open spec fn well_formed(s: Seq<RecordView>) -> bool {
    &&& s.len() < u64::MAX
    &&& forall|i: int|
        0 <= i < s.len() ==> (#[trigger] s[i]).id == i && s[i].created_at == i && s[i].priority
            == priority_of(s[i].depth)
    &&& forall|i: int, j: int| 0 <= i < s.len() && 0 <= j < s.len() && i != j ==> s[i].url != s[j].url
}

pub open spec fn has_url(s: Seq<RecordView>, url: Seq<char>) -> bool {
    exists|i: int| 0 <= i < s.len() && s[i].url == url
}

/// Exactly one record of `s` has the URL `url`.
pub open spec fn one_record_for(s: Seq<RecordView>, url: Seq<char>) -> bool {
    exists|i: int|
        0 <= i < s.len() && (#[trigger] s[i]).url == url && forall|j: int|
            0 <= j < s.len() && (#[trigger] s[j]).url == url ==> j == i
}

/// Conflict-free insert: a new pending record unless the URL is known.
pub open spec fn insert_absent(s: Seq<RecordView>, url: Seq<char>, depth: u32) -> Seq<RecordView> {
    if has_url(s, url) {
        s
    } else {
        s.push(fresh_record(s.len(), url, depth))
    }
}

/// The records after discovering `urls`, in order, at `depth`.
pub open spec fn discover_all(s: Seq<RecordView>, urls: Seq<Seq<char>>, depth: u32) -> Seq<
    RecordView,
>
    decreases urls.len(),
{
    if urls.len() == 0 {
        s
    } else {
        insert_absent(discover_all(s, urls.drop_last(), depth), urls.last(), depth)
    }
}

/// `a` is claimed before `b`: higher priority, then older.
pub open spec fn claimed_before(a: RecordView, b: RecordView) -> bool {
    a.priority > b.priority || (a.priority == b.priority && a.created_at < b.created_at)
}

pub open spec fn with_status(r: RecordView, st: CrawlStatus) -> RecordView {
    RecordView { status: st, ..r }
}

/// `ids` is what `claim(limit)` takes from `old`, leaving `new`: pending
/// records in claim order, the first `limit` of them (all, when fewer are
/// pending), now processing; every other record is untouched.
pub open spec fn claimed(old: Seq<RecordView>, new: Seq<RecordView>, limit: nat, ids: Seq<u64>) -> bool {
    &&& new.len() == old.len()
    &&& ids.len() <= limit
    &&& forall|i: int|
        0 <= i < ids.len() ==> #[trigger] ids[i] < old.len() && old[ids[i] as int].status
            == CrawlStatus::Pending && new[ids[i] as int] == with_status(
            old[ids[i] as int],
            CrawlStatus::Processing,
        )
    &&& forall|i: int, j: int|
        0 <= i < j < ids.len() ==> claimed_before(old[#[trigger] ids[i] as int], old[#[trigger] ids[j] as int])
    &&& forall|k: int|
        0 <= k < old.len() && old[k].status == CrawlStatus::Pending && !ids.contains(k as u64)
            ==> ids.len() == limit && forall|i: int|
            0 <= i < ids.len() ==> claimed_before(old[#[trigger] ids[i] as int], old[k])
    &&& forall|k: int| 0 <= k < old.len() && !ids.contains(k as u64) ==> new[k] == old[k]
}

/// The record `id` can take a terminal transition: it exists and is
/// processing.
pub open spec fn can_finish(s: Seq<RecordView>, id: u64) -> bool {
    id < s.len() && s[id as int].status == CrawlStatus::Processing
}

/// The records after the terminal transition of the record `id` to `st`.
/// Only a processing record moves; any other record, a completed or failed
/// one above all, stays exactly as it was.
pub open spec fn finished(s: Seq<RecordView>, id: u64, st: CrawlStatus, now: u64) -> Seq<
    RecordView,
> {
    if can_finish(s, id) {
        let r = s[id as int];
        let errors = if st == CrawlStatus::Failed && r.error_count < u64::MAX {
            (r.error_count + 1) as u64
        } else {
            r.error_count
        };
        s.update(
            id as int,
            RecordView { status: st, error_count: errors, last_crawled: Some(now), ..r },
        )
    } else {
        s
    }
}

/// Invariant of the claim loop: `ids`, taken from `start` so far, are
/// pending records in claim order that now are processing, each before every
/// pending record not yet taken, which is still untouched.
pub open spec fn claimed_so_far(start: Seq<RecordView>, cur: Seq<RecordView>, ids: Seq<u64>) -> bool {
    &&& cur.len() == start.len()
    &&& forall|i: int|
        0 <= i < ids.len() ==> #[trigger] ids[i] < start.len() && start[ids[i] as int].status
            == CrawlStatus::Pending && cur[ids[i] as int] == with_status(
            start[ids[i] as int],
            CrawlStatus::Processing,
        )
    &&& forall|i: int, j: int|
        0 <= i < j < ids.len() ==> claimed_before(start[#[trigger] ids[i] as int], start[#[trigger] ids[j] as int])
    &&& forall|k: int|
        0 <= k < start.len() && start[k].status == CrawlStatus::Pending && !ids.contains(k as u64)
            ==> forall|i: int|
            0 <= i < ids.len() ==> claimed_before(start[#[trigger] ids[i] as int], start[k])
    &&& forall|k: int| 0 <= k < start.len() && !ids.contains(k as u64) ==> cur[k] == start[k]
}

proof fn lemma_claim_step(
    start: Seq<RecordView>,
    before: Seq<RecordView>,
    after: Seq<RecordView>,
    ids: Seq<u64>,
    b: u64,
)
    requires
        well_formed(start),
        claimed_so_far(start, before, ids),
        b < before.len(),
        before[b as int].status == CrawlStatus::Pending,
        forall|k: int|
            0 <= k < before.len() && k != b && before[k].status == CrawlStatus::Pending
                ==> claimed_before(before[b as int], before[k]),
        after == before.update(b as int, with_status(before[b as int], CrawlStatus::Processing)),
    ensures
        claimed_so_far(start, after, ids.push(b)),
{
    let ids2 = ids.push(b);
    assert(!ids.contains(b)) by {
        if ids.contains(b) {
            let i = choose|i: int| 0 <= i < ids.len() && ids[i] == b;
            assert(before[ids[i] as int].status == CrawlStatus::Processing);
        }
    }
    assert(before[b as int] == start[b as int]);
    assert forall|i: int| 0 <= i < ids2.len() implies #[trigger] ids2[i] < start.len()
        && start[ids2[i] as int].status == CrawlStatus::Pending && after[ids2[i] as int]
        == with_status(start[ids2[i] as int], CrawlStatus::Processing) by {
        if i < ids.len() {
            assert(ids2[i] == ids[i]);
            assert(ids[i] != b);
        }
    }
    assert forall|i: int, j: int| 0 <= i < j < ids2.len() implies claimed_before(
        start[#[trigger] ids2[i] as int],
        start[#[trigger] ids2[j] as int],
    ) by {
        assert(ids2[i] == ids[i]);
        if j < ids.len() {
            assert(ids2[j] == ids[j]);
        } else {
            assert(ids2[j] == b);
        }
    }
    assert forall|k: int|
        0 <= k < start.len() && start[k].status == CrawlStatus::Pending && !ids2.contains(
            k as u64,
        ) implies forall|i: int|
        0 <= i < ids2.len() ==> claimed_before(start[#[trigger] ids2[i] as int], start[k]) by {
        assert(!ids.contains(k as u64)) by {
            if ids.contains(k as u64) {
                let i = choose|i: int| 0 <= i < ids.len() && ids[i] == k as u64;
                assert(ids2[i] == k as u64);
            }
        }
        assert(k != b) by {
            assert(ids2[ids.len() as int] == b);
        }
        assert forall|i: int| 0 <= i < ids2.len() implies claimed_before(
            start[#[trigger] ids2[i] as int],
            start[k],
        ) by {
            if i < ids.len() {
                assert(ids2[i] == ids[i]);
            } else {
                assert(ids2[i] == b);
                assert(before[k] == start[k]);
            }
        }
    }
    assert forall|k: int| 0 <= k < start.len() && !ids2.contains(k as u64) implies after[k]
        == start[k] by {
        assert(!ids.contains(k as u64)) by {
            if ids.contains(k as u64) {
                let i = choose|i: int| 0 <= i < ids.len() && ids[i] == k as u64;
                assert(ids2[i] == k as u64);
            }
        }
        assert(k != b) by {
            assert(ids2[ids.len() as int] == b);
        }
    }
}

proof fn lemma_claim_done(start: Seq<RecordView>, cur: Seq<RecordView>, ids: Seq<u64>, limit: nat)
    requires
        claimed_so_far(start, cur, ids),
        ids.len() <= limit,
        ids.len() == limit || forall|k: int|
            0 <= k < cur.len() ==> cur[k].status != CrawlStatus::Pending,
    ensures
        claimed(start, cur, limit, ids),
{
    assert forall|k: int|
        0 <= k < start.len() && start[k].status == CrawlStatus::Pending && !ids.contains(k as u64)
            implies ids.len() == limit by {
        assert(cur[k] == start[k]);
    }
}

/// What discovering does: the records before stay as they were, the new
/// ones are pending at the given depth, every discovered URL has a record,
/// and the frontier stays well formed.
pub proof fn lemma_discover_all(s: Seq<RecordView>, urls: Seq<Seq<char>>, depth: u32)
    requires
        well_formed(s),
        s.len() + urls.len() + 1 < u64::MAX,
    ensures
        well_formed(discover_all(s, urls, depth)),
        discover_all(s, urls, depth).len() <= s.len() + urls.len(),
        discover_all(s, urls, depth).len() >= s.len(),
        forall|i: int| 0 <= i < s.len() ==> #[trigger] discover_all(s, urls, depth)[i] == s[i],
        forall|i: int|
            s.len() <= i < discover_all(s, urls, depth).len() ==> (#[trigger] discover_all(
                s,
                urls,
                depth,
            )[i]).depth == depth && discover_all(s, urls, depth)[i].status == CrawlStatus::Pending,
        forall|k: int| 0 <= k < urls.len() ==> has_url(discover_all(s, urls, depth), #[trigger] urls[k]),
    decreases urls.len(),
{
    if urls.len() > 0 {
        let prev = discover_all(s, urls.drop_last(), depth);
        lemma_discover_all(s, urls.drop_last(), depth);
        let u = urls.last();
        let next = insert_absent(prev, u, depth);
        assert(next == discover_all(s, urls, depth));
        if !has_url(prev, u) {
            let rec = fresh_record(prev.len(), u, depth);
            assert(next == prev.push(rec));
            assert forall|i: int, j: int|
                0 <= i < next.len() && 0 <= j < next.len() && i != j implies next[i].url
                != next[j].url by {
                if i == prev.len() {
                    assert(!(0 <= j < prev.len() && prev[j].url == u));
                } else if j == prev.len() {
                    assert(!(0 <= i < prev.len() && prev[i].url == u));
                }
            }
            assert(has_url(next, u)) by {
                assert(next[prev.len() as int].url == u);
            }
        }
        assert forall|k: int| 0 <= k < urls.len() implies has_url(next, #[trigger] urls[k]) by {
            if k < urls.len() - 1 {
                assert(urls.drop_last()[k] == urls[k]);
                let i = choose|i: int| 0 <= i < prev.len() && prev[i].url == urls[k];
                assert(next[i] == prev[i]);
            }
        }
    }
}

/// Discovering never duplicates a URL: afterwards each discovered URL has
/// exactly one record, and every record that existed before is unchanged,
/// whatever was discovered before and however often.
pub proof fn lemma_discover_unique(s: Seq<RecordView>, urls: Seq<Seq<char>>, depth: u32)
    requires
        well_formed(s),
        s.len() + urls.len() + 1 < u64::MAX,
    ensures
        forall|k: int| 0 <= k < urls.len() ==> one_record_for(discover_all(s, urls, depth), #[trigger] urls[k]),
        forall|i: int| 0 <= i < s.len() ==> #[trigger] discover_all(s, urls, depth)[i] == s[i],
{
    lemma_discover_all(s, urls, depth);
    let t = discover_all(s, urls, depth);
    assert forall|k: int| 0 <= k < urls.len() implies one_record_for(t, #[trigger] urls[k]) by {
        assert(has_url(t, urls[k]));
        let i = choose|i: int| 0 <= i < t.len() && t[i].url == urls[k];
        assert(forall|j: int| 0 <= j < t.len() && t[j].url == urls[k] ==> j == i);
    }
}

/// Two claims in turn never hand out the same record, and every record
/// that either hands out was pending before the first: their union is a set
/// of records pending at the start, and no larger than it.
pub proof fn lemma_no_double_claim(
    s0: Seq<RecordView>,
    s1: Seq<RecordView>,
    s2: Seq<RecordView>,
    limit1: nat,
    limit2: nat,
    ids1: Seq<u64>,
    ids2: Seq<u64>,
)
    requires
        claimed(s0, s1, limit1, ids1),
        claimed(s1, s2, limit2, ids2),
    ensures
        forall|i: int, j: int| 0 <= i < ids1.len() && 0 <= j < ids2.len() ==> #[trigger] ids1[i] != #[trigger] ids2[j],
        forall|i: int| 0 <= i < ids1.len() ==> s0[#[trigger] ids1[i] as int].status == CrawlStatus::Pending,
        forall|j: int| 0 <= j < ids2.len() ==> s0[#[trigger] ids2[j] as int].status == CrawlStatus::Pending,
        forall|i: int, j: int| 0 <= i < j < ids1.len() ==> #[trigger] ids1[i] != #[trigger] ids1[j],
        forall|i: int, j: int| 0 <= i < j < ids2.len() ==> #[trigger] ids2[i] != #[trigger] ids2[j],
{
    assert forall|i: int, j: int| 0 <= i < ids1.len() && 0 <= j < ids2.len() implies #[trigger] ids1[i]
        != #[trigger] ids2[j] by {
        assert(s1[ids1[i] as int].status == CrawlStatus::Processing);
    }
    assert forall|j: int| 0 <= j < ids2.len() implies s0[#[trigger] ids2[j] as int].status
        == CrawlStatus::Pending by {
        let k = ids2[j] as int;
        if ids1.contains(k as u64) {
            let i = choose|i: int| 0 <= i < ids1.len() && ids1[i] == k as u64;
            assert(s1[ids1[i] as int].status == CrawlStatus::Processing);
        }
        assert(s1[k] == s0[k]);
    }
    assert forall|i: int, j: int| 0 <= i < j < ids1.len() implies #[trigger] ids1[i] != #[trigger] ids1[j] by {
        assert(claimed_before(s0[ids1[i] as int], s0[ids1[j] as int]));
    }
    assert forall|i: int, j: int| 0 <= i < j < ids2.len() implies #[trigger] ids2[i] != #[trigger] ids2[j] by {
        assert(claimed_before(s1[ids2[i] as int], s1[ids2[j] as int]));
    }
}

/// `batches[i]` is what the `i`-th of a run of claims took from
/// `states[i]`, leaving `states[i + 1]`.
pub open spec fn claim_run(states: Seq<Seq<RecordView>>, limits: Seq<nat>, batches: Seq<Seq<u64>>) -> bool {
    &&& states.len() == batches.len() + 1
    &&& limits.len() == batches.len()
    &&& forall|i: int|
        0 <= i < batches.len() ==> claimed(states[i], #[trigger] states[i + 1], limits[i], batches[i])
}

/// The id `k` is in none of the first `m` batches.
pub open spec fn unclaimed_before(batches: Seq<Seq<u64>>, m: int, k: u64) -> bool {
    forall|i: int| 0 <= i < m ==> !(#[trigger] batches[i]).contains(k)
}

proof fn lemma_claim_run_prefix(
    states: Seq<Seq<RecordView>>,
    limits: Seq<nat>,
    batches: Seq<Seq<u64>>,
    m: int,
)
    requires
        claim_run(states, limits, batches),
        0 <= m <= batches.len(),
    ensures
        states[m].len() == states[0].len(),
        forall|i: int, a: int|
            0 <= i < m && 0 <= a < batches[i].len() ==> #[trigger] batches[i][a] < states[0].len()
                && states[0][batches[i][a] as int].status == CrawlStatus::Pending && states[m][batches[i][a] as int].status
                == CrawlStatus::Processing,
        forall|k: u64|
            k < states[0].len() && #[trigger] unclaimed_before(batches, m, k) ==> states[m][k as int]
                == states[0][k as int],
    decreases m,
{
    if m > 0 {
        let p = m - 1;
        lemma_claim_run_prefix(states, limits, batches, p);
        assert(claimed(states[p], states[p + 1], limits[p], batches[p]));
        assert forall|i: int, a: int| 0 <= i < m && 0 <= a < batches[i].len() implies #[trigger] batches[i][a]
            < states[0].len() && states[0][batches[i][a] as int].status == CrawlStatus::Pending
            && states[m][batches[i][a] as int].status == CrawlStatus::Processing by {
            let k = batches[i][a];
            if i == p {
                assert(batches[p][a] == k);
                if !unclaimed_before(batches, p, k) {
                    let j = choose|j: int| 0 <= j < p && (#[trigger] batches[j]).contains(k);
                    let b = choose|b: int| 0 <= b < batches[j].len() && batches[j][b] == k;
                    assert(batches[j][b] == k);
                    assert(states[p][k as int].status == CrawlStatus::Processing);
                }
            } else {
                assert(states[p][k as int].status == CrawlStatus::Processing);
                if batches[p].contains(k) {
                    let b = choose|b: int| 0 <= b < batches[p].len() && batches[p][b] == k;
                    assert(batches[p][b] == k);
                }
            }
        }
        assert forall|k: u64| k < states[0].len() && #[trigger] unclaimed_before(batches, m, k) implies states[m][k
            as int] == states[0][k as int] by {
            assert(unclaimed_before(batches, p, k));
            assert(!batches[p].contains(k));
            assert((k as int) as u64 == k);
        }
    }
}

/// In any run of claims one after another, no record is handed out twice,
/// and every record handed out was pending before the first claim: the
/// claims together take no more records than were pending.
pub proof fn lemma_claim_run_disjoint(
    states: Seq<Seq<RecordView>>,
    limits: Seq<nat>,
    batches: Seq<Seq<u64>>,
)
    requires
        claim_run(states, limits, batches),
    ensures
        forall|i: int, j: int, a: int, b: int|
            0 <= i < j < batches.len() && 0 <= a < batches[i].len() && 0 <= b < batches[j].len()
                ==> #[trigger] batches[i][a] != #[trigger] batches[j][b],
        forall|i: int, a: int|
            0 <= i < batches.len() && 0 <= a < batches[i].len() ==> #[trigger] batches[i][a] < states[0].len()
                && states[0][batches[i][a] as int].status == CrawlStatus::Pending,
{
    lemma_claim_run_prefix(states, limits, batches, batches.len() as int);
    assert forall|i: int, j: int, a: int, b: int|
        0 <= i < j < batches.len() && 0 <= a < batches[i].len() && 0 <= b < batches[j].len()
            implies #[trigger] batches[i][a] != #[trigger] batches[j][b] by {
        lemma_claim_run_prefix(states, limits, batches, j);
        assert(claimed(states[j], states[j + 1], limits[j], batches[j]));
        assert(states[j][batches[j][b] as int].status == CrawlStatus::Pending);
        assert(states[j][batches[i][a] as int].status == CrawlStatus::Processing);
    }
}

/// A completed or failed record is never handed out by a claim, and the
/// claim leaves it as it is.
pub proof fn lemma_claim_skips_terminal(
    s0: Seq<RecordView>,
    s1: Seq<RecordView>,
    limit: nat,
    ids: Seq<u64>,
    k: u64,
)
    requires
        claimed(s0, s1, limit, ids),
        k < s0.len(),
        is_terminal(s0[k as int].status),
    ensures
        !ids.contains(k),
        s1[k as int] == s0[k as int],
{
    if ids.contains(k) {
        let i = choose|i: int| 0 <= i < ids.len() && ids[i] == k;
        assert(s0[ids[i] as int].status == CrawlStatus::Pending);
    }
}

/// No transition leaves a terminal state: completing or failing a record
/// that is completed or failed changes nothing.
pub proof fn lemma_terminal_is_final(s: Seq<RecordView>, id: u64, st: CrawlStatus, now: u64)
    requires
        id < s.len(),
        is_terminal(s[id as int].status),
    ensures
        finished(s, id, st, now) == s,
{
}

/// The work queue of discovered URLs: one record per URL, claimed in
/// priority order.
pub struct Frontier {
    records: Vec<FrontierRecord>,
}

impl View for Frontier {
    type V = Seq<RecordView>;

    closed spec fn view(&self) -> Seq<RecordView> {
        self.records@.map_values(|r: FrontierRecord| r@)
    }
}

impl Frontier {
    pub open spec fn wf(&self) -> bool {
        well_formed(self@)
    }

    /// An empty frontier.
    pub fn new() -> (r: Frontier)
        ensures
            r.wf(),
            r@ == Seq::<RecordView>::empty(),
    {
        let r = Frontier { records: Vec::new() };
        assert(r@ =~= Seq::<RecordView>::empty());
        r
    }

    /// Number of records.
    pub fn len(&self) -> (r: usize)
        ensures
            r == self@.len(),
    {
        self.records.len()
    }

    /// The record with the given id, if there is one.
    pub fn get(&self, id: u64) -> (r: Option<&FrontierRecord>)
        ensures
            id < self@.len() ==> r is Some && r->0@ == self@[id as int],
            id >= self@.len() ==> r is None,
    {
        if id < self.records.len() as u64 {
            Some(&self.records[id as usize])
        } else {
            None
        }
    }

    /// Position of the record for `url`, if one exists.
    pub fn find_url(&self, url: &String) -> (r: Option<usize>)
        ensures
            r is Some ==> r->0 < self@.len() && self@[r->0 as int].url == url@,
            r is None ==> !has_url(self@, url@),
    {
        let mut k: usize = 0;
        while k < self.records.len()
            invariant
                k <= self.records@.len(),
                self@.len() == self.records@.len(),
                forall|i: int| 0 <= i < self.records@.len() ==> #[trigger] self@[i] == self.records@[i]@,
                forall|i: int| 0 <= i < k ==> self@[i].url != url@,
            decreases self.records.len() - k,
        {
            if self.records[k].url == *url {
                return Some(k);
            }
            k = k + 1;
        }
        None
    }

    /// Conflict-free insert of one URL at `depth`: a new pending record
    /// unless a record with that URL exists, which is left as it is.
    pub fn discover_one(&mut self, url: &String, depth: u32)
        requires
            old(self).wf(),
            old(self)@.len() + 1 < u64::MAX,
        ensures
            final(self).wf(),
            final(self)@ == insert_absent(old(self)@, url@, depth),
    {
        match self.find_url(url) {
            Some(_) => {},
            None => {
                let id = self.records.len() as u64;
                let rec = FrontierRecord {
                    id,
                    url: url.clone(),
                    depth,
                    priority: priority_for(depth),
                    status: CrawlStatus::Pending,
                    error_count: 0,
                    created_at: id,
                    last_crawled: None,
                };
                let ghost before = self@;
                self.records.push(rec);
                assert(self@ =~= before.push(fresh_record(before.len(), url@, depth)));
            },
        }
    }

    /// Conflict-free insert of each of `urls`, in order, at `depth`.
    pub fn discover(&mut self, urls: &Vec<String>, depth: u32)
        requires
            old(self).wf(),
            old(self)@.len() + urls@.len() + 1 < u64::MAX,
        ensures
            final(self).wf(),
            final(self)@ == discover_all(old(self)@, urls@.map_values(|u: String| u@), depth),
    {
        let ghost start = self@;
        let ghost all = urls@.map_values(|u: String| u@);
        let mut i: usize = 0;
        assert(all.take(0) =~= Seq::<Seq<char>>::empty());
        while i < urls.len()
            invariant
                i <= urls@.len(),
                all == urls@.map_values(|u: String| u@),
                self.wf(),
                self@ == discover_all(start, all.take(i as int), depth),
                self@.len() <= start.len() + i,
                start.len() + urls@.len() + 1 < u64::MAX,
            decreases urls.len() - i,
        {
            self.discover_one(&urls[i], depth);
            assert(all.take(i + 1).drop_last() =~= all.take(i as int));
            i = i + 1;
        }
        assert(all.take(urls@.len() as int) =~= all);
    }

    /// Position of the pending record that comes first in claim order.
    fn best_pending(&self) -> (r: Option<usize>)
        requires
            self.wf(),
        ensures
            r is Some ==> r->0 < self@.len() && self@[r->0 as int].status == CrawlStatus::Pending
                && forall|k: int|
                0 <= k < self@.len() && k != r->0 && self@[k].status == CrawlStatus::Pending
                    ==> claimed_before(self@[r->0 as int], self@[k]),
            r is None ==> forall|k: int|
                0 <= k < self@.len() ==> self@[k].status != CrawlStatus::Pending,
    {
        let mut best: Option<usize> = None;
        let mut k: usize = 0;
        while k < self.records.len()
            invariant
                self.wf(),
                k <= self.records@.len(),
                self@.len() == self.records@.len(),
                forall|i: int| 0 <= i < self.records@.len() ==> #[trigger] self@[i] == self.records@[i]@,
                best is Some ==> best->0 < k && self@[best->0 as int].status == CrawlStatus::Pending
                    && forall|j: int|
                    0 <= j < k && j != best->0 && self@[j].status == CrawlStatus::Pending
                        ==> claimed_before(self@[best->0 as int], self@[j]),
                best is None ==> forall|j: int|
                    0 <= j < k ==> self@[j].status != CrawlStatus::Pending,
            decreases self.records.len() - k,
        {
            proof {
                assert(self@[k as int] == self.records@[k as int]@);
                assert(self@[k as int].created_at == k);
                if best is Some {
                    assert(self@[best->0 as int].created_at == best->0);
                }
            }
            if self.records[k].status == CrawlStatus::Pending {
                match best {
                    None => {
                        best = Some(k);
                    },
                    Some(b) => {
                        if self.records[k].priority > self.records[b].priority {
                            best = Some(k);
                        }
                    },
                }
            }
            k = k + 1;
        }
        best
    }

    /// Takes up to `limit` pending records in claim order (priority
    /// descending, then oldest first), marks them processing, and returns
    /// their ids, URLs and depths in that order. An empty result means that
    /// nothing is pending.
    pub fn claim(&mut self, limit: usize) -> (r: Vec<(u64, String, u32)>)
        requires
            old(self).wf(),
        ensures
            final(self).wf(),
            claimed(old(self)@, final(self)@, limit as nat, r@.map_values(|t: (u64, String, u32)| t.0)),
            forall|i: int|
                0 <= i < r@.len() ==> (#[trigger] r@[i]).1@ == old(self)@[r@[i].0 as int].url
                    && r@[i].2 == old(self)@[r@[i].0 as int].depth,
    {
        let ghost start = self@;
        let mut out: Vec<(u64, String, u32)> = Vec::new();
        let mut drained = false;
        assert(out@.map_values(|t: (u64, String, u32)| t.0) =~= Seq::<u64>::empty());
        while out.len() < limit && !drained
            invariant
                self.wf(),
                well_formed(start),
                drained ==> forall|k: int|
                    0 <= k < self@.len() ==> self@[k].status != CrawlStatus::Pending,
                self@.len() == start.len(),
                out@.len() <= limit,
                claimed_so_far(start, self@, out@.map_values(|t: (u64, String, u32)| t.0)),
                forall|i: int|
                    0 <= i < out@.len() ==> (#[trigger] out@[i]).1@ == start[out@[i].0 as int].url
                        && out@[i].2 == start[out@[i].0 as int].depth,
            decreases limit - out.len() + if drained {
                0int
            } else {
                1int
            },
        {
            match self.best_pending() {
                None => {
                    drained = true;
                },
                Some(b) => {
                    let ghost before = self@;
                    let ghost ids = out@.map_values(|t: (u64, String, u32)| t.0);
                    let url = self.records[b].url.clone();
                    let depth = self.records[b].depth;
                    self.records[b].status = CrawlStatus::Processing;
                    out.push((b as u64, url, depth));
                    let ghost ids2 = out@.map_values(|t: (u64, String, u32)| t.0);
                    assert(ids2 =~= ids.push(b as u64));
                    assert(self@ =~= before.update(b as int, with_status(before[b as int], CrawlStatus::Processing)));
                    proof {
                        lemma_claim_step(start, before, self@, ids, b as u64);
                    }
                },
            }
        }
        proof {
            lemma_claim_done(start, self@, out@.map_values(|t: (u64, String, u32)| t.0), limit as nat);
        }
        out
    }

    fn finish(&mut self, id: u64, st: CrawlStatus, now: u64) -> (found: bool)
        requires
            old(self).wf(),
        ensures
            final(self).wf(),
            found == can_finish(old(self)@, id),
            final(self)@ == finished(old(self)@, id, st, now),
    {
        if id < self.records.len() as u64 && self.records[id as usize].status
            == CrawlStatus::Processing {
            let k = id as usize;
            let ghost before = self@;
            let errors = self.records[k].error_count;
            let errors = if st == CrawlStatus::Failed && errors < u64::MAX {
                errors + 1
            } else {
                errors
            };
            self.records[k].status = st;
            self.records[k].error_count = errors;
            self.records[k].last_crawled = Some(now);
            assert(self@ =~= finished(before, id, st, now));
            assert(self@[k as int].url == before[k as int].url);
            true
        } else {
            false
        }
    }

    /// Marks the processing record `id` completed at time `now`; `false`
    /// when there is no such record or it is not processing, which leaves
    /// the frontier as it was.
    pub fn complete(&mut self, id: u64, now: u64) -> (found: bool)
        requires
            old(self).wf(),
        ensures
            final(self).wf(),
            found == can_finish(old(self)@, id),
            final(self)@ == finished(old(self)@, id, CrawlStatus::Completed, now),
    {
        self.finish(id, CrawlStatus::Completed, now)
    }

    /// Marks the processing record `id` failed at time `now` and counts the
    /// failure (the count saturates at `u64::MAX`); `false` when there is no
    /// such record or it is not processing, which leaves the frontier as it
    /// was.
    pub fn fail(&mut self, id: u64, now: u64) -> (found: bool)
        requires
            old(self).wf(),
        ensures
            final(self).wf(),
            found == can_finish(old(self)@, id),
            final(self)@ == finished(old(self)@, id, CrawlStatus::Failed, now),
    {
        self.finish(id, CrawlStatus::Failed, now)
    }
}

} // verus!
