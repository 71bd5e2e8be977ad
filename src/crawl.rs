//! The decisions of the crawl: what the run loop does next, and what the
//! outcome of one item does to the frontier.
//!
//! The run loop ensures the index, then claims batches, idles when nothing is
//! pending, and runs each batch with bounded concurrency before claiming the
//! next. The worker that runs an item fetches, extracts and indexes; each of
//! those steps either fails, which ends the item, or hands on to the next.
//! The driver performs the actions; the decisions are made here.

use vstd::prelude::*;
use crate::frontier::{
    CrawlStatus, Frontier, RecordView, discover_all, finished, has_url, lemma_discover_all,
    well_formed,
};

verus! {

/// Most records claimed in one batch.
pub const BATCH_SIZE: usize = 100;

/// Pause before claiming again when nothing was pending, in milliseconds.
pub const IDLE_WAIT_MS: u64 = 30_000;

/// What the driver of the run loop reports.
#[derive(Clone, Copy, Debug, PartialEq, Eq, Structural)]
pub enum LoopEvent {
    /// The index was ensured at start-up (`true`) or could not be (`false`).
    IndexEnsured(bool),
    /// A claim returned this many records.
    Claimed(usize),
    /// Every item of the running batch has finished, well or not.
    BatchDone,
    /// The idle wait is over.
    Idled,
}

/// What the driver of the run loop does next.
#[derive(Clone, Copy, Debug, PartialEq, Eq, Structural)]
pub enum LoopAction {
    /// Stop before the loop: start-up failed.
    Abort,
    /// Claim up to this many pending records.
    Claim(usize),
    /// Wait this many milliseconds, then claim again.
    Idle(u64),
    /// Run the claimed batch with at most this many items in flight.
    RunBatch(usize),
}

/// The run loop's next action after `event`, with `concurrency` items
/// allowed in flight (at least one). After start-up it never stops: an empty
/// claim idles and claims again, a finished batch claims the next.
pub fn next_action(event: &LoopEvent, concurrency: usize) -> (r: LoopAction)
    ensures
        *event matches LoopEvent::IndexEnsured(ok) ==> r == (if ok {
            LoopAction::Claim(BATCH_SIZE)
        } else {
            LoopAction::Abort
        }),
        *event matches LoopEvent::Claimed(n) ==> r == (if n == 0 {
            LoopAction::Idle(IDLE_WAIT_MS)
        } else {
            LoopAction::RunBatch(
                if concurrency == 0 {
                    1
                } else {
                    concurrency
                },
            )
        }),
        event is BatchDone ==> r == LoopAction::Claim(BATCH_SIZE),
        event is Idled ==> r == LoopAction::Claim(BATCH_SIZE),
{
    match event {
        LoopEvent::IndexEnsured(ok) => {
            if *ok {
                LoopAction::Claim(BATCH_SIZE)
            } else {
                LoopAction::Abort
            }
        },
        LoopEvent::Claimed(n) => {
            if *n == 0 {
                LoopAction::Idle(IDLE_WAIT_MS)
            } else if concurrency == 0 {
                LoopAction::RunBatch(1)
            } else {
                LoopAction::RunBatch(concurrency)
            }
        },
        LoopEvent::BatchDone => LoopAction::Claim(BATCH_SIZE),
        LoopEvent::Idled => LoopAction::Claim(BATCH_SIZE),
    }
}

/// What the worker of one item reports.
#[derive(Clone, Copy, Debug, PartialEq, Eq, Structural)]
pub enum WorkerEvent {
    /// The item was handed to the worker (after the politeness delay).
    Started,
    /// The fetch succeeded (`true`) or failed.
    Fetched(bool),
    /// The extraction succeeded (`true`) or failed.
    Extracted(bool),
    /// The index accepted the document (`true`) or refused it.
    Upserted(bool),
}

/// What the worker of one item does next.
#[derive(Clone, Copy, Debug, PartialEq, Eq, Structural)]
pub enum WorkerAction {
    Fetch,
    Extract,
    Upsert,
    /// Mark the item failed; the item ends.
    Fail,
    /// Discover the page's links (below the depth limit), then mark the item
    /// completed; the item ends.
    Complete,
}

pub open spec fn worker_step(event: WorkerEvent) -> WorkerAction {
    match event {
        WorkerEvent::Started => WorkerAction::Fetch,
        WorkerEvent::Fetched(ok) => if ok {
            WorkerAction::Extract
        } else {
            WorkerAction::Fail
        },
        WorkerEvent::Extracted(ok) => if ok {
            WorkerAction::Upsert
        } else {
            WorkerAction::Fail
        },
        WorkerEvent::Upserted(ok) => if ok {
            WorkerAction::Complete
        } else {
            WorkerAction::Fail
        },
    }
}

/// The worker's next action after `event`: each step runs only after the
/// one before succeeded, and the first failure ends the item as failed.
pub fn worker_next(event: &WorkerEvent) -> (r: WorkerAction)
    ensures
        r == worker_step(*event),
{
    match event {
        WorkerEvent::Started => WorkerAction::Fetch,
        WorkerEvent::Fetched(ok) => if *ok {
            WorkerAction::Extract
        } else {
            WorkerAction::Fail
        },
        WorkerEvent::Extracted(ok) => if *ok {
            WorkerAction::Upsert
        } else {
            WorkerAction::Fail
        },
        WorkerEvent::Upserted(ok) => if *ok {
            WorkerAction::Complete
        } else {
            WorkerAction::Fail
        },
    }
}

/// The actions one item runs through when the fetch, extraction and upsert
/// succeed or fail as `fetch_ok`, `extract_ok` and `upsert_ok` say (a step
/// that is never reached is not consulted).
pub open spec fn worker_trace(fetch_ok: bool, extract_ok: bool, upsert_ok: bool) -> Seq<WorkerAction> {
    let a0 = worker_step(WorkerEvent::Started);
    let a1 = worker_step(WorkerEvent::Fetched(fetch_ok));
    if a1 != WorkerAction::Extract {
        seq![a0, a1]
    } else {
        let a2 = worker_step(WorkerEvent::Extracted(extract_ok));
        if a2 != WorkerAction::Upsert {
            seq![a0, a1, a2]
        } else {
            seq![a0, a1, a2, worker_step(WorkerEvent::Upserted(upsert_ok))]
        }
    }
}

/// Number of times `a` occurs in `s`.
pub open spec fn occurrences(s: Seq<WorkerAction>, a: WorkerAction) -> nat
    decreases s.len(),
{
    if s.len() == 0 {
        0
    } else {
        occurrences(s.drop_last(), a) + if s.last() == a {
            1nat
        } else {
            0nat
        }
    }
}

/// One item upserts exactly one document when its fetch and extraction
/// succeed and none otherwise (a failed fetch above all); it ends with
/// exactly one of completed and failed, completed exactly when every step
/// succeeded.
pub proof fn lemma_worker_trace(fetch_ok: bool, extract_ok: bool, upsert_ok: bool)
    ensures
        ({
            let t = worker_trace(fetch_ok, extract_ok, upsert_ok);
            &&& occurrences(t, WorkerAction::Upsert) == (if fetch_ok && extract_ok {
                1nat
            } else {
                0nat
            })
            &&& occurrences(t, WorkerAction::Complete) + occurrences(t, WorkerAction::Fail) == 1
            &&& t.last() == (if fetch_ok && extract_ok && upsert_ok {
                WorkerAction::Complete
            } else {
                WorkerAction::Fail
            })
        }),
{
    let t = worker_trace(fetch_ok, extract_ok, upsert_ok);
    reveal_with_fuel(occurrences, 5);
    if !fetch_ok {
        assert(t.drop_last() =~= seq![WorkerAction::Fetch]);
        assert(t.drop_last().drop_last() =~= Seq::<WorkerAction>::empty());
    } else if !extract_ok {
        assert(t.drop_last() =~= seq![WorkerAction::Fetch, WorkerAction::Extract]);
        assert(t.drop_last().drop_last() =~= seq![WorkerAction::Fetch]);
        assert(t.drop_last().drop_last().drop_last() =~= Seq::<WorkerAction>::empty());
    } else {
        assert(t.drop_last() =~= seq![WorkerAction::Fetch, WorkerAction::Extract, WorkerAction::Upsert]);
        assert(t.drop_last().drop_last() =~= seq![WorkerAction::Fetch, WorkerAction::Extract]);
        assert(t.drop_last().drop_last().drop_last() =~= seq![WorkerAction::Fetch]);
        assert(t.drop_last().drop_last().drop_last().drop_last() =~= Seq::<WorkerAction>::empty());
    }
}

/// How the pipeline of one claimed item ended.
#[derive(Debug)]
pub enum ItemOutcome {
    /// The fetch failed (transport error, non-2xx status, not HTML).
    FetchFailed,
    /// The markup could not be extracted (the base address is malformed).
    ExtractFailed,
    /// The index refused the document.
    IndexFailed,
    /// The document was indexed; these are the links found on the page.
    Indexed(Vec<String>),
}

/// The views of a list of URLs.
pub open spec fn url_views(urls: Seq<String>) -> Seq<Seq<char>> {
    urls.map_values(|u: String| u@)
}

/// The frontier after the item `id` at `depth` ended with `outcome`: a
/// failure marks it failed; an indexed page has its links discovered one
/// level deeper when `depth < max_depth` (and dropped otherwise), and is then
/// marked completed.
pub open spec fn settled(
    s: Seq<RecordView>,
    id: u64,
    depth: u32,
    max_depth: u32,
    outcome: ItemOutcome,
    now: u64,
) -> Seq<RecordView> {
    match outcome {
        ItemOutcome::Indexed(links) => if depth < max_depth {
            finished(
                discover_all(s, url_views(links@), (depth + 1) as u32),
                id,
                CrawlStatus::Completed,
                now,
            )
        } else {
            finished(s, id, CrawlStatus::Completed, now)
        },
        _ => finished(s, id, CrawlStatus::Failed, now),
    }
}

/// The depth at which the links of an indexed page at `depth` are
/// discovered: one level deeper while below `max_depth`, else none.
pub fn child_depth(depth: u32, max_depth: u32) -> (r: Option<u32>)
    ensures
        r == if depth < max_depth {
            Some((depth + 1) as u32)
        } else {
            None::<u32>
        },
{
    if depth < max_depth {
        Some(depth + 1)
    } else {
        None
    }
}

/// Records in the frontier what became of the claimed item `id` at `depth`.
/// Returns whether the item was completed.
pub fn settle_item(
    frontier: &mut Frontier,
    id: u64,
    depth: u32,
    max_depth: u32,
    outcome: &ItemOutcome,
    now: u64,
) -> (done: bool)
    requires
        old(frontier).wf(),
        outcome matches ItemOutcome::Indexed(links) ==> old(frontier)@.len() + links@.len() + 1
            < u64::MAX,
    ensures
        final(frontier).wf(),
        final(frontier)@ == settled(old(frontier)@, id, depth, max_depth, *outcome, now),
        done == (outcome is Indexed),
{
    match outcome {
        ItemOutcome::Indexed(links) => {
            if let Some(d) = child_depth(depth, max_depth) {
                frontier.discover(links, d);
            }
            frontier.complete(id, now);
            true
        },
        _ => {
            frontier.fail(id, now);
            false
        },
    }
}

/// Depth cutoff: an indexed page at `depth >= max_depth` adds no record;
/// one at `depth < max_depth` adds its links one level deeper, each of them
/// then having a record, and adds nothing else.
pub proof fn lemma_depth_cutoff(
    s: Seq<RecordView>,
    id: u64,
    depth: u32,
    max_depth: u32,
    links: Vec<String>,
    now: u64,
)
    requires
        well_formed(s),
        s.len() + links@.len() + 1 < u64::MAX,
    ensures
        ({
            let t = settled(s, id, depth, max_depth, ItemOutcome::Indexed(links), now);
            &&& depth >= max_depth ==> t.len() == s.len()
            &&& depth < max_depth ==> forall|i: int|
                s.len() <= i < t.len() ==> (#[trigger] t[i]).depth == depth + 1
            &&& depth < max_depth ==> forall|k: int|
                0 <= k < links@.len() ==> has_url(t, #[trigger] url_views(links@)[k])
        }),
{
    if depth < max_depth {
        let d = (depth + 1) as u32;
        let urls = url_views(links@);
        lemma_discover_all(s, urls, d);
        let u = discover_all(s, urls, d);
        let t = finished(u, id, CrawlStatus::Completed, now);
        assert(t.len() == u.len());
        assert forall|i: int| s.len() <= i < t.len() implies (#[trigger] t[i]).depth == depth + 1 by {
            assert(t[i].depth == u[i].depth);
        }
        assert forall|k: int| 0 <= k < links@.len() implies has_url(t, #[trigger] urls[k]) by {
            assert(has_url(u, urls[k]));
            let i = choose|i: int| 0 <= i < u.len() && u[i].url == urls[k];
            assert(t[i].url == u[i].url);
        }
    }
}

} // verus!
