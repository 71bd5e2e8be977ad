use crawler::crawl::{
    child_depth, next_action, settle_item, worker_next, ItemOutcome, LoopAction, LoopEvent, WorkerAction,
    WorkerEvent, BATCH_SIZE,
};
use crawler::frontier::{priority_for, CrawlStatus, Frontier};

fn urls(list: &[&str]) -> Vec<String> {
    list.iter().map(|u| u.to_string()).collect()
}

#[test]
fn discover_same_url_keeps_one_record() {
    let mut f = Frontier::new();
    f.discover(&urls(&["https://a.com/"]), 0);
    f.discover(&urls(&["https://a.com/", "https://a.com/"]), 2);
    assert_eq!(f.len(), 1);
    let r = f.get(0).unwrap();
    assert_eq!(r.url, "https://a.com/");
    assert_eq!(r.depth, 0);
    assert_eq!(r.priority, 10);
    assert_eq!(r.status, CrawlStatus::Pending);
}

#[test]
fn rediscovery_does_not_reset_state() {
    let mut f = Frontier::new();
    f.discover(&urls(&["https://a.com/"]), 0);
    let c = f.claim(10);
    assert_eq!(c.len(), 1);
    assert!(f.complete(0, 42));
    f.discover(&urls(&["https://a.com/"]), 1);
    assert_eq!(f.len(), 1);
    assert_eq!(f.get(0).unwrap().status, CrawlStatus::Completed);
    assert_eq!(f.get(0).unwrap().last_crawled, Some(42));
}

#[test]
fn claim_prefers_shallow_records() {
    let mut f = Frontier::new();
    f.discover(&urls(&["https://d2.com/"]), 2);
    f.discover(&urls(&["https://d1.com/"]), 1);
    f.discover(&urls(&["https://d0.com/"]), 0);
    let c = f.claim(1);
    assert_eq!(c.len(), 1);
    assert_eq!(c[0].1, "https://d0.com/");
    assert_eq!(c[0].2, 0);
    let c = f.claim(5);
    assert_eq!(c.len(), 2);
    assert_eq!(c[0].1, "https://d1.com/");
    assert_eq!(c[1].1, "https://d2.com/");
}

#[test]
fn claim_breaks_ties_by_age() {
    let mut f = Frontier::new();
    f.discover(&urls(&["https://x.com/1", "https://x.com/2", "https://x.com/3"]), 1);
    let c = f.claim(2);
    let ids: Vec<u64> = c.iter().map(|t| t.0).collect();
    assert_eq!(ids, vec![0, 1]);
}

#[test]
fn successive_claims_are_disjoint() {
    let mut f = Frontier::new();
    f.discover(&urls(&["https://x.com/1", "https://x.com/2", "https://x.com/3"]), 0);
    let a = f.claim(2);
    let b = f.claim(2);
    assert_eq!(a.len(), 2);
    assert_eq!(b.len(), 1);
    for x in &a {
        for y in &b {
            assert_ne!(x.0, y.0);
        }
    }
    assert_eq!(f.get(0).unwrap().status, CrawlStatus::Processing);
}

#[test]
fn empty_frontier_claims_nothing() {
    let mut f = Frontier::new();
    assert!(f.claim(100).is_empty());
}

#[test]
fn terminal_records_are_never_claimed() {
    let mut f = Frontier::new();
    f.discover(&urls(&["https://x.com/1", "https://x.com/2"]), 0);
    f.claim(2);
    assert!(f.complete(0, 1));
    assert!(f.fail(1, 2));
    assert!(f.claim(10).is_empty());
    let r = f.get(1).unwrap();
    assert_eq!(r.status, CrawlStatus::Failed);
    assert_eq!(r.error_count, 1);
    assert_eq!(r.last_crawled, Some(2));
}

#[test]
fn unknown_id_is_left_alone() {
    let mut f = Frontier::new();
    assert!(!f.complete(7, 1));
    assert!(!f.fail(7, 1));
    assert_eq!(f.len(), 0);
}

#[test]
fn links_at_max_depth_are_dropped() {
    let mut f = Frontier::new();
    f.discover(&urls(&["https://example.com/"]), 1);
    f.claim(1);
    let done = settle_item(&mut f, 0, 1, 1, &ItemOutcome::Indexed(urls(&["https://example.com/a"])), 5);
    assert!(done);
    assert_eq!(f.len(), 1);
    assert_eq!(f.get(0).unwrap().status, CrawlStatus::Completed);
}

#[test]
fn links_below_max_depth_go_one_deeper() {
    let mut f = Frontier::new();
    f.discover(&urls(&["https://example.com/"]), 0);
    f.claim(1);
    settle_item(&mut f, 0, 0, 3, &ItemOutcome::Indexed(urls(&["https://example.com/a"])), 5);
    assert_eq!(f.len(), 2);
    let child = f.get(1).unwrap();
    assert_eq!(child.url, "https://example.com/a");
    assert_eq!(child.depth, 1);
    assert_eq!(child.priority, 9);
    assert_eq!(child.status, CrawlStatus::Pending);
}

#[test]
fn each_failure_marks_the_item_failed() {
    for outcome in [ItemOutcome::FetchFailed, ItemOutcome::ExtractFailed, ItemOutcome::IndexFailed] {
        let mut f = Frontier::new();
        f.discover(&urls(&["https://example.com/"]), 0);
        f.claim(1);
        let done = settle_item(&mut f, 0, 0, 1, &outcome, 9);
        assert!(!done);
        assert_eq!(f.len(), 1);
        let r = f.get(0).unwrap();
        assert_eq!(r.status, CrawlStatus::Failed);
        assert_eq!(r.error_count, 1);
    }
}

#[test]
fn child_depth_stops_at_max_depth() {
    assert_eq!(child_depth(0, 1), Some(1));
    assert_eq!(child_depth(1, 1), None);
    assert_eq!(child_depth(5, 3), None);
}

#[test]
fn terminal_records_never_move_again() {
    let mut f = Frontier::new();
    f.discover(&urls(&["https://x.com/1", "https://x.com/2"]), 0);
    f.claim(2);
    assert!(f.fail(0, 1));
    assert!(f.complete(1, 1));
    assert!(!f.complete(0, 2));
    assert!(!f.fail(1, 2));
    let r0 = f.get(0).unwrap();
    assert_eq!(r0.status, CrawlStatus::Failed);
    assert_eq!(r0.error_count, 1);
    assert_eq!(r0.last_crawled, Some(1));
    let r1 = f.get(1).unwrap();
    assert_eq!(r1.status, CrawlStatus::Completed);
    assert_eq!(r1.error_count, 0);
    assert_eq!(r1.last_crawled, Some(1));
}

#[test]
fn pending_records_cannot_be_finished() {
    let mut f = Frontier::new();
    f.discover(&urls(&["https://x.com/1"]), 0);
    assert!(!f.complete(0, 1));
    assert!(!f.fail(0, 1));
    assert_eq!(f.get(0).unwrap().status, CrawlStatus::Pending);
    assert_eq!(f.get(0).unwrap().error_count, 0);
}

#[test]
fn priority_follows_depth() {
    assert_eq!(priority_for(0), 10);
    assert_eq!(priority_for(3), 7);
    assert_eq!(priority_for(12), -2);
}

#[test]
fn run_loop_decisions() {
    assert_eq!(next_action(&LoopEvent::IndexEnsured(false), 8), LoopAction::Abort);
    assert_eq!(next_action(&LoopEvent::IndexEnsured(true), 8), LoopAction::Claim(BATCH_SIZE));
    assert_eq!(BATCH_SIZE, 100);
    assert_eq!(next_action(&LoopEvent::Claimed(0), 8), LoopAction::Idle(30_000));
    assert_eq!(next_action(&LoopEvent::Claimed(3), 8), LoopAction::RunBatch(8));
    assert_eq!(next_action(&LoopEvent::Claimed(3), 0), LoopAction::RunBatch(1));
    assert_eq!(next_action(&LoopEvent::BatchDone, 8), LoopAction::Claim(100));
    assert_eq!(next_action(&LoopEvent::Idled, 8), LoopAction::Claim(100));
}

#[test]
fn worker_steps_stop_at_first_failure() {
    assert_eq!(worker_next(&WorkerEvent::Started), WorkerAction::Fetch);
    assert_eq!(worker_next(&WorkerEvent::Fetched(true)), WorkerAction::Extract);
    assert_eq!(worker_next(&WorkerEvent::Fetched(false)), WorkerAction::Fail);
    assert_eq!(worker_next(&WorkerEvent::Extracted(true)), WorkerAction::Upsert);
    assert_eq!(worker_next(&WorkerEvent::Extracted(false)), WorkerAction::Fail);
    assert_eq!(worker_next(&WorkerEvent::Upserted(true)), WorkerAction::Complete);
    assert_eq!(worker_next(&WorkerEvent::Upserted(false)), WorkerAction::Fail);
}
