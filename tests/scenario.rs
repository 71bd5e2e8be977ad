use crawler::crawl::{settle_item, ItemOutcome};
use crawler::document::{document_id, Document};
use crawler::extract::Parser;
use crawler::fetch::{admit_response, FetchError};
use crawler::frontier::{CrawlStatus, Frontier};

#[test]
fn one_pass_over_a_seed() {
    let mut f = Frontier::new();
    f.discover(&vec!["https://example.com/".to_string()], 0);
    let batch = f.claim(100);
    assert_eq!(batch.len(), 1);
    let (id, url, depth) = batch[0].clone();
    let html = "<html><head><title>Ex</title></head><body><p>This paragraph is long enough to qualify because it has many words in it.</p><a href=\"https://example.com/a\">a</a></body></html>";
    let parsed = Parser::new().parse(html, &url).unwrap();
    let mut upserted = Vec::new();
    upserted.push(Document::from_parsed(&url, &parsed, "now".to_string()));
    settle_item(&mut f, id, depth, 1, &ItemOutcome::Indexed(parsed.links.clone()), 1);
    assert_eq!(f.get(0).unwrap().status, CrawlStatus::Completed);
    assert_eq!(f.len(), 2);
    let child = f.get(1).unwrap();
    assert_eq!(child.url, "https://example.com/a");
    assert_eq!(child.depth, 1);
    assert_eq!(child.status, CrawlStatus::Pending);
    assert_eq!(upserted.len(), 1);
    assert_eq!(upserted[0].id, document_id("https://example.com/"));
}

#[test]
fn fetch_failure_marks_failed() {
    let mut f = Frontier::new();
    f.discover(&vec!["https://example.com/".to_string()], 0);
    let batch = f.claim(100);
    let (id, _url, depth) = batch[0].clone();
    let before = f.get(0).unwrap().error_count;
    let admitted = admit_response(200, "application/pdf");
    assert_eq!(admitted, Err(FetchError::NotHtml));
    let mut upserted: Vec<Document> = Vec::new();
    let outcome = match admitted {
        Ok(()) => {
            let parsed = Parser::new().parse("<p>x</p>", "https://example.com/").unwrap();
            upserted.push(Document::from_parsed("https://example.com/", &parsed, "now".to_string()));
            ItemOutcome::Indexed(parsed.links)
        }
        Err(_) => ItemOutcome::FetchFailed,
    };
    settle_item(&mut f, id, depth, 1, &outcome, 1);
    assert!(upserted.is_empty());
    let r = f.get(0).unwrap();
    assert_eq!(r.status, CrawlStatus::Failed);
    assert_eq!(r.error_count, before + 1);
    assert_eq!(f.len(), 1);
}
