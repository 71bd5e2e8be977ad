use crawler::fetch::{admit_response, contains_chars, FetchError};

#[test]
fn html_success_is_admitted() {
    assert_eq!(admit_response(200, "text/html; charset=utf-8"), Ok(()));
    assert_eq!(admit_response(299, "text/html"), Ok(()));
}

#[test]
fn non_html_is_refused() {
    assert_eq!(admit_response(200, "application/json"), Err(FetchError::NotHtml));
    assert_eq!(admit_response(200, ""), Err(FetchError::NotHtml));
    assert_eq!(admit_response(200, "text/htm"), Err(FetchError::NotHtml));
}

#[test]
fn non_success_status_is_refused_first() {
    assert_eq!(admit_response(404, "text/html"), Err(FetchError::Status(404)));
    assert_eq!(admit_response(199, "image/png"), Err(FetchError::Status(199)));
    assert_eq!(admit_response(300, "text/html"), Err(FetchError::Status(300)));
}

#[test]
fn substring_search() {
    let s: Vec<char> = "abcabd".chars().collect();
    let p: Vec<char> = "abd".chars().collect();
    let q: Vec<char> = "abe".chars().collect();
    assert!(contains_chars(&s, &p));
    assert!(!contains_chars(&s, &q));
    assert!(contains_chars(&s, &Vec::new()));
}
