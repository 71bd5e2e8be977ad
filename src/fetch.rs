//! Admission of a fetched response: only a successful HTML response is
//! handed on to extraction.

use vstd::prelude::*;
use crate::text::chars_of;

verus! {

/// Why a fetch gave no page.
#[derive(Clone, Copy, Debug, PartialEq, Eq, Structural)]
pub enum FetchError {
    /// The request did not complete (timeout, connection, redirects).
    Transport,
    /// The server answered with a status outside 200..=299.
    Status(u16),
    /// The response is not HTML.
    NotHtml,
}

/// Media type that a response must name to be admitted.
pub const HTML_MEDIA_TYPE: &'static str = "text/html";

/// A 2xx status.
pub open spec fn is_success(status: u16) -> bool {
    200 <= status <= 299
}

/// `p` occurs in `s` starting at `i`.
pub open spec fn occurs_at(s: Seq<char>, p: Seq<char>, i: int) -> bool {
    0 <= i && i + p.len() <= s.len() && s.subrange(i, i + p.len()) == p
}

/// `p` occurs somewhere in `s`.
pub open spec fn occurs_in(s: Seq<char>, p: Seq<char>) -> bool {
    exists|i: int| occurs_at(s, p, i)
}

/// The outcome of admitting a response with `status` and the content type
/// header `content_type` (empty when the header is missing or unreadable).
pub open spec fn admission(status: u16, content_type: Seq<char>) -> Result<(), FetchError> {
    if !is_success(status) {
        Err(FetchError::Status(status))
    } else if !occurs_in(content_type, HTML_MEDIA_TYPE@) {
        Err(FetchError::NotHtml)
    } else {
        Ok(())
    }
}

/// Whether `p` occurs in `s`.
pub fn contains_chars(s: &Vec<char>, p: &Vec<char>) -> (r: bool)
    ensures
        r == occurs_in(s@, p@),
{
    if p.len() > s.len() {
        assert forall|i: int| !occurs_at(s@, p@, i) by {}
        return false;
    }
    let last = s.len() - p.len();
    let mut i: usize = 0;
    while i <= last
        invariant
            last == s@.len() - p@.len(),
            p@.len() <= s@.len(),
            forall|k: int| 0 <= k < i ==> !occurs_at(s@, p@, k),
        decreases last + 1 - i,
    {
        let mut j: usize = 0;
        let mut same = true;
        while j < p.len() && same
            invariant
                i <= last,
                last == s@.len() - p@.len(),
                p@.len() <= s@.len(),
                j <= p@.len(),
                same ==> forall|m: int| 0 <= m < j ==> s@[i + m] == p@[m],
                !same ==> j > 0 && s@[i + j - 1] != p@[j - 1],
            decreases p.len() - j,
        {
            assert(i + j < s@.len());
            assert(s@.len() == s.len());
            if s[i + j] != p[j] {
                same = false;
            }
            j = j + 1;
        }
        if same {
            assert(s@.subrange(i as int, i + p@.len()) =~= p@);
            assert(occurs_at(s@, p@, i as int));
            return true;
        }
        assert(s@.subrange(i as int, i + p@.len())[j - 1] != p@[j - 1]);
        if i == last {
            assert forall|k: int| !occurs_at(s@, p@, k) by {
                if 0 <= k < i {
                } else if k == i {
                    assert(s@.subrange(i as int, i + p@.len())[j - 1] != p@[j - 1]);
                }
            }
            return false;
        }
        i = i + 1;
    }
    assert forall|k: int| !occurs_at(s@, p@, k) by {}
    false
}

/// Decides whether a response is admitted: a status outside 2xx is refused
/// first, then a content type that does not name `text/html`.
pub fn admit_response(status: u16, content_type: &str) -> (r: Result<(), FetchError>)
    ensures
        r == admission(status, content_type@),
{
    if status < 200 || status > 299 {
        return Err(FetchError::Status(status));
    }
    let ct = chars_of(content_type);
    let html = chars_of(HTML_MEDIA_TYPE);
    if contains_chars(&ct, &html) {
        Ok(())
    } else {
        Err(FetchError::NotHtml)
    }
}

} // verus!
