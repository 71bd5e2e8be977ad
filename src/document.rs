//! The normalized document handed to the search index, keyed by an
//! identifier derived from its source URL.

use vstd::prelude::*;
use sha2::Digest;
use crate::extract::ParsedContent;
use crate::text::{chars_of, string_of, take_chars, take_first, trim, trim_chars};

verus! {

/// Characters of the body text that stand in for a missing description.
pub const DESCRIPTION_FALLBACK_CHARS: usize = 300;

/// The SHA-256 digest of the UTF-8 bytes of `s`, in lower-case hex.
pub uninterp spec fn sha256_hex(s: Seq<char>) -> Seq<char>;

/// A lower-case hexadecimal digit.
pub open spec fn is_lower_hex(c: char) -> bool {
    ('0' <= c && c <= '9') || ('a' <= c && c <= 'f')
}

/// Sixty-four lower-case hexadecimal digits: a SHA-256 digest written out.
pub open spec fn is_digest_hex(s: Seq<char>) -> bool {
    s.len() == 64 && forall|i: int| 0 <= i < s.len() ==> is_lower_hex(#[trigger] s[i])
}

/// Relies on `sha2::Sha256` over the UTF-8 bytes of `s`, written with `{:x}`:
/// the 32 bytes of the digest, two lower-case hex digits each.
#[verifier::external_body]
fn digest_hex(s: &str) -> (r: String)
    ensures
        r@ == sha256_hex(s@),
        r@.len() == 64,
        forall|i: int| 0 <= i < r@.len() ==> is_lower_hex(#[trigger] r@[i]),
{
    let mut hasher = sha2::Sha256::new();
    hasher.update(s.as_bytes());
    format!("{:x}", hasher.finalize())
}

/// The stable identifier of the document for `url`: the same URL always
/// gives the same identifier, so indexing it again overwrites.
pub fn document_id(url: &str) -> (r: String)
    ensures
        r@ == sha256_hex(url@),
        is_digest_hex(r@),
{
    digest_hex(url)
}

/// The description that a document carries: the page's own, else the first
/// 300 characters of its body text, trimmed.
pub open spec fn effective_description(description: Seq<char>, content: Seq<char>) -> Seq<char> {
    if description.len() == 0 {
        trim(take_chars(content, DESCRIPTION_FALLBACK_CHARS as nat))
    } else {
        description
    }
}

/// A document record for the search index.
#[derive(Debug)]
pub struct Document {
    pub id: String,
    pub url: String,
    pub name: String,
    pub title: String,
    pub description: String,
    pub icon: String,
    pub content: String,
    pub timestamp: String,
}

impl Document {
    /// The document for the page at `url` with the extracted fields
    /// `parsed`, under the identifier `id`, stamped `timestamp`.
    pub fn assemble(id: String, url: &str, parsed: &ParsedContent, timestamp: String) -> (r: Document)
        ensures
            r.id@ == id@,
            r.url@ == url@,
            r.name@ == parsed.name@,
            r.title@ == parsed.title@,
            r.description@ == effective_description(parsed.description@, parsed.content@),
            r.icon@ == parsed.icon@,
            r.content@ == parsed.content@,
            r.timestamp@ == timestamp@,
    {
        let own = chars_of(parsed.description.as_str());
        let description = if own.len() == 0 {
            let body = chars_of(parsed.content.as_str());
            let head = take_first(&body, DESCRIPTION_FALLBACK_CHARS);
            string_of(&trim_chars(&head))
        } else {
            parsed.description.clone()
        };
        Document {
            id,
            url: string_of(&chars_of(url)),
            name: parsed.name.clone(),
            title: parsed.title.clone(),
            description,
            icon: parsed.icon.clone(),
            content: parsed.content.clone(),
            timestamp,
        }
    }

    /// The document for the page at `url`, under the identifier derived
    /// from `url`.
    pub fn from_parsed(url: &str, parsed: &ParsedContent, timestamp: String) -> (r: Document)
        ensures
            r.id@ == sha256_hex(url@),
            is_digest_hex(r.id@),
            r.url@ == url@,
            r.name@ == parsed.name@,
            r.title@ == parsed.title@,
            r.description@ == effective_description(parsed.description@, parsed.content@),
            r.icon@ == parsed.icon@,
            r.content@ == parsed.content@,
            r.timestamp@ == timestamp@,
    {
        let id = document_id(url);
        Document::assemble(id, url, parsed, timestamp)
    }
}

} // verus!
