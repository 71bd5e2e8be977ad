//! The content extractor: markup and a base address in, the fields of a
//! searchable document out. Each field runs its own ordered fallback chain
//! and degrades to a default instead of failing.
//!
//! HTML parsing and CSS selection come from `scraper`, address parsing and
//! resolution from `url`, and the plain-text rendering of a whole page from
//! `html2text`; what is done with their results is stated and proved here.

use vstd::prelude::*;
use crate::text::{
    is_ws, trim_end, trim_start, byte_len, chars_of, count_words, find_from, first_index, has_char, join_spaced,
    longer_than_bytes, string_of, strip_bracketed, strip_brackets, sub_chars, take_chars, take_first,
    trim, trim_chars, word_count,
};

verus! {

#[verifier::external_type_specification]
#[verifier::external_body]
pub struct ExHtml(scraper::Html);

/// Texts of the elements that `selector` matches in the document parsed
/// from `markup`, in the order scraper's `select` yields them (none when the
/// selector is invalid).
pub uninterp spec fn selected_texts(markup: Seq<char>, selector: Seq<char>) -> Seq<Seq<char>>;

/// Attribute `attr` of each element that `selector` matches in the document
/// parsed from `markup`, in the order scraper's `select` yields them (none when the
/// selector is invalid).
pub uninterp spec fn selected_attrs(markup: Seq<char>, selector: Seq<char>, attr: Seq<char>) -> Seq<
    Option<Seq<char>>,
>;

/// The document parsed from `markup`, serialised and rendered as plain text
/// wrapped at 120 columns (empty if rendering fails).
pub uninterp spec fn flattened_text(markup: Seq<char>) -> Seq<char>;

/// The serialisation of `s` parsed as an absolute URL, if it parses.
pub uninterp spec fn serialized_url(s: Seq<char>) -> Option<Seq<char>>;

/// The host of the URL serialised as `s`, if it has one.
pub uninterp spec fn url_host(s: Seq<char>) -> Option<Seq<char>>;

/// The serialisation of `href` resolved against the URL serialised as
/// `base`, if it resolves.
pub uninterp spec fn joined_url(base: Seq<char>, href: Seq<char>) -> Option<Seq<char>>;

pub open spec fn seq_views(v: Seq<Vec<char>>) -> Seq<Seq<char>> {
    v.map_values(|x: Vec<char>| x@)
}

pub open spec fn opt_view(o: Option<Vec<char>>) -> Option<Seq<char>> {
    match o {
        Some(x) => Some(x@),
        None => None,
    }
}

pub open spec fn opt_views(v: Seq<Option<Vec<char>>>) -> Seq<Option<Seq<char>>> {
    v.map_values(|o: Option<Vec<char>>| opt_view(o))
}

/// A parsed page: the markup together with the document parsed from it.
pub struct Page {
    markup: String,
    doc: scraper::Html,
}

impl Page {
    pub closed spec fn markup(&self) -> Seq<char> {
        self.markup@
    }
}

/// Relies on `scraper::Html::parse_document`: the page keeps the markup next
/// to the document parsed from it, which the selections below read.
#[verifier::external_body]
fn parse_page(markup: &str) -> (r: Page)
    ensures
        r.markup() == markup@,
{
    Page { markup: markup.to_string(), doc: scraper::Html::parse_document(markup) }
}

/// Relies on `scraper::Selector::parse`, `Html::select` and
/// `ElementRef::text`: the text of each matched element, in the order
/// `select` yields them.
#[verifier::external_body]
fn select_texts(page: &Page, selector: &str) -> (r: Vec<Vec<char>>)
    ensures
        seq_views(r@) == selected_texts(page.markup(), selector@),
{
    let mut out = Vec::new();
    if let Ok(sel) = scraper::Selector::parse(selector) {
        for el in page.doc.select(&sel) {
            let t: String = el.text().collect();
            out.push(t.chars().collect());
        }
    }
    out
}

/// Relies on `scraper::Selector::parse`, `Html::select` and
/// `Element::attr`: the attribute of each matched element, in the order
/// `select` yields them.
#[verifier::external_body]
fn select_attrs(page: &Page, selector: &str, attr: &str) -> (r: Vec<Option<Vec<char>>>)
    ensures
        opt_views(r@) == selected_attrs(page.markup(), selector@, attr@),
{
    let mut out = Vec::new();
    if let Ok(sel) = scraper::Selector::parse(selector) {
        for el in page.doc.select(&sel) {
            out.push(el.value().attr(attr).map(|a| a.chars().collect()));
        }
    }
    out
}

/// Relies on `scraper::Html::html` and `html2text::from_read`: the whole
/// document as wrapped plain text.
#[verifier::external_body]
fn flatten_page(page: &Page) -> (r: Vec<char>)
    ensures
        r@ == flattened_text(page.markup()),
{
    let html = page.doc.html();
    html2text::from_read(html.as_bytes(), 120).unwrap_or_default().chars().collect()
}

#[verifier::external_type_specification]
#[verifier::external_body]
pub struct ExUrl(url::Url);

/// An absolute URL together with its serialisation.
pub struct BaseUrl {
    text: String,
    url: url::Url,
}

impl BaseUrl {
    pub closed spec fn text(&self) -> Seq<char> {
        self.text@
    }
}

/// Relies on `url::Url::parse`: the parsed URL, kept with its serialisation.
#[verifier::external_body]
fn parse_url(s: &str) -> (r: Option<BaseUrl>)
    ensures
        r is None <==> serialized_url(s@) is None,
        r matches Some(b) ==> serialized_url(s@) == Some(b.text()),
{
    url::Url::parse(s).ok().map(|u| BaseUrl { text: u.as_str().to_string(), url: u })
}

/// Relies on `url::Url::host_str`.
#[verifier::external_body]
fn host_of(base: &BaseUrl) -> (r: Option<Vec<char>>)
    ensures
        opt_view(r) == url_host(base.text()),
{
    base.url.host_str().map(|h| h.chars().collect())
}

/// Relies on `url::Url::join`: `href` resolved against `base`, serialised.
#[verifier::external_body]
fn join_url(base: &BaseUrl, href: &str) -> (r: Option<Vec<char>>)
    ensures
        opt_view(r) == joined_url(base.text(), href@),
{
    base.url.join(href).ok().map(|u| u.as_str().chars().collect())
}

/// Title shown when a page has no title element.
pub const UNTITLED: &'static str = "Untitled";

/// Site name used when neither the markup nor the address gives one.
pub const UNKNOWN_SITE: &'static str = "Unknown Site";

/// Conventional icon path, resolved against the page's address.
pub const DEFAULT_ICON_PATH: &'static str = "/favicon.ico";

/// Most paragraphs that the body text is built from.
pub const MAX_PARAGRAPHS: usize = 5;

/// Character budget of a body text built from paragraphs.
pub const CONTENT_BUDGET: usize = 50000;

/// Character budget of a body text flattened from the whole page.
pub const FALLBACK_BUDGET: usize = 2000;

/// Fewest UTF-8 bytes of a qualifying paragraph, exclusive.
pub const MIN_PARAGRAPH_BYTES: usize = 50;

/// Fewest words of a qualifying paragraph, exclusive.
pub const MIN_PARAGRAPH_WORDS: usize = 10;

pub const TITLE_SELECTOR: &'static str = "title";

pub const SITE_NAME_SELECTOR: &'static str = "meta[property='og:site_name']";

pub const ITEM_NAME_SELECTOR: &'static str = "meta[itemprop='name']";

pub const LINK_SELECTOR: &'static str = "a[href]";

pub const CONTENT_ATTR: &'static str = "content";

pub const HREF_ATTR: &'static str = "href";

pub const DESCRIPTION_SELECTORS: usize = 3;

pub const ICON_SELECTORS: usize = 4;

pub const CONTENT_SELECTORS: usize = 6;

/// The description meta tags, most trusted first.
pub open spec fn description_selector(k: int) -> Seq<char> {
    if k == 0 {
        "meta[name='description']"@
    } else if k == 1 {
        "meta[property='og:description']"@
    } else {
        "meta[name='twitter:description']"@
    }
}

fn description_selector_at(k: usize) -> (r: &'static str)
    ensures
        r@ == description_selector(k as int),
{
    if k == 0 {
        "meta[name='description']"
    } else if k == 1 {
        "meta[property='og:description']"
    } else {
        "meta[name='twitter:description']"
    }
}

/// The icon link relations, most trusted first.
pub open spec fn icon_selector(k: int) -> Seq<char> {
    if k == 0 {
        "link[rel='icon']"@
    } else if k == 1 {
        "link[rel='shortcut icon']"@
    } else if k == 2 {
        "link[rel='apple-touch-icon']"@
    } else {
        "link[rel='mask-icon']"@
    }
}

fn icon_selector_at(k: usize) -> (r: &'static str)
    ensures
        r@ == icon_selector(k as int),
{
    if k == 0 {
        "link[rel='icon']"
    } else if k == 1 {
        "link[rel='shortcut icon']"
    } else if k == 2 {
        "link[rel='apple-touch-icon']"
    } else {
        "link[rel='mask-icon']"
    }
}

/// The content-container paragraph selectors, most specific first.
pub open spec fn content_selector(k: int) -> Seq<char> {
    if k == 0 {
        ".mw-parser-output > p"@
    } else if k == 1 {
        "article p"@
    } else if k == 2 {
        "main p"@
    } else if k == 3 {
        "#content p"@
    } else if k == 4 {
        ".post-content p"@
    } else {
        "p"@
    }
}

fn content_selector_at(k: usize) -> (r: &'static str)
    ensures
        r@ == content_selector(k as int),
{
    if k == 0 {
        ".mw-parser-output > p"
    } else if k == 1 {
        "article p"
    } else if k == 2 {
        "main p"
    } else if k == 3 {
        "#content p"
    } else if k == 4 {
        ".post-content p"
    } else {
        "p"
    }
}

/// The attribute of the first element that matches, if that element has it.
pub open spec fn first_attr(attrs: Seq<Option<Seq<char>>>) -> Option<Seq<char>> {
    if attrs.len() > 0 {
        attrs[0]
    } else {
        None
    }
}

/// Title: the trimmed text of the first title element, else "Untitled".
pub open spec fn title_of(markup: Seq<char>) -> Seq<char> {
    let t = selected_texts(markup, TITLE_SELECTOR@);
    if t.len() > 0 {
        trim(t[0])
    } else {
        trim(UNTITLED@)
    }
}

/// Site name: the Open Graph site name, else the schema.org name (both
/// trimmed), else the host of `base`, else "Unknown Site".
pub open spec fn site_name_of(markup: Seq<char>, base: Seq<char>) -> Seq<char> {
    match first_attr(selected_attrs(markup, SITE_NAME_SELECTOR@, CONTENT_ATTR@)) {
        Some(c) => trim(c),
        None => match first_attr(selected_attrs(markup, ITEM_NAME_SELECTOR@, CONTENT_ATTR@)) {
            Some(c) => trim(c),
            None => match url_host(base) {
                Some(h) => h,
                None => UNKNOWN_SITE@,
            },
        },
    }
}

/// Description from the `k`-th description tag on: the first non-empty
/// trimmed content, else empty.
pub open spec fn description_from(markup: Seq<char>, k: int) -> Seq<char>
    decreases DESCRIPTION_SELECTORS - k,
{
    if k >= DESCRIPTION_SELECTORS {
        Seq::empty()
    } else {
        match first_attr(selected_attrs(markup, description_selector(k), CONTENT_ATTR@)) {
            Some(c) => if trim(c).len() > 0 {
                trim(c)
            } else {
                description_from(markup, k + 1)
            },
            None => description_from(markup, k + 1),
        }
    }
}

pub open spec fn description_of(markup: Seq<char>) -> Seq<char> {
    description_from(markup, 0)
}

/// Icon from the `k`-th icon relation on: the first href that resolves
/// against `base`, else the conventional path resolved, else empty.
pub open spec fn icon_from(markup: Seq<char>, base: Seq<char>, k: int) -> Seq<char>
    decreases ICON_SELECTORS - k,
{
    if k >= ICON_SELECTORS {
        match joined_url(base, DEFAULT_ICON_PATH@) {
            Some(u) => u,
            None => Seq::empty(),
        }
    } else {
        match first_attr(selected_attrs(markup, icon_selector(k), HREF_ATTR@)) {
            Some(h) => match joined_url(base, h) {
                Some(u) => u,
                None => icon_from(markup, base, k + 1),
            },
            None => icon_from(markup, base, k + 1),
        }
    }
}

pub open spec fn icon_of(markup: Seq<char>, base: Seq<char>) -> Seq<char> {
    icon_from(markup, base, 0)
}

/// A trimmed paragraph qualifies: longer than 50 bytes, no pipe, more than
/// ten words.
pub open spec fn qualifies(t: Seq<char>) -> bool {
    &&& byte_len(t) > MIN_PARAGRAPH_BYTES
    &&& !t.contains('|')
    &&& word_count(t) > MIN_PARAGRAPH_WORDS
}

/// The qualifying paragraphs among `texts`, trimmed, with bracketed spans
/// stripped and trimmed again, the first five of them.
pub open spec fn collected(texts: Seq<Seq<char>>) -> Seq<Seq<char>>
    decreases texts.len(),
{
    if texts.len() == 0 {
        Seq::empty()
    } else {
        let prev = collected(texts.drop_last());
        let t = trim(texts.last());
        if prev.len() < MAX_PARAGRAPHS && qualifies(t) {
            prev.push(trim(strip_brackets(t)))
        } else {
            prev
        }
    }
}

/// The paragraphs of the first content selector from the `k`-th on that
/// yields any.
pub open spec fn paragraphs_from(markup: Seq<char>, k: int) -> Seq<Seq<char>>
    decreases CONTENT_SELECTORS - k,
{
    if k >= CONTENT_SELECTORS {
        Seq::empty()
    } else {
        let ps = collected(selected_texts(markup, content_selector(k)));
        if ps.len() > 0 {
            ps
        } else {
            paragraphs_from(markup, k + 1)
        }
    }
}

/// Body text: the paragraphs joined by spaces, within 50,000 characters;
/// without any paragraph, the flattened page within 2,000 characters.
pub open spec fn content_of(markup: Seq<char>) -> Seq<char> {
    let ps = paragraphs_from(markup, 0);
    if ps.len() == 0 {
        take_chars(flattened_text(markup), FALLBACK_BUDGET as nat)
    } else {
        take_chars(join_spaced(ps), CONTENT_BUDGET as nat)
    }
}

/// The serialised URL `u` has scheme `http` or `https`.
pub open spec fn is_web_url(u: Seq<char>) -> bool {
    (u.len() >= 5 && u[0] == 'h' && u[1] == 't' && u[2] == 't' && u[3] == 'p' && u[4] == ':') || (
    u.len() >= 6 && u[0] == 'h' && u[1] == 't' && u[2] == 't' && u[3] == 'p' && u[4] == 's' && u[5]
        == ':')
}

/// The serialised URL `u` without its fragment: a serialisation holds `#`
/// only where the fragment starts.
pub open spec fn without_fragment(u: Seq<char>) -> Seq<char> {
    u.take(first_index(u, '#') as int)
}

/// The links of a page: each href resolved against `base`, kept when its
/// scheme is http or https, without its fragment, in the order the anchors
/// were selected.
pub open spec fn links_from(base: Seq<char>, hrefs: Seq<Option<Seq<char>>>) -> Seq<Seq<char>>
    decreases hrefs.len(),
{
    if hrefs.len() == 0 {
        Seq::empty()
    } else {
        let prev = links_from(base, hrefs.drop_last());
        match hrefs.last() {
            Some(h) => match joined_url(base, h) {
                Some(u) => if is_web_url(u) {
                    prev.push(without_fragment(u))
                } else {
                    prev
                },
                None => prev,
            },
            None => prev,
        }
    }
}

pub open spec fn links_of(markup: Seq<char>, base: Seq<char>) -> Seq<Seq<char>> {
    links_from(base, selected_attrs(markup, LINK_SELECTOR@, HREF_ATTR@))
}

/// The attribute of the first element that `selector` matches, if any.
fn first_match_attr(page: &Page, selector: &str, attr: &str) -> (r: Option<Vec<char>>)
    ensures
        opt_view(r) == first_attr(selected_attrs(page.markup(), selector@, attr@)),
{
    let mut all = select_attrs(page, selector, attr);
    if all.len() > 0 {
        let ghost views = opt_views(all@);
        let first = all.swap_remove(0);
        assert(views[0] == opt_view(first));
        first
    } else {
        None
    }
}

fn extract_title(page: &Page) -> (r: Vec<char>)
    ensures
        r@ == title_of(page.markup()),
{
    let texts = select_texts(page, TITLE_SELECTOR);
    if texts.len() > 0 {
        assert(seq_views(texts@)[0] == texts@[0]@);
        trim_chars(&texts[0])
    } else {
        trim_chars(&chars_of(UNTITLED))
    }
}

fn extract_site_name(page: &Page, base: &BaseUrl) -> (r: Vec<char>)
    ensures
        r@ == site_name_of(page.markup(), base.text()),
{
    if let Some(c) = first_match_attr(page, SITE_NAME_SELECTOR, CONTENT_ATTR) {
        return trim_chars(&c);
    }
    if let Some(c) = first_match_attr(page, ITEM_NAME_SELECTOR, CONTENT_ATTR) {
        return trim_chars(&c);
    }
    match host_of(base) {
        Some(h) => h,
        None => chars_of(UNKNOWN_SITE),
    }
}

fn extract_description(page: &Page) -> (r: Vec<char>)
    ensures
        r@ == description_of(page.markup()),
{
    let mut k: usize = 0;
    while k < DESCRIPTION_SELECTORS
        invariant
            k <= DESCRIPTION_SELECTORS,
            description_from(page.markup(), k as int) == description_of(page.markup()),
        decreases DESCRIPTION_SELECTORS - k,
    {
        if let Some(c) = first_match_attr(page, description_selector_at(k), CONTENT_ATTR) {
            let t = trim_chars(&c);
            if t.len() > 0 {
                return t;
            }
        }
        k = k + 1;
    }
    Vec::new()
}

fn extract_icon(page: &Page, base: &BaseUrl) -> (r: Vec<char>)
    ensures
        r@ == icon_of(page.markup(), base.text()),
{
    let mut k: usize = 0;
    while k < ICON_SELECTORS
        invariant
            k <= ICON_SELECTORS,
            icon_from(page.markup(), base.text(), k as int) == icon_of(page.markup(), base.text()),
        decreases ICON_SELECTORS - k,
    {
        if let Some(h) = first_match_attr(page, icon_selector_at(k), HREF_ATTR) {
            let href = string_of(&h);
            if let Some(u) = join_url(base, href.as_str()) {
                return u;
            }
        }
        k = k + 1;
    }
    match join_url(base, DEFAULT_ICON_PATH) {
        Some(u) => u,
        None => Vec::new(),
    }
}

/// The qualifying paragraphs among `texts`, cleaned, at most five.
pub fn collect_paragraphs(texts: &Vec<Vec<char>>) -> (r: Vec<Vec<char>>)
    ensures
        seq_views(r@) == collected(seq_views(texts@)),
{
    let ghost all = seq_views(texts@);
    let mut out: Vec<Vec<char>> = Vec::new();
    let mut i: usize = 0;
    assert(all.take(0) =~= Seq::<Seq<char>>::empty());
    assert(seq_views(out@) =~= Seq::<Seq<char>>::empty());
    while i < texts.len()
        invariant
            i <= texts@.len(),
            all == seq_views(texts@),
            seq_views(out@) == collected(all.take(i as int)),
        decreases texts.len() - i,
    {
        assert(all.take(i + 1).drop_last() =~= all.take(i as int));
        assert(all.take(i + 1).last() == texts@[i as int]@);
        if out.len() < MAX_PARAGRAPHS {
            let t = trim_chars(&texts[i]);
            if longer_than_bytes(&t, MIN_PARAGRAPH_BYTES) && !has_char(&t, '|') && count_words(&t)
                > MIN_PARAGRAPH_WORDS {
                let cleaned = trim_chars(&strip_bracketed(&t));
                let ghost before = out@;
                out.push(cleaned);
                assert(seq_views(out@) =~= seq_views(before).push(cleaned@));
            }
        }
        i = i + 1;
    }
    assert(all.take(texts@.len() as int) =~= all);
    out
}

/// Appends the characters of `src` to `out`.
fn push_all(out: &mut Vec<char>, src: &Vec<char>)
    ensures
        final(out)@ == old(out)@ + src@,
{
    let mut i: usize = 0;
    while i < src.len()
        invariant
            i <= src@.len(),
            out@ == old(out)@ + src@.take(i as int),
        decreases src.len() - i,
    {
        out.push(src[i]);
        assert(src@.take(i + 1) =~= src@.take(i as int).push(src@[i as int]));
        assert(out@ =~= old(out)@ + src@.take(i + 1));
        i = i + 1;
    }
    assert(src@.take(src@.len() as int) =~= src@);
}

/// The pieces joined with one space between neighbours.
pub fn join_with_spaces(parts: &Vec<Vec<char>>) -> (r: Vec<char>)
    ensures
        r@ == join_spaced(seq_views(parts@)),
{
    let ghost all = seq_views(parts@);
    let mut out: Vec<char> = Vec::new();
    let mut i: usize = 0;
    while i < parts.len()
        invariant
            i <= parts@.len(),
            all == seq_views(parts@),
            out@ == join_spaced(all.take(i as int)),
        decreases parts.len() - i,
    {
        assert(all.take(i + 1).drop_last() =~= all.take(i as int));
        assert(all.take(i + 1).last() == parts@[i as int]@);
        if i > 0 {
            out.push(' ');
        }
        let ghost before = out@;
        push_all(&mut out, &parts[i]);
        if i == 0 {
            assert(out@ =~= all.take(1)[0]);
        } else {
            assert(out@ =~= before + parts@[i as int]@);
        }
        i = i + 1;
    }
    assert(all.take(parts@.len() as int) =~= all);
    out
}

fn extract_content(page: &Page) -> (r: Vec<char>)
    ensures
        r@ == content_of(page.markup()),
{
    let mut k: usize = 0;
    while k < CONTENT_SELECTORS
        invariant
            k <= CONTENT_SELECTORS,
            paragraphs_from(page.markup(), k as int) == paragraphs_from(page.markup(), 0),
        decreases CONTENT_SELECTORS - k,
    {
        let texts = select_texts(page, content_selector_at(k));
        let ps = collect_paragraphs(&texts);
        if ps.len() > 0 {
            let joined = join_with_spaces(&ps);
            return take_first(&joined, CONTENT_BUDGET);
        }
        k = k + 1;
    }
    let flat = flatten_page(page);
    take_first(&flat, FALLBACK_BUDGET)
}

/// Whether the serialised URL `u` is an http or https one.
pub fn is_web_address(u: &Vec<char>) -> (r: bool)
    ensures
        r == is_web_url(u@),
{
    (u.len() >= 5 && u[0] == 'h' && u[1] == 't' && u[2] == 't' && u[3] == 'p' && u[4] == ':') || (
    u.len() >= 6 && u[0] == 'h' && u[1] == 't' && u[2] == 't' && u[3] == 'p' && u[4] == 's' && u[5]
        == ':')
}

/// The serialised URL `u` without its fragment.
pub fn strip_fragment(u: &Vec<char>) -> (r: Vec<char>)
    ensures
        r@ == without_fragment(u@),
{
    let k = find_from(u, 0, '#');
    assert(u@.subrange(0, u@.len() as int) =~= u@);
    sub_chars(u, 0, k)
}

fn extract_links(page: &Page, base: &BaseUrl) -> (r: Vec<Vec<char>>)
    ensures
        seq_views(r@) == links_of(page.markup(), base.text()),
{
    let hrefs = select_attrs(page, LINK_SELECTOR, HREF_ATTR);
    let ghost all = opt_views(hrefs@);
    let mut out: Vec<Vec<char>> = Vec::new();
    let mut i: usize = 0;
    assert(all.take(0) =~= Seq::<Option<Seq<char>>>::empty());
    assert(seq_views(out@) =~= Seq::<Seq<char>>::empty());
    while i < hrefs.len()
        invariant
            i <= hrefs@.len(),
            all == opt_views(hrefs@),
            seq_views(out@) == links_from(base.text(), all.take(i as int)),
        decreases hrefs.len() - i,
    {
        assert(all.take(i + 1).drop_last() =~= all.take(i as int));
        assert(all.take(i + 1).last() == opt_view(hrefs@[i as int]));
        match &hrefs[i] {
            Some(h) => {
                let href = string_of(h);
                if let Some(u) = join_url(base, href.as_str()) {
                    if is_web_address(&u) {
                        let link = strip_fragment(&u);
                        let ghost before = out@;
                        out.push(link);
                        assert(seq_views(out@) =~= seq_views(before).push(link@));
                    }
                }
            },
            None => {},
        }
        i = i + 1;
    }
    assert(all.take(hrefs@.len() as int) =~= all);
    out
}

/// Why a page could not be extracted.
#[derive(Clone, Copy, Debug, PartialEq, Eq, Structural)]
pub enum ExtractError {
    /// The base address does not parse as an absolute URL.
    InvalidBaseUrl,
}

/// The fields extracted from one page.
#[derive(Debug)]
pub struct ParsedContent {
    pub title: String,
    pub name: String,
    pub description: String,
    pub icon: String,
    pub content: String,
    pub links: Vec<String>,
}

/// The content extractor. It holds no state.
pub struct Parser;

impl Parser {
    pub fn new() -> (r: Parser) {
        Parser
    }

    /// Extracts the document fields of `html`, read as the page at
    /// `base_url`. Fails exactly when `base_url` does not parse; every field
    /// then follows its own fallback chain against the parsed base address.
    pub fn parse(&self, html: &str, base_url: &str) -> (r: Result<ParsedContent, ExtractError>)
        ensures
            serialized_url(base_url@) is None <==> r is Err,
            r matches Err(e) ==> e == ExtractError::InvalidBaseUrl,
            r matches Ok(p) ==> {
                let base = serialized_url(base_url@)->0;
                &&& p.title@ == title_of(html@)
                &&& p.name@ == site_name_of(html@, base)
                &&& p.description@ == description_of(html@)
                &&& p.icon@ == icon_of(html@, base)
                &&& p.content@ == content_of(html@)
                &&& p.links@.map_values(|l: String| l@) == links_of(html@, base)
            },
    {
        let base = match parse_url(base_url) {
            Some(b) => b,
            None => {
                return Err(ExtractError::InvalidBaseUrl);
            },
        };
        let page = parse_page(html);
        let title = extract_title(&page);
        let name = extract_site_name(&page, &base);
        let description = extract_description(&page);
        let icon = extract_icon(&page, &base);
        let content = extract_content(&page);
        let link_chars = extract_links(&page, &base);
        let links = strings_of(&link_chars);
        Ok(
            ParsedContent {
                title: string_of(&title),
                name: string_of(&name),
                description: string_of(&description),
                icon: string_of(&icon),
                content: string_of(&content),
                links,
            },
        )
    }
}

/// Each character vector as a string.
pub fn strings_of(v: &Vec<Vec<char>>) -> (r: Vec<String>)
    ensures
        r@.map_values(|l: String| l@) == seq_views(v@),
{
    let mut out: Vec<String> = Vec::new();
    let mut i: usize = 0;
    while i < v.len()
        invariant
            i <= v@.len(),
            out@.len() == i,
            out@.map_values(|l: String| l@) == seq_views(v@).take(i as int),
        decreases v.len() - i,
    {
        let ghost before = out@;
        let st = string_of(&v[i]);
        out.push(st);
        assert(out@.map_values(|l: String| l@) =~= seq_views(v@).take(i + 1)) by {
            assert forall|k: int| 0 <= k < i implies out@.map_values(|l: String| l@)[k] == seq_views(
                v@,
            ).take(i as int)[k] by {
                assert(before.map_values(|l: String| l@)[k] == before[k]@);
            }
        }
        i = i + 1;
    }
    assert(seq_views(v@).take(v@.len() as int) =~= seq_views(v@));
    out
}

proof fn lemma_first_index(s: Seq<char>, c: char)
    ensures
        first_index(s, c) <= s.len(),
        forall|i: int| 0 <= i < first_index(s, c) ==> s[i] != c,
        first_index(s, c) < s.len() ==> s[first_index(s, c) as int] == c,
    decreases s.len(),
{
    if s.len() > 0 && s[0] != c {
        lemma_first_index(s.drop_first(), c);
        assert(first_index(s, c) < s.len() ==> s[first_index(s, c) as int] == s.drop_first()[first_index(s.drop_first(), c) as int]);
        assert forall|i: int| 0 <= i < first_index(s, c) implies s[i] != c by {
            if i > 0 {
                assert(s[i] == s.drop_first()[i - 1]);
            }
        }
    }
}

/// Extraction degrades instead of failing: without a title element the
/// title is "Untitled"; without any qualifying paragraph the body text is
/// the flattened page cut to 2,000 characters, non-empty whenever that page
/// renders to any text; and the body text never exceeds 50,000 characters.
pub proof fn lemma_extraction_degrades(markup: Seq<char>)
    ensures
        selected_texts(markup, TITLE_SELECTOR@).len() == 0 ==> title_of(markup) == UNTITLED@,
        paragraphs_from(markup, 0).len() == 0 ==> content_of(markup) == take_chars(
            flattened_text(markup),
            FALLBACK_BUDGET as nat,
        ) && content_of(markup).len() <= FALLBACK_BUDGET,
        paragraphs_from(markup, 0).len() == 0 && flattened_text(markup).len() > 0 ==> content_of(
            markup,
        ).len() > 0,
        content_of(markup).len() <= CONTENT_BUDGET,
{
    reveal_strlit("Untitled");
    let u = UNTITLED@;
    assert(!is_ws(u[0]));
    assert(trim_start(u) == u);
    assert(!is_ws(u.last()));
    assert(trim_end(u) == u);
}

/// Every extracted link is an http or https address without a fragment.
pub proof fn lemma_links_are_web_addresses(base: Seq<char>, hrefs: Seq<Option<Seq<char>>>)
    ensures
        forall|k: int|
            0 <= k < links_from(base, hrefs).len() ==> is_web_url(#[trigger] links_from(base, hrefs)[k])
                && !links_from(base, hrefs)[k].contains('#'),
    decreases hrefs.len(),
{
    if hrefs.len() > 0 {
        lemma_links_are_web_addresses(base, hrefs.drop_last());
        let prev = links_from(base, hrefs.drop_last());
        let cur = links_from(base, hrefs);
        match hrefs.last() {
            Some(h) => match joined_url(base, h) {
                Some(u) => if is_web_url(u) {
                    lemma_first_index(u, '#');
                    let w = without_fragment(u);
                    assert(cur == prev.push(w));
                    let fi = first_index(u, '#') as int;
                    assert(fi >= 5) by {
                        if fi < 5 {
                            assert(u[fi] == '#');
                        }
                    }
                    if u[4] == 's' {
                        assert(fi >= 6) by {
                            if fi < 6 {
                                assert(u[fi] == '#');
                            }
                        }
                    }
                    assert(is_web_url(w));
                    assert(!w.contains('#'));
                    assert forall|k: int| 0 <= k < cur.len() implies is_web_url(#[trigger] cur[k])
                        && !cur[k].contains('#') by {
                        if k < prev.len() {
                            assert(cur[k] == prev[k]);
                        }
                    }
                },
                None => {},
            },
            None => {},
        }
    }
}

} // verus!
