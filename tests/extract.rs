use crawler::document::{document_id, Document};
use crawler::extract::{ExtractError, Parser};
use crawler::text::{count_words, strip_bracketed, trim_chars};

const PARA: &str = "The quick brown fox jumps over the lazy dog again and again in the sunny meadow today.";

fn chars(s: &str) -> Vec<char> {
    s.chars().collect()
}

fn text(v: &[char]) -> String {
    v.iter().collect()
}

#[test]
fn missing_title_reads_untitled() {
    let p = Parser::new().parse("<html><body><p>hi</p></body></html>", "https://s.com/").unwrap();
    assert_eq!(p.title, "Untitled");
}

#[test]
fn title_is_trimmed() {
    let p = Parser::new().parse("<html><head><title>  Hello  </title></head></html>", "https://s.com/").unwrap();
    assert_eq!(p.title, "Hello");
}

#[test]
fn fallback_body_is_flattened_and_bounded() {
    let mut body = String::from("<html><body><div>");
    for _ in 0..400 {
        body.push_str("word ");
    }
    body.push_str("</div></body></html>");
    let p = Parser::new().parse(&body, "https://s.com/").unwrap();
    assert!(!p.content.is_empty());
    assert!(p.content.chars().count() <= 2000);
    assert!(p.content.contains("word"));
}

#[test]
fn mailto_links_are_excluded() {
    let html = "<a href=\"mailto:a@b.com\">m</a><a href=\"/x#frag\">x</a>";
    let p = Parser::new().parse(html, "https://s.com/").unwrap();
    assert_eq!(p.links, vec!["https://s.com/x".to_string()]);
}

#[test]
fn invalid_base_is_an_error() {
    let r = Parser::new().parse("<p>x</p>", "not a url");
    assert!(matches!(r, Err(ExtractError::InvalidBaseUrl)));
}

#[test]
fn site_name_fallback_chain() {
    let p = Parser::new().parse("<meta property='og:site_name' content=' OG '>", "https://s.com/").unwrap();
    assert_eq!(p.name, "OG");
    let p = Parser::new().parse("<meta itemprop='name' content='Item'>", "https://s.com/").unwrap();
    assert_eq!(p.name, "Item");
    let p = Parser::new().parse("<p>x</p>", "https://host.example/a").unwrap();
    assert_eq!(p.name, "host.example");
    let p = Parser::new().parse("<p>x</p>", "data:text/plain,hello").unwrap();
    assert_eq!(p.name, "Unknown Site");
}

#[test]
fn description_skips_empty_tags() {
    let html = "<meta name='description' content='   '><meta property='og:description' content=' Good '>";
    let p = Parser::new().parse(html, "https://s.com/").unwrap();
    assert_eq!(p.description, "Good");
    let p = Parser::new().parse("<p>x</p>", "https://s.com/").unwrap();
    assert_eq!(p.description, "");
}

#[test]
fn icon_resolves_or_defaults() {
    let p = Parser::new().parse("<link rel='icon' href='/i.png'>", "https://s.com/a/b").unwrap();
    assert_eq!(p.icon, "https://s.com/i.png");
    let p = Parser::new().parse("<p>x</p>", "https://s.com/a/b").unwrap();
    assert_eq!(p.icon, "https://s.com/favicon.ico");
}

#[test]
fn paragraphs_are_cleaned_and_joined() {
    let html = format!(
        "<article><p>{} [1]</p><p>short</p><p>a | b | c d e f g h i j k l m n o p q r s t u v w x y z</p><p>{}</p></article><p>{} other</p>",
        PARA, PARA, PARA
    );
    let p = Parser::new().parse(&html, "https://s.com/").unwrap();
    assert_eq!(p.content, format!("{} {}", PARA, PARA));
}

#[test]
fn at_most_five_paragraphs() {
    let mut html = String::new();
    for _ in 0..7 {
        html.push_str(&format!("<p>{}</p>", PARA));
    }
    let p = Parser::new().parse(&html, "https://s.com/").unwrap();
    assert_eq!(p.content.len(), 5 * PARA.len() + 4);
}

#[test]
fn brackets_are_stripped() {
    assert_eq!(text(&strip_bracketed(&chars("a[1]b[edit]c"))), "abc");
    assert_eq!(text(&strip_bracketed(&chars("a[b"))), "a[b");
    assert_eq!(text(&strip_bracketed(&chars("x]y[z]"))), "x]y");
}

#[test]
fn trim_and_word_count() {
    assert_eq!(text(&trim_chars(&chars(" \t hi there \n"))), "hi there");
    assert_eq!(count_words(&chars("  one two\tthree  ")), 3);
    assert_eq!(count_words(&chars("")), 0);
}

#[test]
fn document_id_is_sha256_hex() {
    assert_eq!(
        document_id("abc"),
        "ba7816bf8f01cfea414140de5dae2223b00361a396177a9cb410ff61f20015ad"
    );
    let id = document_id("https://example.com/");
    assert_eq!(id.len(), 64);
    assert!(id.chars().all(|c| c.is_ascii_digit() || ('a'..='f').contains(&c)));
    assert_eq!(id, document_id("https://example.com/"));
}

#[test]
fn document_description_falls_back_to_body() {
    let p = Parser::new().parse(&format!("<p>{}</p>", PARA), "https://s.com/").unwrap();
    let d = Document::from_parsed("https://s.com/", &p, "t".to_string());
    assert_eq!(d.description, PARA);
    assert_eq!(d.id, document_id("https://s.com/"));
    assert_eq!(d.url, "https://s.com/");
}
