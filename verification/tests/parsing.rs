use sinter::date::{parse_date, render_date, Date};
use sinter::front_matter::{parse_document, ParseReason};
use sinter::site::parse_config;
use sinter::text::{slugify, trim_bytes};

fn doc(s: &str) -> Vec<u8> {
    s.as_bytes().to_vec()
}

#[test]
fn slug_of_spaced_filename() {
    // A document with no explicit slug and file stem `My First Post`
    // normalizes to `my-first-post`.
    assert_eq!(slugify(b"My First Post"), b"my-first-post".to_vec());
}

#[test]
fn slug_collapses_and_trims_separators() {
    assert_eq!(slugify(b"  Hello,   World! "), b"hello-world".to_vec());
    assert_eq!(slugify(b"!!!"), Vec::<u8>::new());
    assert_eq!(slugify(b""), Vec::<u8>::new());
    assert_eq!(slugify(b"Rust2024"), b"rust2024".to_vec());
    assert_eq!(slugify(b"a--b"), b"a-b".to_vec());
}

#[test]
fn trim_strips_spaces_tabs_and_cr() {
    assert_eq!(trim_bytes(b" \t hello \r"), b"hello".to_vec());
    assert_eq!(trim_bytes(b"   "), Vec::<u8>::new());
}

#[test]
fn date_parses_canonical_form() {
    let d = parse_date(b"2024-02-29").expect("leap day of a leap year");
    assert_eq!((d.year, d.month, d.day), (2024, 2, 29));
    assert_eq!(render_date(&d), b"2024-02-29".to_vec());
}

#[test]
fn date_rejects_bad_forms() {
    assert!(parse_date(b"2023-02-29").is_none()); // not a leap year
    assert!(parse_date(b"2023-13-01").is_none());
    assert!(parse_date(b"2023-00-10").is_none());
    assert!(parse_date(b"2023-1-01").is_none());
    assert!(parse_date(b"20230101").is_none());
    assert!(parse_date(b"2023/01/01").is_none());
    assert!(parse_date(b"0000-01-01").is_none());
}

#[test]
fn document_parses_fields_and_body() {
    let bytes = doc(
        "---\n\
         title: Hello World\n\
         publish_date: 2024-01-02\n\
         tags: Rust, web, rust , Tools\n\
         summary: A short one\n\
         author: Someone\n\
         ---\n\
         Body text here",
    );
    let (fm, body) = parse_document(&bytes).expect("well-formed document");
    assert_eq!(fm.title, b"Hello World".to_vec());
    assert_eq!((fm.publish_date.year, fm.publish_date.month, fm.publish_date.day), (2024, 1, 2));
    // Tags: trimmed, lower-cased, deduplicated, ascending.
    assert_eq!(
        fm.tags,
        vec![b"rust".to_vec(), b"tools".to_vec(), b"web".to_vec()]
    );
    assert_eq!(fm.summary, Some(b"A short one".to_vec()));
    assert_eq!(fm.extra, vec![(b"author".to_vec(), b"Someone".to_vec())]);
    assert_eq!(body, b"Body text here".to_vec());
}

#[test]
fn document_without_delimiter_is_rejected() {
    assert_eq!(
        parse_document(b"title: X\n"),
        Err(ParseReason::MissingDelimiter)
    );
}

#[test]
fn document_with_unterminated_block_is_rejected() {
    assert_eq!(
        parse_document(b"---\ntitle: X\npublish_date: 2024-01-01\n"),
        Err(ParseReason::UnterminatedFrontMatter)
    );
}

#[test]
fn document_with_malformed_line_is_rejected() {
    assert_eq!(
        parse_document(b"---\ntitle: X\nnot a pair\n---\n"),
        Err(ParseReason::MalformedLine)
    );
}

#[test]
fn document_without_title_is_rejected() {
    assert_eq!(
        parse_document(b"---\npublish_date: 2024-01-01\n---\n"),
        Err(ParseReason::MissingTitle)
    );
}

#[test]
fn document_without_publish_date_is_rejected() {
    // A source document missing `publish_date` is a parse failure.
    assert_eq!(
        parse_document(b"---\ntitle: X\n---\nbody"),
        Err(ParseReason::MissingPublishDate)
    );
}

#[test]
fn document_with_bad_date_is_rejected() {
    assert_eq!(
        parse_document(b"---\ntitle: X\npublish_date: yesterday\n---\n"),
        Err(ParseReason::BadDate)
    );
}

#[test]
fn first_occurrence_of_a_key_wins() {
    let bytes = doc("---\ntitle: First\ntitle: Second\npublish_date: 2024-01-01\n---\n");
    let (fm, _) = parse_document(&bytes).unwrap();
    assert_eq!(fm.title, b"First".to_vec());
}

#[test]
fn config_defaults_apply() {
    let cfg = parse_config(b"");
    assert_eq!(cfg.site_title, Vec::<u8>::new());
    assert_eq!(cfg.pagination_size, 10);
    assert_eq!(cfg.excerpt_length, 200);
    assert_eq!(cfg.theme_default, b"default".to_vec());
}

#[test]
fn config_reads_fields_and_rejects_bad_sizes() {
    let cfg = parse_config(
        b"site_title: My Site\nbase_url: https://example.org\npagination_size: 2\ntheme_default: dark\n",
    );
    assert_eq!(cfg.site_title, b"My Site".to_vec());
    assert_eq!(cfg.base_url, b"https://example.org".to_vec());
    assert_eq!(cfg.pagination_size, 2);
    assert_eq!(cfg.theme_default, b"dark".to_vec());
    let bad = parse_config(b"pagination_size: zero\nexcerpt_length: 0\n");
    assert_eq!(bad.pagination_size, 10);
    assert_eq!(bad.excerpt_length, 200);
}
