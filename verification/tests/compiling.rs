use sinter::compile::{compile, stale_paths, BuildError, FileWrite, SourceDoc};
use sinter::order::sort_posts;
use sinter::paginate::paginate;
use sinter::post::{make_post, Category};
use sinter::render::escape_html;
use sinter::site::parse_config;

fn source(path: &str, text: &str) -> SourceDoc {
    SourceDoc { path: path.as_bytes().to_vec(), bytes: text.as_bytes().to_vec() }
}

fn contains_bytes(haystack: &[u8], needle: &[u8]) -> bool {
    haystack.windows(needle.len()).any(|w| w == needle)
}

fn find_write<'a>(writes: &'a [FileWrite], path: &str) -> Option<&'a FileWrite> {
    writes.iter().find(|w| w.path == path.as_bytes())
}

#[test]
fn three_posts_at_page_size_two() {
    // Three valid documents at pagination size 2: page 1 holds two items
    // (has_next, no has_previous), page 2 holds one (has_previous, no
    // has_next), and the site metadata counts two pages.
    let posts = vec![
        source("posts/a.md", "---\ntitle: A\npublish_date: 2024-01-01\n---\naaa"),
        source("posts/b.md", "---\ntitle: B\npublish_date: 2024-01-02\n---\nbbb"),
        source("posts/c.md", "---\ntitle: C\npublish_date: 2024-01-03\n---\nccc"),
    ];
    let archives = Vec::new();
    let cfg = parse_config(b"pagination_size: 2\n");
    let writes = compile(&posts, &archives, &cfg).expect("three valid documents");

    let p1 = find_write(&writes, "pages/page_1.json").expect("first page planned");
    let p2 = find_write(&writes, "pages/page_2.json").expect("second page planned");
    assert!(find_write(&writes, "pages/page_3.json").is_none());
    assert!(contains_bytes(&p1.contents, b"\"has_next\":true"));
    assert!(contains_bytes(&p1.contents, b"\"has_previous\":false"));
    assert!(contains_bytes(&p2.contents, b"\"has_next\":false"));
    assert!(contains_bytes(&p2.contents, b"\"has_previous\":true"));
    // Two items on page one (slugs c and b, newest first), one on page two.
    assert!(contains_bytes(&p1.contents, b"\"slug\":\"c\""));
    assert!(contains_bytes(&p1.contents, b"\"slug\":\"b\""));
    assert!(!contains_bytes(&p1.contents, b"\"slug\":\"a\""));
    assert!(contains_bytes(&p2.contents, b"\"slug\":\"a\""));

    let meta = find_write(&writes, "site_data.json").expect("site metadata planned");
    assert!(contains_bytes(&meta.contents, b"\"total_pages\":2"));
    assert!(contains_bytes(&meta.contents, b"\"total_posts\":3"));
    assert!(contains_bytes(&meta.contents, b"\"total_archive_pages\":1"));

    // Every post gets its own file.
    assert!(find_write(&writes, "posts/a.json").is_some());
    assert!(find_write(&writes, "posts/b.json").is_some());
    assert!(find_write(&writes, "posts/c.json").is_some());
}

#[test]
fn compiling_twice_is_byte_identical() {
    // Recompiling unchanged inputs plans byte-identical output files.
    let mk = || {
        let posts = vec![
            source("posts/x.md", "---\ntitle: X\npublish_date: 2023-05-05\ntags: a,b\n---\nxx"),
            source("posts/y.md", "---\ntitle: Y\npublish_date: 2023-05-06\n---\nyy"),
        ];
        let archives = vec![source(
            "archives/old.md",
            "---\ntitle: Old\npublish_date: 2020-01-01\n---\nold",
        )];
        let cfg = parse_config(b"site_title: S\npagination_size: 3\n");
        compile(&posts, &archives, &cfg).expect("valid inputs")
    };
    let first = mk();
    let second = mk();
    assert_eq!(first.len(), second.len());
    for (a, b) in first.iter().zip(second.iter()) {
        assert_eq!(a.path, b.path);
        assert_eq!(a.contents, b.contents);
    }
}

#[test]
fn pagination_counts_cover_all_posts() {
    // total_pages == max(1, ceil(c / p)) and the page items sum to c.
    for (count, size, expect_pages) in
        [(0usize, 3usize, 1usize), (1, 3, 1), (3, 3, 1), (4, 3, 2), (7, 2, 4)]
    {
        let mut posts = Vec::new();
        for i in 0..count {
            let text =
                format!("---\ntitle: T{}\npublish_date: 2024-03-{:02}\n---\nbody", i, i + 1);
            let path = format!("posts/p{}.md", i);
            posts.push(
                make_post(path.as_bytes(), text.as_bytes(), Category::Post, 200).unwrap(),
            );
        }
        let sorted = sort_posts(posts);
        let pages = paginate(&sorted, size);
        assert_eq!(pages.len(), expect_pages);
        let total: usize = pages.iter().map(|p| p.items.len()).sum();
        assert_eq!(total, count);
        for (k, page) in pages.iter().enumerate() {
            assert_eq!(page.page_number, k + 1);
            assert_eq!(page.total_pages, expect_pages);
            assert_eq!(page.has_previous, k > 0);
            assert_eq!(page.has_next, k + 1 < expect_pages);
        }
    }
}

#[test]
fn ordering_is_newest_first_with_slug_ties() {
    let posts = vec![
        make_post(
            b"posts/beta.md",
            b"---\ntitle: B\npublish_date: 2024-06-01\n---\n.",
            Category::Post,
            200,
        )
        .unwrap(),
        make_post(
            b"posts/alpha.md",
            b"---\ntitle: A\npublish_date: 2024-06-01\n---\n.",
            Category::Post,
            200,
        )
        .unwrap(),
        make_post(
            b"posts/newest.md",
            b"---\ntitle: N\npublish_date: 2024-07-01\n---\n.",
            Category::Post,
            200,
        )
        .unwrap(),
        make_post(
            b"posts/oldest.md",
            b"---\ntitle: O\npublish_date: 2023-01-01\n---\n.",
            Category::Post,
            200,
        )
        .unwrap(),
    ];
    let sorted = sort_posts(posts);
    let slugs: Vec<Vec<u8>> = sorted.iter().map(|p| p.slug.clone()).collect();
    assert_eq!(
        slugs,
        vec![b"newest".to_vec(), b"alpha".to_vec(), b"beta".to_vec(), b"oldest".to_vec()]
    );
}

#[test]
fn slug_collision_aborts_the_build() {
    // Two documents resolving to one slug fail the build with a collision
    // error naming both source paths; no output plan exists.
    let posts = vec![
        source("posts/one.md", "---\ntitle: One\nslug: same\npublish_date: 2024-01-01\n---\n."),
        source("posts/two.md", "---\ntitle: Two\nslug: same\npublish_date: 2024-02-01\n---\n."),
    ];
    let cfg = parse_config(b"");
    match compile(&posts, &Vec::new(), &cfg) {
        Err(BuildError::Collision(e)) => {
            assert_eq!(e.slug, b"same".to_vec());
            assert_eq!(e.first_path, b"posts/one.md".to_vec());
            assert_eq!(e.second_path, b"posts/two.md".to_vec());
        }
        other => panic!("expected a collision error, got {:?}", other.is_ok()),
    }
}

#[test]
fn same_slug_across_categories_is_legal() {
    let posts = vec![source(
        "posts/news.md",
        "---\ntitle: News\npublish_date: 2024-01-01\n---\n.",
    )];
    let archives = vec![source(
        "archives/news.md",
        "---\ntitle: Old News\npublish_date: 2020-01-01\n---\n.",
    )];
    let cfg = parse_config(b"");
    let writes = compile(&posts, &archives, &cfg).expect("distinct namespaces");
    assert!(find_write(&writes, "posts/news.json").is_some());
    assert!(find_write(&writes, "archives/news.json").is_some());
}

#[test]
fn parse_failure_aborts_the_build_naming_the_file() {
    // A document missing its publish date aborts the whole build with a
    // parse error naming that file, and no output plan is produced.
    let posts = vec![
        source("posts/good.md", "---\ntitle: Good\npublish_date: 2024-01-01\n---\n."),
        source("posts/bad.md", "---\ntitle: Bad\n---\n."),
    ];
    let cfg = parse_config(b"");
    match compile(&posts, &Vec::new(), &cfg) {
        Err(BuildError::Parse { path, reason }) => {
            assert_eq!(path, b"posts/bad.md".to_vec());
            assert_eq!(reason, sinter::front_matter::ParseReason::MissingPublishDate);
        }
        _ => panic!("expected a parse error"),
    }
}

#[test]
fn explicit_slug_beats_filename() {
    let p = make_post(
        b"posts/Some File.md",
        b"---\ntitle: T\nslug: chosen\npublish_date: 2024-01-01\n---\n.",
        Category::Post,
        200,
    )
    .unwrap();
    assert_eq!(p.slug, b"chosen".to_vec());
    let q = make_post(
        b"posts/Some File.md",
        b"---\ntitle: T\npublish_date: 2024-01-01\n---\n.",
        Category::Post,
        200,
    )
    .unwrap();
    assert_eq!(q.slug, b"some-file".to_vec());
}

#[test]
fn body_is_escaped_and_excerpt_derived() {
    let p = make_post(
        b"posts/esc.md",
        b"---\ntitle: E\npublish_date: 2024-01-01\n---\n<script>1 & 2</script>",
        Category::Post,
        200,
    )
    .unwrap();
    assert_eq!(
        p.rendered_body,
        b"&lt;script&gt;1 &amp; 2&lt;/script&gt;".to_vec()
    );
    // No summary: the excerpt comes from the body.
    assert_eq!(p.excerpt, p.rendered_body);

    // A long body is cut to the configured excerpt length before escaping.
    let long_body = vec![b'x'; 500];
    let mut text = b"---\ntitle: L\npublish_date: 2024-01-01\n---\n".to_vec();
    text.extend_from_slice(&long_body);
    let q = make_post(b"posts/long.md", &text, Category::Post, 10).unwrap();
    assert_eq!(q.excerpt, vec![b'x'; 10]);

    // An explicit summary wins over the body.
    let r = make_post(
        b"posts/sum.md",
        b"---\ntitle: S\npublish_date: 2024-01-01\nsummary: short & sweet\n---\nlong body",
        Category::Post,
        200,
    )
    .unwrap();
    assert_eq!(r.excerpt, b"short &amp; sweet".to_vec());
}

#[test]
fn escape_covers_all_special_bytes() {
    assert_eq!(
        escape_html(b"<a href=\"x\">'&'</a>"),
        b"&lt;a href=&quot;x&quot;&gt;&#39;&amp;&#39;&lt;/a&gt;".to_vec()
    );
}

#[test]
fn stale_files_are_pruned_by_set_difference() {
    let posts = vec![source(
        "posts/kept.md",
        "---\ntitle: K\npublish_date: 2024-01-01\n---\n.",
    )];
    let cfg = parse_config(b"");
    let writes = compile(&posts, &Vec::new(), &cfg).unwrap();
    let previous = vec![
        b"posts/kept.json".to_vec(),
        b"posts/removed.json".to_vec(),
        b"pages/page_1.json".to_vec(),
        b"pages/page_9.json".to_vec(),
    ];
    let stale = stale_paths(&previous, &writes);
    assert_eq!(stale, vec![b"posts/removed.json".to_vec(), b"pages/page_9.json".to_vec()]);
}
