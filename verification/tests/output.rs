use sinter::date::Date;
use sinter::routes::{route_of, Route};
use sinter::json::{post_to_json, site_meta_to_json};
use sinter::post::{Category, Post};
use sinter::site::SiteMetaData;
use sinter::themes::{parse_registry, theme_css_path};

#[test]
fn post_json_spells_every_field() {
    let p = Post {
        slug: b"hello".to_vec(),
        title: b"Say \"hi\"".to_vec(),
        publish_date: Date { year: 2024, month: 1, day: 2 },
        tags: vec![b"a".to_vec(), b"b".to_vec()],
        excerpt: b"short".to_vec(),
        rendered_body: b"line1\nline2".to_vec(),
        category: Category::Post,
        source_path: b"posts/hello.md".to_vec(),
    };
    let expected = "{\"slug\":\"hello\",\"title\":\"Say \\\"hi\\\"\",\"publish_date\":\"2024-01-02\",\"tags\":[\"a\",\"b\"],\"excerpt\":\"short\",\"rendered_body\":\"line1\\nline2\",\"category\":\"post\"}";
    assert_eq!(post_to_json(&p), expected.as_bytes().to_vec());
}

#[test]
fn archive_category_and_empty_tags_serialize() {
    let p = Post {
        slug: b"old".to_vec(),
        title: b"Old".to_vec(),
        publish_date: Date { year: 1999, month: 12, day: 31 },
        tags: Vec::new(),
        excerpt: Vec::new(),
        rendered_body: Vec::new(),
        category: Category::Archive,
        source_path: b"archives/old.md".to_vec(),
    };
    let expected = "{\"slug\":\"old\",\"title\":\"Old\",\"publish_date\":\"1999-12-31\",\"tags\":[],\"excerpt\":\"\",\"rendered_body\":\"\",\"category\":\"archive\"}";
    assert_eq!(post_to_json(&p), expected.as_bytes().to_vec());
}

#[test]
fn site_meta_json_spells_every_field() {
    let m = SiteMetaData {
        site_title: b"My Site".to_vec(),
        description: b"About things".to_vec(),
        base_url: b"https://example.org".to_vec(),
        pagination_size: 10,
        total_posts: 3,
        total_pages: 2,
        total_archive_pages: 1,
        theme_default: b"default".to_vec(),
    };
    let expected = "{\"site_title\":\"My Site\",\"description\":\"About things\",\"base_url\":\"https://example.org\",\"pagination_size\":10,\"total_posts\":3,\"total_pages\":2,\"total_archive_pages\":1,\"theme_default\":\"default\"}";
    assert_eq!(site_meta_to_json(&m), expected.as_bytes().to_vec());
}

#[test]
fn registry_lists_themes_in_order_with_default_mark() {
    // A registry naming an existing theme and a missing one still parses
    // into both descriptors; skipping the one without assets is the
    // caller's non-fatal warning, never a build failure.
    let reg = parse_registry(
        b"# themes\n*default: themes/default/style.css\nghost: themes/ghost/style.css\n",
    );
    assert_eq!(reg.len(), 2);
    assert_eq!(reg[0].name, b"default".to_vec());
    assert_eq!(reg[0].asset_source_path, b"themes/default/style.css".to_vec());
    assert!(reg[0].is_default);
    assert_eq!(reg[1].name, b"ghost".to_vec());
    assert!(!reg[1].is_default);
}

#[test]
fn registry_keeps_first_entry_of_a_name() {
    let reg = parse_registry(b"dark: a.css\ndark: b.css\n\nlight: c.css");
    assert_eq!(reg.len(), 2);
    assert_eq!(reg[0].asset_source_path, b"a.css".to_vec());
    assert_eq!(reg[1].name, b"light".to_vec());
}

#[test]
fn theme_choice_prefers_a_remembered_registered_name() {
    let reg = parse_registry(b"*default: a.css
dark: b.css
");
    assert_eq!(
        sinter::themes::resolve_theme_choice(&reg, &Some(b"dark".to_vec()), b"default"),
        b"dark".to_vec()
    );
    assert_eq!(
        sinter::themes::resolve_theme_choice(&reg, &Some(b"missing".to_vec()), b"default"),
        b"default".to_vec()
    );
    assert_eq!(
        sinter::themes::resolve_theme_choice(&reg, &None, b"default"),
        b"default".to_vec()
    );
}

#[test]
fn loader_recognizes_content_files() {
    assert!(sinter::post::content_path(b"posts/hello.md"));
    assert!(sinter::post::content_path(b"a/b/c.markdown"));
    assert!(sinter::post::content_path(b"notes.txt"));
    assert!(!sinter::post::content_path(b"style.css"));
    assert!(!sinter::post::content_path(b"README"));
    assert!(!sinter::post::content_path(b"dir.md/file"));
}

#[test]
fn theme_bundle_path_is_name_slash_default_css() {
    assert_eq!(theme_css_path(b"default"), b"default/default.css".to_vec());
    assert_eq!(theme_css_path(b"ghost"), b"ghost/default.css".to_vec());
}

#[test]
fn routes_resolve_like_the_consumer_expects() {
    assert_eq!(route_of(b"/"), Route::Home);
    assert_eq!(route_of(b"/index.html"), Route::Home);
    assert_eq!(route_of(b"/archives"), Route::Archives);
    assert_eq!(route_of(b"/archives/"), Route::Archives);
    assert_eq!(route_of(b"/posts/my-post"), Route::Post(b"my-post".to_vec()));
    assert_eq!(route_of(b"/posts/my-post/"), Route::Post(b"my-post".to_vec()));
    assert_eq!(route_of(b"/posts/"), Route::NotFound);
    assert_eq!(
        route_of(b"/archives/posts/old-post"),
        Route::ArchivePost(b"old-post".to_vec())
    );
    assert_eq!(route_of(b"/archives/posts///"), Route::NotFound);
    assert_eq!(route_of(b"/elsewhere"), Route::NotFound);
}
