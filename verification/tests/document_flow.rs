use md_builder::citations::CitationResult;
use md_builder::document::{check_image_needs_processing, make_task, parse_metadata_and_content};
use md_builder::highlight::parse_markdown_with_highlighting;
use md_builder::incremental::build_index;
use md_builder::post::PostSummary;
use md_builder::BuildError;
use syntect::parsing::SyntaxSet;

#[test]
fn tasks_pair_sources_with_slugged_outputs() {
    let t = make_task("content/posts/hello-world.md", "out");
    assert_eq!(t.source_path, "content/posts/hello-world.md");
    assert_eq!(t.output_path, "out/hello-world.json");
}

#[test]
fn cover_processing_is_skipped_only_when_all_outputs_are_fresh() {
    assert!(!check_image_needs_processing(10, Some(20), Some(20), Some(20)));
    assert!(check_image_needs_processing(10, None, Some(20), Some(20)));
    assert!(check_image_needs_processing(10, Some(20), Some(5), Some(20)));
    assert!(check_image_needs_processing(30, Some(20), Some(20), Some(20)));
}

#[test]
fn metadata_and_content_split_a_document() {
    let ss = SyntaxSet::load_defaults_newlines();
    let (meta, html) = parse_metadata_and_content(
        "---\ntitle: Doc\ndate: 2024-01-01\n---\n# Body\n",
        &ss,
    )
    .unwrap();
    assert_eq!(meta.title.as_deref(), Some("Doc"));
    assert_eq!(meta.date, Some(1704067200));
    assert!(html.contains("<h1>Body</h1>"));
    assert!(!html.contains("title: Doc"));
}

#[test]
fn malformed_metadata_is_reported() {
    let ss = SyntaxSet::load_defaults_newlines();
    let e = parse_metadata_and_content("---\nbroken\n---\nBody\n", &ss).unwrap_err();
    assert_eq!(e, BuildError::Metadata);
}

#[test]
fn highlighting_renders_fenced_code_blocks() {
    let ss = SyntaxSet::load_defaults_newlines();
    let html = parse_markdown_with_highlighting(
        "Before\n\n```rust\nlet x = 1;\n```\n\nAfter\n",
        &ss,
    );
    assert!(html.contains("<pre class=\"highlight\"><code class=\"language-rust\">"));
    assert!(html.contains("<p>Before</p>"));
    assert!(html.contains("<p>After</p>"));
}

#[test]
fn highlighting_escapes_inline_code() {
    let ss = SyntaxSet::load_defaults_newlines();
    let html = parse_markdown_with_highlighting("Use `a<b` here.\n", &ss);
    assert!(html.contains("<code>a&lt;b</code>"));
}

#[test]
fn code_free_documents_render_as_plain_markup() {
    let ss = SyntaxSet::load_defaults_newlines();
    let text = "# Title\n\nSome *plain* prose.\n";
    assert_eq!(
        parse_markdown_with_highlighting(text, &ss),
        md_builder::highlight::parse_markdown_simple(text)
    );
}

#[test]
fn code_blocks_survive_an_empty_syntax_set() {
    // a set without even a plain-text syntax falls back to escaped code
    let ss = SyntaxSet::new();
    let html = md_builder::highlight::render_code_block(&ss, "rust", "a<b");
    assert_eq!(
        html,
        "<pre class=\"highlight\"><code class=\"language-rust\">a&lt;b</code></pre>"
    );
}

#[test]
fn empty_citation_result_by_default() {
    let r = CitationResult::default();
    assert_eq!(r.html_content, "");
    assert_eq!(r.references_html, "");
    assert!(!r.has_citations);
}

#[test]
fn index_aggregates_in_date_order() {
    let mk = |slug: &str, date: i64| PostSummary {
        title: slug.to_owned(),
        date,
        slug: slug.to_owned(),
        description: None,
        tags: Vec::new(),
        cover: None,
    };
    let index = build_index(vec![mk("a", 1), mk("b", 3), mk("c", 2)]);
    let slugs: Vec<&str> = index.posts.iter().map(|p| p.slug.as_str()).collect();
    assert_eq!(slugs, vec!["b", "c", "a"]);
}
