use md_builder::cache::{filter_styles, locale_from_cache, style_from_cache, StyleMetadata};
use md_builder::citations::{
    bibliography_is_yaml, parse_markdown_with_citations, CitationConfig,
};
use md_builder::document::build_post;
use md_builder::highlight::{parse_markdown_simple, render_code_block};
use syntect::parsing::SyntaxSet;
use md_builder::BuildError;

const STYLE: &str = r#"<?xml version="1.0" encoding="utf-8"?>
<style xmlns="http://purl.org/net/xbiblio/csl" class="in-text" version="1.0">
  <info>
    <title>Plain Title Style</title>
    <id>urn:plain-title-style</id>
  </info>
  <citation>
    <layout prefix="(" suffix=")">
      <text variable="title"/>
    </layout>
  </citation>
  <bibliography>
    <layout>
      <text variable="title"/>
    </layout>
  </bibliography>
</style>
"#;

const STYLE_NO_BIBLIOGRAPHY: &str = r#"<?xml version="1.0" encoding="utf-8"?>
<style xmlns="http://purl.org/net/xbiblio/csl" class="in-text" version="1.0">
  <info>
    <title>No List</title>
    <id>urn:no-list-style</id>
  </info>
  <citation>
    <layout prefix="(" suffix=")">
      <text variable="title"/>
    </layout>
  </citation>
</style>
"#;

const LOCALE: &str = r#"<?xml version="1.0" encoding="utf-8"?>
<locale xmlns="http://purl.org/net/xbiblio/csl" version="1.0" xml:lang="en-US">
  <terms>
    <term name="and">and</term>
  </terms>
</locale>
"#;

const BIB: &str = r#"doe2020:
  type: book
  title: Deep Thoughts
knuth:
  type: book
  title: The Art of Computer Programming
"#;

fn config() -> CitationConfig {
    CitationConfig::new(STYLE, LOCALE, BIB, true).unwrap()
}

#[test]
fn bibliography_format_follows_the_extension() {
    assert!(bibliography_is_yaml("refs.yml"));
    assert!(!bibliography_is_yaml("refs.bib"));
    assert!(!bibliography_is_yaml("refs"));
}

#[test]
fn invalid_style_is_a_style_error() {
    let e = CitationConfig::new("<not-a-style/>", LOCALE, BIB, true).unwrap_err();
    assert_eq!(e, BuildError::StyleParse);
}

#[test]
fn invalid_locale_is_a_locale_error() {
    let e = CitationConfig::new(STYLE, "<oops>", BIB, true).unwrap_err();
    assert_eq!(e, BuildError::LocaleParse);
}

#[test]
fn invalid_bibliography_is_a_bibliography_error() {
    let e = CitationConfig::new(STYLE, LOCALE, ": : :", true).unwrap_err();
    assert_eq!(e, BuildError::BibliographyParse);
}

#[test]
fn document_without_markers_renders_as_plain_markup() {
    // resolver output equals plain markup rendering: no placeholders, no references
    let cfg = config();
    let text = "# Heading\n\nJust *plain* text.\n";
    let res = parse_markdown_with_citations(text, &cfg).unwrap();
    assert_eq!(res.html_content, parse_markdown_simple(text));
    assert_eq!(res.references_html, "");
    assert!(!res.has_citations);
    assert!(!res.html_content.contains("CITATION_PLACEHOLDER"));
}

#[test]
fn known_keys_resolve_to_anchor_and_reference_entry() {
    let cfg = config();
    let res = parse_markdown_with_citations("As shown in @[doe2020].\n", &cfg).unwrap();
    assert!(res.has_citations);
    assert!(res.html_content.contains("href=\"#ref-doe2020\""));
    assert!(res.html_content.contains("class=\"citation\""));
    assert!(!res.html_content.contains("CITATION_PLACEHOLDER"));
    // the style renders the entry's title, which flows into both passes
    assert!(res.html_content.contains("Deep Thoughts"));
    assert!(res.references_html.contains("<div id=\"ref-doe2020\" class=\"reference-item\">"));
    assert!(res.references_html.contains("Deep Thoughts"));
    assert!(res.references_html.contains("<h2>References</h2>"));
}

#[test]
fn unknown_keys_degrade_to_visible_text_and_stay_out_of_references() {
    let cfg = config();
    let res =
        parse_markdown_with_citations("Real @[doe2020], fake @[missing2024].\n", &cfg).unwrap();
    assert!(res.has_citations);
    assert!(res.html_content.contains("[Unknown citation: missing2024]"));
    assert!(!res.references_html.contains("missing2024"));
    assert!(res.references_html.contains("id=\"ref-doe2020\""));
}

#[test]
fn only_unknown_keys_produce_no_reference_block() {
    let cfg = config();
    let res = parse_markdown_with_citations("Only @[nope] here.\n", &cfg).unwrap();
    assert!(!res.has_citations);
    assert_eq!(res.references_html, "");
    assert!(res.html_content.contains("[Unknown citation: nope]"));
}

#[test]
fn each_cited_key_appears_once_in_the_reference_list() {
    let cfg = config();
    let res = parse_markdown_with_citations(
        "See @[doe2020] and @[knuth], then @[doe2020] again.\n",
        &cfg,
    )
    .unwrap();
    assert_eq!(res.references_html.matches("id=\"ref-doe2020\"").count(), 1);
    assert_eq!(res.references_html.matches("id=\"ref-knuth\"").count(), 1);
}

#[test]
fn citing_without_a_reference_list_section_is_an_error() {
    let cfg = CitationConfig::new(STYLE_NO_BIBLIOGRAPHY, LOCALE, BIB, true).unwrap();
    let e = parse_markdown_with_citations("Cite @[doe2020].\n", &cfg).unwrap_err();
    assert_eq!(e, BuildError::StyleWithoutBibliography);
    // without citations the same style renders fine
    let ok = parse_markdown_with_citations("No markers.\n", &cfg).unwrap();
    assert!(!ok.has_citations);
}

#[test]
fn substitution_stays_out_of_code_spans() {
    let cfg = config();
    let res = parse_markdown_with_citations("Code: `@[doe2020]` stays.\n", &cfg).unwrap();
    // the marker resolves, but a code span is no raw text run, so the
    // placeholder is never replaced by markup there
    assert!(res.has_citations);
    assert!(res.html_content.contains("CITATION_PLACEHOLDER_doe2020"));
    assert!(!res.html_content.contains("href=\"#ref-doe2020\""));
}

#[test]
fn fresh_cached_style_is_served_and_stale_one_refetched() {
    let style = style_from_cache(Some(1000), Some(STYLE.to_owned()), 2000, 24 * 3600);
    assert!(style.is_some());
    let stale = style_from_cache(Some(1000), Some(STYLE.to_owned()), 1000 + 24 * 3600, 24 * 3600);
    assert!(stale.is_none());
    let garbage = style_from_cache(Some(1000), Some("junk".to_owned()), 2000, 24 * 3600);
    assert!(garbage.is_none());
}

#[test]
fn fresh_cached_locale_is_served_and_stale_one_refetched() {
    assert!(locale_from_cache(Some(1000), Some(LOCALE.to_owned()), 2000, 24 * 3600).is_some());
    assert!(
        locale_from_cache(Some(1000), Some(LOCALE.to_owned()), 1000 + 24 * 3600, 24 * 3600)
            .is_none()
    );
    assert!(locale_from_cache(None, Some(LOCALE.to_owned()), 2000, 24 * 3600).is_none());
}

#[test]
fn style_listing_filters_case_insensitively() {
    let styles = vec![
        StyleMetadata {
            name: "apa-6th-edition".to_owned(),
            title: "American Psychological Association".to_owned(),
            published: 0,
            is_dependent: None,
        },
        StyleMetadata {
            name: "ieee".to_owned(),
            title: "IEEE".to_owned(),
            published: 0,
            is_dependent: Some(false),
        },
    ];
    let hits = filter_styles(styles, "psychological");
    assert_eq!(hits.len(), 1);
    assert_eq!(hits[0].name, "apa-6th-edition");
}

#[test]
fn code_blocks_render_escaped_without_a_language() {
    let ss = SyntaxSet::load_defaults_newlines();
    let html = render_code_block(&ss, "", "a < b && c > d");
    assert_eq!(html, "<pre><code>a &lt; b &amp;&amp; c &gt; d</code></pre>");
}

#[test]
fn code_blocks_with_a_language_keep_the_language_class() {
    let ss = SyntaxSet::load_defaults_newlines();
    let html = render_code_block(&ss, "rust", "let x = 1;\n");
    assert!(html.starts_with("<pre class=\"highlight\"><code class=\"language-rust\">"));
    assert!(html.ends_with("</code></pre>"));
    // the highlighted body carries the source tokens through
    assert!(html.contains("let"));
}

#[test]
fn plain_markup_renders_headings() {
    assert_eq!(parse_markdown_simple("# Hi\n"), "<h1>Hi</h1>\n");
}

#[test]
fn build_post_fills_fields_from_metadata() {
    let ss = SyntaxSet::load_defaults_newlines();
    let content = "---\ntitle: My Post\ndate: 2024-01-01\ntags: a, b\ncover: pic.png\n---\nBody.\n";
    let (post, cover) = build_post("posts/my-post.md", content, &ss, None, 42).unwrap();
    assert_eq!(post.title, "My Post");
    assert_eq!(post.date, 1704067200);
    assert_eq!(post.slug, "my-post");
    assert_eq!(post.tags, vec!["a", "b"]);
    assert!(post.cover.is_none());
    assert_eq!(cover.as_deref(), Some("pic.png"));
    assert!(post.content.contains("Body."));
}

#[test]
fn build_post_defaults_title_and_date() {
    let ss = SyntaxSet::load_defaults_newlines();
    let (post, cover) = build_post("untitled.md", "Just text.\n", &ss, None, 1234).unwrap();
    assert_eq!(post.title, "Untitled");
    assert_eq!(post.date, 1234);
    assert!(post.tags.is_empty());
    assert!(cover.is_none());
}

#[test]
fn build_post_with_citations_appends_the_reference_list() {
    let ss = SyntaxSet::load_defaults_newlines();
    let cfg = config();
    let content = "---\ntitle: Cited\ndate: 2024-01-01\n---\nSee @[doe2020].\n";
    let (post, _) = build_post("cited.md", content, &ss, Some(&cfg), 0).unwrap();
    assert!(post.content.contains("href=\"#ref-doe2020\""));
    assert!(post.content.contains("id=\"ref-doe2020\""));
}
