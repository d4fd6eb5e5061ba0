use md_builder::bib::{lib_len, lib_new};
use md_builder::config::{merge_zotero_env, CacheSettings, CitationSettings, Config, ImageSettings,
    ZoteroSettings};
use md_builder::zotero::{
    build_page_endpoint, build_single_fetch_endpoint, merge_bib_page, pagination_continues,
    parse_total_results, LibraryScope, PAGE_LIMIT,
};
use md_builder::BuildError;

#[test]
fn default_configuration_values() {
    let c = Config::default();
    assert_eq!(c.content_dir, "../content");
    assert_eq!(c.output_dir, "../src/assets/content");
    assert_eq!(c.public_dir, "../public");
    assert_eq!(c.citations.style, "apa-6th-edition.csl");
    assert_eq!(c.citations.language_code, "en-US");
    assert!(c.citations.bibliography_path.is_none());
    assert!(c.citations.zotero.is_none());
    assert_eq!(c.images.cover_width, 1200);
    assert_eq!(c.images.cover_height, 800);
    assert_eq!(c.images.thumbnail_width, 400);
    assert_eq!(c.images.thumbnail_height, 267);
    assert_eq!(c.images.filter_type, "Lanczos3");
    assert_eq!(c.cache.directory, ".cache");
    assert!(c.cache.enabled);
}

fn config_with_zotero(z: Option<ZoteroSettings>) -> Config {
    Config {
        content_dir: "c".to_owned(),
        output_dir: "o".to_owned(),
        public_dir: "p".to_owned(),
        citations: CitationSettings {
            style: "apa".to_owned(),
            language_code: "en-US".to_owned(),
            bibliography_path: None,
            zotero: z,
        },
        images: ImageSettings::default(),
        cache: CacheSettings::default(),
    }
}

#[test]
fn zotero_config_needs_key_and_user() {
    let full = config_with_zotero(Some(ZoteroSettings {
        api_key: Some("k".to_owned()),
        user_id: Some("u".to_owned()),
        collection_key: Some("c".to_owned()),
    }));
    let got = full.get_zotero_config().unwrap();
    assert_eq!(got.0, "k");
    assert_eq!(got.1, "u");
    assert_eq!(got.2.as_deref(), Some("c"));

    let missing_user = config_with_zotero(Some(ZoteroSettings {
        api_key: Some("k".to_owned()),
        user_id: None,
        collection_key: None,
    }));
    assert!(missing_user.get_zotero_config().is_none());
    assert!(config_with_zotero(None).get_zotero_config().is_none());
}

#[test]
fn environment_overrides_zotero_settings_field_by_field() {
    let merged = merge_zotero_env(
        Some(ZoteroSettings {
            api_key: Some("old-key".to_owned()),
            user_id: Some("old-user".to_owned()),
            collection_key: None,
        }),
        Some("new-key".to_owned()),
        None,
        Some("new-coll".to_owned()),
    )
    .unwrap();
    assert_eq!(merged.api_key.as_deref(), Some("new-key"));
    assert_eq!(merged.user_id.as_deref(), Some("old-user"));
    assert_eq!(merged.collection_key.as_deref(), Some("new-coll"));
}

#[test]
fn environment_creates_zotero_settings_only_when_complete() {
    let created = merge_zotero_env(None, Some("k".to_owned()), Some("u".to_owned()), None);
    assert!(created.is_some());
    let partial = merge_zotero_env(None, Some("k".to_owned()), None, None);
    assert!(partial.is_none());
}

#[test]
fn page_endpoints_carry_offset_and_limit() {
    assert_eq!(
        build_page_endpoint(LibraryScope::User, "1234", None, 0, 100),
        "https://api.zotero.org/users/1234/items?start=0&limit=100&format=bibtex"
    );
    assert_eq!(
        build_page_endpoint(LibraryScope::Group, "9", Some("COLL"), 200, 100),
        "https://api.zotero.org/groups/9/collections/COLL/items?start=200&limit=100&format=bibtex"
    );
    assert_eq!(
        build_single_fetch_endpoint(LibraryScope::User, "7", None),
        "https://api.zotero.org/users/7/items?format=biblatex&limit=100"
    );
}

#[test]
fn total_results_header_parses_or_defaults_to_zero() {
    assert_eq!(parse_total_results(Some("150")), 150);
    assert_eq!(parse_total_results(Some("garbage")), 0);
    assert_eq!(parse_total_results(None), 0);
}

#[test]
fn pagination_stops_at_the_total() {
    assert!(pagination_continues(100, 150));
    assert!(!pagination_continues(200, 150));
    assert!(!pagination_continues(100, 100));
}

fn biblatex_page(from: usize, count: usize) -> String {
    let mut body = String::new();
    for i in from..from + count {
        body.push_str(&format!(
            "@book{{key{}, title={{Title {}}}, author={{Author}}, year={{2020}}}}\n",
            i, i
        ));
    }
    body
}

#[test]
fn two_pages_merge_into_one_library_without_duplicates() {
    // a remote bibliography of 150 entries across two pages of 100 + 50
    let mut lib = lib_new();
    merge_bib_page(&mut lib, &biblatex_page(0, 100)).unwrap();
    assert_eq!(lib_len(&lib), 100);
    merge_bib_page(&mut lib, &biblatex_page(100, 50)).unwrap();
    assert_eq!(lib_len(&lib), 150);
}

#[test]
fn an_empty_page_is_skipped_without_error() {
    let mut lib = lib_new();
    merge_bib_page(&mut lib, "").unwrap();
    assert_eq!(lib_len(&lib), 0);
}

#[test]
fn a_page_that_does_not_parse_aborts_the_fetch() {
    let mut lib = lib_new();
    let e = merge_bib_page(&mut lib, "@book{broken").unwrap_err();
    assert_eq!(e, BuildError::BibliographyParse);
}

#[test]
fn overlapping_pages_keep_one_entry_per_key() {
    let mut lib = lib_new();
    merge_bib_page(&mut lib, &biblatex_page(0, 10)).unwrap();
    merge_bib_page(&mut lib, &biblatex_page(5, 10)).unwrap();
    assert_eq!(lib_len(&lib), 15);
}

#[test]
fn page_limit_matches_the_remote_page_size() {
    assert_eq!(PAGE_LIMIT, 100);
}

#[test]
fn error_messages_name_the_failure() {
    assert!(!BuildError::Fetch.message().is_empty());
    assert!(!BuildError::Metadata.message().is_empty());
}
