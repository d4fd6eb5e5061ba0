use md_builder::cache::{
    is_fresh, locale_cache_rel_path, meta_path_for, normalize_style_name, plan_cache_read,
    style_cache_rel_path, CachePlan, DEFAULT_CACHE_TTL_SECS,
};
use md_builder::incremental::{
    decide_task, run_succeeds, should_process_file, sort_summaries, ProcessingStats, TaskPlan,
};
use md_builder::post::{Post, PostSummary};

fn post(slug: &str) -> Post {
    Post {
        title: "T".to_owned(),
        date: 0,
        slug: slug.to_owned(),
        content: "<p>x</p>".to_owned(),
        description: None,
        tags: Vec::new(),
        cover: None,
    }
}

fn summary(slug: &str, date: i64) -> PostSummary {
    PostSummary {
        title: slug.to_owned(),
        date,
        slug: slug.to_owned(),
        description: None,
        tags: Vec::new(),
        cover: None,
    }
}

#[test]
fn forced_rebuild_is_always_stale() {
    assert!(should_process_file(true, Some(100), 1));
}

#[test]
fn missing_output_is_stale() {
    assert!(should_process_file(false, None, 1));
}

#[test]
fn source_newer_than_output_is_stale() {
    // staleness: touching the source newer than its output forces processing
    assert!(should_process_file(false, Some(100), 200));
    assert!(should_process_file(false, Some(100), 100));
}

#[test]
fn fresh_output_is_skipped() {
    assert!(!should_process_file(false, Some(200), 100));
}

#[test]
fn unchanged_source_reuses_existing_output() {
    // idempotence: second run over an unchanged source reuses the output
    let needs = should_process_file(false, Some(200), 100);
    match decide_task(needs, Some(post("a"))) {
        TaskPlan::Reuse(p) => assert_eq!(p.slug, "a"),
        TaskPlan::Reprocess => panic!("fresh readable output must be reused"),
    }
}

#[test]
fn corrupted_output_is_reprocessed() {
    // a fresh but unparseable output self-heals by reprocessing
    let needs = should_process_file(false, Some(200), 100);
    assert!(matches!(decide_task(needs, None), TaskPlan::Reprocess));
}

#[test]
fn index_is_sorted_by_date_descending() {
    let jan = 1704067200; // 2024-01-01
    let feb = 1706745600; // 2024-02-01
    let mar = 1709251200; // 2024-03-01
    let sorted = sort_summaries(vec![summary("jan", jan), summary("mar", mar), summary(
        "feb", feb,
    )]);
    let slugs: Vec<&str> = sorted.iter().map(|p| p.slug.as_str()).collect();
    assert_eq!(slugs, vec!["mar", "feb", "jan"]);
}

#[test]
fn index_sort_is_stable_for_equal_dates() {
    let sorted = sort_summaries(vec![
        summary("first", 5),
        summary("second", 5),
        summary("newest", 9),
        summary("third", 5),
    ]);
    let slugs: Vec<&str> = sorted.iter().map(|p| p.slug.as_str()).collect();
    assert_eq!(slugs, vec!["newest", "first", "second", "third"]);
}

#[test]
fn stats_count_processed_and_skipped() {
    let mut stats = ProcessingStats::new();
    stats.record(true);
    stats.record(false);
    stats.record(true);
    assert_eq!(stats.processed, 2);
    assert_eq!(stats.skipped, 1);
}

#[test]
fn run_fails_only_when_everything_failed() {
    assert!(run_succeeds(3, 0));
    assert!(run_succeeds(2, 1));
    assert!(!run_succeeds(0, 4));
    assert!(run_succeeds(0, 0));
}

#[test]
fn cache_ttl_decides_freshness() {
    // a resource younger than the time-to-live is served from the cache
    assert!(is_fresh(1000, 900, DEFAULT_CACHE_TTL_SECS));
    assert_eq!(
        plan_cache_read(Some(900), true, 1000, 3600),
        CachePlan::UseCached
    );
    // one at or past the time-to-live triggers a fetch
    assert!(!is_fresh(5000, 1000, 4000));
    assert_eq!(plan_cache_read(Some(1000), true, 5000, 4000), CachePlan::Refetch);
}

#[test]
fn cache_read_needs_metadata_and_payload() {
    assert_eq!(plan_cache_read(None, true, 10, 100), CachePlan::Refetch);
    assert_eq!(plan_cache_read(Some(5), false, 10, 100), CachePlan::Refetch);
}

#[test]
fn style_names_are_normalized() {
    assert_eq!(normalize_style_name("apa-6th-edition"), "apa-6th-edition.csl");
    assert_eq!(normalize_style_name("apa-6th-edition.csl"), "apa-6th-edition.csl");
    assert_eq!(style_cache_rel_path("apa"), "styles/apa.csl");
    assert_eq!(locale_cache_rel_path("en-US"), "locales/en-US.xml");
}

#[test]
fn metadata_path_replaces_the_extension() {
    assert_eq!(meta_path_for("locales/en-US.xml"), "locales/en-US.meta");
    assert_eq!(meta_path_for("styles/apa.csl"), "styles/apa.meta");
    assert_eq!(meta_path_for("styles-list"), "styles-list.meta");
}
