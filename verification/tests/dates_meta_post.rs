use md_builder::dates::parse_date_chars;
use md_builder::meta::{parse_metadata_block, split_front_matter};
use md_builder::post::{
    create_cover_image_paths, extension_of, get_filter_type, sanitize_filename, split_tags,
    FilterKind,
};
use md_builder::text::chars_of;
use md_builder::BuildError;

#[test]
fn dates_parse_to_epoch_seconds() {
    assert_eq!(parse_date_chars(&chars_of("1970-01-01")), Some(0));
    assert_eq!(parse_date_chars(&chars_of("2024-01-01")), Some(1704067200));
    assert_eq!(parse_date_chars(&chars_of("2024-02-01")), Some(1706745600));
    assert_eq!(parse_date_chars(&chars_of("2024-03-01")), Some(1709251200));
    assert_eq!(
        parse_date_chars(&chars_of("2024-03-01T12:30:05Z")),
        Some(1709251200 + 12 * 3600 + 30 * 60 + 5)
    );
}

#[test]
fn bad_dates_are_rejected() {
    assert_eq!(parse_date_chars(&chars_of("2024-13-01")), None);
    assert_eq!(parse_date_chars(&chars_of("2024-02-30")), None);
    assert_eq!(parse_date_chars(&chars_of("2023-02-29")), None);
    assert_eq!(parse_date_chars(&chars_of("2024-2-1")), None);
    assert_eq!(parse_date_chars(&chars_of("not a date")), None);
    assert_eq!(parse_date_chars(&chars_of("2024-03-01T25:00:00Z")), None);
}

#[test]
fn leap_day_parses_in_leap_years() {
    // 2024-02-29 = 2024-02-01 + 28 days
    assert_eq!(
        parse_date_chars(&chars_of("2024-02-29")),
        Some(1706745600 + 28 * 86400)
    );
}

#[test]
fn front_matter_splits_off() {
    let (meta, body) = split_front_matter("---\ntitle: Hi\ndate: 2024-01-01\n---\nBody text\n");
    assert_eq!(meta.as_deref(), Some("title: Hi\ndate: 2024-01-01"));
    assert_eq!(body, "Body text\n");
}

#[test]
fn document_without_front_matter_is_all_body() {
    let (meta, body) = split_front_matter("Just a paragraph.");
    assert!(meta.is_none());
    assert_eq!(body, "Just a paragraph.");
}

#[test]
fn unterminated_front_matter_is_all_body() {
    let text = "---\ntitle: Hi\nno closing line";
    let (meta, body) = split_front_matter(text);
    assert!(meta.is_none());
    assert_eq!(body, text);
}

#[test]
fn metadata_fields_parse() {
    let m = parse_metadata_block(
        "title: \"A Post\"\ndate: 2024-01-01\ndescription: About things\ntags: a, b , c\ncover: img.png",
    )
    .unwrap();
    assert_eq!(m.title.as_deref(), Some("A Post"));
    assert_eq!(m.date, Some(1704067200));
    assert_eq!(m.description.as_deref(), Some("About things"));
    assert_eq!(m.tags.as_deref(), Some("a, b , c"));
    assert_eq!(m.cover.as_deref(), Some("img.png"));
}

#[test]
fn metadata_last_value_wins_and_unknown_keys_are_ignored() {
    let m = parse_metadata_block("title: One\nauthor: X\ntitle: Two").unwrap();
    assert_eq!(m.title.as_deref(), Some("Two"));
}

#[test]
fn metadata_line_without_colon_is_an_error() {
    let e = parse_metadata_block("title: Ok\nbroken line").unwrap_err();
    assert_eq!(e, BuildError::Metadata);
}

#[test]
fn metadata_bad_date_is_an_error() {
    let e = parse_metadata_block("date: yesterday").unwrap_err();
    assert_eq!(e, BuildError::Metadata);
}

#[test]
fn tags_split_on_commas_and_trim() {
    let tags = split_tags("rust, formal methods ,  proofs");
    assert_eq!(tags, vec!["rust", "formal methods", "proofs"]);
    let with_empty = split_tags("a,,b");
    assert_eq!(with_empty, vec!["a", "", "b"]);
}

#[test]
fn slugs_come_from_file_stems() {
    assert_eq!(sanitize_filename("hello-world.md"), "hello-world");
    assert_eq!(sanitize_filename("posts/deep/dive.tar.gz"), "dive.tar");
    assert_eq!(sanitize_filename("noext"), "noext");
    assert_eq!(sanitize_filename(".hidden"), ".hidden");
}

#[test]
fn extensions_come_after_the_final_dot() {
    assert_eq!(extension_of("a/b/c.png").as_deref(), Some("png"));
    assert_eq!(extension_of("noext"), None);
    assert_eq!(extension_of(".hidden"), None);
}

#[test]
fn cover_image_paths_follow_the_naming_scheme() {
    let c = create_cover_image_paths("my-post", "photo.png");
    assert_eq!(c.original, "/images/blog/my-post-photo.png");
    assert_eq!(c.cover, "/images/blog/my-post-photo-cover.png");
    assert_eq!(c.thumbnail, "/images/blog/my-post-photo-thumb.png");
}

#[test]
fn cover_image_without_extension_defaults_to_jpg() {
    let c = create_cover_image_paths("p", "photo");
    assert_eq!(c.original, "/images/blog/p-photo.jpg");
}

#[test]
fn filter_names_map_to_filters() {
    assert_eq!(get_filter_type("Nearest"), FilterKind::Nearest);
    assert_eq!(get_filter_type("Triangle"), FilterKind::Triangle);
    assert_eq!(get_filter_type("CatmullRom"), FilterKind::CatmullRom);
    assert_eq!(get_filter_type("Gaussian"), FilterKind::Gaussian);
    assert_eq!(get_filter_type("Lanczos3"), FilterKind::Lanczos3);
    assert_eq!(get_filter_type("anything else"), FilterKind::Lanczos3);
}
