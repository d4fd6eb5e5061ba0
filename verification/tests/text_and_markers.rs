use md_builder::markers::{dedup_keys, substitute_markers};
use md_builder::text::{chars_of, parse_u32_dec, string_from_chars, u64_to_dec};

fn s(text: &str) -> Vec<char> {
    chars_of(text)
}

fn to_string(v: &Vec<char>) -> String {
    string_from_chars(v)
}

#[test]
fn decimal_formatting() {
    assert_eq!(to_string(&u64_to_dec(0)), "0");
    assert_eq!(to_string(&u64_to_dec(7)), "7");
    assert_eq!(to_string(&u64_to_dec(100)), "100");
    assert_eq!(to_string(&u64_to_dec(18446744073709551615)), "18446744073709551615");
}

#[test]
fn decimal_parsing() {
    assert_eq!(parse_u32_dec(&s("0")), Some(0));
    assert_eq!(parse_u32_dec(&s("100")), Some(100));
    assert_eq!(parse_u32_dec(&s("4294967295")), Some(4294967295));
    assert_eq!(parse_u32_dec(&s("4294967296")), None);
    assert_eq!(parse_u32_dec(&s("")), None);
    assert_eq!(parse_u32_dec(&s("12a")), None);
    assert_eq!(parse_u32_dec(&s("-1")), None);
}

#[test]
fn marker_known_key_becomes_placeholder() {
    let known = vec![s("doe2020")];
    let (out, hits) = substitute_markers(&s("See @[doe2020] here."), &known);
    assert_eq!(to_string(&out), "See CITATION_PLACEHOLDER_doe2020 here.");
    assert_eq!(hits.len(), 1);
    assert_eq!(to_string(&hits[0]), "doe2020");
}

#[test]
fn marker_unknown_key_becomes_visible_text() {
    let known = vec![s("doe2020")];
    let (out, hits) = substitute_markers(&s("See @[nope] here."), &known);
    assert_eq!(to_string(&out), "See [Unknown citation: nope] here.");
    assert_eq!(hits.len(), 0);
}

#[test]
fn marker_without_closing_bracket_is_plain_text() {
    let known = vec![s("a")];
    let (out, hits) = substitute_markers(&s("Broken @[a and more"), &known);
    assert_eq!(to_string(&out), "Broken @[a and more");
    assert_eq!(hits.len(), 0);
}

#[test]
fn marker_with_empty_key_is_plain_text() {
    let known: Vec<Vec<char>> = vec![];
    let (out, hits) = substitute_markers(&s("Odd @[] text"), &known);
    assert_eq!(to_string(&out), "Odd @[] text");
    assert_eq!(hits.len(), 0);
}

#[test]
fn markers_are_matched_left_to_right_without_overlap() {
    let known = vec![s("a"), s("b")];
    let (out, hits) = substitute_markers(&s("@[a]@[b]"), &known);
    assert_eq!(to_string(&out), "CITATION_PLACEHOLDER_aCITATION_PLACEHOLDER_b");
    assert_eq!(hits.len(), 2);
    assert_eq!(to_string(&hits[0]), "a");
    assert_eq!(to_string(&hits[1]), "b");
}

#[test]
fn repeated_keys_resolve_each_time_but_deduplicate() {
    let known = vec![s("k")];
    let (_, hits) = substitute_markers(&s("@[k] and @[k] again"), &known);
    assert_eq!(hits.len(), 2);
    let unique = dedup_keys(&hits);
    assert_eq!(unique.len(), 1);
    assert_eq!(to_string(&unique[0]), "k");
}

#[test]
fn no_markers_leaves_text_unchanged() {
    let known = vec![s("a")];
    let text = "Nothing special here, not even an at sign pair.";
    let (out, hits) = substitute_markers(&s(text), &known);
    assert_eq!(to_string(&out), text);
    assert_eq!(hits.len(), 0);
}
