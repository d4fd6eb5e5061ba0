//! The citation resolution pipeline: scan a document for `@[key]`
//! markers, resolve each against the bibliography, drive two independent
//! formatting passes — one for in-text citations, one for the reference
//! list — and substitute the formatted markup back into the parsed
//! document, inside raw text runs only.

use vstd::prelude::*;
use crate::BuildError;
use crate::bib::{
    acc_cite, acc_cites, acc_finish, acc_new, biblatex_bib_keys, lib_key_at, lib_keys,
    lib_len, locale_of_file, parse_biblatex_bibliography, parse_locale_file, parse_style,
    parse_yaml_bibliography, style_parses, locale_parses, yaml_bib_keys, CiteAccumulator,
};
use crate::markers::{
    append_chars, dedup_first, dedup_keys, has_marker, lemma_dedup_first_contains,
    lemma_no_marker_rewrite, lemma_resolved_keys_known, placeholder_text, rewrite_from, seq_eq,
    substitute_markers,
};
use crate::mdparse::{
    event_kind_at, event_model, events_len, html_of, md_model, parse_events, render_events,
    render_markdown, rendered_events, splice_text_event, EventList, EV_HTML, EV_TEXT,
};
use crate::text::{
    chars_of, contains_seq, lemma_contains_concat_left, lemma_contains_concat_right, matches_at,
    string_from_chars,
};
use crate::post::{base_name_of, ext_of_base};

verus! {

/// Everything citation resolution needs: a parsed style, its locales,
/// and the bibliography to resolve against.
#[derive(Debug)]
pub struct CitationConfig {
    pub style: hayagriva::citationberg::IndependentStyle,
    pub locales: Vec<hayagriva::citationberg::Locale>,
    pub bibliography: hayagriva::Library,
}

/// The outcome of resolving one document.
#[derive(Debug)]
pub struct CitationResult {
    /// The rendered document, citations substituted.
    pub html_content: String,
    /// The rendered reference list, empty when nothing was cited.
    pub references_html: String,
    /// Whether at least one marker resolved against the bibliography.
    pub has_citations: bool,
}

impl Default for CitationResult {
    /// An empty result: no content, no references, nothing cited.
    fn default() -> (r: CitationResult)
        ensures
            r.html_content@.len() == 0,
            r.references_html@.len() == 0,
            !r.has_citations,
    {
        CitationResult {
            html_content: String::new(),
            references_html: String::new(),
            has_citations: false,
        }
    }
}

/// Whether a bibliography file name selects the YAML format.
pub open spec fn spec_is_yaml_bibliography(path: Seq<char>) -> bool {
    ext_of_base(base_name_of(path)) == Some("yml"@)
}

/// Whether a bibliography path names a YAML file (`.yml`); any other
/// name selects the BibLaTeX format.
pub fn bibliography_is_yaml(path: &str) -> (r: bool)
    ensures
        r == spec_is_yaml_bibliography(path@),
{
    match crate::post::extension_of(path) {
        Some(e) => crate::post::str_eq(e.as_str(), "yml"),
        None => false,
    }
}

impl CitationConfig {
    /// Build a citation configuration from the fetched style source, the
    /// fetched locale source, and the bibliography source read from its
    /// file, whose format the file name selected.
    pub fn new(style_src: &str, locale_src: &str, bib_src: &str, bib_is_yaml: bool) -> (r:
        Result<CitationConfig, BuildError>)
        ensures
            match r {
                Ok(c) => {
                    &&& style_parses(style_src@)
                    &&& locale_parses(locale_src@)
                    &&& c.locales@.len() == 1
                    &&& if bib_is_yaml {
                        yaml_bib_keys(bib_src@) == Some(lib_keys(c.bibliography))
                    } else {
                        biblatex_bib_keys(bib_src@) == Some(lib_keys(c.bibliography))
                    }
                    &&& lib_keys(c.bibliography).no_duplicates()
                },
                Err(e) => match e {
                    BuildError::StyleParse => !style_parses(style_src@),
                    BuildError::LocaleParse => style_parses(style_src@) && !locale_parses(
                        locale_src@,
                    ),
                    BuildError::BibliographyParse => style_parses(style_src@) && locale_parses(
                        locale_src@,
                    ) && if bib_is_yaml {
                        yaml_bib_keys(bib_src@) is None
                    } else {
                        biblatex_bib_keys(bib_src@) is None
                    },
                    _ => false,
                },
            },
    {
        let style = match parse_style(style_src) {
            Some(s) => s,
            None => {
                return Err(BuildError::StyleParse);
            },
        };
        let locale_file = match parse_locale_file(locale_src) {
            Some(l) => l,
            None => {
                return Err(BuildError::LocaleParse);
            },
        };
        let mut locales: Vec<hayagriva::citationberg::Locale> = Vec::new();
        locales.push(locale_of_file(locale_file));
        let bibliography = if bib_is_yaml {
            match parse_yaml_bibliography(bib_src) {
                Some(lib) => lib,
                None => {
                    return Err(BuildError::BibliographyParse);
                },
            }
        } else {
            match parse_biblatex_bibliography(bib_src) {
                Some(lib) => lib,
                None => {
                    return Err(BuildError::BibliographyParse);
                },
            }
        };
        Ok(CitationConfig { style, locales, bibliography })
    }
}

/// The in-text markup of one resolved citation: an anchor to the
/// reference-list entry of its key, wrapping the formatted fragment.
pub open spec fn citation_anchor_text(key: Seq<char>, formatted: Seq<char>) -> Seq<char> {
    "<a href=\"#ref-"@ + key + "\" class=\"citation\">"@ + formatted + "</a>"@
}

/// Build the in-text markup of one resolved citation.
pub fn citation_anchor(key: &Vec<char>, formatted: &str) -> (r: Vec<char>)
    ensures
        r@ == citation_anchor_text(key@, formatted@),
{
    let mut out = chars_of("<a href=\"#ref-");
    append_chars(&mut out, key);
    let mid = chars_of("\" class=\"citation\">");
    append_chars(&mut out, &mid);
    let f = chars_of(formatted);
    append_chars(&mut out, &f);
    let close = chars_of("</a>");
    append_chars(&mut out, &close);
    proof {
        assert(out@ =~= citation_anchor_text(key@, formatted@));
    }
    out
}

/// The opening of a reference-list entry for a key, up to its anchor.
pub open spec fn ref_anchor_text(key: Seq<char>) -> Seq<char> {
    "<div id=\"ref-"@ + key + "\""@
}

/// One reference-list entry: a container addressable by its key's
/// anchor, holding the formatted reference.
pub open spec fn ref_item_text(key: Seq<char>, content: Seq<char>) -> Seq<char> {
    "<div id=\"ref-"@ + key + "\" class=\"reference-item\">"@ + content + "</div>\n"@
}

/// The reference-list entries, in list order.
pub open spec fn ref_items_text(items: Seq<(Seq<char>, Seq<char>)>) -> Seq<char>
    decreases items.len(),
{
    if items.len() == 0 {
        Seq::empty()
    } else {
        ref_items_text(items.drop_last()) + ref_item_text(items.last().0, items.last().1)
    }
}

/// The whole reference block around its entries.
pub open spec fn ref_block_text(items: Seq<(Seq<char>, Seq<char>)>) -> Seq<char> {
    "<div class=\"references\">\n<h2>References</h2>\n<div class=\"references-list\">\n"@
        + ref_items_text(items) + "</div>\n</div>\n"@
}

/// Build the reference block from the formatted reference items.
pub fn build_reference_block(items: &Vec<(String, String)>) -> (r: String)
    ensures
        r@ == ref_block_text(items@.map_values(|p: (String, String)| (p.0@, p.1@))),
{
    let ghost iv = items@.map_values(|p: (String, String)| (p.0@, p.1@));
    let mut out = chars_of(
        "<div class=\"references\">\n<h2>References</h2>\n<div class=\"references-list\">\n",
    );
    let ghost head = out@;
    let mut i: usize = 0;
    proof {
        assert(iv.subrange(0, 0) =~= Seq::<(Seq<char>, Seq<char>)>::empty());
        assert(out@ =~= head + ref_items_text(iv.subrange(0, 0)));
    }
    while i < items.len()
        invariant
            i <= items@.len(),
            iv == items@.map_values(|p: (String, String)| (p.0@, p.1@)),
            head == "<div class=\"references\">\n<h2>References</h2>\n<div class=\"references-list\">\n"@,
            out@ == head + ref_items_text(iv.subrange(0, i as int)),
        decreases items@.len() - i,
    {
        let opening = chars_of("<div id=\"ref-");
        let key = chars_of(items[i].0.as_str());
        let mid = chars_of("\" class=\"reference-item\">");
        let content = chars_of(items[i].1.as_str());
        let close = chars_of("</div>\n");
        let ghost pre = out@;
        append_chars(&mut out, &opening);
        append_chars(&mut out, &key);
        append_chars(&mut out, &mid);
        append_chars(&mut out, &content);
        append_chars(&mut out, &close);
        i += 1;
        proof {
            let cur = iv.subrange(0, i as int);
            assert(cur.drop_last() =~= iv.subrange(0, i - 1));
            assert(cur.last() == iv[i - 1]);
            assert(out@ =~= pre + ref_item_text(iv[i - 1].0, iv[i - 1].1));
            assert(out@ =~= head + ref_items_text(cur));
        }
    }
    let tail = chars_of("</div>\n</div>\n");
    append_chars(&mut out, &tail);
    proof {
        assert(iv.subrange(0, iv.len() as int) =~= iv);
        assert(out@ =~= ref_block_text(iv));
    }
    string_from_chars(&out)
}

/// Every entry's anchor occurs in the rendered entries.
proof fn lemma_ref_items_contains(items: Seq<(Seq<char>, Seq<char>)>, j: int)
    requires
        0 <= j < items.len(),
    ensures
        contains_seq(ref_items_text(items), ref_anchor_text(items[j].0)),
    decreases items.len(),
{
    let last = items.last();
    if j == items.len() - 1 {
        let item = ref_item_text(last.0, last.1);
        let anchor = ref_anchor_text(last.0);
        assert(contains_seq(item, anchor)) by {
            reveal_strlit("<div id=\"ref-");
            reveal_strlit("\" class=\"reference-item\">");
            reveal_strlit("\"");
            assert(item.subrange(0, anchor.len() as int) =~= anchor);
            assert(matches_at(item, 0, anchor));
        }
        lemma_contains_concat_right(ref_items_text(items.drop_last()), item, anchor);
    } else {
        lemma_ref_items_contains(items.drop_last(), j);
        assert(items.drop_last()[j] == items[j]);
        lemma_contains_concat_left(
            ref_items_text(items.drop_last()),
            ref_item_text(last.0, last.1),
            ref_anchor_text(items[j].0),
        );
    }
}

/// Every entry's anchor occurs in the built reference block.
proof fn lemma_ref_block_contains(items: Seq<(Seq<char>, Seq<char>)>, j: int)
    requires
        0 <= j < items.len(),
    ensures
        contains_seq(ref_block_text(items), ref_anchor_text(items[j].0)),
{
    lemma_ref_items_contains(items, j);
    lemma_contains_concat_right(
        "<div class=\"references\">\n<h2>References</h2>\n<div class=\"references-list\">\n"@,
        ref_items_text(items),
        ref_anchor_text(items[j].0),
    );
    lemma_contains_concat_left(
        "<div class=\"references\">\n<h2>References</h2>\n<div class=\"references-list\">\n"@
            + ref_items_text(items),
        "</div>\n</div>\n"@,
        ref_anchor_text(items[j].0),
    );
}

/// Whether every placeholder of a mapping is non-empty.
pub open spec fn nonempty_keys(mapping: Seq<(Seq<char>, Seq<char>)>) -> bool {
    forall|j: int| 0 <= j < mapping.len() ==> mapping[j].0.len() > 0
}

/// The first mapping entry at or after `j` whose placeholder occurs at
/// position `i` of the text.
pub open spec fn match_at_mapping(
    t: Seq<char>,
    i: int,
    mapping: Seq<(Seq<char>, Seq<char>)>,
    j: int,
) -> Option<int>
    decreases mapping.len() - j when 0 <= j <= mapping.len()
{
    if j >= mapping.len() {
        None
    } else if matches_at(t, i, mapping[j].0) {
        Some(j)
    } else {
        match_at_mapping(t, i, mapping, j + 1)
    }
}

/// What a located mapping match gives.
proof fn lemma_match_at_mapping_props(t: Seq<char>, i: int, mapping: Seq<(Seq<char>, Seq<char>)>,
    j: int)
    requires
        0 <= j <= mapping.len(),
    ensures
        match match_at_mapping(t, i, mapping, j) {
            Some(jj) => j <= jj < mapping.len() && matches_at(t, i, mapping[jj].0),
            None => true,
        },
    decreases mapping.len() - j,
{
    if j < mapping.len() && !matches_at(t, i, mapping[j].0) {
        lemma_match_at_mapping_props(t, i, mapping, j + 1);
    }
}

/// The substitution of one text run: pieces of plain text, each `false`,
/// interleaved with the mapped markup of each placeholder occurrence,
/// each `true`; placeholders matched greedily left to right, earlier
/// mapping entries first.
pub open spec fn splice_parts(
    t: Seq<char>,
    i: int,
    pending: Seq<char>,
    mapping: Seq<(Seq<char>, Seq<char>)>,
) -> Seq<(bool, Seq<char>)>
    decreases t.len() - i when 0 <= i <= t.len() && nonempty_keys(mapping)
        via splice_parts_decreases
{
    if i >= t.len() {
        if pending.len() > 0 {
            seq![(false, pending)]
        } else {
            Seq::empty()
        }
    } else {
        match match_at_mapping(t, i, mapping, 0) {
            Some(j) => (if pending.len() > 0 {
                seq![(false, pending)]
            } else {
                Seq::empty()
            }) + seq![(true, mapping[j].1)] + splice_parts(
                t,
                i + mapping[j].0.len(),
                Seq::empty(),
                mapping,
            ),
            None => splice_parts(t, i + 1, pending.push(t[i]), mapping),
        }
    }
}

#[via_fn]
proof fn splice_parts_decreases(
    t: Seq<char>,
    i: int,
    pending: Seq<char>,
    mapping: Seq<(Seq<char>, Seq<char>)>,
) {
    if i < t.len() {
        lemma_match_at_mapping_props(t, i, mapping, 0);
    }
}

/// Find the first mapping entry whose placeholder occurs at `i`.
fn find_mapping_match(t: &Vec<char>, i: usize, mapping: &Vec<(Vec<char>, Vec<char>)>) -> (r:
    Option<usize>)
    requires
        i <= t@.len(),
    ensures
        ({
            let mv = mapping@.map_values(|p: (Vec<char>, Vec<char>)| (p.0@, p.1@));
            match r {
                Some(j) => j < mapping@.len() && match_at_mapping(t@, i as int, mv, 0) == Some(
                    j as int,
                ),
                None => match_at_mapping(t@, i as int, mv, 0) is None,
            }
        }),
{
    let ghost mv = mapping@.map_values(|p: (Vec<char>, Vec<char>)| (p.0@, p.1@));
    let mut j: usize = 0;
    while j < mapping.len()
        invariant
            j <= mapping@.len(),
            i <= t@.len(),
            mv == mapping@.map_values(|p: (Vec<char>, Vec<char>)| (p.0@, p.1@)),
            forall|q: int| 0 <= q < j ==> !matches_at(t@, i as int, mv[q].0),
        decreases mapping@.len() - j,
    {
        if crate::text::check_match_at(t, i, &mapping[j].0) {
            proof {
                lemma_match_scan(t@, i as int, mv, 0, j as int);
            }
            return Some(j);
        }
        j += 1;
    }
    proof {
        lemma_match_scan(t@, i as int, mv, 0, mapping@.len() as int);
    }
    None
}

/// Linear scanning finds the first matching mapping entry.
proof fn lemma_match_scan(
    t: Seq<char>,
    i: int,
    mapping: Seq<(Seq<char>, Seq<char>)>,
    j: int,
    e: int,
)
    requires
        0 <= j <= e <= mapping.len(),
        forall|q: int| j <= q < e ==> !matches_at(t, i, mapping[q].0),
        e < mapping.len() ==> matches_at(t, i, mapping[e].0),
    ensures
        match_at_mapping(t, i, mapping, j) == if e < mapping.len() {
            Some(e)
        } else {
            None::<int>
        },
    decreases e - j,
{
    if j < e {
        lemma_match_scan(t, i, mapping, j + 1, e);
    }
}

/// Substitute every placeholder occurrence in one text run, yielding the
/// parts to splice back: plain text between matches, mapped markup at
/// each match.
fn splice_text(t: &Vec<char>, mapping: &Vec<(Vec<char>, Vec<char>)>) -> (r: Vec<(bool, String)>)
    requires
        forall|j: int| 0 <= j < mapping@.len() ==> mapping@[j].0@.len() > 0,
    ensures
        ({
            let mv = mapping@.map_values(|p: (Vec<char>, Vec<char>)| (p.0@, p.1@));
            r@.map_values(|p: (bool, String)| (p.0, p.1@)) == splice_parts(
                t@,
                0,
                Seq::empty(),
                mv,
            )
        }),
{
    let ghost mv = mapping@.map_values(|p: (Vec<char>, Vec<char>)| (p.0@, p.1@));
    proof {
        assert(nonempty_keys(mv));
    }
    let n = t.len();
    let mut parts: Vec<(bool, String)> = Vec::new();
    let mut pending: Vec<char> = Vec::new();
    let mut i: usize = 0;
    proof {
        assert(parts@.map_values(|p: (bool, String)| (p.0, p.1@)) + splice_parts(
            t@,
            0,
            Seq::empty(),
            mv,
        ) =~= splice_parts(t@, 0, Seq::empty(), mv));
    }
    while i < n
        invariant
            i <= n,
            n == t@.len(),
            mv == mapping@.map_values(|p: (Vec<char>, Vec<char>)| (p.0@, p.1@)),
            nonempty_keys(mv),
            splice_parts(t@, 0, Seq::empty(), mv) == parts@.map_values(
                |p: (bool, String)| (p.0, p.1@),
            ) + splice_parts(t@, i as int, pending@, mv),
        decreases n - i,
    {
        let ghost pre_parts = parts@.map_values(|p: (bool, String)| (p.0, p.1@));
        let ghost pre_pending = pending@;
        match find_mapping_match(t, i, mapping) {
            Some(j) => {
                proof {
                    lemma_match_at_mapping_props(t@, i as int, mv, 0);
                }
                if pending.len() > 0 {
                    parts.push((false, string_from_chars(&pending)));
                    pending = Vec::new();
                }
                parts.push((true, string_from_chars(&mapping[j].1)));
                let step = mapping[j].0.len();
                proof {
                    let tail = splice_parts(t@, i + mv[j as int].0.len(), Seq::empty(), mv);
                    let emitted: Seq<(bool, Seq<char>)> = if pre_pending.len() > 0 {
                        seq![(false, pre_pending)]
                    } else {
                        Seq::empty()
                    };
                    assert(splice_parts(t@, i as int, pre_pending, mv) == emitted + seq![
                        (true, mv[j as int].1),
                    ] + tail);
                    assert(parts@.map_values(|p: (bool, String)| (p.0, p.1@)) =~= pre_parts
                        + emitted + seq![(true, mv[j as int].1)]);
                    assert(pre_parts + (emitted + seq![(true, mv[j as int].1)] + tail) =~= (
                    pre_parts + emitted + seq![(true, mv[j as int].1)]) + tail);
                }
                i += step;
                proof {
                    assert(step == mv[j as int].0.len());
                    assert(pending@ =~= Seq::<char>::empty());
                    assert(splice_parts(t@, i as int, pending@, mv) == splice_parts(
                        t@,
                        i as int,
                        Seq::empty(),
                        mv,
                    ));
                    assert(splice_parts(t@, 0, Seq::empty(), mv) == parts@.map_values(
                        |p: (bool, String)| (p.0, p.1@),
                    ) + splice_parts(t@, i as int, pending@, mv));
                }
            },
            None => {
                pending.push(t[i]);
                proof {
                    assert(splice_parts(t@, i as int, pre_pending, mv) == splice_parts(
                        t@,
                        i as int + 1,
                        pre_pending.push(t@[i as int]),
                        mv,
                    ));
                    assert(pending@ =~= pre_pending.push(t@[i as int]));
                }
                i += 1;
            },
        }
    }
    if pending.len() > 0 {
        let ghost pre_parts = parts@.map_values(|p: (bool, String)| (p.0, p.1@));
        let ghost pre_pending = pending@;
        parts.push((false, string_from_chars(&pending)));
        proof {
            assert(splice_parts(t@, n as int, pre_pending, mv) == seq![(false, pre_pending)]);
            assert(parts@.map_values(|p: (bool, String)| (p.0, p.1@)) =~= pre_parts + seq![
                (false, pre_pending),
            ]);
        }
    } else {
        proof {
            assert(splice_parts(t@, n as int, pending@, mv) =~= Seq::<(bool, Seq<char>)>::empty());
            assert(parts@.map_values(|p: (bool, String)| (p.0, p.1@)) + Seq::<(bool,
                Seq<char>)>::empty() =~= parts@.map_values(|p: (bool, String)| (p.0, p.1@)));
        }
    }
    parts
}

/// The keys of a reference-item list, in list order.
pub open spec fn ref_item_keys(items: Seq<(Seq<char>, Seq<char>)>) -> Seq<Seq<char>> {
    items.map_values(|p: (Seq<char>, Seq<char>)| p.0)
}

/// The events one substituted text run becomes: a raw-markup event per
/// mapped part, a text event per plain part.
pub open spec fn part_events(parts: Seq<(bool, Seq<char>)>) -> Seq<(u32, Seq<char>)> {
    parts.map_values(
        |p: (bool, Seq<char>)|
            if p.0 {
                (EV_HTML, p.1)
            } else {
                (EV_TEXT, p.1)
            },
    )
}

/// The event model after substitution: every text run replaced by its
/// substituted parts, every other event untouched — substitution never
/// reaches past raw text runs.
pub open spec fn spliced_model(
    model: Seq<(u32, Seq<char>)>,
    mapping: Seq<(Seq<char>, Seq<char>)>,
) -> Seq<(u32, Seq<char>)>
    decreases model.len(),
{
    if model.len() == 0 {
        Seq::empty()
    } else {
        spliced_model(model.drop_last(), mapping) + (if model.last().0 == EV_TEXT {
            part_events(splice_parts(model.last().1, 0, Seq::empty(), mapping))
        } else {
            seq![model.last()]
        })
    }
}

/// The substitution mapping of a document: for the i-th distinct cited
/// key, its placeholder token maps to the anchor-linked in-text markup
/// wrapping that key's formatted fragment.
pub open spec fn anchor_mapping(cited: Seq<Seq<char>>, fragments: Seq<Seq<char>>) -> Seq<(Seq<
    char,
>, Seq<char>)> {
    Seq::new(cited.len(), |i: int| (placeholder_text(cited[i]), citation_anchor_text(cited[i], fragments[i])))
}

/// Whether `refs` is a reference list for exactly the keys `cited`: the
/// reference block around some item list whose keys are the distinct
/// cited keys — every cited key once, keys never cited not at all.
pub open spec fn is_reference_list_for(refs: Seq<char>, cited: Seq<Seq<char>>) -> bool {
    exists|items: Seq<(Seq<char>, Seq<char>)>|
        {
            &&& refs == ref_block_text(items)
            &&& ref_item_keys(items).no_duplicates()
            &&& forall|k: Seq<char>| #[trigger] ref_item_keys(items).contains(k) <==> cited.contains(
                k,
            )
        }
}

/// Whether `html` renders the marker-substituted document `rewritten`:
/// the rendering of an event list whose model is the parse of
/// `rewritten` with each cited key's placeholder replaced, inside raw
/// text runs only, by its anchor-linked in-text markup around some
/// formatted fragment.
pub open spec fn is_substituted_render(
    html: Seq<char>,
    rewritten: Seq<char>,
    cited: Seq<Seq<char>>,
) -> bool {
    exists|fragments: Seq<Seq<char>>, ev: EventList|
        {
            &&& fragments.len() == cited.len()
            &&& event_model(ev) == spliced_model(
                md_model(rewritten),
                anchor_mapping(cited, fragments),
            )
            &&& html == rendered_events(ev)
        }
}

/// The placeholder token of a key.
fn placeholder_for(key: &Vec<char>) -> (r: Vec<char>)
    ensures
        r@ == placeholder_text(key@),
{
    let mut out = chars_of("CITATION_PLACEHOLDER_");
    append_chars(&mut out, key);
    out
}

/// The keys of a library, in insertion order.
fn library_keys(lib: &hayagriva::Library) -> (r: Vec<Vec<char>>)
    ensures
        r@.map_values(|v: Vec<char>| v@) == lib_keys(*lib),
{
    let n = lib_len(lib);
    let mut r: Vec<Vec<char>> = Vec::new();
    let mut i: usize = 0;
    proof {
        assert(r@.map_values(|v: Vec<char>| v@) =~= lib_keys(*lib).subrange(0, 0));
    }
    while i < n
        invariant
            i <= n,
            n == lib_keys(*lib).len(),
            r@.map_values(|v: Vec<char>| v@) == lib_keys(*lib).subrange(0, i as int),
        decreases n - i,
    {
        let ghost pre = r@.map_values(|v: Vec<char>| v@);
        let k = lib_key_at(lib, i);
        r.push(chars_of(k.as_str()));
        i += 1;
        proof {
            assert(r@.map_values(|v: Vec<char>| v@) =~= pre.push(lib_keys(*lib)[i - 1]));
            assert(lib_keys(*lib).subrange(0, i as int) =~= pre.push(lib_keys(*lib)[i - 1]));
        }
    }
    proof {
        assert(lib_keys(*lib).subrange(0, n as int) =~= lib_keys(*lib));
    }
    r
}

/// Resolve a document's citation markers against the bibliography and
/// render it: markers with known keys become anchor-linked in-text
/// fragments substituted into raw text runs, unknown keys degrade to
/// visible literal text, and the reference list holds one entry
/// addressable by each cited key. A document citing nothing renders as
/// plain markup with no reference block; a style without a
/// reference-list section is an error only when something was cited.
pub fn parse_markdown_with_citations(content: &str, config: &CitationConfig) -> (r: Result<
    CitationResult,
    BuildError,
>)
    ensures
        ({
            let keys = lib_keys(config.bibliography).to_set();
            let rewritten = rewrite_from(content@, 0, keys).0;
            let hits = rewrite_from(content@, 0, keys).1;
            let cited = dedup_first(hits);
            match r {
                Ok(res) => {
                    &&& res.has_citations == (cited.len() > 0)
                    &&& (!has_marker(content@) ==> res.html_content@ == html_of(content@))
                    &&& (cited.len() == 0 && rewritten == content@ ==> res.html_content@
                        == html_of(content@))
                    &&& (!(cited.len() == 0 && rewritten == content@) ==> is_substituted_render(
                        res.html_content@,
                        rewritten,
                        cited,
                    ))
                    &&& (cited.len() == 0 ==> res.references_html@.len() == 0)
                    &&& (cited.len() > 0 ==> is_reference_list_for(res.references_html@, cited))
                    &&& (cited.len() > 0 ==> forall|idx: int|
                        0 <= idx < cited.len() ==> contains_seq(
                            res.references_html@,
                            ref_anchor_text(cited[idx]),
                        ))
                },
                Err(e) => e == BuildError::StyleWithoutBibliography && cited.len() > 0,
            }
        }),
{
    let ghost keys = lib_keys(config.bibliography).to_set();
    let content_chars = chars_of(content);
    let known = library_keys(&config.bibliography);
    proof {
        assert(known@.map_values(|v: Vec<char>| v@).to_set() == keys);
    }
    let (out_chars, hit_vec) = substitute_markers(&content_chars, &known);
    let ghost hits = rewrite_from(content@, 0, keys).1;
    let cited = dedup_keys(&hit_vec);
    let ghost cited_v = dedup_first(hits);
    proof {
        assert(cited@.map_values(|v: Vec<char>| v@) == cited_v);
    }
    if cited.len() == 0 && seq_eq(&out_chars, &content_chars) {
        let html = render_markdown(content);
        return Ok(
            CitationResult {
                html_content: html,
                references_html: String::new(),
                has_citations: false,
            },
        );
    }
    proof {
        if !has_marker(content@) {
            lemma_no_marker_rewrite(content@, 0, keys);
            assert(content@.subrange(0, content@.len() as int) =~= content@);
            assert(out_chars@ == content@);
            assert(hits =~= Seq::<Seq<char>>::empty());
            assert(cited_v =~= Seq::<Seq<char>>::empty());
            assert(false);
        }
    }
    // register each distinct cited key with both formatting passes
    let mut intext: CiteAccumulator = acc_new();
    let mut refacc: CiteAccumulator = acc_new();
    let mut ci: usize = 0;
    proof {
        lemma_dedup_first_contains(hits);
        lemma_resolved_keys_known(content@, 0, keys);
        assert forall|k: Seq<char>| #[trigger] cited_v.contains(k) implies keys.contains(k) by {
            assert(hits.contains(k));
            assert(rewrite_from(content@, 0, keys).1.contains(k));
        }
        assert(acc_cites(intext) =~= cited_v.subrange(0, 0));
        assert(acc_cites(refacc) =~= cited_v.subrange(0, 0));
    }
    while ci < cited.len()
        invariant
            ci <= cited@.len(),
            cited_v == cited@.map_values(|v: Vec<char>| v@),
            cited_v == dedup_first(hits),
            keys == lib_keys(config.bibliography).to_set(),
            forall|k: Seq<char>| #[trigger] cited_v.contains(k) ==> keys.contains(k),
            acc_cites(intext) == cited_v.subrange(0, ci as int),
            acc_cites(refacc) == cited_v.subrange(0, ci as int),
        decreases cited@.len() - ci,
    {
        let key_s = string_from_chars(&cited[ci]);
        proof {
            assert(cited_v[ci as int] == cited@[ci as int]@);
            assert(cited_v.contains(cited_v[ci as int]));
            assert(keys.contains(key_s@));
            lemma_to_set_back(lib_keys(config.bibliography), key_s@);
        }
        acc_cite(&mut intext, &config.style, &config.locales, &config.bibliography, key_s.as_str());
        acc_cite(&mut refacc, &config.style, &config.locales, &config.bibliography, key_s.as_str());
        ci += 1;
        proof {
            assert(cited_v.subrange(0, ci - 1).push(cited_v[ci - 1]) =~= cited_v.subrange(
                0,
                ci as int,
            ));
        }
    }
    proof {
        assert(cited_v.subrange(0, cited@.len() as int) =~= cited_v);
    }
    let finished = acc_finish(intext, &config.style, &config.locales);
    let cite_texts = finished.0;
    let ref_finished = acc_finish(refacc, &config.style, &config.locales);
    let bib_items = ref_finished.1;
    // the reference list, when anything was cited
    let references_html = if cited.len() > 0 {
        match bib_items {
            Some(items) => {
                let block = build_reference_block(&items);
                proof {
                    let iv = items@.map_values(|p: (String, String)| (p.0@, p.1@));
                    let item_keys = items@.map_values(|p: (String, String)| p.0@);
                    lemma_dedup_first_contains(hits);
                    assert forall|idx: int| 0 <= idx < cited_v.len() implies contains_seq(
                        block@,
                        ref_anchor_text(cited_v[idx]),
                    ) by {
                        assert(cited_v.contains(cited_v[idx]));
                        assert(acc_cites(refacc).contains(cited_v[idx]));
                        assert(item_keys.contains(cited_v[idx]));
                        let j = choose|j: int|
                            0 <= j < item_keys.len() && item_keys[j] == cited_v[idx];
                        assert(iv[j].0 == cited_v[idx]);
                        lemma_ref_block_contains(iv, j);
                    }
                    // the block is the reference list for exactly the cited keys
                    assert(ref_item_keys(iv) =~= item_keys);
                    assert(cited_v.no_duplicates());
                    assert(acc_cites(refacc).no_duplicates());
                    assert(item_keys.no_duplicates());
                    assert forall|k: Seq<char>|
                        #[trigger] ref_item_keys(iv).contains(k) <==> cited_v.contains(k) by {
                        assert(item_keys.contains(k) <==> acc_cites(refacc).contains(k));
                    }
                    assert(block@ == ref_block_text(iv));
                    assert(is_reference_list_for(block@, cited_v));
                }
                block
            },
            None => {
                return Err(BuildError::StyleWithoutBibliography);
            },
        }
    } else {
        String::new()
    };
    // the placeholder-to-markup mapping, one entry per cited key
    let ghost frag_v = cite_texts@.map_values(|s: String| s@);
    let mut mapping: Vec<(Vec<char>, Vec<char>)> = Vec::new();
    let mut mi: usize = 0;
    proof {
        assert(mapping@.map_values(|p: (Vec<char>, Vec<char>)| (p.0@, p.1@)) =~= anchor_mapping(
            cited_v,
            frag_v,
        ).subrange(0, 0));
    }
    while mi < cited.len()
        invariant
            mi <= cited@.len(),
            mi <= cite_texts@.len(),
            cited@.len() <= cite_texts@.len(),
            cited_v == cited@.map_values(|v: Vec<char>| v@),
            frag_v == cite_texts@.map_values(|s: String| s@),
            mapping@.len() == mi,
            forall|j: int| 0 <= j < mapping@.len() ==> #[trigger] mapping@[j].0@.len() > 0,
            mapping@.map_values(|p: (Vec<char>, Vec<char>)| (p.0@, p.1@)) == anchor_mapping(
                cited_v,
                frag_v,
            ).subrange(0, mi as int),
        decreases cited@.len() - mi,
    {
        let ph = placeholder_for(&cited[mi]);
        let anchor = citation_anchor(&cited[mi], cite_texts[mi].as_str());
        proof {
            reveal_strlit("CITATION_PLACEHOLDER_");
            assert(ph@ == placeholder_text(cited_v[mi as int]));
            assert(anchor@ == citation_anchor_text(cited_v[mi as int], frag_v[mi as int]));
        }
        mapping.push((ph, anchor));
        mi += 1;
        proof {
            assert(mapping@.map_values(|p: (Vec<char>, Vec<char>)| (p.0@, p.1@)) =~= anchor_mapping(
                cited_v,
                frag_v,
            ).subrange(0, mi as int));
        }
    }
    let ghost mv = mapping@.map_values(|p: (Vec<char>, Vec<char>)| (p.0@, p.1@));
    proof {
        assert(anchor_mapping(cited_v, frag_v).subrange(
            0,
            anchor_mapping(cited_v, frag_v).len() as int,
        ) =~= anchor_mapping(cited_v, frag_v));
        assert(mv == anchor_mapping(cited_v, frag_v));
    }
    // substitute inside raw text runs only
    let placeholder_str = string_from_chars(&out_chars);
    let mut ev = parse_events(placeholder_str.as_str());
    let ghost md = event_model(ev);
    let mut k: usize = 0;
    let mut idx: usize = 0;
    let ghost done0: Seq<(u32, Seq<char>)> = Seq::empty();
    proof {
        assert(done0 + md.subrange(0, md.len() as int) =~= md);
        assert(event_model(ev) =~= done0 + md.subrange(0, md.len() as int));
    }
    let total = events_len(&ev);
    proof {
        assert(md.subrange(0, 0) =~= Seq::<(u32, Seq<char>)>::empty());
        assert(event_model(ev).subrange(0, 0) =~= spliced_model(md.subrange(0, 0), mv));
    }
    while k < total
        invariant
            k <= total,
            total == md.len(),
            idx <= event_model(ev).len(),
            event_model(ev).len() == idx + (md.len() - k),
            event_model(ev).subrange(idx as int, event_model(ev).len() as int) == md.subrange(
                k as int,
                md.len() as int,
            ),
            event_model(ev).subrange(0, idx as int) == spliced_model(
                md.subrange(0, k as int),
                mv,
            ),
            mv == mapping@.map_values(|p: (Vec<char>, Vec<char>)| (p.0@, p.1@)),
            forall|j: int| 0 <= j < mapping@.len() ==> #[trigger] mapping@[j].0@.len() > 0,
        decreases total - k,
    {
        proof {
            let cur = event_model(ev);
            assert(cur.subrange(idx as int, cur.len() as int)[0] == cur[idx as int]);
            assert(md.subrange(k as int, md.len() as int)[0] == md[k as int]);
            assert(cur[idx as int] == md[k as int]);
        }
        let kind = event_kind_at(&ev, idx);
        if kind.0 == EV_TEXT {
            let text_chars = chars_of(kind.1.as_str());
            let parts = splice_text(&text_chars, &mapping);
            let ghost pre_model = event_model(ev);
            splice_text_event(&mut ev, idx, &parts);
            let plen = parts.len();
            proof {
                let pv = parts@.map_values(
                    |p: (bool, String)|
                        if p.0 {
                            (crate::mdparse::EV_HTML, p.1@)
                        } else {
                            (EV_TEXT, p.1@)
                        },
                );
                assert(pv.len() == parts@.len());
                assert(event_model(ev) == pre_model.subrange(0, idx as int) + pv
                    + pre_model.subrange(idx + 1, pre_model.len() as int));
                let pre_suf = pre_model.subrange(idx as int, pre_model.len() as int);
                assert(pre_model.subrange(idx + 1, pre_model.len() as int) =~= pre_suf.subrange(
                    1,
                    pre_suf.len() as int,
                ));
                assert(pre_suf == md.subrange(k as int, md.len() as int));
                assert(pre_suf.subrange(1, pre_suf.len() as int) =~= md.subrange(
                    k + 1,
                    md.len() as int,
                ));
                assert(event_model(ev).subrange(
                    idx + plen as int,
                    event_model(ev).len() as int,
                ) =~= pre_model.subrange(idx + 1, pre_model.len() as int));
                // the consumed prefix grows by this text run's parts
                let done_pre = md.subrange(0, k as int);
                let done_cur = md.subrange(0, k + 1);
                assert(done_cur.drop_last() =~= done_pre);
                assert(done_cur.last() == md[k as int]);
                assert(md[k as int].0 == EV_TEXT);
                assert(text_chars@ == md[k as int].1);
                assert(spliced_model(done_cur, mv) == spliced_model(done_pre, mv) + part_events(
                    splice_parts(md[k as int].1, 0, Seq::empty(), mv),
                ));
                assert(pv =~= part_events(
                    parts@.map_values(|p: (bool, String)| (p.0, p.1@)),
                ));
                assert(event_model(ev).subrange(0, idx + plen as int) =~= pre_model.subrange(
                    0,
                    idx as int,
                ) + pv);
                assert(event_model(ev).subrange(0, idx + plen as int) == spliced_model(
                    done_cur,
                    mv,
                ));
            }
            let cur_len = events_len(&ev);
            proof {
                assert(idx + plen as int <= cur_len as int);
            }
            idx = idx + plen;
        } else {
            proof {
                let cur = event_model(ev);
                let cur_suf = cur.subrange(idx as int, cur.len() as int);
                assert(cur.subrange(idx + 1, cur.len() as int) =~= cur_suf.subrange(
                    1,
                    cur_suf.len() as int,
                ));
                assert(cur_suf == md.subrange(k as int, md.len() as int));
                assert(cur_suf.subrange(1, cur_suf.len() as int) =~= md.subrange(
                    k + 1,
                    md.len() as int,
                ));
                // an untouched event extends the consumed prefix by itself
                let done_pre = md.subrange(0, k as int);
                let done_cur = md.subrange(0, k + 1);
                assert(done_cur.drop_last() =~= done_pre);
                assert(done_cur.last() == md[k as int]);
                assert(md[k as int].0 != EV_TEXT);
                assert(spliced_model(done_cur, mv) == spliced_model(done_pre, mv) + seq![
                    md[k as int],
                ]);
                assert(cur.subrange(0, idx + 1) =~= cur.subrange(0, idx as int) + seq![
                    cur[idx as int],
                ]);
                assert(cur.subrange(0, idx + 1) == spliced_model(done_cur, mv));
            }
            let cur_len = events_len(&ev);
            proof {
                assert(idx < cur_len);
            }
            idx = idx + 1;
        }
        k += 1;
    }
    let ghost gev = ev;
    let html = render_events(ev);
    proof {
        let rewritten = rewrite_from(content@, 0, keys).0;
        assert(placeholder_str@ == out_chars@);
        assert(out_chars@ == rewritten);
        assert(md == md_model(rewritten));
        assert(event_model(gev).len() == idx as int);
        assert(event_model(gev).subrange(0, idx as int) =~= event_model(gev));
        assert(md.subrange(0, total as int) =~= md);
        assert(event_model(gev) == spliced_model(md, mv));
        let frags = frag_v.subrange(0, cited_v.len() as int);
        assert(anchor_mapping(cited_v, frags) =~= anchor_mapping(cited_v, frag_v));
        assert(frags.len() == cited_v.len());
        assert(event_model(gev) == spliced_model(
            md_model(rewritten),
            anchor_mapping(cited_v, frags),
        ));
        assert(html@ == rendered_events(gev));
        assert(is_substituted_render(html@, rewritten, cited_v));
    }
    Ok(
        CitationResult {
            html_content: html,
            references_html,
            has_citations: cited.len() > 0,
        },
    )
}

/// Membership of a sequence's set implies membership of the sequence.
pub proof fn lemma_to_set_back(s: Seq<Seq<char>>, k: Seq<char>)
    requires
        s.to_set().contains(k),
    ensures
        s.contains(k),
{
    broadcast use vstd::seq_lib::group_seq_properties;

}

} // verus!
