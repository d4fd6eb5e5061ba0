//! The bibliography engine boundary: declarations and trusted wrappers
//! around the outside citation library — bibliographic libraries keyed
//! by entry, style and locale definitions, and the two formatting
//! accumulators that render in-text citations and the reference list.
//!
//! A `Library` is modeled by the sequence of its entry keys,
//! `lib_keys`, in insertion order; the accumulator by the sequence of
//! keys cited into it, `acc_cites`, in citation order.

use vstd::prelude::*;

verus! {

/// A collection of bibliographic entries, keyed uniquely, in insertion
/// order (a type of the outside citation library).
#[verifier::external_type_specification]
#[verifier::external_body]
pub struct ExLibrary(hayagriva::Library);

/// One bibliographic entry (a type of the outside citation library).
#[verifier::external_type_specification]
#[verifier::external_body]
pub struct ExEntry(hayagriva::Entry);

/// A parsed independent citation style (a type of the outside citation
/// library).
#[verifier::external_type_specification]
#[verifier::external_body]
pub struct ExIndependentStyle(hayagriva::citationberg::IndependentStyle);

/// A locale bundled for formatting (a type of the outside citation
/// library).
#[verifier::external_type_specification]
#[verifier::external_body]
pub struct ExLocale(hayagriva::citationberg::Locale);

/// A parsed locale file (a type of the outside citation library).
#[verifier::external_type_specification]
#[verifier::external_body]
pub struct ExLocaleFile(hayagriva::citationberg::LocaleFile);

/// The keys of a library's entries, in insertion order, each exactly once.
pub uninterp spec fn lib_keys(lib: hayagriva::Library) -> Seq<Seq<char>>;

/// The keys a YAML bibliography source denotes, or `None` when it does
/// not parse.
pub uninterp spec fn yaml_bib_keys(s: Seq<char>) -> Option<Seq<Seq<char>>>;

/// The keys a BibLaTeX bibliography source denotes, or `None` when it
/// does not parse.
pub uninterp spec fn biblatex_bib_keys(s: Seq<char>) -> Option<Seq<Seq<char>>>;

/// Whether a style source parses as an independent style.
pub uninterp spec fn style_parses(s: Seq<char>) -> bool;

/// Whether a locale source parses as a locale file.
pub uninterp spec fn locale_parses(s: Seq<char>) -> bool;

/// Construct an empty library.
///
/// Relies on `hayagriva::Library::new`: the new library has no entries.
#[verifier::external_body]
pub fn lib_new() -> (r: hayagriva::Library)
    ensures
        lib_keys(r) == Seq::<Seq<char>>::empty(),
{
    hayagriva::Library::new()
}

/// The number of entries of a library.
///
/// Relies on `hayagriva::Library::len`: the size of the underlying map.
#[verifier::external_body]
pub fn lib_len(lib: &hayagriva::Library) -> (r: usize)
    ensures
        r == lib_keys(*lib).len(),
{
    lib.len()
}

/// The key of the library's `i`-th entry.
///
/// Relies on `hayagriva::Library::nth` and `Entry::key`: entries are
/// stored in insertion order under their own key.
#[verifier::external_body]
pub fn lib_key_at(lib: &hayagriva::Library, i: usize) -> (r: String)
    requires
        i < lib_keys(*lib).len(),
    ensures
        r@ == lib_keys(*lib)[i as int],
{
    lib.nth(i).expect("index within library length").key().to_string()
}

/// Copy the `i`-th entry of `src` into `dst`. An entry whose key is
/// already present replaces the stored entry and leaves the key order
/// unchanged; a new key is appended.
///
/// Relies on `hayagriva::Library::push`, a keyed map insert, and
/// `Library::nth`.
#[verifier::external_body]
pub fn lib_push_nth(dst: &mut hayagriva::Library, src: &hayagriva::Library, i: usize)
    requires
        i < lib_keys(*src).len(),
    ensures
        lib_keys(*final(dst)) == if lib_keys(*old(dst)).contains(lib_keys(*src)[i as int]) {
            lib_keys(*old(dst))
        } else {
            lib_keys(*old(dst)).push(lib_keys(*src)[i as int])
        },
{
    dst.push(src.nth(i).expect("index within library length"))
}

/// Parse a YAML bibliography.
///
/// Relies on `hayagriva::io::from_yaml_str`: on success the library
/// holds one entry per distinct key of the source, in order.
#[verifier::external_body]
pub fn parse_yaml_bibliography(s: &str) -> (r: Option<hayagriva::Library>)
    ensures
        r is Some <==> yaml_bib_keys(s@) is Some,
        match r {
            Some(lib) => yaml_bib_keys(s@) == Some(lib_keys(lib)) && lib_keys(
                lib,
            ).no_duplicates(),
            None => true,
        },
{
    hayagriva::io::from_yaml_str(s).ok()
}

/// Parse a BibLaTeX bibliography.
///
/// Relies on `hayagriva::io::from_biblatex_str`: on success the library
/// holds one entry per distinct key of the source, in order.
#[verifier::external_body]
pub fn parse_biblatex_bibliography(s: &str) -> (r: Option<hayagriva::Library>)
    ensures
        r is Some <==> biblatex_bib_keys(s@) is Some,
        match r {
            Some(lib) => biblatex_bib_keys(s@) == Some(lib_keys(lib)) && lib_keys(
                lib,
            ).no_duplicates(),
            None => true,
        },
{
    hayagriva::io::from_biblatex_str(s).ok()
}

/// Parse an independent citation style.
///
/// Relies on `citationberg::IndependentStyle::from_xml`: a pure parse of
/// the XML source.
#[verifier::external_body]
pub fn parse_style(s: &str) -> (r: Option<hayagriva::citationberg::IndependentStyle>)
    ensures
        r is Some <==> style_parses(s@),
{
    hayagriva::citationberg::IndependentStyle::from_xml(s).ok()
}

/// Parse a locale file.
///
/// Relies on `citationberg::LocaleFile::from_xml`: a pure parse of the
/// XML source.
#[verifier::external_body]
pub fn parse_locale_file(s: &str) -> (r: Option<hayagriva::citationberg::LocaleFile>)
    ensures
        r is Some <==> locale_parses(s@),
{
    hayagriva::citationberg::LocaleFile::from_xml(s).ok()
}

/// Bundle a parsed locale file for formatting.
///
/// Relies on `Locale::from(LocaleFile)`.
#[verifier::external_body]
pub fn locale_of_file(f: hayagriva::citationberg::LocaleFile) -> hayagriva::citationberg::Locale {
    hayagriva::citationberg::Locale::from(f)
}

/// A formatting accumulator: citation requests against one style and
/// locale set, rendered together at the end.
#[verifier::external_body]
pub struct CiteAccumulator<'a> {
    driver: hayagriva::BibliographyDriver<'a, hayagriva::Entry>,
}

/// The keys cited into an accumulator, in citation order.
pub uninterp spec fn acc_cites(a: CiteAccumulator) -> Seq<Seq<char>>;

/// Construct an empty accumulator.
///
/// Relies on `hayagriva::BibliographyDriver::new`: no citations yet.
#[verifier::external_body]
pub fn acc_new<'a>() -> (r: CiteAccumulator<'a>)
    ensures
        acc_cites(r) == Seq::<Seq<char>>::empty(),
{
    CiteAccumulator { driver: hayagriva::BibliographyDriver::new() }
}

/// Cite the library's entry under `key` into the accumulator.
///
/// Relies on `hayagriva::BibliographyDriver::citation` with a request of
/// one item: it appends one citation for the entry stored under `key`.
#[verifier::external_body]
pub fn acc_cite<'a>(
    a: &mut CiteAccumulator<'a>,
    style: &'a hayagriva::citationberg::IndependentStyle,
    locales: &'a Vec<hayagriva::citationberg::Locale>,
    lib: &'a hayagriva::Library,
    key: &str,
)
    requires
        lib_keys(*lib).contains(key@),
    ensures
        acc_cites(*final(a)) == acc_cites(*old(a)).push(key@),
{
    let entry = lib.get(key).expect("key present in library");
    let items = vec![hayagriva::CitationItem::with_entry(entry)];
    a.driver.citation(hayagriva::CitationRequest::from_items(
        items,
        style,
        locales.as_slice(),
    ));
}

/// Render the accumulated citations: one formatted in-text fragment per
/// citation, in citation order, and — when the style defines a
/// reference list — one formatted reference item per distinct cited
/// entry, each under its key.
///
/// Relies on `hayagriva::BibliographyDriver::finish`: rendered citations
/// follow the request order one to one; the reference list holds each
/// distinct cited entry exactly once, keyed by the entry's key.
#[verifier::external_body]
pub fn acc_finish<'a>(
    a: CiteAccumulator<'a>,
    style: &hayagriva::citationberg::IndependentStyle,
    locales: &Vec<hayagriva::citationberg::Locale>,
) -> (r: (Vec<String>, Option<Vec<(String, String)>>))
    ensures
        r.0@.len() == acc_cites(a).len(),
        match r.1 {
            Some(items) => {
                let item_keys = items@.map_values(|p: (String, String)| p.0@);
                &&& forall|k: Seq<char>|
                    #[trigger] item_keys.contains(k) <==> acc_cites(a).contains(k)
                &&& acc_cites(a).no_duplicates() ==> item_keys.no_duplicates()
            },
            None => true,
        },
{
    let rendered = a.driver.finish(hayagriva::BibliographyRequest {
        style,
        locale: None,
        locale_files: locales.as_slice(),
    });
    let cites = rendered.citations.iter().map(|c| c.citation.to_string()).collect();
    let bib = rendered.bibliography.map(|b| {
        b.items.into_iter().map(|it| (it.key, it.content.to_string())).collect()
    });
    (cites, bib)
}

/// The key order after merging `b` into `a` entry by entry: keys of `b`
/// already present replace their entry in place, new keys are appended.
pub open spec fn merged_keys(a: Seq<Seq<char>>, b: Seq<Seq<char>>) -> Seq<Seq<char>>
    decreases b.len(),
{
    if b.len() == 0 {
        a
    } else {
        let m = merged_keys(a, b.drop_last());
        if m.contains(b.last()) {
            m
        } else {
            m.push(b.last())
        }
    }
}

/// Merge every entry of `src` into `dst`, in order.
pub fn merge_libraries(dst: &mut hayagriva::Library, src: &hayagriva::Library)
    ensures
        lib_keys(*final(dst)) == merged_keys(lib_keys(*old(dst)), lib_keys(*src)),
{
    let n = lib_len(src);
    let mut i: usize = 0;
    proof {
        assert(lib_keys(*src).subrange(0, 0) =~= Seq::<Seq<char>>::empty());
    }
    while i < n
        invariant
            i <= n,
            n == lib_keys(*src).len(),
            lib_keys(*dst) == merged_keys(lib_keys(*old(dst)), lib_keys(*src).subrange(0, i as int)),
        decreases n - i,
    {
        lib_push_nth(dst, src, i);
        i += 1;
        proof {
            let pre = lib_keys(*src).subrange(0, i - 1);
            let cur = lib_keys(*src).subrange(0, i as int);
            assert(cur.drop_last() =~= pre);
            assert(cur.last() == lib_keys(*src)[i - 1]);
        }
    }
    proof {
        assert(lib_keys(*src).subrange(0, n as int) =~= lib_keys(*src));
    }
}

/// Membership after a merge: exactly the keys of both sides.
pub proof fn lemma_merged_keys_contains(a: Seq<Seq<char>>, b: Seq<Seq<char>>)
    ensures
        forall|k: Seq<char>| #[trigger]
            merged_keys(a, b).contains(k) == (a.contains(k) || b.contains(k)),
        a.no_duplicates() ==> merged_keys(a, b).no_duplicates(),
    decreases b.len(),
{
    if b.len() > 0 {
        lemma_merged_keys_contains(a, b.drop_last());
        let m = merged_keys(a, b.drop_last());
        assert forall|k: Seq<char>| #[trigger]
            merged_keys(a, b).contains(k) == (a.contains(k) || b.contains(k)) by {
            if b.contains(k) {
                let j = choose|j: int| 0 <= j < b.len() && b[j] == k;
                if j < b.len() - 1 {
                    assert(b.drop_last()[j] == k);
                    assert(b.drop_last().contains(k));
                    assert(m.contains(k));
                    if !m.contains(b.last()) {
                        let j2 = choose|j2: int| 0 <= j2 < m.len() && m[j2] == k;
                        assert(m.push(b.last())[j2] == k);
                        assert(m.push(b.last()).contains(k));
                    }
                } else {
                    assert(b.last() == k);
                    if m.contains(b.last()) {
                        assert(m.contains(k));
                    } else {
                        assert(m.push(b.last())[m.len() as int] == k);
                        assert(m.push(b.last()).contains(k));
                    }
                }
                assert(merged_keys(a, b).contains(k));
            } else if a.contains(k) {
                assert(m.contains(k));
                if !m.contains(b.last()) {
                    let j2 = choose|j2: int| 0 <= j2 < m.len() && m[j2] == k;
                    assert(m.push(b.last())[j2] == k);
                    assert(m.push(b.last()).contains(k));
                }
                assert(merged_keys(a, b).contains(k));
            } else {
                assert(!b.drop_last().contains(k)) by {
                    if b.drop_last().contains(k) {
                        let j = choose|j: int| 0 <= j < b.len() - 1 && b.drop_last()[j] == k;
                        assert(b[j] == k);
                        assert(b.contains(k));
                    }
                }
                assert(b.last() != k) by {
                    assert(b[b.len() - 1] == b.last());
                    if b.last() == k {
                        assert(b.contains(k));
                    }
                }
                assert(!m.contains(k));
                if m.contains(b.last()) {
                    assert(!merged_keys(a, b).contains(k));
                } else {
                    assert(!m.push(b.last()).contains(k)) by {
                        if m.push(b.last()).contains(k) {
                            let j = choose|j: int|
                                0 <= j < m.push(b.last()).len() && m.push(b.last())[j] == k;
                            if j < m.len() {
                                assert(m[j] == k);
                                assert(m.contains(k));
                            } else {
                                assert(m.push(b.last())[j] == b.last());
                            }
                        }
                    }
                    assert(!merged_keys(a, b).contains(k));
                }
            }
        }
        if a.no_duplicates() {
            if !m.contains(b.last()) {
                assert forall|x: int, y: int|
                    0 <= x < y < m.push(b.last()).len() implies m.push(b.last())[x] != m.push(
                    b.last(),
                )[y] by {
                    if y < m.len() {
                    } else {
                        assert(m.push(b.last())[y] == b.last());
                        assert(m.push(b.last())[x] == m[x]);
                        assert(m.contains(m[x]));
                    }
                }
            }
        }
    }
}

/// Law: merging libraries with pairwise-new keys appends them all —
/// pages with distinct, non-overlapping keys merge without duplicates
/// or omissions.
pub proof fn lemma_merge_disjoint(a: Seq<Seq<char>>, b: Seq<Seq<char>>)
    requires
        b.no_duplicates(),
        forall|k: Seq<char>| b.contains(k) ==> !a.contains(k),
    ensures
        merged_keys(a, b) == a + b,
        merged_keys(a, b).len() == a.len() + b.len(),
    decreases b.len(),
{
    if b.len() == 0 {
        assert(merged_keys(a, b) =~= a + b);
    } else {
        assert(b.drop_last().no_duplicates()) by {
            assert(forall|x: int, y: int|
                0 <= x < y < b.len() - 1 ==> b.drop_last()[x] == b[x] && b.drop_last()[y] == b[y]);
        }
        assert(forall|k: Seq<char>| b.drop_last().contains(k) ==> #[trigger] b.contains(k)) by {
            assert forall|k: Seq<char>| b.drop_last().contains(k) implies #[trigger] b.contains(
                k,
            ) by {
                let j = choose|j: int| 0 <= j < b.len() - 1 && b.drop_last()[j] == k;
                assert(b[j] == k);
            }
        }
        lemma_merge_disjoint(a, b.drop_last());
        let m = merged_keys(a, b.drop_last());
        assert(b.contains(b.last())) by {
            assert(b[b.len() - 1] == b.last());
        }
        assert(!a.contains(b.last()));
        assert(!b.drop_last().contains(b.last()));
        assert(!m.contains(b.last())) by {
            if m.contains(b.last()) {
                let j = choose|j: int| 0 <= j < m.len() && m[j] == b.last();
                if j < a.len() {
                    assert(a[j] == b.last());
                    assert(a.contains(b.last()));
                } else {
                    assert(b.drop_last()[j - a.len()] == b.last());
                    assert(b.drop_last().contains(b.last()));
                }
            }
        }
        assert(m.push(b.last()) =~= a + b);
    }
}

} // verus!
