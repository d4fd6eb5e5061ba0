//! The remote-resource cache policy: one payload file and one metadata
//! record per named resource, valid while the recorded fetch time is
//! within the configured time-to-live, refetched otherwise. Resource
//! names are normalized before any path is built, so equivalent names
//! share one cache entry.

use vstd::prelude::*;
use crate::text::{chars_of, string_from_chars};
use crate::markers::append_chars;
use crate::post::{ext_of_base, last_at, stem_of_base};

verus! {

/// The default time-to-live of a cached resource: 24 hours, in seconds.
pub const DEFAULT_CACHE_TTL_SECS: u64 = 24 * 60 * 60;

/// Whether a resource fetched at `fetched_at` is still fresh at `now`:
/// the age, `now - fetched_at`, lies strictly below the time-to-live.
/// A fetch time in the future (a clock that moved backwards) gives a
/// negative age, which is below any time-to-live.
pub open spec fn spec_is_fresh(now: u64, fetched_at: u64, ttl: u64) -> bool {
    now - fetched_at < ttl
}

/// Decide freshness of a cached resource.
pub fn is_fresh(now: u64, fetched_at: u64, ttl: u64) -> (r: bool)
    ensures
        r == spec_is_fresh(now, fetched_at, ttl),
{
    now < fetched_at || now - fetched_at < ttl
}

/// What a cache read decides: serve the cached payload, or fetch anew.
#[derive(Debug, PartialEq, Eq, Structural)]
pub enum CachePlan {
    /// Metadata is fresh and a payload is present: use it.
    UseCached,
    /// Missing or stale metadata, or a missing payload: fetch.
    Refetch,
}

/// The cache policy over one resource: serve only a present payload whose
/// metadata exists and is fresh.
pub open spec fn spec_cache_plan(
    meta_fetched_at: Option<u64>,
    payload_present: bool,
    now: u64,
    ttl: u64,
) -> CachePlan {
    match meta_fetched_at {
        Some(t) => if spec_is_fresh(now, t, ttl) && payload_present {
            CachePlan::UseCached
        } else {
            CachePlan::Refetch
        },
        None => CachePlan::Refetch,
    }
}

/// Decide a cache read. `meta_fetched_at` is the fetch time recorded in
/// the metadata record, `None` when that record is missing or unreadable;
/// `payload_present` says whether the payload file could be read.
pub fn plan_cache_read(
    meta_fetched_at: Option<u64>,
    payload_present: bool,
    now: u64,
    ttl: u64,
) -> (r: CachePlan)
    ensures
        r == spec_cache_plan(meta_fetched_at, payload_present, now, ttl),
{
    match meta_fetched_at {
        Some(t) => if is_fresh(now, t, ttl) && payload_present {
            CachePlan::UseCached
        } else {
            CachePlan::Refetch
        },
        None => CachePlan::Refetch,
    }
}

/// Law: a cached resource at least as old as the time-to-live is
/// refetched; a younger one with its payload present is served from the
/// cache without any fetch.
pub proof fn lemma_cache_ttl(fetched_at: u64, now: u64, ttl: u64)
    requires
        fetched_at <= now,
    ensures
        now - fetched_at >= ttl ==> spec_cache_plan(Some(fetched_at), true, now, ttl)
            == CachePlan::Refetch,
        now - fetched_at < ttl ==> spec_cache_plan(Some(fetched_at), true, now, ttl)
            == CachePlan::UseCached,
{
}

/// Whether `s` ends with `suffix`.
pub open spec fn ends_with(s: Seq<char>, suffix: Seq<char>) -> bool {
    s.len() >= suffix.len() && s.subrange(s.len() - suffix.len(), s.len() as int) == suffix
}

/// A normalized style name: the canonical `.csl` extension is appended
/// when absent, so equivalent names share one cache entry.
pub open spec fn normalized_style_name(s: Seq<char>) -> Seq<char> {
    if ends_with(s, ".csl"@) {
        s
    } else {
        s + ".csl"@
    }
}

/// Normalize a style name before any cache path is built from it.
pub fn normalize_style_name(name: &str) -> (r: String)
    ensures
        r@ == normalized_style_name(name@),
{
    let v = chars_of(name);
    let suffix = chars_of(".csl");
    let n = v.len();
    let m = suffix.len();
    let has = if m > n {
        proof {
            assert(!ends_with(name@, ".csl"@));
        }
        false
    } else {
        let tail = crate::post::slice_chars(&v, n - m, n);
        let e = crate::markers::seq_eq(&tail, &suffix);
        proof {
            assert(tail@ == name@.subrange(name@.len() - ".csl"@.len(), name@.len() as int));
        }
        e
    };
    if has {
        name.to_owned()
    } else {
        let mut out = v;
        append_chars(&mut out, &suffix);
        string_from_chars(&out)
    }
}

/// The cache-relative path of a locale payload: `locales/<code>.xml`.
pub open spec fn locale_cache_path(lang: Seq<char>) -> Seq<char> {
    "locales/"@ + lang + ".xml"@
}

/// Build the cache-relative path of a locale payload.
pub fn locale_cache_rel_path(lang_code: &str) -> (r: String)
    ensures
        r@ == locale_cache_path(lang_code@),
{
    let mut out = chars_of("locales/");
    let lang = chars_of(lang_code);
    let ext = chars_of(".xml");
    append_chars(&mut out, &lang);
    append_chars(&mut out, &ext);
    string_from_chars(&out)
}

/// The cache-relative path of a style payload: `styles/<name>` with the
/// name normalized.
pub open spec fn style_cache_path(name: Seq<char>) -> Seq<char> {
    "styles/"@ + normalized_style_name(name)
}

/// Build the cache-relative path of a style payload.
pub fn style_cache_rel_path(style_name: &str) -> (r: String)
    ensures
        r@ == style_cache_path(style_name@),
{
    let mut out = chars_of("styles/");
    let normalized = normalize_style_name(style_name);
    let name = chars_of(normalized.as_str());
    append_chars(&mut out, &name);
    string_from_chars(&out)
}

/// Read a style through the cache policy: a fresh cached payload that
/// parses is served; anything else — stale or missing cache, or a
/// payload that no longer parses — asks for a fetch.
pub fn style_from_cache(
    meta_fetched_at: Option<u64>,
    payload: Option<String>,
    now: u64,
    ttl: u64,
) -> (r: Option<hayagriva::citationberg::IndependentStyle>)
    ensures
        r is Some <==> (spec_cache_plan(meta_fetched_at, payload is Some, now, ttl)
            == CachePlan::UseCached && crate::bib::style_parses(payload->0@)),
{
    match plan_cache_read(meta_fetched_at, payload.is_some(), now, ttl) {
        CachePlan::UseCached => match payload {
            Some(p) => crate::bib::parse_style(p.as_str()),
            None => None,
        },
        CachePlan::Refetch => None,
    }
}

/// Parse a freshly fetched style; a fetch that does not parse is a
/// style error.
pub fn style_from_fetched(content: &str) -> (r: Result<
    hayagriva::citationberg::IndependentStyle,
    crate::BuildError,
>)
    ensures
        match r {
            Ok(_) => crate::bib::style_parses(content@),
            Err(e) => e == crate::BuildError::StyleParse && !crate::bib::style_parses(content@),
        },
{
    match crate::bib::parse_style(content) {
        Some(s) => Ok(s),
        None => Err(crate::BuildError::StyleParse),
    }
}

/// Read a locale through the cache policy, as `style_from_cache` does
/// for styles.
pub fn locale_from_cache(
    meta_fetched_at: Option<u64>,
    payload: Option<String>,
    now: u64,
    ttl: u64,
) -> (r: Option<hayagriva::citationberg::LocaleFile>)
    ensures
        r is Some <==> (spec_cache_plan(meta_fetched_at, payload is Some, now, ttl)
            == CachePlan::UseCached && crate::bib::locale_parses(payload->0@)),
{
    match plan_cache_read(meta_fetched_at, payload.is_some(), now, ttl) {
        CachePlan::UseCached => match payload {
            Some(p) => crate::bib::parse_locale_file(p.as_str()),
            None => None,
        },
        CachePlan::Refetch => None,
    }
}

/// Parse a freshly fetched locale; a fetch that does not parse is a
/// locale error.
pub fn locale_from_fetched(content: &str) -> (r: Result<
    hayagriva::citationberg::LocaleFile,
    crate::BuildError,
>)
    ensures
        match r {
            Ok(_) => crate::bib::locale_parses(content@),
            Err(e) => e == crate::BuildError::LocaleParse && !crate::bib::locale_parses(content@),
        },
{
    match crate::bib::parse_locale_file(content) {
        Some(l) => Ok(l),
        None => Err(crate::BuildError::LocaleParse),
    }
}

/// One entry of the remote style listing.
#[derive(Debug)]
pub struct StyleMetadata {
    /// The style's file name.
    pub name: String,
    /// The style's human-readable title.
    pub title: String,
    /// Publication timestamp of the listing entry.
    pub published: i64,
    /// Whether the style depends on another style.
    pub is_dependent: Option<bool>,
}

/// What lowercasing a text yields.
pub uninterp spec fn lower_of(s: Seq<char>) -> Seq<char>;

/// Lowercase a text.
///
/// Relies on `str::to_lowercase`: the result depends on the characters
/// alone.
#[verifier::external_body]
pub fn lowercase(s: &str) -> (r: String)
    ensures
        r@ == lower_of(s@),
{
    s.to_lowercase()
}

/// Whether a listing entry matches a query: its lowercased name or
/// title holds the lowercased query.
pub open spec fn style_matches_query(s: StyleMetadata, q: Seq<char>) -> bool {
    crate::text::contains_seq(lower_of(s.name@), lower_of(q)) || crate::text::contains_seq(
        lower_of(s.title@),
        lower_of(q),
    )
}

/// The listing entries matching a query, in listing order.
pub open spec fn filtered_styles(s: Seq<StyleMetadata>, q: Seq<char>) -> Seq<StyleMetadata>
    decreases s.len(),
{
    if s.len() == 0 {
        Seq::empty()
    } else {
        let rest = filtered_styles(s.drop_last(), q);
        if style_matches_query(s.last(), q) {
            rest.push(s.last())
        } else {
            rest
        }
    }
}

/// Keep the listing entries matching a query, case-insensitively, in
/// listing order.
pub fn filter_styles(styles: Vec<StyleMetadata>, query: &str) -> (r: Vec<StyleMetadata>)
    ensures
        r@ == filtered_styles(styles@, query@),
{
    let ghost orig = styles@;
    let q = lowercase(query);
    let qv = chars_of(q.as_str());
    let mut rest = styles;
    let mut r: Vec<StyleMetadata> = Vec::new();
    proof {
        assert(orig.subrange(orig.len() - rest@.len(), orig.len() as int) =~= rest@);
        assert(orig.subrange(0, 0) =~= Seq::<StyleMetadata>::empty());
        assert(r@ =~= filtered_styles(orig.subrange(0, 0), query@));
    }
    loop
        invariant
            orig == styles@,
            qv@ == lower_of(query@),
            rest@.len() <= orig.len(),
            rest@ == orig.subrange(orig.len() - rest@.len(), orig.len() as int),
            r@ == filtered_styles(orig.subrange(0, orig.len() - rest@.len()), query@),
        decreases rest@.len(),
    {
        if rest.len() == 0 {
            proof {
                assert(orig.subrange(0, orig.len() as int) =~= orig);
            }
            return r;
        }
        let ghost k = orig.len() - rest@.len();
        let x = rest.remove(0);
        proof {
            assert(x == orig[k]);
            assert(rest@ =~= orig.subrange(orig.len() - rest@.len(), orig.len() as int));
        }
        let name_l = lowercase(x.name.as_str());
        let name_v = chars_of(name_l.as_str());
        let title_l = lowercase(x.title.as_str());
        let title_v = chars_of(title_l.as_str());
        let name_hit = matches!(crate::text::find_seq(&name_v, 0, &qv), Some(_));
        let title_hit = matches!(crate::text::find_seq(&title_v, 0, &qv), Some(_));
        proof {
            if name_hit {
                assert(crate::text::contains_seq(lower_of(x.name@), lower_of(query@)));
            } else {
                if crate::text::contains_seq(lower_of(x.name@), lower_of(query@)) {
                    let w = choose|w: int| crate::text::matches_at(name_v@, w, qv@);
                    assert(false);
                }
            }
            if title_hit {
                assert(crate::text::contains_seq(lower_of(x.title@), lower_of(query@)));
            } else {
                if crate::text::contains_seq(lower_of(x.title@), lower_of(query@)) {
                    let w = choose|w: int| crate::text::matches_at(title_v@, w, qv@);
                    assert(false);
                }
            }
        }
        let ghost pre = r@;
        if name_hit || title_hit {
            r.push(x);
        }
        proof {
            let done = orig.subrange(0, k + 1);
            assert(done.drop_last() =~= orig.subrange(0, k));
            assert(done.last() == orig[k]);
            if style_matches_query(orig[k], query@) {
                assert(r@ =~= pre.push(orig[k]));
            }
            assert(r@ == filtered_styles(done, query@));
        }
    }
}

/// The metadata record's path beside a payload path: the extension of
/// the last path component is replaced by `meta` (appended when the
/// component has none).
pub open spec fn meta_path_of(payload: Seq<char>) -> Seq<char> {
    match last_at(payload, '/') {
        Some(i) => payload.subrange(0, i + 1) + meta_base_of(
            payload.subrange(i + 1, payload.len() as int),
        ),
        None => meta_base_of(payload),
    }
}

/// The metadata file name beside a payload file name.
pub open spec fn meta_base_of(base: Seq<char>) -> Seq<char> {
    match ext_of_base(base) {
        Some(_) => stem_of_base(base) + ".meta"@,
        None => base + ".meta"@,
    }
}

/// Build the metadata record's path beside a payload path.
pub fn meta_path_for(payload: &str) -> (r: String)
    ensures
        r@ == meta_path_of(payload@),
{
    let v = chars_of(payload);
    let n = v.len();
    let ext = chars_of(".meta");
    let dir_end: usize = match crate::post::find_last(&v, '/') {
        Some(i) => {
            proof {
                assert(i < n);
            }
            i + 1
        },
        None => 0,
    };
    let base = crate::post::slice_chars(&v, dir_end, v.len());
    proof {
        if last_at(payload@, '/') is Some {
            assert(base@ == payload@.subrange(
                last_at(payload@, '/')->0 + 1,
                payload@.len() as int,
            ));
        } else {
            assert(base@ =~= payload@);
        }
    }
    let mut out = crate::post::slice_chars(&v, 0, dir_end);
    let stem = match crate::post::find_last(&base, '.') {
        Some(i) => if i > 0 {
            crate::post::slice_chars(&base, 0, i)
        } else {
            crate::post::slice_chars(&base, 0, base.len())
        },
        None => crate::post::slice_chars(&base, 0, base.len()),
    };
    proof {
        assert(base@.subrange(0, base@.len() as int) =~= base@);
        match ext_of_base(base@) {
            Some(_) => {
                assert(stem@ == stem_of_base(base@));
            },
            None => {
                assert(stem@ == base@);
            },
        }
    }
    append_chars(&mut out, &stem);
    append_chars(&mut out, &ext);
    proof {
        if last_at(payload@, '/') is Some {
            let i = last_at(payload@, '/')->0;
            assert(out@ =~= payload@.subrange(0, i + 1) + meta_base_of(
                payload@.subrange(i + 1, payload@.len() as int),
            ));
        } else {
            assert(out@ =~= meta_base_of(payload@));
        }
    }
    string_from_chars(&out)
}

} // verus!
