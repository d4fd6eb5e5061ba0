//! Output artifacts and the string rules around them: slugs derived from
//! file names, derived-image paths, tag lists, and the resize filter
//! selection.

use vstd::prelude::*;
use crate::text::{chars_of, string_from_chars};
use crate::markers::append_chars;

verus! {

/// The three public paths of a processed cover image.
#[derive(Debug)]
pub struct CoverImage {
    /// Path of the unscaled copy.
    pub original: String,
    /// Path of the cover-sized variant.
    pub cover: String,
    /// Path of the thumbnail-sized variant.
    pub thumbnail: String,
}

/// One rendered document, as persisted to its output file.
#[derive(Debug)]
pub struct Post {
    pub title: String,
    /// Publication time in seconds since the epoch.
    pub date: i64,
    pub slug: String,
    /// Rendered body markup.
    pub content: String,
    pub description: Option<String>,
    pub tags: Vec<String>,
    pub cover: Option<CoverImage>,
}

/// The metadata block of a source document, once parsed.
#[derive(Debug)]
pub struct PostMetadata {
    pub title: Option<String>,
    /// Publication time in seconds since the epoch.
    pub date: Option<i64>,
    pub description: Option<String>,
    /// Comma-separated tag list, as written.
    pub tags: Option<String>,
    /// Cover image file name.
    pub cover: Option<String>,
}

/// One entry of the aggregated index.
#[derive(Debug)]
pub struct PostSummary {
    pub title: String,
    /// Publication time in seconds since the epoch.
    pub date: i64,
    pub slug: String,
    pub description: Option<String>,
    pub tags: Vec<String>,
    pub cover: Option<CoverImage>,
}

/// The aggregated index of all successfully processed documents.
#[derive(Debug)]
pub struct PostIndex {
    pub posts: Vec<PostSummary>,
}

/// Position of the last occurrence of `c` in `s`, if any.
pub open spec fn last_at(s: Seq<char>, c: char) -> Option<int>
    decreases s.len(),
{
    if s.len() == 0 {
        None
    } else if s.last() == c {
        Some(s.len() - 1)
    } else {
        last_at(s.drop_last(), c)
    }
}

/// The last path component of `s`: everything after the final slash.
pub open spec fn base_name_of(s: Seq<char>) -> Seq<char> {
    match last_at(s, '/') {
        Some(i) => s.subrange(i + 1, s.len() as int),
        None => s,
    }
}

/// The stem of a file name: the part before the final dot, except that a
/// name whose only dot leads it, or that has no dot, is its own stem.
pub open spec fn stem_of_base(b: Seq<char>) -> Seq<char> {
    match last_at(b, '.') {
        Some(i) => if i > 0 {
            b.subrange(0, i)
        } else {
            b
        },
        None => b,
    }
}

/// The extension of a file name: the part after the final dot, if the name
/// has a stem before it.
pub open spec fn ext_of_base(b: Seq<char>) -> Option<Seq<char>> {
    match last_at(b, '.') {
        Some(i) => if i > 0 {
            Some(b.subrange(i + 1, b.len() as int))
        } else {
            None
        },
        None => None,
    }
}

/// The slug derived from a file name: the stem of its last path component.
pub open spec fn slug_of(s: Seq<char>) -> Seq<char> {
    stem_of_base(base_name_of(s))
}

/// Find the last occurrence of `c` in `v`.
pub fn find_last(v: &Vec<char>, c: char) -> (r: Option<usize>)
    ensures
        match r {
            Some(i) => i < v@.len() && last_at(v@, c) == Some(i as int),
            None => last_at(v@, c) is None,
        },
{
    let mut i = v.len();
    while i > 0
        invariant
            i <= v@.len(),
            forall|j: int| i <= j < v@.len() ==> v@[j] != c,
        decreases i,
    {
        i -= 1;
        if v[i] == c {
            proof {
                lemma_last_at_found(v@, c, i as int);
            }
            return Some(i);
        }
    }
    proof {
        lemma_last_at_none(v@, c);
    }
    None
}

/// If `s[e] == c` and nothing after `e` equals `c`, the last occurrence is `e`.
proof fn lemma_last_at_found(s: Seq<char>, c: char, e: int)
    requires
        0 <= e < s.len(),
        s[e] == c,
        forall|j: int| e < j < s.len() ==> s[j] != c,
    ensures
        last_at(s, c) == Some(e),
    decreases s.len(),
{
    if e == s.len() - 1 {
    } else {
        assert(s.last() != c);
        lemma_last_at_found(s.drop_last(), c, e);
    }
}

/// Without any occurrence of `c`, there is no last occurrence.
proof fn lemma_last_at_none(s: Seq<char>, c: char)
    requires
        forall|j: int| 0 <= j < s.len() ==> s[j] != c,
    ensures
        last_at(s, c) is None,
    decreases s.len(),
{
    if s.len() > 0 {
        lemma_last_at_none(s.drop_last(), c);
    }
}

/// Copy the characters `from..to` of `v`.
pub fn slice_chars(v: &Vec<char>, from: usize, to: usize) -> (r: Vec<char>)
    requires
        from <= to <= v@.len(),
    ensures
        r@ == v@.subrange(from as int, to as int),
{
    let mut r: Vec<char> = Vec::new();
    let mut i = from;
    while i < to
        invariant
            from <= i <= to <= v@.len(),
            r@ == v@.subrange(from as int, i as int),
        decreases to - i,
    {
        r.push(v[i]);
        i += 1;
        proof {
            assert(v@.subrange(from as int, i - 1).push(v@[i - 1]) =~= v@.subrange(
                from as int,
                i as int,
            ));
        }
    }
    r
}

/// The slug of a file name: strip any directory part, then the extension.
///
/// Mirrors taking the file stem of the path: `notes/intro.md` becomes
/// `intro`, a name without a dot is kept whole, and a leading dot alone
/// does not begin an extension.
pub fn sanitize_filename(filename: &str) -> (r: String)
    ensures
        r@ == slug_of(filename@),
{
    let v = chars_of(filename);
    let base = match find_last(&v, '/') {
        Some(i) => slice_chars(&v, i + 1, v.len()),
        None => slice_chars(&v, 0, v.len()),
    };
    proof {
        assert(v@.subrange(0, v@.len() as int) =~= v@);
        assert(base@ == base_name_of(filename@));
    }
    let stem = match find_last(&base, '.') {
        Some(i) => if i > 0 {
            slice_chars(&base, 0, i)
        } else {
            slice_chars(&base, 0, base.len())
        },
        None => slice_chars(&base, 0, base.len()),
    };
    proof {
        assert(base@.subrange(0, base@.len() as int) =~= base@);
        assert(stem@ == stem_of_base(base@));
    }
    string_from_chars(&stem)
}

/// The extension of a file name, after stripping any directory part;
/// `None` when the name gives none.
pub fn extension_of(filename: &str) -> (r: Option<String>)
    ensures
        match r {
            Some(e) => ext_of_base(base_name_of(filename@)) == Some(e@),
            None => ext_of_base(base_name_of(filename@)) is None,
        },
{
    let v = chars_of(filename);
    let base = match find_last(&v, '/') {
        Some(i) => slice_chars(&v, i + 1, v.len()),
        None => slice_chars(&v, 0, v.len()),
    };
    proof {
        assert(v@.subrange(0, v@.len() as int) =~= v@);
        assert(base@ == base_name_of(filename@));
    }
    match find_last(&base, '.') {
        Some(i) => if i > 0 {
            let e = slice_chars(&base, i + 1, base.len());
            Some(string_from_chars(&e))
        } else {
            None
        },
        None => None,
    }
}

/// A public image path: `/images/blog/<slug>-<base><suffix>.<ext>`.
pub open spec fn image_path(slug: Seq<char>, base: Seq<char>, suffix: Seq<char>, ext: Seq<
    char,
>) -> Seq<char> {
    "/images/blog/"@ + slug + "-"@ + base + suffix + "."@ + ext
}

/// Build one public image path.
fn build_image_path(slug: &Vec<char>, base: &Vec<char>, suffix: &str, ext: &Vec<char>) -> (r:
    String)
    ensures
        r@ == image_path(slug@, base@, suffix@, ext@),
{
    let mut out: Vec<char> = Vec::new();
    let head = chars_of("/images/blog/");
    let dash = chars_of("-");
    let dot = chars_of(".");
    let suf = chars_of(suffix);
    append_chars(&mut out, &head);
    append_chars(&mut out, slug);
    append_chars(&mut out, &dash);
    append_chars(&mut out, base);
    append_chars(&mut out, &suf);
    append_chars(&mut out, &dot);
    append_chars(&mut out, ext);
    proof {
        assert(out@ =~= image_path(slug@, base@, suffix@, ext@));
    }
    string_from_chars(&out)
}

/// The extension used for derived images: the source file's own, or `jpg`
/// when the name gives none.
pub open spec fn cover_ext_of(filename: Seq<char>) -> Seq<char> {
    match ext_of_base(base_name_of(filename)) {
        Some(e) => e,
        None => "jpg"@,
    }
}

/// The three public paths of the derived images for a cover declared as
/// `filename` in a document with the given slug.
pub fn create_cover_image_paths(slug: &str, filename: &str) -> (r: CoverImage)
    ensures
        r.original@ == image_path(slug@, slug_of(filename@), ""@, cover_ext_of(filename@)),
        r.cover@ == image_path(slug@, slug_of(filename@), "-cover"@, cover_ext_of(filename@)),
        r.thumbnail@ == image_path(slug@, slug_of(filename@), "-thumb"@, cover_ext_of(filename@)),
{
    let slug_v = chars_of(slug);
    let base_s = sanitize_filename(filename);
    let base = chars_of(base_s.as_str());
    let ext = match extension_of(filename) {
        Some(e) => chars_of(e.as_str()),
        None => chars_of("jpg"),
    };
    CoverImage {
        original: build_image_path(&slug_v, &base, "", &ext),
        cover: build_image_path(&slug_v, &base, "-cover", &ext),
        thumbnail: build_image_path(&slug_v, &base, "-thumb", &ext),
    }
}

/// The resize filters the image settings may name.
#[derive(Debug, Clone, Copy, PartialEq, Eq, Structural)]
pub enum FilterKind {
    Nearest,
    Triangle,
    CatmullRom,
    Gaussian,
    Lanczos3,
}

/// Whether two strings hold the same characters.
pub fn str_eq(a: &str, b: &str) -> (r: bool)
    ensures
        r == (a@ == b@),
{
    let va = chars_of(a);
    let vb = chars_of(b);
    crate::markers::seq_eq(&va, &vb)
}

/// The filter a settings string selects; any unrecognized name falls back
/// to the default filter.
pub open spec fn spec_filter(s: Seq<char>) -> FilterKind {
    if s == "Nearest"@ {
        FilterKind::Nearest
    } else if s == "Triangle"@ {
        FilterKind::Triangle
    } else if s == "CatmullRom"@ {
        FilterKind::CatmullRom
    } else if s == "Gaussian"@ {
        FilterKind::Gaussian
    } else {
        FilterKind::Lanczos3
    }
}

/// Map a configured filter name to the filter it selects.
pub fn get_filter_type(filter_type: &str) -> (r: FilterKind)
    ensures
        r == spec_filter(filter_type@),
{
    if str_eq(filter_type, "Nearest") {
        FilterKind::Nearest
    } else if str_eq(filter_type, "Triangle") {
        FilterKind::Triangle
    } else if str_eq(filter_type, "CatmullRom") {
        FilterKind::CatmullRom
    } else if str_eq(filter_type, "Gaussian") {
        FilterKind::Gaussian
    } else {
        FilterKind::Lanczos3
    }
}

/// Whether a character counts as trimmable whitespace.
pub open spec fn is_space(c: char) -> bool {
    c == ' ' || c == '\t' || c == '\r' || c == '\n'
}

/// `s` without leading whitespace.
pub open spec fn trim_front(s: Seq<char>) -> Seq<char>
    decreases s.len(),
{
    if s.len() > 0 && is_space(s[0]) {
        trim_front(s.drop_first())
    } else {
        s
    }
}

/// `s` without trailing whitespace.
pub open spec fn trim_back(s: Seq<char>) -> Seq<char>
    decreases s.len(),
{
    if s.len() > 0 && is_space(s.last()) {
        trim_back(s.drop_last())
    } else {
        s
    }
}

/// `s` without leading and trailing whitespace.
pub open spec fn trim_spec(s: Seq<char>) -> Seq<char> {
    trim_back(trim_front(s))
}

/// Whether a character counts as trimmable whitespace.
pub fn is_space_char(c: char) -> (r: bool)
    ensures
        r == is_space(c),
{
    c == ' ' || c == '\t' || c == '\r' || c == '\n'
}

/// Trimming from the front keeps a whitespace-free prefix boundary.
proof fn lemma_trim_front_at(s: Seq<char>, a: int)
    requires
        0 <= a <= s.len(),
        forall|j: int| 0 <= j < a ==> is_space(s[j]),
        a < s.len() ==> !is_space(s[a]),
    ensures
        trim_front(s) == s.subrange(a, s.len() as int),
    decreases a,
{
    if a == 0 {
        assert(s.subrange(0, s.len() as int) =~= s);
    } else {
        assert(is_space(s[0]));
        lemma_trim_front_at(s.drop_first(), a - 1);
        assert(s.drop_first().subrange(a - 1, s.drop_first().len() as int) =~= s.subrange(
            a,
            s.len() as int,
        ));
    }
}

/// Trimming from the back keeps a whitespace-free suffix boundary.
proof fn lemma_trim_back_at(s: Seq<char>, b: int)
    requires
        0 <= b <= s.len(),
        forall|j: int| b <= j < s.len() ==> is_space(s[j]),
        b > 0 ==> !is_space(s[b - 1]),
    ensures
        trim_back(s) == s.subrange(0, b),
    decreases s.len() - b,
{
    if b == s.len() {
        assert(s.subrange(0, b) =~= s);
    } else {
        assert(is_space(s.last()));
        lemma_trim_back_at(s.drop_last(), b);
        assert(s.drop_last().subrange(0, b) =~= s.subrange(0, b));
    }
}

/// Remove leading and trailing whitespace.
pub fn trim_chars(v: &Vec<char>) -> (r: Vec<char>)
    ensures
        r@ == trim_spec(v@),
{
    let n = v.len();
    let mut a: usize = 0;
    while a < n && is_space_char(v[a])
        invariant
            a <= n,
            n == v@.len(),
            forall|j: int| 0 <= j < a ==> is_space(v@[j]),
        decreases n - a,
    {
        a += 1;
    }
    proof {
        lemma_trim_front_at(v@, a as int);
    }
    let mut b: usize = n;
    while b > a && is_space_char(v[b - 1])
        invariant
            a <= b <= n,
            n == v@.len(),
            forall|j: int| b <= j < n ==> is_space(v@[j]),
        decreases b,
    {
        b -= 1;
    }
    let r = slice_chars(v, a, b);
    proof {
        let f = v@.subrange(a as int, n as int);
        if b > a {
            assert(!is_space(f[b - a - 1]));
        }
        lemma_trim_back_at(f, b - a);
        assert(f.subrange(0, b - a) =~= v@.subrange(a as int, b as int));
    }
    r
}

/// Position of the first occurrence of `c` at or after `j` in `s`.
pub open spec fn first_at(s: Seq<char>, j: int, c: char) -> Option<int>
    decreases s.len() - j when 0 <= j <= s.len()
{
    if j >= s.len() {
        None
    } else if s[j] == c {
        Some(j)
    } else {
        first_at(s, j + 1, c)
    }
}

/// The pieces of `s` split on commas, in order; empty pieces are kept.
pub open spec fn split_commas(s: Seq<char>) -> Seq<Seq<char>>
    decreases s.len() via split_commas_decreases
{
    match first_at(s, 0, ',') {
        Some(i) => seq![s.subrange(0, i)] + split_commas(
            s.subrange(i + 1, s.len() as int),
        ),
        None => seq![s],
    }
}

/// A located occurrence lies within the text.
pub proof fn lemma_first_at_bounds(s: Seq<char>, j: int, c: char)
    requires
        0 <= j <= s.len(),
    ensures
        match first_at(s, j, c) {
            Some(e) => j <= e < s.len() && s[e] == c && forall|t: int| j <= t < e ==> s[t] != c,
            None => forall|t: int| j <= t < s.len() ==> s[t] != c,
        },
    decreases s.len() - j,
{
    if j < s.len() && s[j] != c {
        lemma_first_at_bounds(s, j + 1, c);
    }
}

#[via_fn]
proof fn split_commas_decreases(s: Seq<char>) {
    lemma_first_at_bounds(s, 0, ',');
}

/// The tag list a comma-separated settings string denotes: each piece
/// trimmed of surrounding whitespace, empty pieces kept.
pub open spec fn tags_of(s: Seq<char>) -> Seq<Seq<char>> {
    split_commas(s).map_values(|p: Seq<char>| trim_spec(p))
}

/// Find the first comma at or after `from`.
fn find_comma(v: &Vec<char>, from: usize) -> (r: Option<usize>)
    requires
        from <= v@.len(),
    ensures
        match r {
            Some(i) => first_at(v@, from as int, ',') == Some(i as int) && from <= i < v@.len(),
            None => first_at(v@, from as int, ',') is None,
        },
{
    let n = v.len();
    let mut i = from;
    while i < n && v[i] != ','
        invariant
            from <= i <= n,
            n == v@.len(),
            forall|j: int| from <= j < i ==> v@[j] != ',',
        decreases n - i,
    {
        i += 1;
    }
    proof {
        lemma_first_at_from(v@, from as int, i as int, ',');
    }
    if i < n {
        Some(i)
    } else {
        None
    }
}

/// Linear scanning finds the first occurrence.
pub proof fn lemma_first_at_from(s: Seq<char>, j: int, e: int, c: char)
    requires
        0 <= j <= e <= s.len(),
        forall|t: int| j <= t < e ==> s[t] != c,
        e < s.len() ==> s[e] == c,
    ensures
        first_at(s, j, c) == if e < s.len() {
            Some(e)
        } else {
            None::<int>
        },
    decreases e - j,
{
    if j < e {
        lemma_first_at_from(s, j + 1, e, c);
    } else if j >= s.len() {
    }
}

/// Split a comma-separated tag string into its trimmed tags.
pub fn split_tags(s: &str) -> (r: Vec<String>)
    ensures
        r@.map_values(|t: String| t@) == tags_of(s@),
{
    let v = chars_of(s);
    let n = v.len();
    let mut out: Vec<String> = Vec::new();
    let mut start: usize = 0;
    let ghost full = v@;
    proof {
        assert(full.subrange(0, full.len() as int) =~= full);
        assert(out@.map_values(|t: String| t@) + tags_of(full) =~= tags_of(full));
    }
    loop
        invariant
            start <= n,
            n == full.len(),
            full == v@,
            full == s@,
            tags_of(full) == out@.map_values(|t: String| t@) + tags_of(
                full.subrange(start as int, full.len() as int),
            ),
        decreases full.len() - start,
    {
        let ghost rem = full.subrange(start as int, full.len() as int);
        let ghost pre = out@.map_values(|t: String| t@);
        match find_comma(&v, start) {
            Some(i) => {
                let piece = slice_chars(&v, start, i);
                let trimmed = trim_chars(&piece);
                out.push(string_from_chars(&trimmed));
                proof {
                    lemma_first_at_bounds(full, start as int, ',');
                    assert(rem[i - start] == ',');
                    lemma_first_at_from(rem, 0, i - start, ',');
                    assert(first_at(rem, 0, ',') == Some(i - start));
                    let head = rem.subrange(0, i - start);
                    let tail = rem.subrange(i - start + 1, rem.len() as int);
                    assert(head =~= full.subrange(start as int, i as int));
                    assert(tail =~= full.subrange(i + 1, full.len() as int));
                    assert(split_commas(rem) == seq![head] + split_commas(tail));
                    assert(tags_of(rem) =~= seq![trim_spec(head)] + tags_of(tail));
                    assert(out@.map_values(|t: String| t@) =~= pre.push(trim_spec(head)));
                    assert(pre + tags_of(rem) =~= pre.push(trim_spec(head)) + tags_of(tail));
                }
                start = i + 1;
            },
            None => {
                let piece = slice_chars(&v, start, n);
                let trimmed = trim_chars(&piece);
                out.push(string_from_chars(&trimmed));
                proof {
                    lemma_first_at_bounds(full, start as int, ',');
                    lemma_first_at_from(rem, 0, rem.len() as int, ',');
                    assert(first_at(rem, 0, ',') is None);
                    assert(split_commas(rem) == seq![rem]);
                    assert(tags_of(rem) =~= seq![trim_spec(rem)]);
                    assert(out@.map_values(|t: String| t@) =~= pre.push(trim_spec(rem)));
                    assert(pre + seq![trim_spec(rem)] =~= pre.push(trim_spec(rem)));
                }
                return out;
            },
        }
    }
}

} // verus!
