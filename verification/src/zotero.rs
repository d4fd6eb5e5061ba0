//! Remote reference-manager retrieval: endpoint construction, paginated
//! fetching with a fixed page size, and entry-by-entry merging of the
//! pages into one library. The network itself stays with the caller;
//! this module decides each request and folds each response in.

use vstd::prelude::*;
use crate::BuildError;
use crate::bib::{
    biblatex_bib_keys, lib_keys, merge_libraries, merged_keys, parse_biblatex_bibliography,
};
use crate::markers::append_chars;
use crate::text::{chars_of, dec_of, parse_u32_dec, string_from_chars, u64_to_dec};

verus! {

/// The number of items requested per page.
pub const PAGE_LIMIT: u32 = 100;

/// Whether the library fetched belongs to a user or to a group.
#[derive(Debug, Clone, Copy, PartialEq, Eq, Structural)]
pub enum LibraryScope {
    User,
    Group,
}

/// The path segment of a scope.
pub open spec fn scope_segment(scope: LibraryScope) -> Seq<char> {
    match scope {
        LibraryScope::User => "users/"@,
        LibraryScope::Group => "groups/"@,
    }
}

/// The items endpoint of one page: the API base, the scoped library
/// path, an optional collection, and the offset, page size and format
/// parameters.
pub open spec fn page_endpoint(
    scope: LibraryScope,
    library_id: Seq<char>,
    collection: Option<Seq<char>>,
    start: u64,
    limit: u64,
) -> Seq<char> {
    "https://api.zotero.org/"@ + scope_segment(scope) + library_id + (match collection {
        Some(c) => "/collections/"@ + c,
        None => Seq::<char>::empty(),
    }) + "/items?start="@ + dec_of(start as nat) + "&limit="@ + dec_of(limit as nat)
        + "&format=bibtex"@
}

/// Build the items endpoint of one page.
pub fn build_page_endpoint(
    scope: LibraryScope,
    library_id: &str,
    collection: Option<&str>,
    start: u64,
    limit: u64,
) -> (r: String)
    ensures
        r@ == page_endpoint(
            scope,
            library_id@,
            match collection {
                Some(c) => Some(c@),
                None => None,
            },
            start,
            limit,
        ),
{
    let mut out = chars_of("https://api.zotero.org/");
    let seg = match scope {
        LibraryScope::User => chars_of("users/"),
        LibraryScope::Group => chars_of("groups/"),
    };
    append_chars(&mut out, &seg);
    let id = chars_of(library_id);
    append_chars(&mut out, &id);
    match collection {
        Some(c) => {
            let coll_prefix = chars_of("/collections/");
            append_chars(&mut out, &coll_prefix);
            let cv = chars_of(c);
            append_chars(&mut out, &cv);
        },
        None => {},
    }
    let items = chars_of("/items?start=");
    append_chars(&mut out, &items);
    let start_dec = u64_to_dec(start);
    append_chars(&mut out, &start_dec);
    let amp_limit = chars_of("&limit=");
    append_chars(&mut out, &amp_limit);
    let limit_dec = u64_to_dec(limit);
    append_chars(&mut out, &limit_dec);
    let fmt = chars_of("&format=bibtex");
    append_chars(&mut out, &fmt);
    proof {
        assert(out@ =~= page_endpoint(
            scope,
            library_id@,
            match collection {
                Some(c) => Some(c@),
                None => None,
            },
            start,
            limit,
        ));
    }
    string_from_chars(&out)
}

/// The items endpoint of a whole-library fetch without pagination: one
/// page of at most `PAGE_LIMIT` items in the BibLaTeX export format.
pub open spec fn single_fetch_endpoint(
    scope: LibraryScope,
    library_id: Seq<char>,
    collection: Option<Seq<char>>,
) -> Seq<char> {
    "https://api.zotero.org/"@ + scope_segment(scope) + library_id + (match collection {
        Some(c) => "/collections/"@ + c,
        None => Seq::<char>::empty(),
    }) + "/items?format=biblatex&limit=100"@
}

/// Build the endpoint of a whole-library fetch without pagination.
pub fn build_single_fetch_endpoint(
    scope: LibraryScope,
    library_id: &str,
    collection: Option<&str>,
) -> (r: String)
    ensures
        r@ == single_fetch_endpoint(
            scope,
            library_id@,
            match collection {
                Some(c) => Some(c@),
                None => None,
            },
        ),
{
    let mut out = chars_of("https://api.zotero.org/");
    let seg = match scope {
        LibraryScope::User => chars_of("users/"),
        LibraryScope::Group => chars_of("groups/"),
    };
    append_chars(&mut out, &seg);
    let id = chars_of(library_id);
    append_chars(&mut out, &id);
    match collection {
        Some(c) => {
            let coll_prefix = chars_of("/collections/");
            append_chars(&mut out, &coll_prefix);
            let cv = chars_of(c);
            append_chars(&mut out, &cv);
        },
        None => {},
    }
    let tail = chars_of("/items?format=biblatex&limit=100");
    append_chars(&mut out, &tail);
    proof {
        assert(out@ =~= single_fetch_endpoint(
            scope,
            library_id@,
            match collection {
                Some(c) => Some(c@),
                None => None,
            },
        ));
    }
    string_from_chars(&out)
}

/// The total item count a response header denotes: its decimal value,
/// or zero when the header is missing or not a number.
pub open spec fn spec_total_results(h: Option<Seq<char>>) -> u32 {
    match h {
        Some(s) => if s.len() > 0 && crate::text::all_digits(s) && crate::text::dec_val(s)
            <= u32::MAX {
            crate::text::dec_val(s) as u32
        } else {
            0
        },
        None => 0,
    }
}

/// Read the total item count from the response header value.
pub fn parse_total_results(header: Option<&str>) -> (r: u32)
    ensures
        r == spec_total_results(
            match header {
                Some(h) => Some(h@),
                None => None,
            },
        ),
{
    match header {
        Some(h) => {
            let v = chars_of(h);
            match parse_u32_dec(&v) {
                Some(n) => n,
                None => 0,
            }
        },
        None => 0,
    }
}

/// Whether another page must be fetched after one ending at `next_start`.
pub fn pagination_continues(next_start: u32, total: u32) -> (r: bool)
    ensures
        r == (next_start < total),
{
    next_start < total
}

/// Fold one fetched page into the accumulating library: an empty body is
/// skipped without error; a body that fails to parse aborts the whole
/// fetch; a parsed page is merged entry by entry, new keys appended in
/// page order.
pub fn merge_bib_page(lib: &mut hayagriva::Library, body: &str) -> (r: Result<(), BuildError>)
    ensures
        match r {
            Ok(_) => {
                if body@.len() == 0 {
                    lib_keys(*final(lib)) == lib_keys(*old(lib))
                } else {
                    biblatex_bib_keys(body@) is Some && lib_keys(*final(lib)) == merged_keys(
                        lib_keys(*old(lib)),
                        biblatex_bib_keys(body@)->0,
                    )
                }
            },
            Err(e) => e == BuildError::BibliographyParse && body@.len() > 0 && biblatex_bib_keys(
                body@,
            ) is None && lib_keys(*final(lib)) == lib_keys(*old(lib)),
        },
{
    if body.is_empty() {
        return Ok(());
    }
    match parse_biblatex_bibliography(body) {
        Some(page) => {
            merge_libraries(lib, &page);
            Ok(())
        },
        None => Err(BuildError::BibliographyParse),
    }
}

} // verus!
