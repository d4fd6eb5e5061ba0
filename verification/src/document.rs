//! Per-document processing: split the metadata block, resolve the
//! fields, render the body — through the citation resolver when one is
//! configured, else with plain highlighting — and assemble the output
//! artifact. The file system stays with the caller: paths and times
//! come in as plain values, the cover image is attached afterwards.

use vstd::prelude::*;
use crate::BuildError;
use crate::citations::{
    is_reference_list_for, is_substituted_render, parse_markdown_with_citations, ref_anchor_text,
    CitationConfig,
};
use crate::bib::lib_keys;
use crate::highlight::{has_code_events, parse_markdown_with_highlighting};
use crate::incremental::spec_needs_processing;
use crate::markers::{append_chars, dedup_first, has_marker, rewrite_from};
use crate::mdparse::{html_of, md_model};
use crate::meta::{
    front_matter_spec, meta_fields, metadata_matches, metadata_rejects, parse_metadata_block,
    split_front_matter, split_nl, view_opt_string,
};
use crate::post::{sanitize_filename, slug_of, split_tags, tags_of, Post, PostMetadata};
use crate::text::{chars_of, contains_seq, string_from_chars};

verus! {

/// The metadata block of a document, or the empty block when it has
/// none.
pub open spec fn block_of(s: Seq<char>) -> Seq<char> {
    match front_matter_spec(s).0 {
        Some(b) => b,
        None => Seq::empty(),
    }
}

/// Split a document and parse its metadata block; the body alone is
/// rendered as markup with code highlighting — no metadata text reaches
/// the rendering.
pub fn parse_metadata_and_content(content: &str, syntax_set: &syntect::parsing::SyntaxSet) -> (r:
    Result<(PostMetadata, String), BuildError>)
    ensures
        match r {
            Ok(p) => metadata_matches(p.0, block_of(content@)) && (!has_code_events(
                md_model(front_matter_spec(content@).1),
            ) ==> p.1@ == html_of(front_matter_spec(content@).1)),
            Err(e) => e == BuildError::Metadata && metadata_rejects(block_of(content@)),
        },
{
    let (block, body) = split_front_matter(content);
    let metadata = match block {
        Some(b) => parse_metadata_block(b.as_str())?,
        None => {
            let pm = parse_metadata_block("");
            proof {
                reveal_strlit("");
                assert(""@ =~= Seq::<char>::empty());
            }
            match pm {
                Ok(m) => m,
                Err(e) => {
                    return Err(e);
                },
            }
        },
    };
    let html = parse_markdown_with_highlighting(body.as_str(), syntax_set);
    Ok((metadata, html))
}

/// The title a document gets: its metadata title, or a fixed fallback.
pub open spec fn title_of(f: Option<Seq<char>>) -> Seq<char> {
    match f {
        Some(t) => t,
        None => "Untitled"@,
    }
}

/// Process one document into its output artifact. The rendered body
/// comes from the citation resolver when a citation configuration is
/// given, else from plain highlighting; the metadata fields fill the
/// artifact, the file name gives the slug, and `now` stands in for a
/// missing date. The cover image, if the metadata names one, is left
/// for the caller to produce: the name is returned beside the artifact
/// and the artifact's cover starts empty.
pub fn build_post(
    filename: &str,
    content: &str,
    syntax_set: &syntect::parsing::SyntaxSet,
    citations: Option<&CitationConfig>,
    now: i64,
) -> (r: Result<(Post, Option<String>), BuildError>)
    ensures
        ({
            let block = block_of(content@);
            let body = front_matter_spec(content@).1;
            let fields = meta_fields(split_nl(block));
            match r {
                Ok(p) => fields is Some && {
                    let f = fields->0;
                    &&& p.0.slug@ == slug_of(filename@)
                    &&& p.0.title@ == title_of(f.0)
                    &&& match f.1 {
                        Some(ds) => crate::dates::spec_parse_date(ds) == Some(p.0.date),
                        None => p.0.date == now,
                    }
                    &&& view_opt_string(p.0.description) == f.2
                    &&& p.0.tags@.map_values(|t: String| t@) == (match f.3 {
                        Some(ts) => tags_of(ts),
                        None => Seq::<Seq<char>>::empty(),
                    })
                    &&& p.0.cover is None
                    &&& (match p.1 {
                        Some(c) => f.4 == Some(c@),
                        None => f.4 is None,
                    })
                    &&& (citations is None ==> (!has_code_events(md_model(body)) ==> p.0.content@
                        == html_of(body)))
                    &&& (citations is Some ==> {
                        let keys = lib_keys(citations->0.bibliography).to_set();
                        let rewritten = rewrite_from(body, 0, keys).0;
                        let cited = dedup_first(rewrite_from(body, 0, keys).1);
                        &&& (!has_marker(body) ==> p.0.content@ == html_of(body))
                        &&& (cited.len() == 0 && rewritten == body ==> p.0.content@ == html_of(
                            body,
                        ))
                        &&& (cited.len() > 0 ==> exists|body_html: Seq<char>, refs: Seq<char>|
                            {
                                &&& p.0.content@ == body_html + seq!['\n'] + refs
                                &&& is_substituted_render(body_html, rewritten, cited)
                                &&& is_reference_list_for(refs, cited)
                            })
                        &&& (cited.len() > 0 ==> forall|idx: int|
                            0 <= idx < cited.len() ==> contains_seq(
                                p.0.content@,
                                ref_anchor_text(cited[idx]),
                            ))
                    })
                },
                Err(e) => {
                    ||| (e == BuildError::Metadata && metadata_rejects(block))
                    ||| (citations is Some && e == BuildError::StyleWithoutBibliography && {
                        let keys = lib_keys(citations->0.bibliography).to_set();
                        dedup_first(rewrite_from(body, 0, keys).1).len() > 0
                    })
                },
            }
        }),
{
    let (block, body) = split_front_matter(content);
    let metadata = match block {
        Some(b) => parse_metadata_block(b.as_str())?,
        None => {
            let pm = parse_metadata_block("");
            proof {
                reveal_strlit("");
                assert(""@ =~= Seq::<char>::empty());
            }
            match pm {
                Ok(m) => m,
                Err(e) => {
                    return Err(e);
                },
            }
        },
    };
    let html_content: String = match citations {
        Some(config) => {
            let res = parse_markdown_with_citations(body.as_str(), config)?;
            proof {
                if !has_marker(body@) {
                    let keys = lib_keys(config.bibliography).to_set();
                    crate::markers::lemma_no_marker_rewrite(body@, 0, keys);
                }
            }
            if res.has_citations {
                let mut joined = chars_of(res.html_content.as_str());
                joined.push('\n');
                let refs = chars_of(res.references_html.as_str());
                append_chars(&mut joined, &refs);
                proof {
                    let keys = lib_keys(config.bibliography).to_set();
                    let rewritten = rewrite_from(body@, 0, keys).0;
                    let cited = dedup_first(rewrite_from(body@, 0, keys).1);
                    assert(joined@ =~= (res.html_content@ + seq!['\n']) + res.references_html@);
                    assert(joined@ == res.html_content@ + seq!['\n'] + res.references_html@);
                    assert(is_substituted_render(res.html_content@, rewritten, cited));
                    assert(is_reference_list_for(res.references_html@, cited));
                    assert forall|idx: int| 0 <= idx < cited.len() implies contains_seq(
                        joined@,
                        ref_anchor_text(cited[idx]),
                    ) by {
                        crate::text::lemma_contains_concat_right(
                            res.html_content@ + seq!['\n'],
                            res.references_html@,
                            ref_anchor_text(cited[idx]),
                        );
                    }
                }
                string_from_chars(&joined)
            } else {
                res.html_content
            }
        },
        None => parse_markdown_with_highlighting(body.as_str(), syntax_set),
    };
    let slug = sanitize_filename(filename);
    let title = match metadata.title {
        Some(t) => t,
        None => {
            let t = "Untitled".to_owned();
            t
        },
    };
    let date = match metadata.date {
        Some(d) => d,
        None => now,
    };
    let tags: Vec<String> = match &metadata.tags {
        Some(ts) => split_tags(ts.as_str()),
        None => Vec::new(),
    };
    proof {
        if metadata.tags is None {
            assert(Seq::<String>::empty().map_values(|t: String| t@)
                =~= Seq::<Seq<char>>::empty());
        }
    }
    let post = Post {
        title,
        date,
        slug,
        content: html_content,
        description: metadata.description,
        tags,
        cover: None,
    };
    Ok((post, metadata.cover))
}

/// Whether a cover image must be processed again: any of its three
/// outputs missing, or not strictly newer than the source image.
pub fn check_image_needs_processing(
    source_mtime: u64,
    original_mtime: Option<u64>,
    cover_mtime: Option<u64>,
    thumb_mtime: Option<u64>,
) -> (r: bool)
    ensures
        r == (spec_needs_processing(false, original_mtime, source_mtime) || spec_needs_processing(
            false,
            cover_mtime,
            source_mtime,
        ) || spec_needs_processing(false, thumb_mtime, source_mtime)),
{
    let a = crate::incremental::should_process_file(false, original_mtime, source_mtime);
    let b = crate::incremental::should_process_file(false, cover_mtime, source_mtime);
    let c = crate::incremental::should_process_file(false, thumb_mtime, source_mtime);
    a || b || c
}

/// A source document paired with its output path; consumed once.
#[derive(Debug)]
pub struct ProcessingTask {
    /// Path of the source document.
    pub source_path: String,
    /// Path of its output artifact.
    pub output_path: String,
}

/// The output path of a document: `<output_dir>/<slug>.json`.
pub open spec fn output_path_of(output_dir: Seq<char>, source_path: Seq<char>) -> Seq<char> {
    output_dir + "/"@ + slug_of(source_path) + ".json"@
}

/// Pair a source document with its output path under the output
/// directory.
pub fn make_task(source_path: &str, output_dir: &str) -> (r: ProcessingTask)
    ensures
        r.source_path@ == source_path@,
        r.output_path@ == output_path_of(output_dir@, source_path@),
{
    let slug = sanitize_filename(source_path);
    let mut out = chars_of(output_dir);
    let sep = chars_of("/");
    append_chars(&mut out, &sep);
    let sv = chars_of(slug.as_str());
    append_chars(&mut out, &sv);
    let ext = chars_of(".json");
    append_chars(&mut out, &ext);
    proof {
        assert(out@ =~= output_path_of(output_dir@, source_path@));
    }
    ProcessingTask { source_path: source_path.to_owned(), output_path: string_from_chars(&out) }
}

} // verus!
