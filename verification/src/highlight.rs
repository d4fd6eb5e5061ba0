//! Code highlighting and plain rendering: fenced code blocks are
//! rendered through the outside syntax highlighter, inline code and
//! plain code blocks through text escaping; everything else renders as
//! plain markup.

use vstd::prelude::*;
use crate::markers::append_chars;
use crate::mdparse::{
    event_kind_at, event_model, events_len, html_of, md_model, parse_events, render_event_at,
    render_events, render_markdown, rendered_events, EventList, EV_CB_END, EV_CB_START_FENCED,
    EV_CB_START_OTHER, EV_CODE, EV_TEXT,
};
use crate::post::{first_at, lemma_first_at_bounds, lemma_first_at_from, slice_chars};
use crate::text::{chars_of, string_from_chars};

verus! {

/// A loaded set of syntax definitions (a type of the outside
/// highlighter).
#[verifier::external_type_specification]
#[verifier::external_body]
pub struct ExSyntaxSet(syntect::parsing::SyntaxSet);

/// One syntax definition (a type of the outside highlighter).
#[verifier::external_type_specification]
#[verifier::external_body]
pub struct ExSyntaxReference(syntect::parsing::SyntaxReference);

/// What escaping a text for markup yields.
pub uninterp spec fn escaped_of(s: Seq<char>) -> Seq<char>;

/// Escape a text for literal inclusion in markup.
///
/// Relies on `html_escape::encode_text`: the result depends on the
/// characters alone.
#[verifier::external_body]
pub fn escape_text(s: &str) -> (r: String)
    ensures
        r@ == escaped_of(s@),
{
    html_escape::encode_text(s).into_owned()
}

/// Look a syntax up by its language token.
///
/// Relies on `SyntaxSet::find_syntax_by_token`.
#[verifier::external_body]
fn find_syntax_by_token<'a>(ss: &'a syntect::parsing::SyntaxSet, token: &str) -> Option<
    &'a syntect::parsing::SyntaxReference,
> {
    ss.find_syntax_by_token(token)
}

/// Look a syntax up by a file extension.
///
/// Relies on `SyntaxSet::find_syntax_by_extension`.
#[verifier::external_body]
fn find_syntax_by_extension<'a>(ss: &'a syntect::parsing::SyntaxSet, ext: &str) -> Option<
    &'a syntect::parsing::SyntaxReference,
> {
    ss.find_syntax_by_extension(ext)
}

/// The fallback syntax that highlights nothing, if the set carries one.
///
/// Relies on `SyntaxSet::find_syntax_by_name`: a lookup that returns
/// `None` rather than failing when the set lacks the plain-text syntax.
#[verifier::external_body]
fn plain_text_syntax<'a>(ss: &'a syntect::parsing::SyntaxSet) -> Option<
    &'a syntect::parsing::SyntaxReference,
> {
    ss.find_syntax_by_name("Plain Text")
}

/// A highlighting accumulator: source lines fed one by one, markup out
/// at the end.
#[verifier::external_body]
pub struct HighlightAccumulator<'a> {
    generator: syntect::html::ClassedHTMLGenerator<'a>,
}

/// The lines fed to a highlighting accumulator, in order.
pub uninterp spec fn hl_lines(h: HighlightAccumulator) -> Seq<Seq<char>>;

/// The markup a highlighting accumulator generates when finished.
pub uninterp spec fn hl_rendered(h: HighlightAccumulator) -> Seq<char>;

/// Start highlighting with a syntax.
///
/// Relies on `ClassedHTMLGenerator::new_with_class_style` with spaced
/// class names: no lines fed yet.
#[verifier::external_body]
fn hl_new<'a>(
    syntax: &'a syntect::parsing::SyntaxReference,
    ss: &'a syntect::parsing::SyntaxSet,
) -> (r: HighlightAccumulator<'a>)
    ensures
        hl_lines(r) == Seq::<Seq<char>>::empty(),
{
    HighlightAccumulator {
        generator: syntect::html::ClassedHTMLGenerator::new_with_class_style(
            syntax,
            ss,
            syntect::html::ClassStyle::Spaced,
        ),
    }
}

/// Feed one source line, its ending included; a line the highlighter
/// rejects is fed and ignored.
///
/// Relies on `ClassedHTMLGenerator::parse_html_for_line_which_includes_newline`.
#[verifier::external_body]
fn hl_line(h: &mut HighlightAccumulator, line: &str)
    ensures
        hl_lines(*final(h)) == hl_lines(*old(h)).push(line@),
{
    let _ = h.generator.parse_html_for_line_which_includes_newline(line);
}

/// Finish highlighting and take the generated markup.
///
/// Relies on `ClassedHTMLGenerator::finalize`.
#[verifier::external_body]
fn hl_finalize(h: HighlightAccumulator) -> (r: String)
    ensures
        r@ == hl_rendered(h),
{
    h.generator.finalize()
}

/// The lines of a text, each keeping its line ending; an empty text has
/// no lines.
pub open spec fn lines_with_endings(s: Seq<char>) -> Seq<Seq<char>>
    decreases s.len() via lines_with_endings_decreases
{
    if s.len() == 0 {
        Seq::empty()
    } else {
        match first_at(s, 0, '\n') {
            Some(i) => seq![s.subrange(0, i + 1)] + lines_with_endings(
                s.subrange(i + 1, s.len() as int),
            ),
            None => seq![s],
        }
    }
}

#[via_fn]
proof fn lines_with_endings_decreases(s: Seq<char>) {
    lemma_first_at_bounds(s, 0, '\n');
}

/// Split a text into lines, each keeping its ending.
pub fn split_lines_with_endings(v: &Vec<char>) -> (r: Vec<Vec<char>>)
    ensures
        r@.map_values(|l: Vec<char>| l@) == lines_with_endings(v@),
{
    let n = v.len();
    let mut out: Vec<Vec<char>> = Vec::new();
    let mut start: usize = 0;
    let ghost full = v@;
    proof {
        assert(full.subrange(0, full.len() as int) =~= full);
        assert(out@.map_values(|l: Vec<char>| l@) + lines_with_endings(full) =~= lines_with_endings(
            full,
        ));
    }
    while start < n
        invariant
            start <= n,
            n == full.len(),
            full == v@,
            lines_with_endings(full) == out@.map_values(|l: Vec<char>| l@) + lines_with_endings(
                full.subrange(start as int, full.len() as int),
            ),
        decreases n - start,
    {
        let ghost rem = full.subrange(start as int, full.len() as int);
        let ghost pre = out@.map_values(|l: Vec<char>| l@);
        let mut i = start;
        while i < n && v[i] != '\n'
            invariant
                start <= i <= n,
                n == full.len(),
                full == v@,
                forall|j: int| start <= j < i ==> full[j] != '\n',
            decreases n - i,
        {
            i += 1;
        }
        if i < n {
            let piece = slice_chars(v, start, i + 1);
            out.push(piece);
            proof {
                lemma_first_at_from(rem, 0, i - start, '\n');
                assert(rem[i - start] == '\n');
                let head = rem.subrange(0, i - start + 1);
                let tail = rem.subrange(i - start + 1, rem.len() as int);
                assert(head =~= full.subrange(start as int, i + 1));
                assert(tail =~= full.subrange(i + 1, full.len() as int));
                assert(lines_with_endings(rem) == seq![head] + lines_with_endings(tail));
                assert(out@.map_values(|l: Vec<char>| l@) =~= pre.push(head));
                assert(pre + (seq![head] + lines_with_endings(tail)) =~= pre.push(head)
                    + lines_with_endings(tail));
            }
            start = i + 1;
        } else {
            let piece = slice_chars(v, start, n);
            out.push(piece);
            proof {
                lemma_first_at_from(rem, 0, rem.len() as int, '\n');
                assert(first_at(rem, 0, '\n') is None);
                assert(lines_with_endings(rem) == seq![rem]);
                assert(out@.map_values(|l: Vec<char>| l@) =~= pre.push(rem));
                assert(pre + seq![rem] =~= pre.push(rem));
                assert(full.subrange(n as int, n as int) =~= Seq::<char>::empty());
                assert(pre.push(rem) + lines_with_endings(Seq::<char>::empty()) =~= pre.push(rem));
            }
            start = n;
        }
    }
    proof {
        assert(full.subrange(n as int, n as int) =~= Seq::<char>::empty());
        assert(out@.map_values(|l: Vec<char>| l@) + Seq::<Seq<char>>::empty() =~= out@.map_values(
            |l: Vec<char>| l@,
        ));
    }
    out
}

/// A highlighted code block's markup around its highlighted body.
pub open spec fn code_block_html(lang: Seq<char>, body: Seq<char>) -> Seq<char> {
    "<pre class=\"highlight\"><code class=\"language-"@ + lang + "\">"@ + body + "</code></pre>"@
}

/// A plain code block's markup: the escaped code alone.
pub open spec fn plain_code_block_html(code: Seq<char>) -> Seq<char> {
    "<pre><code>"@ + escaped_of(code) + "</code></pre>"@
}

/// Whether a code block's markup faithfully renders its code: the
/// generated markup of an accumulator fed exactly the code's lines, or —
/// when the syntax set offers no syntax at all for the language, not
/// even plain text — the escaped code itself.
pub open spec fn is_code_block_render(lang: Seq<char>, code: Seq<char>, r: Seq<char>) -> bool {
    ||| exists|h: HighlightAccumulator|
        hl_lines(h) == lines_with_endings(code) && r == code_block_html(lang, hl_rendered(h))
    ||| r == code_block_html(lang, escaped_of(code))
}

/// Render one code block: without a language token the code is escaped
/// into a plain block; with one, the code is highlighted line by line
/// under the syntax the token (or, failing that, the extension) names,
/// falling back to plain-text highlighting, and to the escaped code when
/// the set offers no syntax at all.
pub fn render_code_block(syntax_set: &syntect::parsing::SyntaxSet, language: &str, code: &str) -> (
    r: String)
    ensures
        language@.len() == 0 ==> r@ == plain_code_block_html(code@),
        language@.len() > 0 ==> is_code_block_render(language@, code@, r@),
{
    if language.unicode_len() == 0 {
        let mut out = chars_of("<pre><code>");
        let escaped = escape_text(code);
        let esc = chars_of(escaped.as_str());
        append_chars(&mut out, &esc);
        let close = chars_of("</code></pre>");
        append_chars(&mut out, &close);
        proof {
            assert(out@ =~= plain_code_block_html(code@));
        }
        return string_from_chars(&out);
    }
    let found = match find_syntax_by_token(syntax_set, language) {
        Some(s) => Some(s),
        None => match find_syntax_by_extension(syntax_set, language) {
            Some(s) => Some(s),
            None => plain_text_syntax(syntax_set),
        },
    };
    match found {
        Some(syntax) => {
            let mut acc = hl_new(syntax, syntax_set);
            let code_chars = chars_of(code);
            let lines = split_lines_with_endings(&code_chars);
            let ghost lv = lines@.map_values(|l: Vec<char>| l@);
            let mut i: usize = 0;
            proof {
                assert(hl_lines(acc) =~= lv.subrange(0, 0));
            }
            while i < lines.len()
                invariant
                    i <= lines@.len(),
                    lv == lines@.map_values(|l: Vec<char>| l@),
                    hl_lines(acc) == lv.subrange(0, i as int),
                decreases lines@.len() - i,
            {
                let line = string_from_chars(&lines[i]);
                hl_line(&mut acc, line.as_str());
                i += 1;
                proof {
                    assert(lv.subrange(0, i - 1).push(lv[i - 1]) =~= lv.subrange(0, i as int));
                }
            }
            let ghost gacc = acc;
            proof {
                assert(lv.subrange(0, lv.len() as int) =~= lv);
                assert(hl_lines(gacc) == lines_with_endings(code@));
            }
            let body = hl_finalize(acc);
            let r = wrap_code_block(language, body.as_str());
            proof {
                assert(r@ == code_block_html(language@, hl_rendered(gacc)));
            }
            r
        },
        None => {
            let body = escape_text(code);
            let r = wrap_code_block(language, body.as_str());
            r
        },
    }
}

/// Wrap a rendered body in the highlighted-code-block markup.
fn wrap_code_block(language: &str, body: &str) -> (r: String)
    ensures
        r@ == code_block_html(language@, body@),
{
    let mut out = chars_of("<pre class=\"highlight\"><code class=\"language-");
    let lang = chars_of(language);
    append_chars(&mut out, &lang);
    let mid = chars_of("\">");
    append_chars(&mut out, &mid);
    let b = chars_of(body);
    append_chars(&mut out, &b);
    let close = chars_of("</code></pre>");
    append_chars(&mut out, &close);
    proof {
        assert(out@ =~= code_block_html(language@, body@));
    }
    string_from_chars(&out)
}

/// Render a text as plain markup, with no highlighting and no citation
/// processing.
pub fn parse_markdown_simple(content: &str) -> (r: String)
    ensures
        r@ == html_of(content@),
{
    render_markdown(content)
}

/// An inline code span's markup.
pub open spec fn inline_code_html(code: Seq<char>) -> Seq<char> {
    "<code>"@ + escaped_of(code) + "</code>"@
}

/// Whether an event kind belongs to a code construct: a code block
/// boundary or an inline code span.
pub open spec fn is_code_kind(k: u32) -> bool {
    k == EV_CODE || k == EV_CB_START_FENCED || k == EV_CB_START_OTHER || k == EV_CB_END
}

/// Whether a parsed document holds any code construct.
pub open spec fn has_code_events(model: Seq<(u32, Seq<char>)>) -> bool {
    exists|i: int| 0 <= i < model.len() && is_code_kind(#[trigger] model[i].0)
}

/// Render a text as markup with fenced code blocks highlighted: code
/// blocks go through the highlighter, inline code is escaped, and every
/// other event renders as plain markup. A document without code
/// constructs renders exactly as plain markup.
pub fn parse_markdown_with_highlighting(
    content: &str,
    syntax_set: &syntect::parsing::SyntaxSet,
) -> (r: String)
    ensures
        !has_code_events(md_model(content@)) ==> r@ == html_of(content@),
{
    let ev = parse_events(content);
    let total = events_len(&ev);
    let mut any_code = false;
    let mut k: usize = 0;
    while k < total
        invariant
            k <= total,
            total == event_model(ev).len(),
            event_model(ev) == md_model(content@),
            rendered_events(ev) == html_of(content@),
            any_code == exists|j: int|
                0 <= j < k && is_code_kind(#[trigger] event_model(ev)[j].0),
        decreases total - k,
    {
        let kind = event_kind_at(&ev, k);
        if kind.0 == EV_CODE || kind.0 == EV_CB_START_FENCED || kind.0 == EV_CB_START_OTHER
            || kind.0 == EV_CB_END {
            any_code = true;
        }
        proof {
            if any_code {
                if is_code_kind(event_model(ev)[k as int].0) {
                    assert(exists|j: int|
                        0 <= j < k + 1 && is_code_kind(#[trigger] event_model(ev)[j].0)) by {
                        assert(is_code_kind(event_model(ev)[k as int].0));
                    }
                }
            }
        }
        k += 1;
    }
    if !any_code {
        proof {
            assert(!has_code_events(md_model(content@)));
        }
        return render_events(ev);
    }
    let mut html: Vec<char> = Vec::new();
    let mut in_code_block = false;
    let mut code_lang = String::new();
    let mut code_buf: Vec<char> = Vec::new();
    let mut i: usize = 0;
    while i < total
        invariant
            i <= total,
            total == event_model(ev).len(),
        decreases total - i,
    {
        let kind = event_kind_at(&ev, i);
        if kind.0 == EV_CB_START_FENCED || kind.0 == EV_CB_START_OTHER {
            in_code_block = true;
            code_lang = kind.1;
            code_buf = Vec::new();
        } else if kind.0 == EV_CB_END && in_code_block {
            in_code_block = false;
            let code = string_from_chars(&code_buf);
            let rendered = render_code_block(syntax_set, code_lang.as_str(), code.as_str());
            let rc = chars_of(rendered.as_str());
            append_chars(&mut html, &rc);
        } else if kind.0 == EV_TEXT && in_code_block {
            let t = chars_of(kind.1.as_str());
            append_chars(&mut code_buf, &t);
        } else if kind.0 == EV_CODE {
            let open = chars_of("<code>");
            append_chars(&mut html, &open);
            let escaped = escape_text(kind.1.as_str());
            let esc = chars_of(escaped.as_str());
            append_chars(&mut html, &esc);
            let close = chars_of("</code>");
            append_chars(&mut html, &close);
        } else {
            if !in_code_block {
                let rendered = render_event_at(&ev, i);
                let rc = chars_of(rendered.as_str());
                append_chars(&mut html, &rc);
            }
        }
        i += 1;
    }
    string_from_chars(&html)
}

} // verus!
