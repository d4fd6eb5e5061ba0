//! The leading metadata block of a source document: splitting it from
//! the body, and parsing its recognized fields — title, date,
//! description, comma-separated tags, and a cover image file name.
//!
//! A metadata block starts with a `---` line at the very top of the
//! document and runs to the next `---` or `...` line; a document without
//! such a block, or with an unterminated one, is all body.

use vstd::prelude::*;
use crate::BuildError;
use crate::text::{chars_of, string_from_chars};
use crate::markers::{append_chars, seq_eq};
use crate::post::{
    first_at, lemma_first_at_bounds, lemma_first_at_from, slice_chars, trim_chars, trim_spec,
    PostMetadata,
};
use crate::dates::{parse_date_chars, spec_parse_date};

verus! {

/// The lines of `s`, split on newlines; the pieces hold no newline.
pub open spec fn split_nl(s: Seq<char>) -> Seq<Seq<char>>
    decreases s.len() via split_nl_decreases
{
    match first_at(s, 0, '\n') {
        Some(i) => seq![s.subrange(0, i)] + split_nl(s.subrange(i + 1, s.len() as int)),
        None => seq![s],
    }
}

#[via_fn]
proof fn split_nl_decreases(s: Seq<char>) {
    lemma_first_at_bounds(s, 0, '\n');
}

/// The lines joined back with newlines.
pub open spec fn join_nl(ls: Seq<Seq<char>>) -> Seq<char>
    decreases ls.len(),
{
    if ls.len() == 0 {
        Seq::empty()
    } else if ls.len() == 1 {
        ls[0]
    } else {
        ls[0] + seq!['\n'] + join_nl(ls.drop_first())
    }
}

/// Split text into its lines.
pub fn split_nl_vec(v: &Vec<char>) -> (r: Vec<Vec<char>>)
    ensures
        r@.map_values(|l: Vec<char>| l@) == split_nl(v@),
{
    let n = v.len();
    let mut out: Vec<Vec<char>> = Vec::new();
    let mut start: usize = 0;
    let ghost full = v@;
    proof {
        assert(full.subrange(0, full.len() as int) =~= full);
        assert(out@.map_values(|l: Vec<char>| l@) + split_nl(full) =~= split_nl(full));
    }
    loop
        invariant
            start <= n,
            n == full.len(),
            full == v@,
            split_nl(full) == out@.map_values(|l: Vec<char>| l@) + split_nl(
                full.subrange(start as int, full.len() as int),
            ),
        decreases full.len() - start,
    {
        let ghost rem = full.subrange(start as int, full.len() as int);
        let ghost pre = out@.map_values(|l: Vec<char>| l@);
        let mut i = start;
        while i < n && v[i] != '\n'
            invariant
                start <= i <= n,
                n == full.len(),
                full == v@,
                forall|j: int| start <= j < i ==> full[j] != '\n',
            decreases n - i,
        {
            i += 1;
        }
        if i < n {
            let piece = slice_chars(v, start, i);
            out.push(piece);
            proof {
                lemma_first_at_from(rem, 0, i - start, '\n');
                assert(rem[i - start] == '\n');
                assert(first_at(rem, 0, '\n') == Some(i - start));
                let head = rem.subrange(0, i - start);
                let tail = rem.subrange(i - start + 1, rem.len() as int);
                assert(head =~= full.subrange(start as int, i as int));
                assert(tail =~= full.subrange(i + 1, full.len() as int));
                assert(split_nl(rem) == seq![head] + split_nl(tail));
                assert(out@.map_values(|l: Vec<char>| l@) =~= pre.push(head));
                assert(pre + (seq![head] + split_nl(tail)) =~= pre.push(head) + split_nl(tail));
            }
            start = i + 1;
        } else {
            let piece = slice_chars(v, start, n);
            out.push(piece);
            proof {
                lemma_first_at_from(rem, 0, rem.len() as int, '\n');
                assert(first_at(rem, 0, '\n') is None);
                assert(split_nl(rem) == seq![rem]);
                assert(rem =~= full.subrange(start as int, n as int));
                assert(out@.map_values(|l: Vec<char>| l@) =~= pre.push(rem));
                assert(pre + seq![rem] =~= pre.push(rem));
            }
            return out;
        }
    }
}

/// Join the lines `from..to` back with newlines.
pub fn join_nl_vec(ls: &Vec<Vec<char>>, from: usize, to: usize) -> (r: Vec<char>)
    requires
        from <= to <= ls@.len(),
    ensures
        r@ == join_nl(ls@.map_values(|l: Vec<char>| l@).subrange(from as int, to as int)),
{
    let ghost lines = ls@.map_values(|l: Vec<char>| l@);
    let mut out: Vec<char> = Vec::new();
    if from >= to {
        proof {
            assert(lines.subrange(from as int, to as int) =~= Seq::<Seq<char>>::empty());
        }
        return out;
    }
    let mut i = from;
    append_chars(&mut out, &ls[from]);
    i += 1;
    proof {
        lemma_join_tail(lines.subrange(from as int, to as int));
        assert(lines.subrange(from as int, to as int)[0] == lines[from as int]);
        assert(lines.subrange(from as int, to as int).drop_first() =~= lines.subrange(
            i as int,
            to as int,
        ));
        assert(out@ =~= Seq::<char>::empty() + lines[from as int]);
        assert(out@ =~= lines[from as int]);
    }
    while i < to
        invariant
            from < i <= to <= lines.len(),
            lines == ls@.map_values(|l: Vec<char>| l@),
            join_nl(lines.subrange(from as int, to as int)) == out@ + tail_join(
                lines.subrange(i as int, to as int),
            ),
        decreases to - i,
    {
        let ghost pre = out@;
        out.push('\n');
        append_chars(&mut out, &ls[i]);
        proof {
            let rest = lines.subrange(i as int, to as int);
            let next = lines.subrange(i + 1, to as int);
            assert(rest.drop_first() =~= next);
            assert(rest[0] == lines[i as int]);
            assert(tail_join(rest) == seq!['\n'] + rest[0] + tail_join(next));
            assert(out@ =~= pre + seq!['\n'] + lines[i as int]);
            assert(pre + (seq!['\n'] + lines[i as int] + tail_join(next)) =~= (pre + seq!['\n']
                + lines[i as int]) + tail_join(next));
        }
        i += 1;
    }
    proof {
        assert(lines.subrange(i as int, to as int) =~= Seq::<Seq<char>>::empty());
        assert(out@ + tail_join(Seq::<Seq<char>>::empty()) =~= out@);
    }
    out
}

/// The continuation of a join: a newline before each further line.
spec fn tail_join(ls: Seq<Seq<char>>) -> Seq<char>
    decreases ls.len(),
{
    if ls.len() == 0 {
        Seq::empty()
    } else {
        seq!['\n'] + ls[0] + tail_join(ls.drop_first())
    }
}

/// `join_nl` agrees with its tail form.
proof fn lemma_join_tail(ls: Seq<Seq<char>>)
    requires
        ls.len() >= 1,
    ensures
        join_nl(ls) == ls[0] + tail_join(ls.drop_first()),
    decreases ls.len(),
{
    if ls.len() == 1 {
        assert(ls[0] + tail_join(ls.drop_first()) =~= ls[0]);
    } else {
        lemma_join_tail(ls.drop_first());
        assert(ls.drop_first()[0] == ls[1]);
        assert(ls[0] + seq!['\n'] + join_nl(ls.drop_first()) =~= ls[0] + (seq!['\n']
            + ls.drop_first()[0] + tail_join(ls.drop_first().drop_first())));
    }
}

/// Whether a line closes a metadata block.
pub open spec fn is_delimiter_line(l: Seq<char>) -> bool {
    l == "---"@ || l == "..."@
}

/// The first metadata-closing line at or after `j`.
pub open spec fn first_delim(ls: Seq<Seq<char>>, j: int) -> Option<int>
    decreases ls.len() - j when 0 <= j <= ls.len()
{
    if j >= ls.len() {
        None
    } else if is_delimiter_line(ls[j]) {
        Some(j)
    } else {
        first_delim(ls, j + 1)
    }
}

/// The metadata block and the body of a document: a block delimited by a
/// leading `---` line and a closing `---` or `...` line is split off;
/// otherwise the whole text is body.
pub open spec fn front_matter_spec(s: Seq<char>) -> (Option<Seq<char>>, Seq<char>) {
    let ls = split_nl(s);
    if ls.len() > 0 && ls[0] == "---"@ {
        match first_delim(ls, 1) {
            Some(i) => (
                Some(join_nl(ls.subrange(1, i))),
                join_nl(ls.subrange(i + 1, ls.len() as int)),
            ),
            None => (None, s),
        }
    } else {
        (None, s)
    }
}

/// Linear scanning finds the first delimiter line.
proof fn lemma_first_delim_from(ls: Seq<Seq<char>>, j: int, e: int)
    requires
        0 <= j <= e <= ls.len(),
        forall|t: int| j <= t < e ==> !is_delimiter_line(ls[t]),
        e < ls.len() ==> is_delimiter_line(ls[e]),
    ensures
        first_delim(ls, j) == if e < ls.len() {
            Some(e)
        } else {
            None::<int>
        },
    decreases e - j,
{
    if j < e {
        lemma_first_delim_from(ls, j + 1, e);
    }
}

/// Split a document into its metadata block, if it has one, and its body.
pub fn split_front_matter(content: &str) -> (r: (Option<String>, String))
    ensures
        ({
            let (meta, body) = front_matter_spec(content@);
            &&& match r.0 {
                Some(m) => meta == Some(m@),
                None => meta is None,
            }
            &&& r.1@ == body
        }),
{
    let v = chars_of(content);
    let lines = split_nl_vec(&v);
    let ghost lv = lines@.map_values(|l: Vec<char>| l@);
    let dashes = chars_of("---");
    let dots = chars_of("...");
    let n = lines.len();
    if n == 0 || !seq_eq(&lines[0], &dashes) {
        proof {
            if n > 0 {
                assert(lv[0] != "---"@);
            }
        }
        return (None, content.to_owned());
    }
    let mut j: usize = 1;
    while j < n && !(seq_eq(&lines[j], &dashes) || seq_eq(&lines[j], &dots))
        invariant
            1 <= j <= n,
            n == lv.len(),
            lv == lines@.map_values(|l: Vec<char>| l@),
            dashes@ == "---"@,
            dots@ == "..."@,
            forall|t: int| 1 <= t < j ==> !is_delimiter_line(lv[t]),
        decreases n - j,
    {
        j += 1;
    }
    proof {
        lemma_first_delim_from(lv, 1, j as int);
    }
    if j < n {
        let meta = join_nl_vec(&lines, 1, j);
        let body = join_nl_vec(&lines, j + 1, n);
        (Some(string_from_chars(&meta)), string_from_chars(&body))
    } else {
        (None, content.to_owned())
    }
}

/// A value with one pair of surrounding double quotes removed.
pub open spec fn unquote(s: Seq<char>) -> Seq<char> {
    if s.len() >= 2 && s[0] == '"' && s.last() == '"' {
        s.subrange(1, s.len() - 1)
    } else {
        s
    }
}

/// Strip one pair of surrounding double quotes, if present.
pub fn unquote_chars(v: &Vec<char>) -> (r: Vec<char>)
    ensures
        r@ == unquote(v@),
{
    let n = v.len();
    if n >= 2 && v[0] == '"' && v[n - 1] == '"' {
        slice_chars(v, 1, n - 1)
    } else {
        slice_chars(v, 0, n)
    }
}

/// The five recognized metadata fields, each the last value written to
/// it: title, date, description, tags, cover.
pub open spec fn apply_meta_line(
    acc: (Option<Seq<char>>, Option<Seq<char>>, Option<Seq<char>>, Option<Seq<char>>, Option<
        Seq<char>,
    >),
    line: Seq<char>,
) -> Option<(Option<Seq<char>>, Option<Seq<char>>, Option<Seq<char>>, Option<Seq<char>>, Option<
    Seq<char>,
>)> {
    if trim_spec(line).len() == 0 {
        Some(acc)
    } else {
        match first_at(line, 0, ':') {
            None => None,
            Some(i) => {
                let key = trim_spec(line.subrange(0, i));
                let value = unquote(trim_spec(line.subrange(i + 1, line.len() as int)));
                if key == "title"@ {
                    Some((Some(value), acc.1, acc.2, acc.3, acc.4))
                } else if key == "date"@ {
                    Some((acc.0, Some(value), acc.2, acc.3, acc.4))
                } else if key == "description"@ {
                    Some((acc.0, acc.1, Some(value), acc.3, acc.4))
                } else if key == "tags"@ {
                    Some((acc.0, acc.1, acc.2, Some(value), acc.4))
                } else if key == "cover"@ {
                    Some((acc.0, acc.1, acc.2, acc.3, Some(value)))
                } else {
                    Some(acc)
                }
            },
        }
    }
}

/// The fields a metadata block denotes, line by line; `None` when a
/// non-empty line has no colon.
pub open spec fn meta_fields(ls: Seq<Seq<char>>) -> Option<(Option<Seq<char>>, Option<Seq<char>>,
    Option<Seq<char>>, Option<Seq<char>>, Option<Seq<char>>)>
    decreases ls.len(),
{
    if ls.len() == 0 {
        Some((None, None, None, None, None))
    } else {
        match meta_fields(ls.drop_last()) {
            None => None,
            Some(acc) => apply_meta_line(acc, ls.last()),
        }
    }
}

/// A failed prefix fails the whole block.
proof fn lemma_meta_fields_none(ls: Seq<Seq<char>>, i: int)
    requires
        0 <= i <= ls.len(),
        meta_fields(ls.subrange(0, i)) is None,
    ensures
        meta_fields(ls) is None,
    decreases ls.len() - i,
{
    if i < ls.len() {
        assert(ls.subrange(0, i + 1).drop_last() =~= ls.subrange(0, i));
        lemma_meta_fields_none(ls, i + 1);
    } else {
        assert(ls.subrange(0, i) =~= ls);
    }
}

/// The view of an optional character vector.
pub open spec fn view_opt(o: Option<Vec<char>>) -> Option<Seq<char>> {
    match o {
        Some(v) => Some(v@),
        None => None,
    }
}

/// The view of an optional string.
pub open spec fn view_opt_string(o: Option<String>) -> Option<Seq<char>> {
    match o {
        Some(v) => Some(v@),
        None => None,
    }
}

/// Find the first colon of a line.
fn find_colon(v: &Vec<char>) -> (r: Option<usize>)
    ensures
        match r {
            Some(i) => first_at(v@, 0, ':') == Some(i as int) && i < v@.len(),
            None => first_at(v@, 0, ':') is None,
        },
{
    let n = v.len();
    let mut i: usize = 0;
    while i < n && v[i] != ':'
        invariant
            i <= n,
            n == v@.len(),
            forall|t: int| 0 <= t < i ==> v@[t] != ':',
        decreases n - i,
    {
        i += 1;
    }
    proof {
        lemma_first_at_from(v@, 0, i as int, ':');
    }
    if i < n {
        Some(i)
    } else {
        None
    }
}

/// Turn an optional character vector into an optional string.
fn opt_string(o: Option<Vec<char>>) -> (r: Option<String>)
    ensures
        view_opt_string(r) == view_opt(o),
{
    match o {
        Some(v) => Some(string_from_chars(&v)),
        None => None,
    }
}

/// Whether parsed metadata matches what a block denotes: each field the
/// block's last value for its key, the date parsed into epoch seconds.
pub open spec fn metadata_matches(m: PostMetadata, block: Seq<char>) -> bool {
    meta_fields(split_nl(block)) is Some && {
        let f = meta_fields(split_nl(block))->0;
        &&& view_opt_string(m.title) == f.0
        &&& match f.1 {
            None => m.date is None,
            Some(ds) => spec_parse_date(ds) is Some && m.date == spec_parse_date(ds),
        }
        &&& view_opt_string(m.description) == f.2
        &&& view_opt_string(m.tags) == f.3
        &&& view_opt_string(m.cover) == f.4
    }
}

/// Whether a block is rejected: a non-empty line without a colon, or a
/// date value that does not parse.
pub open spec fn metadata_rejects(block: Seq<char>) -> bool {
    meta_fields(split_nl(block)) is None || {
        let f = meta_fields(split_nl(block))->0;
        f.1 is Some && spec_parse_date(f.1->0) is None
    }
}

/// Parse a metadata block into its recognized fields. A non-empty line
/// without a colon, and a date value that does not parse, are metadata
/// errors; unknown keys are ignored; for a repeated key the last value
/// wins.
pub fn parse_metadata_block(block: &str) -> (r: Result<PostMetadata, BuildError>)
    ensures
        match r {
            Ok(m) => metadata_matches(m, block@),
            Err(e) => e == BuildError::Metadata && metadata_rejects(block@),
        },
{
    let v = chars_of(block);
    let lines = split_nl_vec(&v);
    let ghost lv = lines@.map_values(|l: Vec<char>| l@);
    let n = lines.len();
    let key_title = chars_of("title");
    let key_date = chars_of("date");
    let key_description = chars_of("description");
    let key_tags = chars_of("tags");
    let key_cover = chars_of("cover");
    let mut title: Option<Vec<char>> = None;
    let mut date_s: Option<Vec<char>> = None;
    let mut descr: Option<Vec<char>> = None;
    let mut tags: Option<Vec<char>> = None;
    let mut cover: Option<Vec<char>> = None;
    let mut i: usize = 0;
    proof {
        assert(lv.subrange(0, 0) =~= Seq::<Seq<char>>::empty());
    }
    while i < n
        invariant
            i <= n,
            n == lv.len(),
            lv == lines@.map_values(|l: Vec<char>| l@),
            lv == split_nl(block@),
            key_title@ == "title"@,
            key_date@ == "date"@,
            key_description@ == "description"@,
            key_tags@ == "tags"@,
            key_cover@ == "cover"@,
            meta_fields(lv.subrange(0, i as int)) == Some(
                (view_opt(title), view_opt(date_s), view_opt(descr), view_opt(tags), view_opt(
                    cover,
                )),
            ),
        decreases n - i,
    {
        let ghost acc = (view_opt(title), view_opt(date_s), view_opt(descr), view_opt(tags),
            view_opt(cover));
        let line = &lines[i];
        let trimmed = trim_chars(line);
        if trimmed.len() > 0 {
            match find_colon(line) {
                None => {
                    proof {
                        assert(apply_meta_line(acc, lv[i as int]) is None);
                        assert(lv.subrange(0, i + 1).drop_last() =~= lv.subrange(0, i as int));
                        assert(meta_fields(lv.subrange(0, i + 1)) is None);
                        lemma_meta_fields_none(lv, i + 1);
                    }
                    return Err(BuildError::Metadata);
                },
                Some(ci) => {
                    let key_raw = slice_chars(line, 0, ci);
                    let key = trim_chars(&key_raw);
                    let val_raw = slice_chars(line, ci + 1, line.len());
                    let val_trimmed = trim_chars(&val_raw);
                    let value = unquote_chars(&val_trimmed);
                    if seq_eq(&key, &key_title) {
                        title = Some(value);
                    } else if seq_eq(&key, &key_date) {
                        date_s = Some(value);
                    } else if seq_eq(&key, &key_description) {
                        descr = Some(value);
                    } else if seq_eq(&key, &key_tags) {
                        tags = Some(value);
                    } else if seq_eq(&key, &key_cover) {
                        cover = Some(value);
                    }
                    proof {
                        assert(lv.subrange(0, i + 1).drop_last() =~= lv.subrange(0, i as int));
                        assert(lv.subrange(0, i + 1).last() == lv[i as int]);
                        assert(meta_fields(lv.subrange(0, i + 1)) == apply_meta_line(
                            acc,
                            lv[i as int],
                        ));
                        assert(apply_meta_line(acc, lv[i as int]) == Some(
                            (view_opt(title), view_opt(date_s), view_opt(descr), view_opt(tags),
                                view_opt(cover)),
                        ));
                    }
                },
            }
        } else {
            proof {
                assert(apply_meta_line(acc, lv[i as int]) == Some(acc));
                assert(lv.subrange(0, i + 1).drop_last() =~= lv.subrange(0, i as int));
                assert(lv.subrange(0, i + 1).last() == lv[i as int]);
            }
        }
        i += 1;
    }
    proof {
        assert(lv.subrange(0, n as int) =~= lv);
    }
    let date: Option<i64> = match &date_s {
        Some(ds) => match parse_date_chars(ds) {
            Some(t) => Some(t),
            None => {
                return Err(BuildError::Metadata);
            },
        },
        None => None,
    };
    Ok(PostMetadata {
        title: opt_string(title),
        date,
        description: opt_string(descr),
        tags: opt_string(tags),
        cover: opt_string(cover),
    })
}

} // verus!
