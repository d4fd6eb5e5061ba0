//! Incremental build decisions and index aggregation.
//!
//! A document is processed again ("stale") when a rebuild is forced, when
//! its output is missing, or when the output's modification time is not
//! strictly newer than the source's; otherwise the existing output is
//! reused, unless it can no longer be read back, in which case the
//! document is reprocessed transparently. Successfully built documents
//! are aggregated into an index ordered by publication time, newest
//! first, with ties kept in their original order.

use vstd::prelude::*;
use crate::post::{Post, PostIndex, PostSummary};

verus! {

/// Whether a document must be processed again: a forced rebuild, a
/// missing output, or an output not strictly newer than its source.
pub open spec fn spec_needs_processing(
    force: bool,
    output_mtime: Option<u64>,
    source_mtime: u64,
) -> bool {
    force || output_mtime is None || output_mtime->0 <= source_mtime
}

/// Decide whether a document is stale. `output_mtime` is `None` when the
/// output file does not exist.
pub fn should_process_file(force: bool, output_mtime: Option<u64>, source_mtime: u64) -> (r:
    bool)
    ensures
        r == spec_needs_processing(force, output_mtime, source_mtime),
{
    if force {
        return true;
    }
    match output_mtime {
        None => true,
        Some(out) => out <= source_mtime,
    }
}

/// What to do with one document.
pub enum TaskPlan {
    /// Run full processing and write a fresh output.
    Reprocess,
    /// Reuse the existing output unchanged.
    Reuse(Post),
}

/// The plan for a document: reuse only a readable output of a fresh
/// document; everything else is reprocessed.
pub open spec fn spec_task_plan(needs: bool, existing: Option<Post>) -> TaskPlan {
    if !needs && existing is Some {
        TaskPlan::Reuse(existing->0)
    } else {
        TaskPlan::Reprocess
    }
}

/// Decide a document's fate. `existing` holds the prior output if it
/// could be read back, and `None` when it is missing or corrupted —
/// a corrupted output never blocks a build, it is recomputed.
pub fn decide_task(needs: bool, existing: Option<Post>) -> (r: TaskPlan)
    ensures
        r == spec_task_plan(needs, existing),
{
    if needs {
        TaskPlan::Reprocess
    } else {
        match existing {
            Some(post) => TaskPlan::Reuse(post),
            None => TaskPlan::Reprocess,
        }
    }
}

/// Law: a source left unchanged — its output exists and is strictly
/// newer — is skipped without a forced rebuild, and the prior output is
/// reused exactly as it was.
pub proof fn lemma_unchanged_source_reused(
    source_mtime: u64,
    output_mtime: u64,
    post: Post,
)
    requires
        output_mtime > source_mtime,
    ensures
        !spec_needs_processing(false, Some(output_mtime), source_mtime),
        spec_task_plan(
            spec_needs_processing(false, Some(output_mtime), source_mtime),
            Some(post),
        ) == TaskPlan::Reuse(post),
{
}

/// Law: a source touched to be at least as new as its output is
/// processed again, even without a forced rebuild.
pub proof fn lemma_touched_source_processed(source_mtime: u64, output_mtime: u64)
    requires
        output_mtime <= source_mtime,
    ensures
        spec_needs_processing(false, Some(output_mtime), source_mtime),
{
}

/// Law: a fresh but unreadable output — one that no longer parses — is
/// reprocessed rather than reported as an error.
pub proof fn lemma_corrupted_output_reprocessed(source_mtime: u64, output_mtime: u64)
    ensures
        spec_task_plan(
            spec_needs_processing(false, Some(output_mtime), source_mtime),
            None,
        ) == TaskPlan::Reprocess,
{
}

/// Insert `x` into a descending-ordered sequence, after any entries of
/// equal date already present.
pub open spec fn insert_desc(x: PostSummary, s: Seq<PostSummary>) -> Seq<PostSummary>
    decreases s.len(),
{
    if s.len() == 0 {
        seq![x]
    } else if x.date > s[0].date {
        seq![x] + s
    } else {
        seq![s[0]] + insert_desc(x, s.drop_first())
    }
}

/// The index order: entries sorted by date, newest first, entries of
/// equal date kept in their original order (a stable sort).
pub open spec fn sort_desc(s: Seq<PostSummary>) -> Seq<PostSummary>
    decreases s.len(),
{
    if s.len() == 0 {
        Seq::empty()
    } else {
        insert_desc(s.last(), sort_desc(s.drop_last()))
    }
}

/// Whether a sequence is ordered by date, newest first.
pub open spec fn sorted_desc(s: Seq<PostSummary>) -> bool {
    forall|i: int, j: int| 0 <= i < j < s.len() ==> s[i].date >= s[j].date
}

/// The first position whose date lies strictly below `d`.
spec fn first_lt(s: Seq<PostSummary>, d: i64) -> int
    decreases s.len(),
{
    if s.len() == 0 {
        0
    } else if s[0].date < d {
        0
    } else {
        1 + first_lt(s.drop_first(), d)
    }
}

/// Bounds and boundary facts of `first_lt`.
proof fn lemma_first_lt(s: Seq<PostSummary>, d: i64)
    ensures
        0 <= first_lt(s, d) <= s.len(),
        forall|t: int| 0 <= t < first_lt(s, d) ==> s[t].date >= d,
        first_lt(s, d) < s.len() ==> s[first_lt(s, d)].date < d,
    decreases s.len(),
{
    if s.len() > 0 && !(s[0].date < d) {
        lemma_first_lt(s.drop_first(), d);
        assert forall|t: int| 0 <= t < first_lt(s, d) implies s[t].date >= d by {
            if t > 0 {
                assert(s.drop_first()[t - 1].date >= d);
            }
        }
        if first_lt(s, d) < s.len() {
            assert(s[first_lt(s, d)] == s.drop_first()[first_lt(s, d) - 1]);
        }
    }
}

/// `insert_desc` places `x` exactly at the first position of lower date.
proof fn lemma_insert_desc_at(x: PostSummary, s: Seq<PostSummary>, j: int)
    requires
        0 <= j <= s.len(),
        forall|t: int| 0 <= t < j ==> s[t].date >= x.date,
        j < s.len() ==> s[j].date < x.date,
    ensures
        insert_desc(x, s) == s.insert(j, x),
    decreases j,
{
    if j == 0 {
        if s.len() == 0 {
            assert(insert_desc(x, s) =~= s.insert(0, x));
        } else {
            assert(x.date > s[0].date);
            assert(seq![x] + s =~= s.insert(0, x));
        }
    } else {
        assert(s[0].date >= x.date);
        lemma_insert_desc_at(x, s.drop_first(), j - 1);
        assert(seq![s[0]] + s.drop_first().insert(j - 1, x) =~= s.insert(j, x));
    }
}

/// Inserting into an ordered sequence keeps it ordered and adds one entry.
proof fn lemma_insert_desc_props(x: PostSummary, s: Seq<PostSummary>)
    requires
        sorted_desc(s),
    ensures
        sorted_desc(insert_desc(x, s)),
        insert_desc(x, s).to_multiset() == s.to_multiset().insert(x),
        insert_desc(x, s).len() == s.len() + 1,
{
    lemma_first_lt(s, x.date);
    let j = first_lt(s, x.date);
    lemma_insert_desc_at(x, s, j);
    let r = s.insert(j, x);
    assert forall|a: int, b: int| 0 <= a < b < r.len() implies r[a].date >= r[b].date by {
        if a < j && b < j {
        } else if a < j && b == j {
        } else if a < j && b > j {
        } else if a == j && b > j {
            assert(r[b] == s[b - 1]);
            if b - 1 == j {
            } else {
                assert(s[j].date >= s[b - 1].date);
            }
        } else {
            assert(r[a] == s[a - 1] && r[b] == s[b - 1]);
        }
    }
    vstd::seq_lib::to_multiset_insert(s, j, x);
}

/// Law: the index order is a permutation of its input, sorted by date
/// newest first.
pub proof fn lemma_sort_desc_props(s: Seq<PostSummary>)
    ensures
        sorted_desc(sort_desc(s)),
        sort_desc(s).to_multiset() == s.to_multiset(),
        sort_desc(s).len() == s.len(),
    decreases s.len(),
{
    if s.len() == 0 {
        assert(s =~= Seq::<PostSummary>::empty());
    } else {
        lemma_sort_desc_props(s.drop_last());
        lemma_insert_desc_props(s.last(), sort_desc(s.drop_last()));
        vstd::seq_lib::to_multiset_build(s.drop_last(), s.last());
        assert(s.drop_last().push(s.last()) =~= s);
    }
}

/// Sort index entries by date, newest first, keeping the original order
/// of entries with equal dates.
pub fn sort_summaries(posts: Vec<PostSummary>) -> (r: Vec<PostSummary>)
    ensures
        r@ == sort_desc(posts@),
{
    let ghost orig = posts@;
    let mut rest = posts;
    let mut r: Vec<PostSummary> = Vec::new();
    proof {
        assert(orig.subrange(orig.len() - rest@.len(), orig.len() as int) =~= rest@);
        assert(orig.subrange(0, 0) =~= Seq::<PostSummary>::empty());
    }
    loop
        invariant
            orig == posts@,
            rest@.len() <= orig.len(),
            rest@ == orig.subrange(orig.len() - rest@.len(), orig.len() as int),
            r@ == sort_desc(orig.subrange(0, orig.len() - rest@.len())),
        decreases rest@.len(),
    {
        if rest.len() == 0 {
            proof {
                assert(rest@.len() == 0);
                assert(orig.len() - rest@.len() == orig.len() as int);
                assert(orig.subrange(0, orig.len() as int) =~= orig);
                assert(r@ == sort_desc(orig.subrange(0, orig.len() as int)));
                assert(r@ == sort_desc(orig));
            }
            return r;
        }
        let ghost k = orig.len() - rest@.len();
        let x = rest.remove(0);
        proof {
            assert(x == orig[k]);
            assert(rest@ =~= orig.subrange(orig.len() - rest@.len(), orig.len() as int));
        }
        // find the first position with a strictly older date
        let mut j: usize = 0;
        while j < r.len() && r[j].date >= x.date
            invariant
                j <= r@.len(),
                forall|t: int| 0 <= t < j ==> r@[t].date >= x.date,
            decreases r@.len() - j,
        {
            j += 1;
        }
        let ghost pre = r@;
        r.insert(j, x);
        proof {
            lemma_insert_desc_at(x, pre, j as int);
            assert(r@ == insert_desc(x, pre));
            let done = orig.subrange(0, k + 1);
            assert(done.drop_last() =~= orig.subrange(0, k));
            assert(done.last() == orig[k]);
            assert(r@ == sort_desc(done));
        }
    }
}

/// The index entry of a processed document.
pub fn summarize(post: Post) -> (r: PostSummary)
    ensures
        r.title == post.title,
        r.date == post.date,
        r.slug == post.slug,
        r.description == post.description,
        r.tags == post.tags,
        r.cover == post.cover,
{
    PostSummary {
        title: post.title,
        date: post.date,
        slug: post.slug,
        description: post.description,
        tags: post.tags,
        cover: post.cover,
    }
}

/// Aggregate the successful documents into the index, ordered by date
/// newest first.
pub fn build_index(summaries: Vec<PostSummary>) -> (r: PostIndex)
    ensures
        r.posts@ == sort_desc(summaries@),
{
    PostIndex { posts: sort_summaries(summaries) }
}

/// Counts of processed and skipped documents over one run.
pub struct ProcessingStats {
    pub processed: u64,
    pub skipped: u64,
}

impl ProcessingStats {
    /// An empty tally.
    pub fn new() -> (r: ProcessingStats)
        ensures
            r.processed == 0,
            r.skipped == 0,
    {
        ProcessingStats { processed: 0, skipped: 0 }
    }

    /// Record one finished document.
    pub fn record(&mut self, was_processed: bool)
        requires
            old(self).processed < u64::MAX,
            old(self).skipped < u64::MAX,
        ensures
            was_processed ==> final(self).processed == old(self).processed + 1
                && final(self).skipped == old(self).skipped,
            !was_processed ==> final(self).skipped == old(self).skipped + 1
                && final(self).processed == old(self).processed,
    {
        if was_processed {
            self.processed = self.processed + 1;
        } else {
            self.skipped = self.skipped + 1;
        }
    }
}

/// Whether a run as a whole succeeds: only a run where every document
/// failed is itself a failure.
pub fn run_succeeds(successes: usize, failures: usize) -> (r: bool)
    ensures
        r == !(failures > 0 && successes == 0),
{
    !(failures > 0 && successes == 0)
}

} // verus!
