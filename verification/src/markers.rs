//! Citation marker scanning and substitution.
//!
//! A marker is the fixed syntax `@[key]`: an at-sign, an opening bracket,
//! a non-empty key without closing brackets, and a closing bracket.
//! Markers are matched greedily left to right and never overlap; a marker
//! missing its closing bracket is plain text. A marker whose key is known
//! is replaced by a placeholder token derived from the key; an unknown
//! key is replaced by visible literal text naming the key.

use vstd::prelude::*;
use crate::text::chars_of;

verus! {

/// Position of the first closing bracket at or after `j`, if any.
pub open spec fn first_close(s: Seq<char>, j: int) -> Option<int>
    decreases s.len() - j when 0 <= j <= s.len()
{
    if j >= s.len() {
        None
    } else if s[j] == ']' {
        Some(j)
    } else {
        first_close(s, j + 1)
    }
}

/// If a marker begins at `i`, its end (exclusive) and its key.
pub open spec fn marker_at(s: Seq<char>, i: int) -> Option<(int, Seq<char>)> {
    if 0 <= i && i + 1 < s.len() && s[i] == '@' && s[i + 1] == '[' {
        match first_close(s, i + 2) {
            Some(e) => if e > i + 2 {
                Some((e + 1, s.subrange(i + 2, e)))
            } else {
                None
            },
            None => None,
        }
    } else {
        None
    }
}

/// Whether the text holds at least one citation marker.
pub open spec fn has_marker(s: Seq<char>) -> bool {
    exists|i: int| marker_at(s, i) is Some
}

/// The placeholder token substituted for a resolved key.
pub open spec fn placeholder_text(key: Seq<char>) -> Seq<char> {
    "CITATION_PLACEHOLDER_"@ + key
}

/// The visible text substituted for an unknown key.
pub open spec fn unknown_text(key: Seq<char>) -> Seq<char> {
    "[Unknown citation: "@ + key + "]"@
}

/// The result of the marker pass from position `i` on: the rewritten text
/// and the resolved keys in marker order (duplicates included).
pub open spec fn rewrite_from(s: Seq<char>, i: int, keys: Set<Seq<char>>) -> (Seq<char>, Seq<
    Seq<char>,
>)
    decreases s.len() - i when 0 <= i <= s.len() via rewrite_from_decreases
{
    if i >= s.len() {
        (Seq::empty(), Seq::empty())
    } else {
        match marker_at(s, i) {
            Some((end, k)) => {
                let (rest, hits) = rewrite_from(s, end, keys);
                if keys.contains(k) {
                    (placeholder_text(k) + rest, seq![k] + hits)
                } else {
                    (unknown_text(k) + rest, hits)
                }
            },
            None => {
                let (rest, hits) = rewrite_from(s, i + 1, keys);
                (seq![s[i]] + rest, hits)
            },
        }
    }
}

/// Bounds of a located closing bracket.
proof fn lemma_first_close_bounds(s: Seq<char>, j: int)
    requires
        0 <= j <= s.len(),
    ensures
        match first_close(s, j) {
            Some(e) => j <= e < s.len() && s[e] == ']',
            None => true,
        },
    decreases s.len() - j,
{
    if j < s.len() && s[j] != ']' {
        lemma_first_close_bounds(s, j + 1);
    }
}

#[via_fn]
proof fn rewrite_from_decreases(s: Seq<char>, i: int, keys: Set<Seq<char>>) {
    if i < s.len() {
        match marker_at(s, i) {
            Some((end, k)) => {
                lemma_first_close_bounds(s, i + 2);
            },
            None => {},
        }
    }
}

/// A marker's span lies within the text and behind its start.
pub proof fn lemma_marker_at_bounds(s: Seq<char>, i: int)
    requires
        marker_at(s, i) is Some,
    ensures
        i + 4 <= marker_at(s, i)->Some_0.0 <= s.len(),
    decreases s.len() - i,
{
    lemma_first_close_bounds(s, i + 2);
}

/// Text without markers is left unchanged by the marker pass.
pub proof fn lemma_no_marker_rewrite(s: Seq<char>, i: int, keys: Set<Seq<char>>)
    requires
        0 <= i <= s.len(),
        !has_marker(s),
    ensures
        rewrite_from(s, i, keys) == (s.subrange(i, s.len() as int), Seq::<Seq<char>>::empty()),
    decreases s.len() - i,
{
    if i >= s.len() {
        assert(s.subrange(i, s.len() as int) =~= Seq::<char>::empty());
    } else {
        assert(marker_at(s, i) is None);
        lemma_no_marker_rewrite(s, i + 1, keys);
        assert(seq![s[i]] + s.subrange(i + 1, s.len() as int) =~= s.subrange(i, s.len() as int));
    }
}

/// Whether two character vectors hold the same characters.
pub fn seq_eq(a: &Vec<char>, b: &Vec<char>) -> (r: bool)
    ensures
        r == (a@ == b@),
{
    if a.len() != b.len() {
        return false;
    }
    let mut k: usize = 0;
    while k < a.len()
        invariant
            k <= a@.len(),
            a@.len() == b@.len(),
            forall|j: int| 0 <= j < k ==> a@[j] == b@[j],
        decreases a@.len() - k,
    {
        if a[k] != b[k] {
            return false;
        }
        k += 1;
    }
    proof {
        assert(a@ =~= b@);
    }
    true
}

/// Whether `k` is among the known keys.
pub fn contains_key(known: &Vec<Vec<char>>, k: &Vec<char>) -> (r: bool)
    ensures
        r == known@.map_values(|v: Vec<char>| v@).to_set().contains(k@),
{
    let ghost keys = known@.map_values(|v: Vec<char>| v@);
    let mut i: usize = 0;
    while i < known.len()
        invariant
            i <= known@.len(),
            keys == known@.map_values(|v: Vec<char>| v@),
            forall|j: int| 0 <= j < i ==> keys[j] != k@,
        decreases known@.len() - i,
    {
        if seq_eq(&known[i], k) {
            proof {
                assert(keys[i as int] == k@);
            }
            return true;
        }
        i += 1;
    }
    proof {
        if keys.to_set().contains(k@) {
            let j = choose|j: int| 0 <= j < keys.len() && keys[j] == k@;
            assert(false);
        }
    }
    false
}

/// Append the characters of `src` to `dst`.
pub fn append_chars(dst: &mut Vec<char>, src: &Vec<char>)
    ensures
        final(dst)@ == old(dst)@ + src@,
{
    let mut k: usize = 0;
    while k < src.len()
        invariant
            k <= src@.len(),
            dst@ == old(dst)@ + src@.subrange(0, k as int),
        decreases src@.len() - k,
    {
        dst.push(src[k]);
        k += 1;
        proof {
            assert(old(dst)@ + src@.subrange(0, k - 1) + seq![src@[k - 1]] =~= old(dst)@
                + src@.subrange(0, k as int));
        }
    }
    proof {
        assert(src@.subrange(0, src@.len() as int) =~= src@);
    }
}

/// The marker pass: rewrite `content`, replacing each marker whose key is
/// among `known` with its placeholder token and every other marker with
/// visible unknown-citation text, and report the resolved keys in marker
/// order.
pub fn substitute_markers(content: &Vec<char>, known: &Vec<Vec<char>>) -> (r: (Vec<char>, Vec<
    Vec<char>,
>))
    ensures
        ({
            let (out, hits) = rewrite_from(
                content@,
                0,
                known@.map_values(|v: Vec<char>| v@).to_set(),
            );
            &&& r.0@ == out
            &&& r.1@.map_values(|v: Vec<char>| v@) == hits
        }),
{
    let ghost keys = known@.map_values(|v: Vec<char>| v@).to_set();
    let ghost s = content@;
    let n = content.len();
    let mut out: Vec<char> = Vec::new();
    let mut hits: Vec<Vec<char>> = Vec::new();
    let mut i: usize = 0;
    while i < n
        invariant
            i <= n,
            n == s.len(),
            s == content@,
            keys == known@.map_values(|v: Vec<char>| v@).to_set(),
            out@ + rewrite_from(s, i as int, keys).0 == rewrite_from(s, 0, keys).0,
            hits@.map_values(|v: Vec<char>| v@) + rewrite_from(s, i as int, keys).1
                == rewrite_from(s, 0, keys).1,
        decreases n - i,
    {
        let ghost pre_out = out@;
        let ghost pre_hits = hits@.map_values(|v: Vec<char>| v@);
        let mut advanced = false;
        if content[i] == '@' && i + 1 < n {
            if content[i + 1] == '[' {
                // look for the first closing bracket after the key start
                let mut j = i + 2;
                while j < n && content[j] != ']'
                    invariant
                        i + 2 <= j <= n,
                        n == s.len(),
                        s == content@,
                        forall|t: int| i + 2 <= t < j ==> s[t] != ']',
                    decreases n - j,
                {
                    j += 1;
                }
                if j < n && j > i + 2 {
                    // a complete marker with a non-empty key
                    proof {
                        lemma_first_close_found(s, i + 2, j as int);
                    }
                    let mut key: Vec<char> = Vec::new();
                    let mut t = i + 2;
                    while t < j
                        invariant
                            i + 2 <= t <= j <= n,
                            n == s.len(),
                            s == content@,
                            key@ == s.subrange(i + 2, t as int),
                        decreases j - t,
                    {
                        key.push(content[t]);
                        t += 1;
                        proof {
                            assert(s.subrange(i + 2, t - 1).push(s[t - 1]) =~= s.subrange(
                                i + 2,
                                t as int,
                            ));
                        }
                    }
                    proof {
                        assert(marker_at(s, i as int) == Some((j + 1, key@)));
                    }
                    if contains_key(known, &key) {
                        let ph = chars_of("CITATION_PLACEHOLDER_");
                        append_chars(&mut out, &ph);
                        append_chars(&mut out, &key);
                        let ghost k = key@;
                        hits.push(key);
                        proof {
                            assert(out@ =~= pre_out + placeholder_text(k));
                            assert(hits@.map_values(|v: Vec<char>| v@) =~= pre_hits + seq![k]);
                            let (rest, rhits) = rewrite_from(s, j + 1, keys);
                            assert(rewrite_from(s, i as int, keys).0 == placeholder_text(k)
                                + rest);
                            assert(pre_out + (placeholder_text(k) + rest) =~= (pre_out
                                + placeholder_text(k)) + rest);
                            assert(rewrite_from(s, i as int, keys).1 == seq![k] + rhits);
                            assert(pre_hits + (seq![k] + rhits) =~= (pre_hits + seq![k]) + rhits);
                        }
                    } else {
                        let open = chars_of("[Unknown citation: ");
                        append_chars(&mut out, &open);
                        append_chars(&mut out, &key);
                        out.push(']');
                        proof {
                            let k = key@;
                            reveal_strlit("]");
                            assert("]"@ =~= seq![']']);
                            assert(out@ =~= pre_out + unknown_text(k));
                            let (rest, rhits) = rewrite_from(s, j + 1, keys);
                            assert(rewrite_from(s, i as int, keys).0 == unknown_text(k) + rest);
                            assert(pre_out + (unknown_text(k) + rest) =~= (pre_out + unknown_text(
                                k,
                            )) + rest);
                            assert(rewrite_from(s, i as int, keys).1 == rhits);
                        }
                    }
                    i = j + 1;
                    advanced = true;
                } else {
                    proof {
                        if j >= n {
                            lemma_first_close_none(s, i + 2);
                        } else {
                            lemma_first_close_found(s, i + 2, j as int);
                        }
                        assert(marker_at(s, i as int) is None);
                    }
                }
            }
        }
        if !advanced {
            proof {
                assert(marker_at(s, i as int) is None) by {
                    if i + 1 < n && s[i as int] == '@' && s[i as int + 1] == '[' {
                    } else {
                    }
                };
            }
            out.push(content[i]);
            proof {
                let (rest, rhits) = rewrite_from(s, i as int + 1, keys);
                assert(rewrite_from(s, i as int, keys).0 == seq![s[i as int]] + rest);
                assert(out@ =~= pre_out + seq![s[i as int]]);
                assert(pre_out + (seq![s[i as int]] + rest) =~= (pre_out + seq![s[i as int]])
                    + rest);
            }
            i += 1;
        }
    }
    proof {
        assert(out@ + Seq::<char>::empty() =~= out@);
        assert(hits@.map_values(|v: Vec<char>| v@) + Seq::<Seq<char>>::empty() =~= hits@.map_values(
            |v: Vec<char>| v@,
        ));
    }
    (out, hits)
}

/// The first closing bracket at or after `j` is at `e`.
proof fn lemma_first_close_found(s: Seq<char>, j: int, e: int)
    requires
        0 <= j <= e < s.len(),
        s[e] == ']',
        forall|t: int| j <= t < e ==> s[t] != ']',
    ensures
        first_close(s, j) == Some(e),
    decreases e - j,
{
    if j < e {
        lemma_first_close_found(s, j + 1, e);
    }
}

/// Without a closing bracket after `j`, there is no close to find.
proof fn lemma_first_close_none(s: Seq<char>, j: int)
    requires
        0 <= j <= s.len(),
        forall|t: int| j <= t < s.len() ==> s[t] != ']',
    ensures
        first_close(s, j) is None,
    decreases s.len() - j,
{
    if j < s.len() {
        lemma_first_close_none(s, j + 1);
    }
}

/// Law: the visible text an unknown marker degrades to contains the raw
/// key, so a reader sees which citation was missing.
pub proof fn lemma_unknown_text_shows_key(key: Seq<char>)
    ensures
        crate::text::contains_seq(unknown_text(key), key),
{
    let pre = "[Unknown citation: "@;
    assert(unknown_text(key).subrange(pre.len() as int, pre.len() as int + key.len() as int)
        =~= key);
    assert(crate::text::matches_at(unknown_text(key), pre.len() as int, key));
}

/// Law: every key the marker pass resolves is a known key — keys absent
/// from the library are never resolved.
pub proof fn lemma_resolved_keys_known(s: Seq<char>, i: int, keys: Set<Seq<char>>)
    requires
        0 <= i <= s.len(),
    ensures
        forall|k: Seq<char>| #[trigger]
            rewrite_from(s, i, keys).1.contains(k) ==> keys.contains(k),
    decreases s.len() - i,
{
    if i >= s.len() {
        assert(rewrite_from(s, i, keys).1 == Seq::<Seq<char>>::empty());
    } else {
        match marker_at(s, i) {
            Some((end, k0)) => {
                lemma_marker_at_bounds(s, i);
                lemma_resolved_keys_known(s, end, keys);
                let rest = rewrite_from(s, end, keys).1;
                assert forall|k: Seq<char>| #[trigger]
                    rewrite_from(s, i, keys).1.contains(k) implies keys.contains(k) by {
                    if keys.contains(k0) {
                        let cur = seq![k0] + rest;
                        assert(rewrite_from(s, i, keys).1 == cur);
                        let j = choose|j: int| 0 <= j < cur.len() && cur[j] == k;
                        if j == 0 {
                            assert(k == k0);
                        } else {
                            assert(rest[j - 1] == k);
                            assert(rest.contains(k));
                        }
                    } else {
                        assert(rewrite_from(s, i, keys).1 == rest);
                        assert(rest.contains(k));
                    }
                }
            },
            None => {
                lemma_resolved_keys_known(s, i + 1, keys);
                assert(rewrite_from(s, i, keys).1 == rewrite_from(s, i + 1, keys).1);
                assert forall|k: Seq<char>| #[trigger]
                    rewrite_from(s, i, keys).1.contains(k) implies keys.contains(k) by {
                    assert(rewrite_from(s, i + 1, keys).1.contains(k));
                }
            },
        }
    }
}

/// The distinct elements of `s` in first-occurrence order.
pub open spec fn dedup_first(s: Seq<Seq<char>>) -> Seq<Seq<char>>
    decreases s.len(),
{
    if s.len() == 0 {
        Seq::empty()
    } else {
        let rest = dedup_first(s.drop_last());
        if rest.contains(s.last()) {
            rest
        } else {
            rest.push(s.last())
        }
    }
}

/// Keep the first occurrence of each key, dropping later duplicates.
pub fn dedup_keys(ks: &Vec<Vec<char>>) -> (r: Vec<Vec<char>>)
    ensures
        r@.map_values(|v: Vec<char>| v@) == dedup_first(ks@.map_values(|v: Vec<char>| v@)),
{
    let mut r: Vec<Vec<char>> = Vec::new();
    let mut i: usize = 0;
    while i < ks.len()
        invariant
            i <= ks@.len(),
            r@.map_values(|v: Vec<char>| v@) == dedup_first(
                ks@.map_values(|v: Vec<char>| v@).subrange(0, i as int),
            ),
        decreases ks@.len() - i,
    {
        let ghost pre = ks@.map_values(|v: Vec<char>| v@).subrange(0, i as int);
        let dup = contains_key(&r, &ks[i]);
        proof {
            lemma_dedup_first_contains(pre);
        }
        if !dup {
            let ghost rpre = r@.map_values(|v: Vec<char>| v@);
            let k = clone_chars(&ks[i]);
            r.push(k);
            proof {
                assert(r@.map_values(|v: Vec<char>| v@) =~= rpre.push(ks@[i as int]@));
            }
        }
        i += 1;
        proof {
            let cur = ks@.map_values(|v: Vec<char>| v@).subrange(0, i as int);
            assert(cur.drop_last() =~= pre);
            assert(cur.last() == ks@[i - 1]@);
        }
    }
    proof {
        assert(ks@.map_values(|v: Vec<char>| v@).subrange(0, ks@.len() as int) =~= ks@.map_values(
            |v: Vec<char>| v@,
        ));
    }
    r
}

/// Clone a character vector.
pub fn clone_chars(v: &Vec<char>) -> (r: Vec<char>)
    ensures
        r@ == v@,
{
    let mut r: Vec<char> = Vec::new();
    append_chars(&mut r, v);
    proof {
        assert(Seq::<char>::empty() + v@ =~= v@);
    }
    r
}

/// Membership in the deduplicated sequence matches membership in the original.
pub proof fn lemma_dedup_first_contains(s: Seq<Seq<char>>)
    ensures
        forall|k: Seq<char>| dedup_first(s).contains(k) == s.contains(k),
        dedup_first(s).no_duplicates(),
    decreases s.len(),
{
    if s.len() == 0 {
    } else {
        lemma_dedup_first_contains(s.drop_last());
        assert forall|k: Seq<char>| dedup_first(s).contains(k) == s.contains(k) by {
            let rest = dedup_first(s.drop_last());
            if s.contains(k) {
                let j = choose|j: int| 0 <= j < s.len() && s[j] == k;
                if j < s.len() - 1 {
                    assert(s.drop_last().contains(k)) by {
                        assert(s.drop_last()[j] == k);
                    }
                    assert(rest.contains(k));
                    if !rest.contains(s.last()) {
                        let j2 = choose|j2: int| 0 <= j2 < rest.len() && rest[j2] == k;
                        assert(rest.push(s.last())[j2] == k);
                    }
                } else {
                    assert(s.last() == k);
                    if !rest.contains(k) {
                        assert(rest.push(s.last())[rest.len() as int] == k);
                    }
                }
                assert(dedup_first(s).contains(k));
            } else {
                assert(!s.drop_last().contains(k)) by {
                    if s.drop_last().contains(k) {
                        let j = choose|j: int| 0 <= j < s.len() - 1 && s.drop_last()[j] == k;
                        assert(s[j] == k);
                    }
                }
                assert(s.last() != k) by {
                    assert(s[s.len() - 1] == s.last());
                }
                if dedup_first(s).contains(k) {
                    if rest.contains(k) {
                    } else {
                        assert(dedup_first(s) == rest.push(s.last()));
                        let j = choose|j: int|
                            0 <= j < dedup_first(s).len() && dedup_first(s)[j] == k;
                        if j < rest.len() {
                            assert(rest[j] == k);
                        } else {
                            assert(dedup_first(s)[j] == s.last());
                        }
                    }
                }
            }
        }
    }
}

} // verus!
