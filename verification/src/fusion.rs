//! Result fusion: deduplication by normalized URL, an agreement bonus when
//! several backends return the same page, and re-ranking by score.

use vstd::prelude::*;
use vstd::utf8::encode_utf8;
use crate::text::{
    ascii_lower_code, ascii_lower_seq, ascii_only, lemma_absent_by_char,
    lemma_replace_absent, lemma_replace_prefix, lemma_strip_end_absent, lemma_strip_end_push,
    lemma_trim_ascii, lemma_trim_without_space, lowercase, occurs_at, occurs_in, replace_all,
    replace_seq, strip_end, strip_end_seq, to_lowercase, trim, trim_seq,
};
use crate::types::{copy_opt_string, SearchResult, SCORE_SCALE};

verus! {

broadcast use vstd::seq_lib::group_to_multiset_ensures;

/// The score added when two backends agree on a result (0.1).
pub const AGREEMENT_BONUS: i64 = 100_000;

// ---------------------------------------------------------------------------
// Specifications
// ---------------------------------------------------------------------------

/// The form of a URL under which duplicates are recognised: trimmed,
/// lowercased, without `https://`, `http://` and `www.`, and without
/// trailing slashes.
pub open spec fn normalized_url(url: Seq<char>) -> Seq<char> {
    strip_end_seq(
        replace_seq(
            replace_seq(replace_seq(lowercase(trim_seq(url)), "https://"@, ""@), "http://"@, ""@),
            "www."@,
            ""@,
        ),
        '/',
    )
}

/// `normalized_url` for ASCII text, where lowercasing is the ASCII mapping.
pub open spec fn normalized_ascii_url(url: Seq<char>) -> Seq<char> {
    strip_end_seq(
        replace_seq(
            replace_seq(
                replace_seq(ascii_lower_seq(trim_seq(url)), "https://"@, ""@),
                "http://"@,
                ""@,
            ),
            "www."@,
            ""@,
        ),
        '/',
    )
}

/// The deduplication key of a result.
pub open spec fn key_of(r: SearchResult) -> Seq<char> {
    normalized_url(r.url@)
}

/// The length in bytes (UTF-8) of a text, as `str::len` reports it.
pub open spec fn byte_len(s: Seq<char>) -> usize {
    encode_utf8(s).len() as usize
}

/// The higher of two scores.
pub open spec fn higher(a: i64, b: i64) -> i64 {
    if a >= b {
        a
    } else {
        b
    }
}

/// The score of a page that two backends agree on. While the better of the
/// two scores is below 1.0 it scores higher than both: the mean (rounded
/// down) plus the agreement bonus, or one step (a millionth) above the better
/// score where the mean plus the bonus would not beat it, capped at 1.0. A
/// better score already at 1.0 or above is kept.
pub open spec fn merged_score(a: i64, b: i64) -> i64 {
    let h = higher(a, b);
    if h >= SCORE_SCALE {
        h
    } else {
        let m = (a + b) / 2 + AGREEMENT_BONUS;
        let raised = if m > h + 1 {
            m
        } else {
            h + 1
        };
        (if raised > SCORE_SCALE {
            SCORE_SCALE as int
        } else {
            raised
        }) as i64
    }
}

/// `existing` after `incoming` was found to be the same page: the merged
/// score, and the longer snippet (in bytes; the existing one on a tie).
pub open spec fn merge(existing: SearchResult, incoming: SearchResult) -> SearchResult {
    SearchResult {
        title: existing.title,
        url: existing.url,
        snippet: if byte_len(incoming.snippet@) > byte_len(existing.snippet@) {
            incoming.snippet
        } else {
            existing.snippet
        },
        source: existing.source,
        score: merged_score(existing.score, incoming.score),
        published_date: existing.published_date,
    }
}

/// Does some result of `acc` have key `k`?
pub open spec fn has_key(acc: Seq<SearchResult>, k: Seq<char>) -> bool {
    exists|j: int| 0 <= j < acc.len() && key_of(#[trigger] acc[j]) == k
}

/// The position in `acc` of a result with key `k` (meaningful when
/// `has_key(acc, k)`).
pub open spec fn position_of(acc: Seq<SearchResult>, k: Seq<char>) -> int {
    choose|j: int| 0 <= j < acc.len() && key_of(#[trigger] acc[j]) == k
}

/// `acc` after taking in `r`: merged into the result with the same key, or
/// appended when there is none.
pub open spec fn absorb(acc: Seq<SearchResult>, r: SearchResult) -> Seq<SearchResult> {
    if has_key(acc, key_of(r)) {
        let j = position_of(acc, key_of(r));
        acc.update(j, merge(acc[j], r))
    } else {
        acc.push(r)
    }
}

/// The results deduplicated in order of first appearance.
pub open spec fn dedup(rs: Seq<SearchResult>) -> Seq<SearchResult>
    decreases rs.len(),
{
    if rs.len() == 0 {
        Seq::empty()
    } else {
        absorb(dedup(rs.drop_last()), rs.last())
    }
}

/// No two results share a key.
pub open spec fn keys_unique(s: Seq<SearchResult>) -> bool {
    forall|i: int, j: int|
        0 <= i < s.len() && 0 <= j < s.len() && i != j ==> key_of(#[trigger] s[i]) != key_of(
            #[trigger] s[j],
        )
}

/// `x` placed into `s` after every element whose score is at least its own
/// (insertion into a list ordered by descending score, keeping ties stable).
pub open spec fn insert_desc(s: Seq<SearchResult>, x: SearchResult) -> Seq<SearchResult>
    decreases s.len(),
{
    if s.len() == 0 {
        seq![x]
    } else if s.last().score >= x.score {
        s.push(x)
    } else {
        insert_desc(s.drop_last(), x).push(s.last())
    }
}

/// The results ordered by descending score; results with equal scores keep
/// their order.
pub open spec fn sort_desc(s: Seq<SearchResult>) -> Seq<SearchResult>
    decreases s.len(),
{
    if s.len() == 0 {
        Seq::empty()
    } else {
        insert_desc(sort_desc(s.drop_last()), s.last())
    }
}

/// The first `n` elements of `s`, or all of them when there are fewer
/// (`Vec::truncate`).
pub open spec fn truncated<T>(s: Seq<T>, n: nat) -> Seq<T> {
    if n <= s.len() {
        s.take(n as int)
    } else {
        s
    }
}

/// What `fuse` returns.
pub open spec fn fused(rs: Seq<SearchResult>, max_results: nat) -> Seq<SearchResult> {
    truncated(sort_desc(dedup(rs)), max_results)
}

/// Scores never increase along `s`.
pub open spec fn descending(s: Seq<SearchResult>) -> bool {
    forall|i: int, j: int| 0 <= i <= j < s.len() ==> (#[trigger] s[i]).score >= (#[trigger] s[j]).score
}

// ---------------------------------------------------------------------------
// Executable functions
// ---------------------------------------------------------------------------

/// Normalizes a URL for deduplication.
pub fn normalize_url(url: &str) -> (r: String)
    ensures
        r@ == normalized_url(url@),
        ascii_only(url@) ==> r@ == normalized_ascii_url(url@),
{
    let t = trim(url);
    proof {
        if ascii_only(url@) {
            lemma_trim_ascii(url@);
        }
    }
    let l = to_lowercase(t.as_str());
    proof {
        reveal_strlit("https://");
        reveal_strlit("http://");
        reveal_strlit("www.");
    }
    let a = replace_all(l.as_str(), "https://", "");
    let b = replace_all(a.as_str(), "http://", "");
    let c = replace_all(b.as_str(), "www.", "");
    strip_end(c.as_str(), '/')
}

/// The score of a result that two backends agree on.
pub fn merge_scores(a: i64, b: i64) -> (r: i64)
    ensures
        r == merged_score(a, b),
{
    let hi: i64 = if a >= b {
        a
    } else {
        b
    };
    if hi >= 1_000_000 {
        return hi;
    }
    let s: i128 = a as i128 + b as i128 + 18446744073709551616i128;
    let u: u128 = s as u128;
    let h: u128 = u / 2;
    let half: i128 = h as i128 - 9223372036854775808i128;
    assert(half == (a + b) / 2);
    let m: i128 = half + 100_000;
    let step: i128 = hi as i128 + 1;
    let raised: i128 = if m > step {
        m
    } else {
        step
    };
    let capped: i128 = if raised > 1_000_000 {
        1_000_000
    } else {
        raised
    };
    capped as i64
}

/// `existing` merged with `incoming`, a result for the same page.
fn merge_result(existing: &SearchResult, incoming: SearchResult) -> (r: SearchResult)
    ensures
        r == merge(*existing, incoming),
{
    let longer = incoming.snippet.as_str().len() > existing.snippet.as_str().len();
    SearchResult {
        title: existing.title.clone(),
        url: existing.url.clone(),
        snippet: if longer {
            incoming.snippet
        } else {
            existing.snippet.clone()
        },
        source: existing.source.clone(),
        score: merge_scores(existing.score, incoming.score),
        published_date: copy_opt_string(&existing.published_date),
    }
}

proof fn lemma_absorb_keys(acc: Seq<SearchResult>, r: SearchResult)
    requires
        keys_unique(acc),
    ensures
        keys_unique(absorb(acc, r)),
        absorb(acc, r).len() <= acc.len() + 1,
        has_key(absorb(acc, r), key_of(r)),
        forall|k: Seq<char>| has_key(acc, k) ==> has_key(absorb(acc, r), k),
{
    let out = absorb(acc, r);
    if has_key(acc, key_of(r)) {
        let j = position_of(acc, key_of(r));
        assert(key_of(out[j]) == key_of(acc[j]));
        assert forall|a: int| 0 <= a < out.len() implies key_of(#[trigger] out[a]) == key_of(
            acc[a],
        ) by {}
        assert forall|k: Seq<char>| has_key(acc, k) implies has_key(out, k) by {
            let a = choose|a: int| 0 <= a < acc.len() && key_of(#[trigger] acc[a]) == k;
            assert(key_of(out[a]) == k);
        }
    } else {
        assert(out[acc.len() as int] == r);
        assert forall|k: Seq<char>| has_key(acc, k) implies has_key(out, k) by {
            let a = choose|a: int| 0 <= a < acc.len() && key_of(#[trigger] acc[a]) == k;
            assert(out[a] == acc[a]);
        }
    }
}

/// Deduplicated results have distinct keys.
pub proof fn lemma_dedup_keys_unique(rs: Seq<SearchResult>)
    ensures
        keys_unique(dedup(rs)),
        dedup(rs).len() <= rs.len(),
    decreases rs.len(),
{
    if rs.len() > 0 {
        lemma_dedup_keys_unique(rs.drop_last());
        lemma_absorb_keys(dedup(rs.drop_last()), rs.last());
    }
}

/// Every input result is represented in the deduplicated results by a result
/// with its key.
pub proof fn lemma_dedup_covers(rs: Seq<SearchResult>)
    ensures
        forall|i: int| 0 <= i < rs.len() ==> has_key(dedup(rs), key_of(#[trigger] rs[i])),
    decreases rs.len(),
{
    if rs.len() > 0 {
        lemma_dedup_covers(rs.drop_last());
        lemma_dedup_keys_unique(rs.drop_last());
        lemma_absorb_keys(dedup(rs.drop_last()), rs.last());
        assert forall|i: int| 0 <= i < rs.len() implies has_key(dedup(rs), key_of(#[trigger] rs[i])) by {
            if i < rs.len() - 1 {
                assert(rs.drop_last()[i] == rs[i]);
            }
        }
    }
}

/// The result with key `k` in a deduplicated list.
fn find_key(keys: &Vec<String>, k: &String) -> (r: Option<usize>)
    ensures
        match r {
            Some(j) => j < keys@.len() && keys@[j as int]@ == k@,
            None => forall|j: int| 0 <= j < keys@.len() ==> (#[trigger] keys@[j])@ != k@,
        },
{
    let mut j: usize = 0;
    while j < keys.len()
        invariant
            j <= keys@.len(),
            forall|i: int| 0 <= i < j ==> (#[trigger] keys@[i])@ != k@,
        decreases keys@.len() - j,
    {
        if keys[j] == *k {
            return Some(j);
        }
        j = j + 1;
    }
    None
}

/// The results deduplicated by normalized URL, in order of first appearance.
pub fn dedup_results(results: &Vec<SearchResult>) -> (r: Vec<SearchResult>)
    ensures
        r@ == dedup(results@),
{
    let mut deduped: Vec<SearchResult> = Vec::new();
    let mut keys: Vec<String> = Vec::new();
    let mut i: usize = 0;
    assert(results@.take(0) =~= Seq::<SearchResult>::empty());
    while i < results.len()
        invariant
            i <= results@.len(),
            deduped@ == dedup(results@.take(i as int)),
            keys@.len() == deduped@.len(),
            forall|j: int| 0 <= j < keys@.len() ==> (#[trigger] keys@[j])@ == key_of(deduped@[j]),
        decreases results@.len() - i,
    {
        proof {
            lemma_dedup_keys_unique(results@.take(i as int));
            assert(results@.take(i + 1).drop_last() =~= results@.take(i as int));
        }
        let r = results[i].duplicate();
        let k = normalize_url(r.url.as_str());
        let ghost acc = deduped@;
        match find_key(&keys, &k) {
            Some(j) => {
                assert(key_of(acc[j as int]) == key_of(r));
                assert(has_key(acc, key_of(r)));
                let ghost c = position_of(acc, key_of(r));
                assert(c == j);
                let merged = merge_result(&deduped[j], r);
                deduped.set(j, merged);
                assert forall|a: int| 0 <= a < keys@.len() implies (#[trigger] keys@[a])@ == key_of(
                    deduped@[a],
                ) by {
                    if a == j {
                        assert(key_of(deduped@[a]) == key_of(acc[a]));
                    }
                }
            },
            None => {
                assert(!has_key(acc, key_of(r))) by {
                    if has_key(acc, key_of(r)) {
                        let a = choose|a: int| 0 <= a < acc.len() && key_of(#[trigger] acc[a]) == key_of(r);
                        assert(keys@[a]@ == key_of(acc[a]));
                    }
                }
                keys.push(k);
                deduped.push(r);
            },
        }
        i = i + 1;
    }
    assert(results@.take(results@.len() as int) =~= results@);
    deduped
}

proof fn lemma_insert_at(s: Seq<SearchResult>, x: SearchResult, pos: int)
    requires
        0 <= pos <= s.len(),
        pos == 0 || s[pos - 1].score >= x.score,
        forall|k: int| pos <= k < s.len() ==> (#[trigger] s[k]).score < x.score,
    ensures
        insert_desc(s, x) == s.insert(pos, x),
    decreases s.len(),
{
    if s.len() == 0 {
        assert(s.insert(pos, x) =~= seq![x]);
    } else if pos == s.len() {
        assert(s.insert(pos, x) =~= s.push(x));
    } else {
        assert(s.last().score < x.score);
        lemma_insert_at(s.drop_last(), x, pos);
        assert(s.drop_last().insert(pos, x).push(s.last()) =~= s.insert(pos, x));
    }
}

/// The results ordered by descending score, ties keeping their order.
pub fn sort_by_score(v: &Vec<SearchResult>) -> (r: Vec<SearchResult>)
    ensures
        r@ == sort_desc(v@),
{
    let mut out: Vec<SearchResult> = Vec::new();
    let mut i: usize = 0;
    assert(v@.take(0) =~= Seq::<SearchResult>::empty());
    while i < v.len()
        invariant
            i <= v@.len(),
            out@ == sort_desc(v@.take(i as int)),
        decreases v@.len() - i,
    {
        assert(v@.take(i + 1).drop_last() =~= v@.take(i as int));
        let x = v[i].duplicate();
        let mut pos: usize = out.len();
        while pos > 0 && out[pos - 1].score < x.score
            invariant
                pos <= out@.len(),
                forall|k: int| pos <= k < out@.len() ==> (#[trigger] out@[k]).score < x.score,
            decreases pos,
        {
            pos = pos - 1;
        }
        proof {
            lemma_insert_at(out@, x, pos as int);
        }
        out.insert(pos, x);
        i = i + 1;
    }
    assert(v@.take(v@.len() as int) =~= v@);
    out
}

/// Deduplicates results by URL and re-ranks them by score, keeping at most
/// `max_results`.
pub fn fuse(results: Vec<SearchResult>, max_results: usize) -> (r: Vec<SearchResult>)
    ensures
        r@ == fused(results@, max_results as nat),
{
    let deduped = dedup_results(&results);
    let mut sorted = sort_by_score(&deduped);
    sorted.truncate(max_results);
    sorted
}

// ---------------------------------------------------------------------------
// Laws
// ---------------------------------------------------------------------------

proof fn lemma_insert_desc_multiset(s: Seq<SearchResult>, x: SearchResult)
    ensures
        insert_desc(s, x).to_multiset() =~= s.to_multiset().insert(x),
        insert_desc(s, x).len() == s.len() + 1,
    decreases s.len(),
{
    if s.len() == 0 {
        assert(seq![x] =~= Seq::<SearchResult>::empty().push(x));
    } else if s.last().score >= x.score {
    } else {
        lemma_insert_desc_multiset(s.drop_last(), x);
        assert(s.drop_last().push(s.last()) =~= s);
    }
}

/// Sorting by score rearranges the results and loses or adds none.
pub proof fn lemma_sort_desc_permutes(s: Seq<SearchResult>)
    ensures
        sort_desc(s).to_multiset() =~= s.to_multiset(),
        sort_desc(s).len() == s.len(),
    decreases s.len(),
{
    if s.len() > 0 {
        lemma_sort_desc_permutes(s.drop_last());
        lemma_insert_desc_multiset(sort_desc(s.drop_last()), s.last());
        assert(s.drop_last().push(s.last()) =~= s);
    }
}

proof fn lemma_insert_desc_descending(s: Seq<SearchResult>, x: SearchResult)
    requires
        descending(s),
    ensures
        descending(insert_desc(s, x)),
        forall|i: int| 0 <= i < insert_desc(s, x).len() ==> (#[trigger] insert_desc(s, x)[i]).score
            >= x.score || exists|j: int| 0 <= j < s.len() && s[j] == insert_desc(s, x)[i],
    decreases s.len(),
{
    if s.len() == 0 {
    } else if s.last().score >= x.score {
        let t = s.push(x);
        assert forall|i: int, j: int| 0 <= i <= j < t.len() implies (#[trigger] t[i]).score >= (
        #[trigger] t[j]).score by {
            if j == s.len() {
                assert(s[i].score >= s.last().score || i == s.len());
            }
        }
        assert forall|i: int| 0 <= i < t.len() implies (#[trigger] t[i]).score >= x.score
            || exists|j: int| 0 <= j < s.len() && s[j] == t[i] by {
            if i < s.len() {
                assert(s[i] == t[i]);
            }
        }
    } else {
        let p = s.drop_last();
        assert(descending(p));
        lemma_insert_desc_descending(p, x);
        let q = insert_desc(p, x);
        let t = q.push(s.last());
        lemma_insert_desc_multiset(p, x);
        assert forall|i: int| 0 <= i < q.len() implies (#[trigger] q[i]).score >= s.last().score by {
            if q[i].score < x.score {
                let j = choose|j: int| 0 <= j < p.len() && p[j] == q[i];
                assert(p[j] == s[j]);
            }
        }
        assert forall|i: int, j: int| 0 <= i <= j < t.len() implies (#[trigger] t[i]).score >= (
        #[trigger] t[j]).score by {
            if j == q.len() && i < q.len() {
                assert(q[i].score >= s.last().score);
            }
        }
        assert forall|i: int| 0 <= i < t.len() implies (#[trigger] t[i]).score >= x.score
            || exists|j: int| 0 <= j < s.len() && s[j] == t[i] by {
            if i == q.len() {
                assert(s[s.len() - 1] == t[i]);
            } else if q[i].score < x.score {
                let j = choose|j: int| 0 <= j < p.len() && p[j] == q[i];
                assert(s[j] == t[i]);
            }
        }
    }
}

/// Sorted results are in descending order of score.
pub proof fn lemma_sort_desc_descending(s: Seq<SearchResult>)
    ensures
        descending(sort_desc(s)),
    decreases s.len(),
{
    if s.len() > 0 {
        lemma_sort_desc_descending(s.drop_last());
        lemma_insert_desc_descending(sort_desc(s.drop_last()), s.last());
    }
}

/// The fused results are ordered by descending score.
pub proof fn lemma_fused_descending(rs: Seq<SearchResult>, max_results: nat)
    ensures
        descending(fused(rs, max_results)),
{
    lemma_sort_desc_descending(dedup(rs));
}

/// No two fused results share a normalized URL.
pub proof fn lemma_fused_unique(rs: Seq<SearchResult>, max_results: nat)
    ensures
        keys_unique(fused(rs, max_results)),
{
    broadcast use vstd::multiset::group_multiset_axioms;

    let d = dedup(rs);
    let s = sort_desc(d);
    lemma_dedup_keys_unique(rs);
    lemma_sort_desc_permutes(d);
    assert(d.no_duplicates()) by {
        assert forall|i: int, j: int| 0 <= i < d.len() && 0 <= j < d.len() && i != j implies d[i]
            != d[j] by {
            assert(key_of(d[i]) != key_of(d[j]));
        }
    }
    d.lemma_multiset_has_no_duplicates();
    assert forall|x: SearchResult| s.to_multiset().contains(x) implies s.to_multiset().count(x)
        == 1 by {
        assert(d.to_multiset().contains(x));
    }
    s.lemma_multiset_has_no_duplicates_conv();
    assert forall|i: int, j: int|
        0 <= i < s.len() && 0 <= j < s.len() && i != j implies key_of(#[trigger] s[i]) != key_of(
        #[trigger] s[j],
    ) by {
        assert(s.to_multiset().count(s[i]) > 0);
        assert(s.to_multiset().count(s[j]) > 0);
        assert(d.to_multiset().count(s[i]) > 0);
        assert(d.to_multiset().count(s[j]) > 0);
        assert(d.contains(s[i]));
        assert(d.contains(s[j]));
        let a = choose|a: int| 0 <= a < d.len() && d[a] == s[i];
        let b = choose|b: int| 0 <= b < d.len() && d[b] == s[j];
        assert(s[i] != s[j]);
        assert(a != b);
    }
    let f = fused(rs, max_results);
    assert forall|i: int, j: int|
        0 <= i < f.len() && 0 <= j < f.len() && i != j implies key_of(#[trigger] f[i]) != key_of(
        #[trigger] f[j],
    ) by {
        assert(f[i] == s[i]);
        assert(f[j] == s[j]);
    }
}

/// The number of fused results: at most `max_results`, and fewer only when
/// there are fewer distinct URLs.
pub proof fn lemma_fused_len(rs: Seq<SearchResult>, max_results: nat)
    ensures
        fused(rs, max_results).len() == if max_results <= dedup(rs).len() {
            max_results
        } else {
            dedup(rs).len()
        },
        fused(rs, max_results).len() <= max_results,
        fused(rs, max_results).len() <= rs.len(),
{
    lemma_sort_desc_permutes(dedup(rs));
    lemma_dedup_keys_unique(rs);
}

/// When two backends agree on a page whose better score is below 1.0, the
/// merged score is above both scores and at most 1.0; it is the mean plus
/// the bonus wherever that already beats the better score within 1.0; it
/// never falls below either score; and scores within [0, 1.0] stay within it.
pub proof fn lemma_agreement_raises_score(a: i64, b: i64)
    ensures
        merged_score(a, b) >= a,
        merged_score(a, b) >= b,
        higher(a, b) < SCORE_SCALE ==> merged_score(a, b) > a && merged_score(a, b) > b
            && merged_score(a, b) <= SCORE_SCALE,
        higher(a, b) < (a + b) / 2 + AGREEMENT_BONUS <= SCORE_SCALE ==> merged_score(a, b) == (a
            + b) / 2 + AGREEMENT_BONUS,
        higher(a, b) >= SCORE_SCALE ==> merged_score(a, b) == higher(a, b),
        0 <= a <= SCORE_SCALE && 0 <= b <= SCORE_SCALE ==> 0 <= merged_score(a, b) <= SCORE_SCALE,
{
}

} // verus!

verus! {

/// When `max_results` is at least the number of distinct URLs, every input
/// page is represented among the fused results.
pub proof fn lemma_fused_complete(rs: Seq<SearchResult>, max_results: nat)
    requires
        max_results >= dedup(rs).len(),
    ensures
        forall|i: int| 0 <= i < rs.len() ==> has_key(fused(rs, max_results), key_of(#[trigger] rs[i])),
{
    broadcast use vstd::seq_lib::group_to_multiset_ensures;

    let d = dedup(rs);
    let s = sort_desc(d);
    lemma_dedup_covers(rs);
    lemma_sort_desc_permutes(d);
    assert(fused(rs, max_results) == s);
    assert forall|i: int| 0 <= i < rs.len() implies has_key(s, key_of(#[trigger] rs[i])) by {
        assert(has_key(d, key_of(rs[i])));
        let j = choose|j: int| 0 <= j < d.len() && key_of(#[trigger] d[j]) == key_of(rs[i]);
        assert(d.contains(d[j]));
        assert(d.to_multiset().count(d[j]) > 0);
        assert(s.to_multiset().count(d[j]) > 0);
        assert(s.contains(d[j]));
        let k = choose|k: int| 0 <= k < s.len() && s[k] == d[j];
        assert(key_of(s[k]) == key_of(rs[i]));
    }
}

} // verus!

verus! {

/// Every score lies within [0, 1.0].
pub open spec fn scores_normalized(s: Seq<SearchResult>) -> bool {
    forall|i: int| 0 <= i < s.len() ==> 0 <= (#[trigger] s[i]).score <= SCORE_SCALE
}

/// Deduplication never lowers a page's score: for every input result, the
/// deduplicated result with its key scores at least as high.
pub proof fn lemma_dedup_never_lowers(rs: Seq<SearchResult>)
    ensures
        forall|i: int|
            0 <= i < rs.len() ==> exists|j: int|
                0 <= j < dedup(rs).len() && key_of(#[trigger] dedup(rs)[j]) == key_of(#[trigger] rs[i])
                    && dedup(rs)[j].score >= rs[i].score,
    decreases rs.len(),
{
    if rs.len() > 0 {
        let p = rs.drop_last();
        let x = rs.last();
        let d = dedup(p);
        let out = dedup(rs);
        lemma_dedup_never_lowers(p);
        lemma_dedup_keys_unique(p);
        assert(out == absorb(d, x));
        if has_key(d, key_of(x)) {
            let q = position_of(d, key_of(x));
            lemma_agreement_raises_score(d[q].score, x.score);
            assert(out[q] == merge(d[q], x));
            assert forall|i: int| 0 <= i < rs.len() implies exists|j: int|
                0 <= j < out.len() && key_of(#[trigger] out[j]) == key_of(#[trigger] rs[i])
                    && out[j].score >= rs[i].score by {
                if i < rs.len() - 1 {
                    assert(rs[i] == p[i]);
                    let j = choose|j: int|
                        0 <= j < d.len() && key_of(#[trigger] d[j]) == key_of(#[trigger] p[i])
                            && d[j].score >= p[i].score;
                    assert(key_of(out[j]) == key_of(rs[i]));
                } else {
                    assert(key_of(out[q]) == key_of(rs[i]));
                }
            }
        } else {
            assert forall|i: int| 0 <= i < rs.len() implies exists|j: int|
                0 <= j < out.len() && key_of(#[trigger] out[j]) == key_of(#[trigger] rs[i])
                    && out[j].score >= rs[i].score by {
                if i < rs.len() - 1 {
                    assert(rs[i] == p[i]);
                    let j = choose|j: int|
                        0 <= j < d.len() && key_of(#[trigger] d[j]) == key_of(#[trigger] p[i])
                            && d[j].score >= p[i].score;
                    assert(out[j] == d[j]);
                } else {
                    assert(out[d.len() as int] == x);
                }
            }
        }
    }
}

/// Deduplication keeps scores within [0, 1.0].
pub proof fn lemma_dedup_normalized(rs: Seq<SearchResult>)
    requires
        scores_normalized(rs),
    ensures
        scores_normalized(dedup(rs)),
    decreases rs.len(),
{
    if rs.len() > 0 {
        let p = rs.drop_last();
        let x = rs.last();
        assert(scores_normalized(p)) by {
            assert forall|i: int| 0 <= i < p.len() implies 0 <= (#[trigger] p[i]).score
                <= SCORE_SCALE by {
                assert(p[i] == rs[i]);
            }
        }
        lemma_dedup_normalized(p);
        let d = dedup(p);
        let out = dedup(rs);
        if has_key(d, key_of(x)) {
            let q = position_of(d, key_of(x));
            lemma_agreement_raises_score(d[q].score, x.score);
        }
        assert(scores_normalized(out));
    }
}

/// Scores within [0, 1.0] stay within it through fusion.
pub proof fn lemma_fused_normalized(rs: Seq<SearchResult>, max_results: nat)
    requires
        scores_normalized(rs),
    ensures
        scores_normalized(fused(rs, max_results)),
{
    broadcast use vstd::seq_lib::group_to_multiset_ensures;

    let d = dedup(rs);
    let s = sort_desc(d);
    lemma_dedup_normalized(rs);
    lemma_sort_desc_permutes(d);
    let f = fused(rs, max_results);
    assert forall|i: int| 0 <= i < f.len() implies 0 <= (#[trigger] f[i]).score <= SCORE_SCALE by {
        assert(f[i] == s[i]);
        assert(s.contains(s[i]));
        assert(s.to_multiset().count(s[i]) > 0);
        assert(d.to_multiset().count(s[i]) > 0);
        assert(d.contains(s[i]));
        let j = choose|j: int| 0 <= j < d.len() && d[j] == s[i];
    }
}

/// Results found by several engines rank at least as high as each finding:
/// when `max_results` admits every distinct page, each input result is
/// represented by a fused result with its key and at least its score.
pub proof fn lemma_fused_never_lowers(rs: Seq<SearchResult>, max_results: nat)
    requires
        max_results >= dedup(rs).len(),
    ensures
        forall|i: int|
            0 <= i < rs.len() ==> exists|k: int|
                0 <= k < fused(rs, max_results).len() && key_of(#[trigger] fused(rs, max_results)[k])
                    == key_of(#[trigger] rs[i]) && fused(rs, max_results)[k].score >= rs[i].score,
{
    broadcast use vstd::seq_lib::group_to_multiset_ensures;

    let d = dedup(rs);
    let s = sort_desc(d);
    lemma_dedup_never_lowers(rs);
    lemma_sort_desc_permutes(d);
    let f = fused(rs, max_results);
    assert(f == s);
    assert forall|i: int| 0 <= i < rs.len() implies exists|k: int|
        0 <= k < f.len() && key_of(#[trigger] f[k]) == key_of(#[trigger] rs[i]) && f[k].score
            >= rs[i].score by {
        let j = choose|j: int|
            0 <= j < d.len() && key_of(#[trigger] d[j]) == key_of(#[trigger] rs[i]) && d[j].score
                >= rs[i].score;
        assert(d.contains(d[j]));
        assert(d.to_multiset().count(d[j]) > 0);
        assert(s.to_multiset().count(d[j]) > 0);
        assert(s.contains(d[j]));
        let k = choose|k: int| 0 <= k < s.len() && s[k] == d[j];
        assert(key_of(f[k]) == key_of(rs[i]));
    }
}

} // verus!

verus! {

/// A character of a plain URL body: an ASCII small letter, a digit, `.`, `-`
/// or `/`.
pub open spec fn url_body_char(c: char) -> bool {
    let u = c as u32;
    (97 <= u <= 122) || (48 <= u <= 57) || u == 46 || u == 45 || u == 47
}

/// A URL already in normal form: made of `url_body_char`s, without `www.`
/// and without a trailing slash.
pub open spec fn plain_url_body(s: Seq<char>) -> bool {
    &&& forall|i: int| 0 <= i < s.len() ==> url_body_char(#[trigger] s[i])
    &&& !occurs_in(s, "www."@)
    &&& (s.len() == 0 || s.last() != '/')
}

/// No colon in `s`.
spec fn colon_free(s: Seq<char>) -> bool {
    forall|i: int| 0 <= i < s.len() ==> #[trigger] s[i] != ':'
}

proof fn lemma_url_literals()
    ensures
        "https://"@ == seq!['h', 't', 't', 'p', 's', ':', '/', '/'],
        "http://"@ == seq!['h', 't', 't', 'p', ':', '/', '/'],
        "www."@ == seq!['w', 'w', 'w', '.'],
        "/"@ == seq!['/'],
        "//"@ == seq!['/', '/'],
        ""@ == Seq::<char>::empty(),
        "http://www."@ == seq!['h', 't', 't', 'p', ':', '/', '/', 'w', 'w', 'w', '.'],
        "HTTPS://WWW."@ == seq!['H', 'T', 'T', 'P', 'S', ':', '/', '/', 'W', 'W', 'W', '.'],
{
    reveal_strlit("https://");
    reveal_strlit("http://");
    reveal_strlit("www.");
    reveal_strlit("/");
    reveal_strlit("//");
    reveal_strlit("");
    reveal_strlit("http://www.");
    reveal_strlit("HTTPS://WWW.");
    assert("https://"@ =~= seq!['h', 't', 't', 'p', 's', ':', '/', '/']);
    assert("http://"@ =~= seq!['h', 't', 't', 'p', ':', '/', '/']);
    assert("www."@ =~= seq!['w', 'w', 'w', '.']);
    assert("/"@ =~= seq!['/']);
    assert("//"@ =~= seq!['/', '/']);
    assert(""@ =~= Seq::<char>::empty());
    assert("http://www."@ =~= seq!['h', 't', 't', 'p', ':', '/', '/', 'w', 'w', 'w', '.']);
    assert("HTTPS://WWW."@ =~= seq!['H', 'T', 'T', 'P', 'S', ':', '/', '/', 'W', 'W', 'W', '.']);
}

proof fn lemma_ascii_lower_add(a: Seq<char>, b: Seq<char>)
    ensures
        ascii_lower_seq(a + b) == ascii_lower_seq(a) + ascii_lower_seq(b),
{
    assert(ascii_lower_seq(a + b) =~= ascii_lower_seq(a) + ascii_lower_seq(b));
}

proof fn lemma_ascii_lower_fixed(s: Seq<char>)
    requires
        forall|i: int| 0 <= i < s.len() ==> !(65 <= (#[trigger] s[i]) as u32 <= 90),
    ensures
        ascii_lower_seq(s) == s,
{
    broadcast use vstd::utf8::char_u32_cast;

    assert forall|i: int| 0 <= i < s.len() implies #[trigger] ascii_lower_seq(s)[i] == s[i] by {
        let c = s[i];
        assert(ascii_lower_code(c) == c as u32);
        vstd::utf8::char_u32_cast(c, c as u32);
        assert((c as u32) as char == c);
        assert(ascii_lower_seq(s)[i] == ascii_lower_code(c) as char);
    }
    assert(ascii_lower_seq(s) =~= s);
}

proof fn lemma_colon_free_absent(y: Seq<char>)
    requires
        colon_free(y),
    ensures
        !occurs_in(y, "https://"@),
        !occurs_in(y, "http://"@),
        !occurs_in("http://"@ + y, "https://"@),
{
    lemma_url_literals();
    lemma_absent_by_char(y, "https://"@, 5);
    lemma_absent_by_char(y, "http://"@, 4);
    let x = "http://"@ + y;
    let h = "https://"@;
    assert forall|i: int| !occurs_at(x, i, h) by {
        if occurs_at(x, i, h) {
            assert(x.subrange(i, i + 8)[5] == x[i + 5]);
            assert(x[i + 5] == ':');
        }
    }
}

/// What is left of `s + tail` for a slash-only `tail` after the last two
/// normalization steps is `s`.
proof fn lemma_body_tail(s: Seq<char>, tail: Seq<char>)
    requires
        plain_url_body(s),
        forall|j: int| 0 <= j < tail.len() ==> #[trigger] tail[j] == '/',
    ensures
        strip_end_seq(replace_seq(s + tail, "www."@, ""@), '/') == s,
    decreases tail.len(),
{
    lemma_url_literals();
    let x = s + tail;
    let w = "www."@;
    assert forall|i: int| !occurs_at(x, i, w) by {
        if occurs_at(x, i, w) {
            if i + 4 <= s.len() {
                assert(x.subrange(i, i + 4) =~= s.subrange(i, i + 4));
                assert(occurs_at(s, i, w));
            } else {
                assert(x.subrange(i, i + 4)[3] == x[i + 3]);
                assert(x[i + 3] == tail[i + 3 - s.len()]);
            }
        }
    }
    lemma_replace_absent(x, w, ""@);
    if tail.len() == 0 {
        assert(x =~= s);
        lemma_strip_end_absent(s, '/');
    } else {
        let shorter = tail.drop_last();
        lemma_body_tail(s, shorter);
        assert(x =~= (s + shorter).push('/'));
        lemma_strip_end_push(s + shorter, '/');
        assert forall|i: int| !occurs_at(s + shorter, i, w) by {
            if occurs_at(s + shorter, i, w) {
                assert((s + shorter).subrange(i, i + 4) =~= x.subrange(i, i + 4));
                assert(occurs_at(x, i, w));
            }
        }
        lemma_replace_absent(s + shorter, w, ""@);
    }
}

/// The steps after the first replacement, for colon-free text `s + tail`.
proof fn lemma_after_https(s: Seq<char>, tail: Seq<char>)
    requires
        plain_url_body(s),
        forall|j: int| 0 <= j < tail.len() ==> #[trigger] tail[j] == '/',
    ensures
        strip_end_seq(
            replace_seq(replace_seq(s + tail, "http://"@, ""@), "www."@, ""@),
            '/',
        ) == s,
{
    lemma_url_literals();
    assert(colon_free(s + tail));
    lemma_colon_free_absent(s + tail);
    lemma_replace_absent(s + tail, "http://"@, ""@);
    lemma_body_tail(s, tail);
}

proof fn lemma_plain_body_alone(s: Seq<char>)
    requires
        plain_url_body(s),
    ensures
        ascii_only(s),
        normalized_ascii_url(s) == s,
{
    lemma_url_literals();
    let empty = Seq::<char>::empty();
    lemma_trim_without_space(s);
    lemma_ascii_lower_fixed(s);
    assert(colon_free(s));
    lemma_colon_free_absent(s);
    lemma_replace_absent(s, "https://"@, ""@);
    assert(s + empty =~= s);
    lemma_after_https(s, empty);
}

proof fn lemma_plain_body_https(s: Seq<char>)
    requires
        plain_url_body(s),
    ensures
        ascii_only("https://"@ + s),
        normalized_ascii_url("https://"@ + s) == s,
{
    lemma_url_literals();
    let h = "https://"@;
    let empty = Seq::<char>::empty();
    let xb = h + s;
    assert(xb[0] == 'h');
    if s.len() > 0 {
        assert(xb.last() == s.last());
        assert(url_body_char(s[s.len() - 1]));
    }
    lemma_trim_without_space(xb);
    assert(trim_seq(xb) == xb);
    lemma_ascii_lower_fixed(h);
    lemma_ascii_lower_fixed(s);
    lemma_ascii_lower_add(h, s);
    assert(ascii_lower_seq(trim_seq(xb)) == xb);
    lemma_replace_prefix(h, s, ""@);
    assert(""@ + s =~= s);
    assert(replace_seq(xb, h, ""@) == replace_seq(s, h, ""@));
    assert(colon_free(s));
    lemma_colon_free_absent(s);
    lemma_replace_absent(s, h, ""@);
    assert(replace_seq(xb, h, ""@) == s);
    assert(s + empty =~= s);
    lemma_after_https(s, empty);
}

proof fn lemma_plain_body_http_www(s: Seq<char>)
    requires
        plain_url_body(s),
    ensures
        ascii_only("http://www."@ + s + "/"@),
        normalized_ascii_url("http://www."@ + s + "/"@) == s,
{
    lemma_url_literals();
    let h = "https://"@;
    let p = "http://"@;
    let w = "www."@;
    let e = ""@;
    let one = "/"@;
    let yc = w + (s + one);
    let xc = "http://www."@ + s + one;
    assert(xc =~= p + yc);
    assert(xc[0] == 'h');
    lemma_trim_without_space(xc);
    lemma_ascii_lower_fixed(xc);
    assert(colon_free(yc));
    lemma_colon_free_absent(yc);
    lemma_replace_absent(p + yc, h, e);
    lemma_replace_prefix(p, yc, e);
    lemma_replace_absent(yc, p, e);
    lemma_replace_prefix(w, s + one, e);
    assert(e + (s + one) =~= s + one);
    assert(e + yc =~= yc);
    lemma_body_tail(s, one);
}

/// Normalizing a URL already in normal form gives it back, and so does
/// normalizing it after adding `https://`, or `http://www.` and a trailing
/// slash. These inputs are ASCII, so `normalize_url` computes
/// `normalized_ascii_url` on them.
pub proof fn lemma_normalize_plain_url(s: Seq<char>)
    requires
        plain_url_body(s),
    ensures
        ascii_only(s),
        ascii_only("https://"@ + s),
        ascii_only("http://www."@ + s + "/"@),
        normalized_ascii_url(s) == s,
        normalized_ascii_url("https://"@ + s) == s,
        normalized_ascii_url("http://www."@ + s + "/"@) == s,
{
    lemma_plain_body_alone(s);
    lemma_plain_body_https(s);
    lemma_plain_body_http_www(s);
}

/// Normalizing `HTTPS://WWW.`, then any ASCII capitalization `t` of a URL
/// `s` in normal form, then two slashes, gives `s` back.
pub proof fn lemma_normalize_capitalized_url(s: Seq<char>, t: Seq<char>)
    requires
        plain_url_body(s),
        ascii_only(t),
        ascii_lower_seq(t) == s,
    ensures
        ascii_only("HTTPS://WWW."@ + t + "//"@),
        normalized_ascii_url("HTTPS://WWW."@ + t + "//"@) == s,
{
    lemma_url_literals();
    let h = "https://"@;
    let p = "http://"@;
    let w = "www."@;
    let e = ""@;
    let two = "//"@;
    let caps = "HTTPS://WWW."@;
    let xd = caps + t + two;
    let yd = w + (s + two);
    assert(xd[0] == 'H');
    assert(xd.last() == '/');
    lemma_trim_without_space(xd);
    assert(trim_seq(xd) == xd);
    lemma_ascii_lower_add(caps + t, two);
    lemma_ascii_lower_add(caps, t);
    lemma_ascii_lower_fixed(two);
    assert(ascii_lower_seq(caps) =~= h + w);
    assert(ascii_lower_seq(xd) =~= h + yd);
    lemma_replace_prefix(h, yd, e);
    assert(e + yd =~= yd);
    assert(replace_seq(ascii_lower_seq(trim_seq(xd)), h, e) == replace_seq(yd, h, e));
    assert(colon_free(yd));
    lemma_colon_free_absent(yd);
    lemma_replace_absent(yd, h, e);
    assert(replace_seq(ascii_lower_seq(trim_seq(xd)), h, e) == yd);
    assert(colon_free(yd));
    lemma_colon_free_absent(yd);
    lemma_replace_absent(yd, p, e);
    lemma_replace_prefix(w, s + two, e);
    assert(e + (s + two) =~= s + two);
    lemma_body_tail(s, two);
}

} // verus!

verus! {

/// Every input result with key `k` scores below 1.0.
pub open spec fn key_below_one(rs: Seq<SearchResult>, k: Seq<char>) -> bool {
    forall|i: int| 0 <= i < rs.len() && key_of(#[trigger] rs[i]) == k ==> rs[i].score < SCORE_SCALE
}

/// What deduplication keeps of the scores of `rs` in `d`: each page scores at
/// least each of its findings, at most 1.0 while those are below 1.0, and,
/// when it was found twice or more, above each finding.
spec fn agreement_kept(rs: Seq<SearchResult>, d: Seq<SearchResult>) -> bool {
    &&& forall|j: int, i: int|
        0 <= j < d.len() && 0 <= i < rs.len() && key_of(#[trigger] rs[i]) == key_of(#[trigger] d[j])
            ==> d[j].score >= rs[i].score
    &&& forall|j: int|
        0 <= j < d.len() && key_below_one(rs, key_of(#[trigger] d[j])) ==> d[j].score
            <= SCORE_SCALE
    &&& forall|j: int, i: int, i2: int|
        0 <= j < d.len() && 0 <= i < rs.len() && 0 <= i2 < rs.len() && i != i2 && key_of(
            #[trigger] rs[i],
        ) == key_of(#[trigger] d[j]) && key_of(#[trigger] rs[i2]) == key_of(d[j]) && key_below_one(
            rs,
            key_of(d[j]),
        ) ==> d[j].score > rs[i].score
}

proof fn lemma_dedup_agreement_kept(rs: Seq<SearchResult>)
    ensures
        agreement_kept(rs, dedup(rs)),
    decreases rs.len(),
{
    if rs.len() > 0 {
        let p = rs.drop_last();
        let x = rs.last();
        let last = rs.len() - 1;
        let d = dedup(p);
        let out = dedup(rs);
        lemma_dedup_agreement_kept(p);
        lemma_dedup_keys_unique(p);
        lemma_dedup_covers(p);
        assert(out == absorb(d, x));
        assert forall|i: int| 0 <= i < p.len() implies #[trigger] rs[i] == p[i] by {}
        assert forall|k: Seq<char>| key_below_one(rs, k) implies key_below_one(p, k) by {
            assert forall|i: int| 0 <= i < p.len() && key_of(#[trigger] p[i]) == k implies p[i].score
                < SCORE_SCALE by {
                assert(rs[i] == p[i]);
            }
        }
        if has_key(d, key_of(x)) {
            let q = position_of(d, key_of(x));
            let kx = key_of(x);
            lemma_agreement_raises_score(d[q].score, x.score);
            assert(out[q] == merge(d[q], x));
            assert forall|j: int| 0 <= j < out.len() && j != q implies #[trigger] out[j] == d[j]
                && key_of(d[j]) != kx by {}
            assert forall|j: int, i: int|
                0 <= j < out.len() && 0 <= i < rs.len() && key_of(#[trigger] rs[i]) == key_of(
                    #[trigger] out[j],
                ) implies out[j].score >= rs[i].score by {
                if i < last {
                    assert(rs[i] == p[i]);
                }
            }
            assert forall|j: int| 0 <= j < out.len() && key_below_one(rs, key_of(#[trigger] out[j]))
                implies out[j].score <= SCORE_SCALE by {
                assert(key_below_one(p, key_of(out[j])));
                if j == q {
                    assert(key_of(rs[last]) == kx);
                }
            }
            assert forall|j: int, i: int, i2: int|
                0 <= j < out.len() && 0 <= i < rs.len() && 0 <= i2 < rs.len() && i != i2 && key_of(
                    #[trigger] rs[i],
                ) == key_of(#[trigger] out[j]) && key_of(#[trigger] rs[i2]) == key_of(out[j])
                    && key_below_one(rs, key_of(out[j])) implies out[j].score > rs[i].score by {
                assert(key_below_one(p, key_of(out[j])));
                if j == q {
                    assert(key_of(rs[last]) == kx);
                    assert(x.score < SCORE_SCALE);
                    if i < last {
                        assert(rs[i] == p[i]);
                        assert(p[i].score < SCORE_SCALE);
                        assert(d[q].score >= p[i].score);
                    }
                } else {
                    assert(i < last && i2 < last);
                    assert(rs[i] == p[i]);
                    assert(rs[i2] == p[i2]);
                }
            }
        } else {
            let n = d.len() as int;
            assert(out == d.push(x));
            assert forall|i: int| 0 <= i < p.len() implies key_of(#[trigger] p[i]) != key_of(x) by {
                assert(has_key(d, key_of(p[i])));
            }
            assert forall|j: int| 0 <= j < n implies key_of(#[trigger] d[j]) != key_of(x) by {}
            assert forall|j: int, i: int|
                0 <= j < out.len() && 0 <= i < rs.len() && key_of(#[trigger] rs[i]) == key_of(
                    #[trigger] out[j],
                ) implies out[j].score >= rs[i].score by {
                if j < n {
                    assert(out[j] == d[j]);
                    assert(i != last);
                    assert(rs[i] == p[i]);
                } else {
                    if i < last {
                        assert(rs[i] == p[i]);
                    }
                }
            }
            assert forall|j: int| 0 <= j < out.len() && key_below_one(rs, key_of(#[trigger] out[j]))
                implies out[j].score <= SCORE_SCALE by {
                if j < n {
                    assert(out[j] == d[j]);
                    assert(key_below_one(p, key_of(out[j])));
                } else {
                    assert(key_of(rs[last]) == key_of(out[j]));
                }
            }
            assert forall|j: int, i: int, i2: int|
                0 <= j < out.len() && 0 <= i < rs.len() && 0 <= i2 < rs.len() && i != i2 && key_of(
                    #[trigger] rs[i],
                ) == key_of(#[trigger] out[j]) && key_of(#[trigger] rs[i2]) == key_of(out[j])
                    && key_below_one(rs, key_of(out[j])) implies out[j].score > rs[i].score by {
                if j < n {
                    assert(out[j] == d[j]);
                    assert(i != last && i2 != last);
                    assert(rs[i] == p[i]);
                    assert(rs[i2] == p[i2]);
                    assert(key_below_one(p, key_of(out[j])));
                } else {
                    if i < last {
                        assert(rs[i] == p[i]);
                    } else {
                        assert(rs[i2] == p[i2]);
                    }
                }
            }
        }
    }
}

/// Results from two or more engines score higher: when several input
/// results share a page's key and each of them scores below 1.0, the
/// deduplicated result for that page scores above every one of them.
pub proof fn lemma_dedup_agreement_scores_higher(rs: Seq<SearchResult>)
    ensures
        forall|j: int, i: int, i2: int|
            0 <= j < dedup(rs).len() && 0 <= i < rs.len() && 0 <= i2 < rs.len() && i != i2
                && key_of(#[trigger] rs[i]) == key_of(#[trigger] dedup(rs)[j]) && key_of(
                #[trigger] rs[i2],
            ) == key_of(dedup(rs)[j]) && key_below_one(rs, key_of(dedup(rs)[j]))
                ==> dedup(rs)[j].score > rs[i].score,
{
    lemma_dedup_agreement_kept(rs);
}

/// Results from two or more engines score higher after fusion too: a fused
/// result whose page was found by two or more input results, each scoring
/// below 1.0, scores above every one of them.
pub proof fn lemma_fused_agreement_scores_higher(rs: Seq<SearchResult>, max_results: nat)
    ensures
        forall|k: int, i: int, i2: int|
            0 <= k < fused(rs, max_results).len() && 0 <= i < rs.len() && 0 <= i2 < rs.len() && i
                != i2 && key_of(#[trigger] rs[i]) == key_of(#[trigger] fused(rs, max_results)[k])
                && key_of(#[trigger] rs[i2]) == key_of(fused(rs, max_results)[k]) && key_below_one(
                rs,
                key_of(fused(rs, max_results)[k]),
            ) ==> fused(rs, max_results)[k].score > rs[i].score,
{
    broadcast use vstd::seq_lib::group_to_multiset_ensures;

    let d = dedup(rs);
    let s = sort_desc(d);
    lemma_dedup_agreement_kept(rs);
    lemma_sort_desc_permutes(d);
    let f = fused(rs, max_results);
    assert forall|k: int, i: int, i2: int|
        0 <= k < f.len() && 0 <= i < rs.len() && 0 <= i2 < rs.len() && i != i2 && key_of(
            #[trigger] rs[i],
        ) == key_of(#[trigger] f[k]) && key_of(#[trigger] rs[i2]) == key_of(f[k]) && key_below_one(
            rs,
            key_of(f[k]),
        ) implies f[k].score > rs[i].score by {
        assert(f[k] == s[k]);
        assert(s.contains(s[k]));
        assert(s.to_multiset().count(s[k]) > 0);
        assert(d.to_multiset().count(s[k]) > 0);
        assert(d.contains(s[k]));
        let j = choose|j: int| 0 <= j < d.len() && d[j] == s[k];
        assert(key_of(rs[i]) == key_of(d[j]));
    }
}

} // verus!
