//! Near duplicates: files whose perceptual hashes lie close together.
//!
//! Two 64-bit perceptual hashes are compared by their Hamming distance. A
//! rule decides from the distances whether two files are similar, and a
//! greedy pass groups each file with the later files similar to it that no
//! earlier group has taken.

use vstd::prelude::*;
use crate::models::{FileListRow, GroupRecord, RecordView, record_views};
use crate::paths::{file_name, path_file_name};
use crate::order::{order_by_desc, sorted_desc};
use crate::text::{append_decimal, append_str, append_chars, decimal, string_from_chars, vec_from_str};

verus! {

/// The number of one bits among the lowest `n` bits of `x`.
pub open spec fn ones_below(x: u64, n: nat) -> nat
    decreases n,
{
    if n == 0 {
        0
    } else {
        (x % 2) as nat + ones_below(x / 2, (n - 1) as nat)
    }
}

/// The Hamming distance of two 64-bit hashes: the number of bit positions
/// in which they differ.
pub open spec fn hamming(a: u64, b: u64) -> nat {
    ones_below(a ^ b, 64)
}

pub proof fn lemma_hamming_bound(a: u64, b: u64)
    ensures
        hamming(a, b) <= 64,
{
    lemma_ones_below_bound(a ^ b, 64);
}

pub proof fn lemma_ones_below_bound(x: u64, n: nat)
    ensures
        ones_below(x, n) <= n,
    decreases n,
{
    if n > 0 {
        lemma_ones_below_bound(x / 2, (n - 1) as nat);
    }
}

/// The Hamming distance of two 64-bit hashes.
pub fn hamming_distance(a: u64, b: u64) -> (d: u32)
    ensures
        d == hamming(a, b),
        d <= 64,
{
    let mut x: u64 = a ^ b;
    let mut count: u32 = 0;
    let mut i: u32 = 0;
    while i < 64
        invariant
            i <= 64,
            count <= i,
            count + ones_below(x, (64 - i) as nat) == hamming(a, b),
        decreases 64 - i,
    {
        let bit: u64 = x % 2;
        count = count + bit as u32;
        x = x / 2;
        i = i + 1;
    }
    count
}

/// The largest Hamming distance at which two hashes of each kind still count
/// as close.
#[derive(Debug, Clone, Copy)]
pub struct HashThresholds {
    pub ahash: u32,
    pub dhash: u32,
    pub phash: u32,
}

/// How two files are judged similar.
#[derive(Debug, Clone, Copy)]
pub enum SimilarityRule {
    /// Both files have a pHash, the pHashes are close, and so are the dHashes
    /// and the aHashes wherever both files have them.
    AllHashes(HashThresholds),
    /// The strongest hash that both files have decides alone: the pHash,
    /// else the dHash, else the aHash. Files sharing no hash are not similar.
    StrongestHash(HashThresholds),
}

/// Both hashes are present and within `t` of each other.
pub open spec fn close(a: Option<u64>, b: Option<u64>, t: u32) -> bool {
    match (a, b) {
        (Some(x), Some(y)) => hamming(x, y) <= t,
        _ => false,
    }
}

/// Where both hashes are present, they are within `t` of each other.
pub open spec fn close_if_both(a: Option<u64>, b: Option<u64>, t: u32) -> bool {
    match (a, b) {
        (Some(x), Some(y)) => hamming(x, y) <= t,
        _ => true,
    }
}

pub open spec fn both(a: Option<u64>, b: Option<u64>) -> bool {
    a is Some && b is Some
}

/// Whether `b` is similar to `a` under the rule.
pub open spec fn rule_matches(rule: SimilarityRule, a: FileListRow, b: FileListRow) -> bool {
    match rule {
        SimilarityRule::AllHashes(t) => {
            &&& close(a.phash, b.phash, t.phash)
            &&& close_if_both(a.dhash, b.dhash, t.dhash)
            &&& close_if_both(a.ahash, b.ahash, t.ahash)
        },
        SimilarityRule::StrongestHash(t) => {
            if both(a.phash, b.phash) {
                close(a.phash, b.phash, t.phash)
            } else if both(a.dhash, b.dhash) {
                close(a.dhash, b.dhash, t.dhash)
            } else {
                close(a.ahash, b.ahash, t.ahash)
            }
        },
    }
}

fn close_exec(a: Option<u64>, b: Option<u64>, t: u32) -> (r: bool)
    ensures
        r == close(a, b, t),
{
    match (a, b) {
        (Some(x), Some(y)) => hamming_distance(x, y) <= t,
        _ => false,
    }
}

fn close_if_both_exec(a: Option<u64>, b: Option<u64>, t: u32) -> (r: bool)
    ensures
        r == close_if_both(a, b, t),
{
    match (a, b) {
        (Some(x), Some(y)) => hamming_distance(x, y) <= t,
        _ => true,
    }
}

/// Confidence is counted in units of 1/6400 of a percent, so that every
/// value the rules produce is a whole number: 640000 units are 100%.
pub const FULL_CONFIDENCE: u32 = 640000;

/// The confidence that two hashes at Hamming distance `d` show the same
/// picture: the share of equal bits, with identical hashes reported as
/// 99.99% rather than 100%.
pub open spec fn hash_confidence(d: int) -> int {
    if d == 0 {
        639936
    } else {
        (64 - d) * 10000
    }
}

/// The distance between two hashes and the confidence it gives.
#[derive(Debug, Clone, Copy)]
pub struct HashScore {
    pub distance: u32,
    pub confidence: u32,
}

pub open spec fn score_of(a: Option<u64>, b: Option<u64>) -> Option<HashScore> {
    match (a, b) {
        (Some(x), Some(y)) => Some(
            HashScore { distance: hamming(x, y) as u32, confidence: hash_confidence(hamming(x, y) as int) as u32 },
        ),
        _ => None,
    }
}

/// The score of two optional hashes: none unless both are present.
pub fn hash_score(a: Option<u64>, b: Option<u64>) -> (s: Option<HashScore>)
    ensures
        s == score_of(a, b),
        match s {
            Some(h) => h.distance <= 64 && h.confidence <= 639936,
            None => true,
        },
{
    match (a, b) {
        (Some(x), Some(y)) => {
            let d = hamming_distance(x, y);
            let confidence: u32 = if d == 0 {
                639936
            } else {
                (64 - d) * 10000
            };
            Some(HashScore { distance: d, confidence })
        },
        _ => None,
    }
}

/// The scores of one file against another: one per hash kind that both
/// have, and an overall confidence.
#[derive(Debug, Clone, Copy)]
pub struct SimilarityScores {
    pub overall: u32,
    pub phash: Option<HashScore>,
    pub dhash: Option<HashScore>,
    pub ahash: Option<HashScore>,
}

/// The overall confidence: the pHash's where there is one, else the mean of
/// the dHash's and the aHash's that there are, else nothing.
pub open spec fn overall_of(p: Option<HashScore>, d: Option<HashScore>, a: Option<HashScore>) -> int {
    match p {
        Some(s) => s.confidence as int,
        None => match (d, a) {
            (Some(x), Some(y)) => (x.confidence + y.confidence) / 2,
            (Some(x), None) => x.confidence as int,
            (None, Some(y)) => y.confidence as int,
            (None, None) => 0,
        },
    }
}

pub open spec fn scores_of(a: FileListRow, b: FileListRow) -> SimilarityScores {
    let p = score_of(a.phash, b.phash);
    let d = score_of(a.dhash, b.dhash);
    let h = score_of(a.ahash, b.ahash);
    SimilarityScores { overall: overall_of(p, d, h) as u32, phash: p, dhash: d, ahash: h }
}

/// Scores `b` against `a`.
pub fn similarity_scores(a: &FileListRow, b: &FileListRow) -> (s: SimilarityScores)
    ensures
        s == scores_of(*a, *b),
        s.overall <= 639936,
{
    let p = hash_score(a.phash, b.phash);
    let d = hash_score(a.dhash, b.dhash);
    let h = hash_score(a.ahash, b.ahash);
    let overall: u32 = match p {
        Some(s) => s.confidence,
        None => match (d, h) {
            (Some(x), Some(y)) => (x.confidence + y.confidence) / 2,
            (Some(x), None) => x.confidence,
            (None, Some(y)) => y.confidence,
            (None, None) => 0,
        },
    };
    SimilarityScores { overall, phash: p, dhash: d, ahash: h }
}

/// Whether scores pass the thresholds: the strongest hash scored decides.
pub open spec fn passes(s: SimilarityScores, t: HashThresholds) -> bool {
    match s.phash {
        Some(p) => p.distance <= t.phash,
        None => match s.dhash {
            Some(d) => d.distance <= t.dhash,
            None => match s.ahash {
                Some(a) => a.distance <= t.ahash,
                None => false,
            },
        },
    }
}

pub fn passes_similarity(scores: SimilarityScores, thresholds: HashThresholds) -> (r: bool)
    ensures
        r == passes(scores, thresholds),
{
    if let Some(p) = scores.phash {
        return p.distance <= thresholds.phash;
    }
    if let Some(d) = scores.dhash {
        return d.distance <= thresholds.dhash;
    }
    if let Some(a) = scores.ahash {
        return a.distance <= thresholds.ahash;
    }
    false
}

/// Whether `b` is similar to `a` under the rule.
pub fn matches_rule(rule: &SimilarityRule, a: &FileListRow, b: &FileListRow) -> (r: bool)
    ensures
        r == rule_matches(*rule, *a, *b),
{
    match rule {
        SimilarityRule::AllHashes(t) => {
            close_exec(a.phash, b.phash, t.phash) && close_if_both_exec(a.dhash, b.dhash, t.dhash)
                && close_if_both_exec(a.ahash, b.ahash, t.ahash)
        },
        SimilarityRule::StrongestHash(t) => {
            proof {
                if both(a.phash, b.phash) {
                    lemma_hamming_bound(a.phash->0, b.phash->0);
                }
                if both(a.dhash, b.dhash) {
                    lemma_hamming_bound(a.dhash->0, b.dhash->0);
                }
                if both(a.ahash, b.ahash) {
                    lemma_hamming_bound(a.ahash->0, b.ahash->0);
                }
            }
            passes_similarity(similarity_scores(a, b), *t)
        },
    }
}


/// The indices `j` with `i < j < m` that are not yet taken and whose row is
/// similar to row `i`, in increasing order.
pub open spec fn candidates(rows: Seq<FileListRow>, rule: SimilarityRule, used: Seq<bool>, i: int, m: int) -> Seq<usize>
    decreases m - i,
{
    if m <= i + 1 {
        Seq::empty()
    } else {
        let prev = candidates(rows, rule, used, i, m - 1);
        if !used[m - 1] && rule_matches(rule, rows[i], rows[m - 1]) {
            prev.push((m - 1) as usize)
        } else {
            prev
        }
    }
}

/// `used` with `i` and every index in `c` taken.
pub open spec fn mark(used: Seq<bool>, i: int, c: Seq<usize>) -> Seq<bool> {
    Seq::new(used.len(), |j: int| used[j] || j == i || c.contains(j as usize))
}

/// A group as a value: the index of its first file, and the indices of the
/// files similar to it, in increasing order.
pub type GroupView = (usize, Seq<usize>);

/// The greedy pass over the first `k` rows: which rows are taken, and the
/// groups formed so far. Row `i`, if no earlier group took it, takes every
/// later row similar to it that is still free; it forms a group where there
/// is at least one.
pub open spec fn greedy(rows: Seq<FileListRow>, rule: SimilarityRule, k: int) -> (Seq<bool>, Seq<GroupView>)
    decreases k,
{
    if k <= 0 {
        (Seq::new(rows.len(), |j: int| false), Seq::empty())
    } else {
        let prev = greedy(rows, rule, k - 1);
        let i = k - 1;
        if prev.0[i] {
            prev
        } else {
            let c = candidates(rows, rule, prev.0, i, rows.len() as int);
            if c.len() == 0 {
                prev
            } else {
                (mark(prev.0, i, c), prev.1.push((i as usize, c)))
            }
        }
    }
}

/// The groups of similar rows under the rule.
pub open spec fn similar_groups(rows: Seq<FileListRow>, rule: SimilarityRule) -> Seq<GroupView> {
    greedy(rows, rule, rows.len() as int).1
}

/// A group of similar files, by index into the rows they come from.
#[derive(Debug, Clone)]
pub struct SimilarGroup {
    pub anchor: usize,
    pub members: Vec<usize>,
}

impl View for SimilarGroup {
    type V = GroupView;

    open spec fn view(&self) -> GroupView {
        (self.anchor, self.members@)
    }
}

pub open spec fn group_views(g: Seq<SimilarGroup>) -> Seq<GroupView> {
    Seq::new(g.len(), |i: int| g[i]@)
}

pub proof fn lemma_candidates(rows: Seq<FileListRow>, rule: SimilarityRule, used: Seq<bool>, i: int, m: int)
    requires
        0 <= i,
        m <= rows.len() <= usize::MAX,
        used.len() == rows.len(),
    ensures
        forall|a: int| 0 <= a < candidates(rows, rule, used, i, m).len() ==> {
            let j = #[trigger] candidates(rows, rule, used, i, m)[a];
            &&& i < j < m
            &&& !used[j as int]
            &&& rule_matches(rule, rows[i], rows[j as int])
        },
        forall|a: int, b: int| 0 <= a < b < candidates(rows, rule, used, i, m).len()
            ==> #[trigger] candidates(rows, rule, used, i, m)[a] < #[trigger] candidates(rows, rule, used, i, m)[b],
        forall|j: int| i < j < m && !used[j] && rule_matches(rule, rows[i], rows[j])
            ==> #[trigger] candidates(rows, rule, used, i, m).contains(j as usize),
    decreases m - i,
{
    if m > i + 1 {
        lemma_candidates(rows, rule, used, i, m - 1);
        let prev = candidates(rows, rule, used, i, m - 1);
        let c = candidates(rows, rule, used, i, m);
        let took = !used[m - 1] && rule_matches(rule, rows[i], rows[m - 1]);
        if took {
            assert(c == prev.push((m - 1) as usize));
        } else {
            assert(c == prev);
        }
        assert forall|a: int| 0 <= a < c.len() implies {
            let j = #[trigger] c[a];
            &&& i < j < m
            &&& !used[j as int]
            &&& rule_matches(rule, rows[i], rows[j as int])
        } by {
            if a < prev.len() {
                assert(c[a] == prev[a]);
            }
        }
        assert forall|a: int, b: int| 0 <= a < b < c.len() implies #[trigger] c[a] < #[trigger] c[b] by {
            if b < prev.len() {
                assert(c[a] == prev[a] && c[b] == prev[b]);
            } else {
                assert(c[a] == prev[a]);
            }
        }
        assert forall|j: int| i < j < m && !used[j] && rule_matches(rule, rows[i], rows[j]) implies #[trigger] c.contains(j as usize) by {
            if j < m - 1 {
                assert(candidates(rows, rule, used, i, m - 1).contains(j as usize));
                let a = choose|a: int| 0 <= a < prev.len() && prev[a] == j as usize;
                assert(c[a] == j as usize);
            } else {
                assert(c[c.len() - 1] == j as usize);
            }
        }
    }
}


/// Whether index `x` is the first file or one of the similar files of `g`.
pub open spec fn in_group(g: GroupView, x: usize) -> bool {
    g.0 == x || g.1.contains(x)
}

/// Whether index `x` belongs to one of the groups.
pub open spec fn grouped(groups: Seq<GroupView>, x: usize) -> bool {
    exists|t: int| 0 <= t < groups.len() && in_group(#[trigger] groups[t], x)
}

/// A group's similar files are later rows, similar to its first file, in
/// increasing order, and there is at least one.
pub open spec fn group_ok(rows: Seq<FileListRow>, rule: SimilarityRule, g: GroupView) -> bool {
    &&& g.1.len() >= 1
    &&& forall|a: int| 0 <= a < g.1.len() ==> g.0 < #[trigger] g.1[a] < rows.len()
        && rule_matches(rule, rows[g.0 as int], rows[g.1[a] as int])
    &&& forall|a: int, b: int| 0 <= a < b < g.1.len() ==> #[trigger] g.1[a] < #[trigger] g.1[b]
}

spec fn greedy_inv(rows: Seq<FileListRow>, rule: SimilarityRule, k: int) -> bool {
    let used = greedy(rows, rule, k).0;
    let groups = greedy(rows, rule, k).1;
    &&& used.len() == rows.len()
    &&& forall|x: usize| x < rows.len() ==> (used[x as int] <==> #[trigger] grouped(groups, x))
    &&& forall|t: int| 0 <= t < groups.len() ==> group_ok(rows, rule, #[trigger] groups[t]) && groups[t].0 < k
    &&& forall|t1: int, t2: int| 0 <= t1 < t2 < groups.len() ==> (#[trigger] groups[t1]).0 < (#[trigger] groups[t2]).0
    &&& forall|t1: int, t2: int, x: usize| 0 <= t1 < t2 < groups.len()
        ==> !(#[trigger] in_group(groups[t1], x) && #[trigger] in_group(groups[t2], x))
    &&& forall|i: int, j: int| 0 <= i < k && i < j < rows.len() && !used[i] && !used[j]
        ==> !#[trigger] rule_matches(rule, rows[i], rows[j])
}

proof fn lemma_greedy_inv(rows: Seq<FileListRow>, rule: SimilarityRule, k: int)
    requires
        0 <= k <= rows.len() <= usize::MAX,
    ensures
        greedy_inv(rows, rule, k),
    decreases k,
{
    if k == 0 {
        let groups = greedy(rows, rule, 0).1;
        assert forall|x: usize| x < rows.len() implies (greedy(rows, rule, 0).0[x as int] <==> #[trigger] grouped(groups, x)) by {}
    } else {
        lemma_greedy_inv(rows, rule, k - 1);
        let i = k - 1;
        let used = greedy(rows, rule, i).0;
        let groups = greedy(rows, rule, i).1;
        if !used[i] {
            let c = candidates(rows, rule, used, i, rows.len() as int);
            lemma_candidates(rows, rule, used, i, rows.len() as int);
            if c.len() == 0 {
                assert forall|a: int, j: int| 0 <= a < k && a < j < rows.len() && !used[a] && !used[j]
                    implies !#[trigger] rule_matches(rule, rows[a], rows[j]) by {
                    if a == i && rule_matches(rule, rows[a], rows[j]) {
                        assert(c.contains(j as usize));
                    }
                }
            } else {
                let used2 = mark(used, i, c);
                let g = (i as usize, c);
                let groups2 = groups.push(g);
                assert(greedy(rows, rule, k).0 == used2);
                assert(greedy(rows, rule, k).1 == groups2);
                assert(group_ok(rows, rule, g));
                assert forall|x: usize| x < rows.len() implies (used2[x as int] <==> #[trigger] grouped(groups2, x)) by {
                    if used2[x as int] {
                        if used[x as int] {
                            assert(grouped(groups, x));
                            let t = choose|t: int| 0 <= t < groups.len() && in_group(#[trigger] groups[t], x);
                            assert(groups2[t] == groups[t]);
                        } else {
                            assert(in_group(g, x));
                            assert(groups2[groups.len() as int] == g);
                        }
                    }
                    if grouped(groups2, x) {
                        let t = choose|t: int| 0 <= t < groups2.len() && in_group(#[trigger] groups2[t], x);
                        if t < groups.len() {
                            assert(groups2[t] == groups[t]);
                            assert(grouped(groups, x));
                        } else {
                            assert(groups2[t] == g);
                        }
                    }
                }
                assert forall|t: int| 0 <= t < groups2.len() implies group_ok(rows, rule, #[trigger] groups2[t]) && groups2[t].0 < k by {
                    if t < groups.len() {
                        assert(groups2[t] == groups[t]);
                    }
                }
                assert forall|t1: int, t2: int| 0 <= t1 < t2 < groups2.len() implies (#[trigger] groups2[t1]).0 < (#[trigger] groups2[t2]).0 by {
                    assert(groups2[t1] == groups[t1]);
                    if t2 < groups.len() {
                        assert(groups2[t2] == groups[t2]);
                    }
                }
                assert forall|t1: int, t2: int, x: usize| 0 <= t1 < t2 < groups2.len()
                    implies !(#[trigger] in_group(groups2[t1], x) && #[trigger] in_group(groups2[t2], x)) by {
                    assert(groups2[t1] == groups[t1]);
                    if t2 < groups.len() {
                        assert(groups2[t2] == groups[t2]);
                    } else if in_group(groups[t1], x) && in_group(g, x) {
                        let h = groups[t1];
                        assert(group_ok(rows, rule, h));
                        if h.0 != x {
                            let a = choose|a: int| 0 <= a < h.1.len() && h.1[a] == x;
                            assert(h.1[a] < rows.len());
                        }
                        assert(x < rows.len());
                        assert(grouped(groups, x));
                        assert(used[x as int]);
                        if x != i {
                            let a = choose|a: int| 0 <= a < c.len() && c[a] == x;
                            assert(!used[c[a] as int]);
                        }
                    }
                }
                assert forall|a: int, j: int| 0 <= a < k && a < j < rows.len() && !used2[a] && !used2[j]
                    implies !#[trigger] rule_matches(rule, rows[a], rows[j]) by {
                    assert(!used[a] && !used[j]);
                }
            }
        }
    }
}


/// Every group has at least one similar file; its similar files come after
/// its first file, in increasing order, and each is similar to the first
/// file under the rule.
pub proof fn lemma_groups_similar_to_first(rows: Seq<FileListRow>, rule: SimilarityRule)
    requires
        rows.len() <= usize::MAX,
    ensures
        forall|t: int| 0 <= t < similar_groups(rows, rule).len()
            ==> group_ok(rows, rule, #[trigger] similar_groups(rows, rule)[t]),
{
    lemma_greedy_inv(rows, rule, rows.len() as int);
}

/// No file belongs to two groups, and the groups come in the order of their
/// first files.
pub proof fn lemma_groups_disjoint(rows: Seq<FileListRow>, rule: SimilarityRule)
    requires
        rows.len() <= usize::MAX,
    ensures
        forall|t1: int, t2: int, x: usize| 0 <= t1 < t2 < similar_groups(rows, rule).len()
            ==> !(#[trigger] in_group(similar_groups(rows, rule)[t1], x)
            && #[trigger] in_group(similar_groups(rows, rule)[t2], x)),
        forall|t1: int, t2: int| 0 <= t1 < t2 < similar_groups(rows, rule).len()
            ==> (#[trigger] similar_groups(rows, rule)[t1]).0 < (#[trigger] similar_groups(rows, rule)[t2]).0,
{
    lemma_greedy_inv(rows, rule, rows.len() as int);
}

/// No two files that the groups leave out are similar to each other: the
/// grouping misses no pair.
pub proof fn lemma_ungrouped_dissimilar(rows: Seq<FileListRow>, rule: SimilarityRule)
    requires
        rows.len() <= usize::MAX,
    ensures
        forall|i: usize, j: usize| i < j < rows.len() && !grouped(similar_groups(rows, rule), i)
            && !grouped(similar_groups(rows, rule), j)
            ==> !#[trigger] rule_matches(rule, rows[i as int], rows[j as int]),
{
    let n = rows.len() as int;
    lemma_greedy_inv(rows, rule, n);
    let used = greedy(rows, rule, n).0;
    let groups = greedy(rows, rule, n).1;
    assert forall|i: usize, j: usize| i < j < rows.len() && !grouped(groups, i) && !grouped(groups, j)
        implies !#[trigger] rule_matches(rule, rows[i as int], rows[j as int]) by {
        assert(!used[i as int] && !used[j as int]);
    }
}

fn find_candidates(rows: &[FileListRow], rule: &SimilarityRule, used: &Vec<bool>, i: usize) -> (c: Vec<usize>)
    requires
        i < rows@.len(),
        used@.len() == rows@.len(),
    ensures
        c@ == candidates(rows@, *rule, used@, i as int, rows@.len() as int),
{
    let n = rows.len();
    let mut c: Vec<usize> = Vec::new();
    let mut j: usize = i + 1;
    while j < rows.len()
        invariant
            i < j <= rows@.len(),
            used@.len() == rows@.len(),
            c@ == candidates(rows@, *rule, used@, i as int, j as int),
        decreases rows@.len() - j,
    {
        if !used[j] && matches_rule(rule, &rows[i], &rows[j]) {
            c.push(j);
        }
        j = j + 1;
    }
    c
}

fn mark_used(used: &mut Vec<bool>, i: usize, c: &Vec<usize>)
    requires
        i < old(used)@.len(),
        forall|a: int| 0 <= a < c@.len() ==> #[trigger] c@[a] < old(used)@.len(),
    ensures
        final(used)@ == mark(old(used)@, i as int, c@),
{
    let ghost start = used@;
    let n = used.len();
    used.set(i, true);
    let mut t: usize = 0;
    while t < c.len()
        invariant
            t <= c@.len(),
            start.len() == n,
            i < start.len(),
            used@.len() == start.len(),
            forall|a: int| 0 <= a < c@.len() ==> #[trigger] c@[a] < start.len(),
            forall|j: int| 0 <= j < start.len()
                ==> #[trigger] used@[j] == (start[j] || j == i || c@.take(t as int).contains(j as usize)),
        decreases c@.len() - t,
    {
        let x = c[t];
        let ghost prev = used@;
        used.set(x, true);
        assert(used@ == prev.update(x as int, true));
        let ghost before = c@.take(t as int);
        let ghost after = c@.take(t + 1);
        assert forall|j: int| 0 <= j < start.len()
            implies #[trigger] used@[j] == (start[j] || j == i || after.contains(j as usize)) by {
            if after.contains(j as usize) {
                let a = choose|a: int| 0 <= a < after.len() && after[a] == j as usize;
                if a < t {
                    assert(before[a] == j as usize);
                }
            }
            if before.contains(j as usize) {
                let a = choose|a: int| 0 <= a < before.len() && before[a] == j as usize;
                assert(after[a] == j as usize);
            }
            if j == x as int {
                assert(after[t as int] == x);
            }
        }
        t = t + 1;
    }
    assert(c@.take(c@.len() as int) =~= c@);
    assert(used@ =~= mark(start, i as int, c@));
}

/// Groups the rows by the greedy pass: each row not yet taken, in order,
/// takes every later free row similar to it, and forms a group where it
/// takes at least one.
pub fn group_similar(rows: &[FileListRow], rule: &SimilarityRule) -> (g: Vec<SimilarGroup>)
    ensures
        group_views(g@) == similar_groups(rows@, *rule),
{
    let n = rows.len();
    let mut used: Vec<bool> = vec![false; n];
    let mut groups: Vec<SimilarGroup> = Vec::new();
    assert(used@ =~= greedy(rows@, *rule, 0).0);
    assert(group_views(groups@) =~= greedy(rows@, *rule, 0).1);
    let mut i: usize = 0;
    while i < n
        invariant
            n == rows@.len(),
            i <= n,
            used@ == greedy(rows@, *rule, i as int).0,
            group_views(groups@) == greedy(rows@, *rule, i as int).1,
        decreases n - i,
    {
        proof {
            lemma_greedy_inv(rows@, *rule, i as int);
        }
        if !used[i] {
            let c = find_candidates(rows, rule, &used, i);
            if c.len() > 0 {
                proof {
                    lemma_candidates(rows@, *rule, used@, i as int, n as int);
                }
                mark_used(&mut used, i, &c);
                let ghost prev = group_views(groups@);
                let g = SimilarGroup { anchor: i, members: c };
                groups.push(g);
                assert(group_views(groups@) =~= prev.push(g@));
            }
        }
        i = i + 1;
    }
    groups
}


/// A threshold given on the C interface, held to `1..=32`.
pub open spec fn clamped(x: u8) -> u32 {
    if x < 1 {
        1
    } else if x > 32 {
        32
    } else {
        x as u32
    }
}

pub fn clamp_threshold(x: u8) -> (r: u32)
    ensures
        r == clamped(x),
{
    if x < 1 {
        1
    } else if x > 32 {
        32
    } else {
        x as u32
    }
}

/// The rule of the C interface: every hash counts, each within its
/// threshold held to `1..=32`.
pub open spec fn interface_rule(phash_max: u8, dhash_max: u8, ahash_max: u8) -> SimilarityRule {
    SimilarityRule::AllHashes(
        HashThresholds { ahash: clamped(ahash_max), dhash: clamped(dhash_max), phash: clamped(phash_max) },
    )
}

/// One file of a similar group as the C interface lists it: its row, the
/// Hamming distance of each of its hashes to the first file's (64 where
/// either file lacks that hash), and the confidence its pHash distance
/// gives, in units of 1/6400 of a percent.
#[derive(Debug, Clone, Copy)]
pub struct SimilarMember {
    pub index: usize,
    pub phash_distance: u8,
    pub dhash_distance: u8,
    pub ahash_distance: u8,
    pub confidence: u32,
}

pub open spec fn distance_or_full(a: Option<u64>, b: Option<u64>) -> nat {
    match (a, b) {
        (Some(x), Some(y)) => hamming(x, y),
        _ => 64,
    }
}

pub fn hash_distance_or_full(a: Option<u64>, b: Option<u64>) -> (d: u8)
    ensures
        d == distance_or_full(a, b),
        d <= 64,
{
    match (a, b) {
        (Some(x), Some(y)) => hamming_distance(x, y) as u8,
        _ => 64,
    }
}

pub open spec fn member_of(rows: Seq<FileListRow>, first: int, index: usize) -> SimilarMember {
    SimilarMember {
        index,
        phash_distance: distance_or_full(rows[first].phash, rows[index as int].phash) as u8,
        dhash_distance: distance_or_full(rows[first].dhash, rows[index as int].dhash) as u8,
        ahash_distance: distance_or_full(rows[first].ahash, rows[index as int].ahash) as u8,
        confidence: hash_confidence(distance_or_full(rows[first].phash, rows[index as int].phash) as int) as u32,
    }
}

/// The confidence a Hamming distance gives.
fn confidence_of_distance(d: u8) -> (c: u32)
    requires
        d <= 64,
    ensures
        c == hash_confidence(d as int),
{
    if d == 0 {
        639936
    } else {
        (64 - d as u32) * 10000
    }
}

/// The files of a group as listed: the first file, then the similar ones.
pub open spec fn group_members(rows: Seq<FileListRow>, g: GroupView) -> Seq<SimilarMember> {
    seq![member_of(rows, g.0 as int, g.0)] + g.1.map_values(|j: usize| member_of(rows, g.0 as int, j))
}

/// The files of all groups, one group after another.
pub open spec fn flat_members(rows: Seq<FileListRow>, gs: Seq<GroupView>) -> Seq<SimilarMember>
    decreases gs.len(),
{
    if gs.len() == 0 {
        Seq::empty()
    } else {
        flat_members(rows, gs.drop_last()) + group_members(rows, gs.last())
    }
}

/// A group's label: its size and the file name of its first file.
pub open spec fn similar_label(rows: Seq<FileListRow>, g: GroupView) -> Seq<char> {
    let name = match file_name(rows[g.0 as int].path@) {
        Some(n) => n,
        None => "(unknown)"@,
    };
    "Similar group ("@ + decimal((g.1.len() + 1) as nat) + " files) - "@ + name
}

pub open spec fn similar_records(rows: Seq<FileListRow>, gs: Seq<GroupView>) -> Seq<RecordView> {
    Seq::new(
        gs.len(),
        |t: int| (similar_label(rows, gs[t]), flat_members(rows, gs.take(t)).len() as usize, (gs[t].1.len() + 1) as usize),
    )
}

fn similar_group_label(rows: &[FileListRow], g: &SimilarGroup, count: usize) -> (s: String)
    requires
        g.anchor < rows@.len(),
        count == g.members@.len() + 1,
    ensures
        s@ == similar_label(rows@, g@),
{
    let mut v: Vec<char> = Vec::new();
    append_str(&mut v, "Similar group (");
    append_decimal(&mut v, count as u64);
    append_str(&mut v, " files) - ");
    match path_file_name(rows[g.anchor].path.as_str()) {
        Some(name) => {
            let nv = vec_from_str(name.as_str());
            append_chars(&mut v, nv.as_slice());
        },
        None => append_str(&mut v, "(unknown)"),
    }
    string_from_chars(v.as_slice())
}

fn push_group_members(rows: &[FileListRow], g: &SimilarGroup, out: &mut Vec<SimilarMember>)
    requires
        g.anchor < rows@.len(),
        forall|a: int| 0 <= a < g.members@.len() ==> #[trigger] g.members@[a] < rows@.len(),
    ensures
        final(out)@ == old(out)@ + group_members(rows@, g@),
{
    let ghost start = out@;
    let first = &rows[g.anchor];
    let pd = hash_distance_or_full(first.phash, first.phash);
    out.push(SimilarMember {
        index: g.anchor,
        phash_distance: pd,
        dhash_distance: hash_distance_or_full(first.dhash, first.dhash),
        ahash_distance: hash_distance_or_full(first.ahash, first.ahash),
        confidence: confidence_of_distance(pd),
    });
    let ghost f = |j: usize| member_of(rows@, g.anchor as int, j);
    let mut k: usize = 0;
    while k < g.members.len()
        invariant
            k <= g.members@.len(),
            g.anchor < rows@.len(),
            *first == rows@[g.anchor as int],
            f == (|j: usize| member_of(rows@, g.anchor as int, j)),
            forall|a: int| 0 <= a < g.members@.len() ==> #[trigger] g.members@[a] < rows@.len(),
            out@ == start + seq![member_of(rows@, g.anchor as int, g.anchor)] + g.members@.take(k as int).map_values(f),
        decreases g.members@.len() - k,
    {
        let j = g.members[k];
        let row = &rows[j];
        let pd = hash_distance_or_full(first.phash, row.phash);
        let m = SimilarMember {
            index: j,
            phash_distance: pd,
            dhash_distance: hash_distance_or_full(first.dhash, row.dhash),
            ahash_distance: hash_distance_or_full(first.ahash, row.ahash),
            confidence: confidence_of_distance(pd),
        };
        assert(m == f(j));
        out.push(m);
        assert(g.members@.take(k + 1).map_values(f) =~= g.members@.take(k as int).map_values(f).push(m));
        assert(out@ =~= start + seq![member_of(rows@, g.anchor as int, g.anchor)] + g.members@.take(k + 1).map_values(f));
        k = k + 1;
    }
    assert(g.members@.take(g.members@.len() as int) =~= g.members@);
    assert(out@ =~= start + group_members(rows@, g@));
}


/// The similar groups as the C interface lists them, under its rule: a
/// record per group, and the files of all groups one group after another,
/// each group's first file leading.
pub fn list_similar_groups(
    rows: &[FileListRow],
    phash_max_distance: u8,
    dhash_max_distance: u8,
    ahash_max_distance: u8,
) -> (r: (Vec<GroupRecord>, Vec<SimilarMember>))
    ensures
        record_views(r.0@) == similar_records(
            rows@,
            similar_groups(rows@, interface_rule(phash_max_distance, dhash_max_distance, ahash_max_distance)),
        ),
        r.1@ == flat_members(
            rows@,
            similar_groups(rows@, interface_rule(phash_max_distance, dhash_max_distance, ahash_max_distance)),
        ),
{
    let rule = SimilarityRule::AllHashes(
        HashThresholds {
            ahash: clamp_threshold(ahash_max_distance),
            dhash: clamp_threshold(dhash_max_distance),
            phash: clamp_threshold(phash_max_distance),
        },
    );
    let groups = group_similar(rows, &rule);
    let ghost gs = similar_groups(rows@, rule);
    let n = rows.len();
    proof {
        lemma_groups_similar_to_first(rows@, rule);
    }
    let mut records: Vec<GroupRecord> = Vec::new();
    let mut out: Vec<SimilarMember> = Vec::new();
    let mut t: usize = 0;
    while t < groups.len()
        invariant
            t <= groups@.len(),
            group_views(groups@) == gs,
            forall|u: int| 0 <= u < gs.len() ==> group_ok(rows@, rule, #[trigger] gs[u]),
            out@ == flat_members(rows@, gs.take(t as int)),
            records@.len() == t,
            forall|u: int| 0 <= u < t ==> (#[trigger] records@[u])@ == (
                similar_label(rows@, gs[u]),
                flat_members(rows@, gs.take(u)).len() as usize,
                (gs[u].1.len() + 1) as usize,
            ),
        decreases groups@.len() - t,
    {
        let g = &groups[t];
        assert(g@ == gs[t as int]);
        assert(group_ok(rows@, rule, g@));
        assert(g.members@[0] < rows@.len());
        let rows_start = out.len();
        push_group_members(rows, g, &mut out);
        let rows_len = out.len() - rows_start;
        let label = similar_group_label(rows, g, rows_len);
        let ghost prev = records@;
        records.push(GroupRecord { label, rows_start, rows_len });
        assert(gs.take(t + 1).drop_last() =~= gs.take(t as int));
        assert(gs.take(t + 1).last() == gs[t as int]);
        assert forall|u: int| 0 <= u < t + 1 implies (#[trigger] records@[u])@ == (
            similar_label(rows@, gs[u]),
            flat_members(rows@, gs.take(u)).len() as usize,
            (gs[u].1.len() + 1) as usize,
        ) by {
            if u < t {
                assert(records@[u] == prev[u]);
            }
        }
        t = t + 1;
    }
    assert(gs.take(gs.len() as int) =~= gs);
    assert(record_views(records@) =~= similar_records(rows@, gs));
    (records, out)
}


/// A similar file with its scores against its group's first file.
#[derive(Debug, Clone, Copy)]
pub struct ScoredMember {
    pub index: usize,
    pub scores: SimilarityScores,
}

/// A group of similar files as the command line reports it: the first
/// file, the similar files by decreasing overall confidence, and the best
/// confidence among them.
#[derive(Debug, Clone)]
pub struct RankedGroup {
    pub anchor: usize,
    pub members: Vec<ScoredMember>,
    pub best: u32,
}

pub type RankedView = (usize, Seq<ScoredMember>, u32);

impl View for RankedGroup {
    type V = RankedView;

    open spec fn view(&self) -> RankedView {
        (self.anchor, self.members@, self.best)
    }
}

pub open spec fn ranked_views(r: Seq<RankedGroup>) -> Seq<RankedView> {
    Seq::new(r.len(), |i: int| r[i]@)
}

pub open spec fn scored(rows: Seq<FileListRow>, first: int, j: usize) -> ScoredMember {
    ScoredMember { index: j, scores: scores_of(rows[first], rows[j as int]) }
}

/// The overall confidence of each similar file of `g`, in index order.
pub open spec fn member_keys(rows: Seq<FileListRow>, g: GroupView) -> Seq<u64> {
    g.1.map_values(|j: usize| scores_of(rows[g.0 as int], rows[j as int]).overall as u64)
}

/// The largest value of `s`, or 0 for none.
pub open spec fn seq_max(s: Seq<u64>) -> u64
    decreases s.len(),
{
    if s.len() == 0 {
        0
    } else if seq_max(s.drop_last()) >= s.last() {
        seq_max(s.drop_last())
    } else {
        s.last()
    }
}

/// `r` reports `g`: the same first file, the similar files in the stable
/// order of decreasing overall confidence, and the best confidence.
pub open spec fn ranks_group(rows: Seq<FileListRow>, g: GroupView, r: RankedView) -> bool {
    &&& r.0 == g.0
    &&& exists|o: Seq<usize>| #[trigger] sorted_desc(member_keys(rows, g), o)
        && r.1 == o.map_values(|q: usize| scored(rows, g.0 as int, g.1[q as int]))
    &&& r.2 as u64 == seq_max(member_keys(rows, g))
}

/// The number of similar files of each group.
pub open spec fn group_sizes(gs: Seq<GroupView>) -> Seq<u64> {
    gs.map_values(|g: GroupView| g.1.len() as u64)
}

/// `r` reports the groups `gs` in the stable order of decreasing size.
pub open spec fn ranks_groups(rows: Seq<FileListRow>, gs: Seq<GroupView>, r: Seq<RankedView>) -> bool {
    exists|o: Seq<usize>| #[trigger] sorted_desc(group_sizes(gs), o) && r.len() == gs.len()
        && forall|k: int| 0 <= k < r.len() ==> ranks_group(rows, gs[o[k] as int], #[trigger] r[k])
}

fn rank_group(rows: &[FileListRow], g: &SimilarGroup) -> (r: RankedGroup)
    requires
        g.anchor < rows@.len(),
        forall|a: int| 0 <= a < g.members@.len() ==> #[trigger] g.members@[a] < rows@.len(),
    ensures
        ranks_group(rows@, g@, r@),
{
    let first = &rows[g.anchor];
    let ghost keys = member_keys(rows@, g@);
    let mut ks: Vec<u64> = Vec::new();
    let mut sc: Vec<SimilarityScores> = Vec::new();
    let mut best: u64 = 0;
    let mut k: usize = 0;
    while k < g.members.len()
        invariant
            k <= g.members@.len(),
            *first == rows@[g.anchor as int],
            forall|a: int| 0 <= a < g.members@.len() ==> #[trigger] g.members@[a] < rows@.len(),
            keys == member_keys(rows@, g@),
            ks@ == keys.take(k as int),
            sc@.len() == k,
            forall|a: int| 0 <= a < k ==> #[trigger] sc@[a] == scores_of(rows@[g.anchor as int], rows@[g.members@[a] as int]),
            best == seq_max(keys.take(k as int)),
            best <= 639936,
        decreases g.members@.len() - k,
    {
        let s = similarity_scores(first, &rows[g.members[k]]);
        let key: u64 = s.overall as u64;
        assert(keys.take(k + 1).drop_last() =~= keys.take(k as int));
        if key > best {
            best = key;
        }
        ks.push(key);
        sc.push(s);
        assert(ks@ =~= keys.take(k + 1));
        k = k + 1;
    }
    assert(keys.take(keys.len() as int) =~= keys);
    let order = order_by_desc(ks.as_slice());
    let ghost f = |q: usize| scored(rows@, g.anchor as int, g.members@[q as int]);
    let mut members: Vec<ScoredMember> = Vec::new();
    let mut q: usize = 0;
    while q < order.len()
        invariant
            q <= order@.len(),
            sorted_desc(keys, order@),
            keys.len() == g.members@.len(),
            ks@ == keys,
            sc@.len() == g.members@.len(),
            forall|a: int| 0 <= a < g.members@.len() ==> #[trigger] sc@[a] == scores_of(rows@[g.anchor as int], rows@[g.members@[a] as int]),
            f == (|q: usize| scored(rows@, g.anchor as int, g.members@[q as int])),
            members@ == order@.take(q as int).map_values(f),
        decreases order@.len() - q,
    {
        let p = order[q];
        let m = ScoredMember { index: g.members[p], scores: sc[p] };
        assert(m == f(p));
        members.push(m);
        assert(order@.take(q + 1).map_values(f) =~= order@.take(q as int).map_values(f).push(m));
        q = q + 1;
    }
    assert(order@.take(order@.len() as int) =~= order@);
    let r = RankedGroup { anchor: g.anchor, members, best: best as u32 };
    assert(sorted_desc(member_keys(rows@, g@), order@));
    r
}

fn copy_ranked(g: &RankedGroup) -> (r: RankedGroup)
    ensures
        r@ == g@,
{
    let mut members: Vec<ScoredMember> = Vec::new();
    let mut k: usize = 0;
    while k < g.members.len()
        invariant
            k <= g.members@.len(),
            members@ == g.members@.take(k as int),
        decreases g.members@.len() - k,
    {
        members.push(g.members[k]);
        assert(members@ =~= g.members@.take(k + 1));
        k = k + 1;
    }
    assert(g.members@.take(g.members@.len() as int) =~= g.members@);
    RankedGroup { anchor: g.anchor, members, best: g.best }
}

/// The similar groups as the command line reports them: the strongest hash
/// that two files share decides, groups come largest first, and within a
/// group the similar files come by decreasing confidence; ties keep the
/// order of the rows.
pub fn collect_similar_groups(rows: &[FileListRow], thresholds: HashThresholds) -> (r: Vec<RankedGroup>)
    ensures
        ranks_groups(rows@, similar_groups(rows@, SimilarityRule::StrongestHash(thresholds)), ranked_views(r@)),
{
    let rule = SimilarityRule::StrongestHash(thresholds);
    let groups = group_similar(rows, &rule);
    let ghost gs = similar_groups(rows@, rule);
    let n = rows.len();
    proof {
        lemma_groups_similar_to_first(rows@, rule);
    }
    let mut ranked: Vec<RankedGroup> = Vec::new();
    let mut sizes: Vec<u64> = Vec::new();
    let mut t: usize = 0;
    while t < groups.len()
        invariant
            t <= groups@.len(),
            n == rows@.len(),
            group_views(groups@) == gs,
            forall|u: int| 0 <= u < gs.len() ==> group_ok(rows@, rule, #[trigger] gs[u]),
            ranked@.len() == t,
            forall|u: int| 0 <= u < t ==> ranks_group(rows@, gs[u], #[trigger] ranked@[u]@),
            sizes@ == group_sizes(gs).take(t as int),
        decreases groups@.len() - t,
    {
        let g = &groups[t];
        assert(g@ == gs[t as int]);
        assert(group_ok(rows@, rule, g@));
        assert(g.members@[0] < rows@.len());
        let rg = rank_group(rows, g);
        let size: u64 = g.members.len() as u64;
        ranked.push(rg);
        sizes.push(size);
        assert(sizes@ =~= group_sizes(gs).take(t + 1));
        t = t + 1;
    }
    assert(group_sizes(gs).take(gs.len() as int) =~= group_sizes(gs));
    let order = order_by_desc(sizes.as_slice());
    let mut out: Vec<RankedGroup> = Vec::new();
    let mut k: usize = 0;
    while k < order.len()
        invariant
            k <= order@.len(),
            sorted_desc(group_sizes(gs), order@),
            ranked@.len() == gs.len(),
            forall|u: int| 0 <= u < gs.len() ==> ranks_group(rows@, gs[u], #[trigger] ranked@[u]@),
            out@.len() == k,
            forall|u: int| 0 <= u < k ==> ranks_group(rows@, gs[order@[u] as int], #[trigger] out@[u]@),
        decreases order@.len() - k,
    {
        let p = order[k];
        let c = copy_ranked(&ranked[p]);
        out.push(c);
        k = k + 1;
    }
    assert(ranked_views(out@).len() == gs.len());
    assert(forall|u: int| 0 <= u < out@.len() ==> #[trigger] ranked_views(out@)[u] == out@[u]@);
    out
}

/// The command line's rule, the strongest shared hash deciding: where both
/// files have a pHash, they are similar exactly when their pHashes differ in
/// at most the pHash threshold's number of bits, whatever their dHashes and
/// aHashes; where they share no pHash but a dHash, the dHash decides alone;
/// where they share only an aHash, the aHash; files that share no hash are
/// never similar. The test on the scores of two files gives the same verdict.
pub proof fn lemma_strongest_hash_decides(a: FileListRow, b: FileListRow, t: HashThresholds)
    ensures
        a.phash is Some && b.phash is Some ==> (rule_matches(SimilarityRule::StrongestHash(t), a, b) == (hamming(
            a.phash->0,
            b.phash->0,
        ) <= t.phash)),
        !(a.phash is Some && b.phash is Some) && a.dhash is Some && b.dhash is Some ==> (rule_matches(
            SimilarityRule::StrongestHash(t),
            a,
            b,
        ) == (hamming(a.dhash->0, b.dhash->0) <= t.dhash)),
        !(a.phash is Some && b.phash is Some) && !(a.dhash is Some && b.dhash is Some) && a.ahash is Some
            && b.ahash is Some ==> (rule_matches(SimilarityRule::StrongestHash(t), a, b) == (hamming(
            a.ahash->0,
            b.ahash->0,
        ) <= t.ahash)),
        !(a.phash is Some && b.phash is Some) && !(a.dhash is Some && b.dhash is Some) && !(a.ahash is Some
            && b.ahash is Some) ==> !rule_matches(SimilarityRule::StrongestHash(t), a, b),
        passes(scores_of(a, b), t) == rule_matches(SimilarityRule::StrongestHash(t), a, b),
{
    if a.phash is Some && b.phash is Some {
        lemma_hamming_bound(a.phash->0, b.phash->0);
    }
    if a.dhash is Some && b.dhash is Some {
        lemma_hamming_bound(a.dhash->0, b.dhash->0);
    }
    if a.ahash is Some && b.ahash is Some {
        lemma_hamming_bound(a.ahash->0, b.ahash->0);
    }
}

/// The C interface's rule: two files are similar exactly when both have a
/// pHash and the pHashes differ in at most the pHash threshold's number of
/// bits, and so do their dHashes and their aHashes, each within its own
/// threshold, wherever both files have that hash.
pub proof fn lemma_all_hashes_within(a: FileListRow, b: FileListRow, t: HashThresholds)
    ensures
        rule_matches(SimilarityRule::AllHashes(t), a, b) == {
            &&& a.phash is Some && b.phash is Some
            &&& hamming(a.phash->0, b.phash->0) <= t.phash
            &&& a.dhash is Some && b.dhash is Some ==> hamming(a.dhash->0, b.dhash->0) <= t.dhash
            &&& a.ahash is Some && b.ahash is Some ==> hamming(a.ahash->0, b.ahash->0) <= t.ahash
        },
{
}

/// Where both files have each hash, their hashes differ in at most the
/// threshold of that hash held to `1..=32`; both have a pHash.
pub open spec fn within_clamped(f: FileListRow, m: FileListRow, phash_max: u8, dhash_max: u8, ahash_max: u8) -> bool {
    &&& f.phash is Some && m.phash is Some
    &&& hamming(f.phash->0, m.phash->0) <= clamped(phash_max)
    &&& f.dhash is Some && m.dhash is Some ==> hamming(f.dhash->0, m.dhash->0) <= clamped(dhash_max)
    &&& f.ahash is Some && m.ahash is Some ==> hamming(f.ahash->0, m.ahash->0) <= clamped(ahash_max)
}

/// Every file that the C interface lists in a similar group is within every
/// threshold, each held to `1..=32`, of the group's first file: its pHash
/// always, its dHash and its aHash wherever both files have them.
pub proof fn lemma_listed_within_thresholds(rows: Seq<FileListRow>, phash_max: u8, dhash_max: u8, ahash_max: u8)
    requires
        rows.len() <= usize::MAX,
    ensures
        forall|g: int, k: int|
            #![trigger similar_groups(rows, interface_rule(phash_max, dhash_max, ahash_max))[g].1[k]]
            0 <= g < similar_groups(rows, interface_rule(phash_max, dhash_max, ahash_max)).len() && 0 <= k
                < similar_groups(rows, interface_rule(phash_max, dhash_max, ahash_max))[g].1.len()
                ==> within_clamped(
                rows[similar_groups(rows, interface_rule(phash_max, dhash_max, ahash_max))[g].0 as int],
                rows[similar_groups(rows, interface_rule(phash_max, dhash_max, ahash_max))[g].1[k] as int],
                phash_max,
                dhash_max,
                ahash_max,
            ),
{
    let rule = interface_rule(phash_max, dhash_max, ahash_max);
    lemma_groups_similar_to_first(rows, rule);
    assert forall|g: int, k: int|
        #![trigger similar_groups(rows, rule)[g].1[k]]
        0 <= g < similar_groups(rows, rule).len() && 0 <= k < similar_groups(rows, rule)[g].1.len() implies within_clamped(
        rows[similar_groups(rows, rule)[g].0 as int],
        rows[similar_groups(rows, rule)[g].1[k] as int],
        phash_max,
        dhash_max,
        ahash_max,
    ) by {
        let gv = similar_groups(rows, rule)[g];
        assert(group_ok(rows, rule, gv));
        assert(rule_matches(rule, rows[gv.0 as int], rows[gv.1[k] as int]));
        lemma_all_hashes_within(
            rows[gv.0 as int],
            rows[gv.1[k] as int],
            HashThresholds { ahash: clamped(ahash_max), dhash: clamped(dhash_max), phash: clamped(phash_max) },
        );
    }
}

} // verus!
