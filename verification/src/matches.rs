//! The match browser of the command line: which groups of duplicates are
//! shown, in which order, and how the selection and the expanded groups
//! move as keys are pressed.

use std::collections::HashSet;
use vstd::prelude::*;
use crate::error::Error;
use crate::exact::{
    arranged, duplicate_groups, exact_group_title, exact_groups_largest_first, exact_title, files_summary,
    lemma_duplicate_groups_exact, member_counts, views_of, GroupView,
};
use crate::models::FileListRow;
use crate::order::sorted_desc;
use crate::similar::HashThresholds;
use crate::text::{
    append_str, ascii_lower_seq, decimal, chars_eq, chars_lt, char_to_ascii_lower, compare_chars, lemma_chars_lt_asym,
    lemma_chars_lt_trans, string_from_chars, vec_from_str, TextOrder,
};

verus! {

broadcast use vstd::std_specs::hash::group_hash_axioms;

/// Which groups are shown.
#[derive(Debug, Clone, Copy, PartialEq, Eq, Structural)]
pub enum MatchMode {
    All,
    Similar,
    Exact,
}

/// The mode named by `text`, in any ASCII case.
pub open spec fn mode_named(text: Seq<char>) -> Option<MatchMode> {
    let t = ascii_lower_seq(text);
    if t == "all"@ {
        Some(MatchMode::All)
    } else if t == "similar"@ {
        Some(MatchMode::Similar)
    } else if t == "exact"@ {
        Some(MatchMode::Exact)
    } else {
        None
    }
}

pub open spec fn shows_exact(m: MatchMode) -> bool {
    m == MatchMode::All || m == MatchMode::Exact
}

pub open spec fn shows_similar(m: MatchMode) -> bool {
    m == MatchMode::All || m == MatchMode::Similar
}

impl MatchMode {
    /// Reads a mode name; any other text is refused with a message that
    /// quotes it.
    pub fn parse(value: &str) -> (r: Result<MatchMode, Error>)
        ensures
            match r {
                Ok(m) => mode_named(value@) == Some(m),
                Err(e) => {
                    &&& mode_named(value@) is None
                    &&& e matches Error::InvalidArgument(msg)
                    &&& msg@ == "invalid --mode value: "@ + value@ + " (expected all|similar|exact)"@
                },
            },
    {
        let v = vec_from_str(value);
        let mut lower: Vec<char> = Vec::new();
        let mut i: usize = 0;
        while i < v.len()
            invariant
                i <= v@.len(),
                v@ == value@,
                lower@ == ascii_lower_seq(v@.take(i as int)),
            decreases v@.len() - i,
        {
            lower.push(char_to_ascii_lower(v[i]));
            assert(lower@ =~= ascii_lower_seq(v@.take(i + 1)));
            i = i + 1;
        }
        assert(v@.take(v@.len() as int) =~= v@);
        let all = vec_from_str("all");
        let similar = vec_from_str("similar");
        let exact = vec_from_str("exact");
        if chars_eq(lower.as_slice(), all.as_slice()) {
            Ok(MatchMode::All)
        } else if chars_eq(lower.as_slice(), similar.as_slice()) {
            Ok(MatchMode::Similar)
        } else if chars_eq(lower.as_slice(), exact.as_slice()) {
            Ok(MatchMode::Exact)
        } else {
            let mut msg: Vec<char> = Vec::new();
            append_str(&mut msg, "invalid --mode value: ");
            append_str(&mut msg, value);
            append_str(&mut msg, " (expected all|similar|exact)");
            Err(Error::InvalidArgument(string_from_chars(msg.as_slice())))
        }
    }

    pub fn includes_exact(self) -> (r: bool)
        ensures
            r == shows_exact(self),
    {
        self == MatchMode::All || self == MatchMode::Exact
    }

    pub fn includes_similar(self) -> (r: bool)
        ensures
            r == shows_similar(self),
    {
        self == MatchMode::All || self == MatchMode::Similar
    }
}

/// Whether a group holds exact or similar duplicates.
#[derive(Debug, Clone, Copy, PartialEq, Eq, Structural)]
pub enum MatchGroupKind {
    Exact,
    Similar,
}

/// One file of a group, with an optional note.
#[derive(Debug, Clone)]
pub struct MatchEntry {
    pub path: String,
    pub detail: Option<String>,
}

/// A group as the browser shows it. Its confidence is counted in units of
/// 1/6400 of a percent; exact groups have 640000, full confidence.
#[derive(Debug, Clone)]
pub struct MatchGroup {
    pub kind: MatchGroupKind,
    pub title: String,
    pub summary: String,
    pub confidence: u32,
    pub entries: Vec<MatchEntry>,
}

pub type EntryView = (Seq<char>, Option<Seq<char>>);

pub type MatchGroupView = (MatchGroupKind, Seq<char>, Seq<char>, u32, Seq<EntryView>);

impl View for MatchEntry {
    type V = EntryView;

    open spec fn view(&self) -> EntryView {
        (
            self.path@,
            match self.detail {
                Some(d) => Some(d@),
                None => None,
            },
        )
    }
}

impl View for MatchGroup {
    type V = MatchGroupView;

    open spec fn view(&self) -> MatchGroupView {
        (self.kind, self.title@, self.summary@, self.confidence, self.entries@.map_values(|e: MatchEntry| e@))
    }
}

pub open spec fn match_views(g: Seq<MatchGroup>) -> Seq<MatchGroupView> {
    g.map_values(|x: MatchGroup| x@)
}

/// A group of exact duplicates as the browser shows it: its title, the
/// number of its files, full confidence, and its files' paths with no note.
pub open spec fn exact_match_view(rows: Seq<FileListRow>, g: GroupView) -> MatchGroupView {
    (
        MatchGroupKind::Exact,
        exact_title(g),
        decimal(g.1.len()) + " files"@,
        640000u32,
        g.1.map_values(|i: usize| (rows[i as int].path@, None::<Seq<char>>)),
    )
}

/// The exact duplicates among `rows` as the browser shows them, largest
/// group first; groups of one size keep the order of their keys' first
/// appearance.
pub fn exact_match_groups(rows: &[FileListRow]) -> (r: Vec<MatchGroup>)
    ensures
        exists|o: Seq<usize>| #[trigger] sorted_desc(member_counts(duplicate_groups(rows@)), o)
            && match_views(r@) == arranged(duplicate_groups(rows@), o).map_values(
            |g: GroupView| exact_match_view(rows@, g),
        ),
{
    let groups = exact_groups_largest_first(rows);
    let ghost d = duplicate_groups(rows@);
    let ghost o = choose|o: Seq<usize>| #[trigger] sorted_desc(member_counts(d), o) && views_of(groups@)
        == arranged(d, o);
    let count = rows.len();
    proof {
        assert(rows@.len() == count);
        lemma_duplicate_groups_exact(rows@);
        assert(views_of(groups@).len() == groups@.len());
    }
    let ghost f = |g: GroupView| exact_match_view(rows@, g);
    let mut out: Vec<MatchGroup> = Vec::new();
    let mut k: usize = 0;
    while k < groups.len()
        invariant
            k <= groups@.len(),
            d == duplicate_groups(rows@),
            sorted_desc(member_counts(d), o),
            views_of(groups@) == arranged(d, o),
            o.len() == groups@.len(),
            f == (|g: GroupView| exact_match_view(rows@, g)),
            forall|t: int, a: int| 0 <= t < d.len() && 0 <= a < d[t].1.len() ==> #[trigger] d[t].1[a]
                < rows@.len(),
            out@.len() == k,
            forall|q: int| 0 <= q < k ==> (#[trigger] out@[q])@ == f(views_of(groups@)[q]),
        decreases groups@.len() - k,
    {
        let g = &groups[k];
        assert(views_of(groups@)[k as int] == g@);
        assert(o[k as int] < member_counts(d).len());
        assert(arranged(d, o)[k as int] == d[o[k as int] as int]);
        assert(g@ == d[o[k as int] as int]);
        let mut entries: Vec<MatchEntry> = Vec::new();
        let mut a: usize = 0;
        while a < g.members.len()
            invariant
                a <= g.members@.len(),
                g@ == d[o[k as int] as int],
                0 <= o[k as int] < d.len(),
                forall|t: int, b: int| 0 <= t < d.len() && 0 <= b < d[t].1.len() ==> #[trigger] d[t].1[b]
                    < rows@.len(),
                entries@.len() == a,
                forall|b: int| 0 <= b < a ==> (#[trigger] entries@[b])@ == (
                    rows@[g.members@[b] as int].path@,
                    None::<Seq<char>>,
                ),
            decreases g.members@.len() - a,
        {
            assert(d[o[k as int] as int].1[a as int] < rows@.len());
            let i = g.members[a];
            entries.push(MatchEntry { path: rows[i].path.clone(), detail: None });
            a = a + 1;
        }
        let ghost ev = entries@.map_values(|e: MatchEntry| e@);
        assert(ev =~= g@.1.map_values(|i: usize| (rows@[i as int].path@, None::<Seq<char>>)));
        let m = MatchGroup {
            kind: MatchGroupKind::Exact,
            title: exact_group_title(g),
            summary: files_summary(entries.len()),
            confidence: 640000,
            entries,
        };
        assert(m@ == f(views_of(groups@)[k as int]));
        out.push(m);
        k = k + 1;
    }
    assert(match_views(out@) =~= arranged(d, o).map_values(f));
    out
}

fn copy_entry(e: &MatchEntry) -> (r: MatchEntry)
    ensures
        r@ == e@,
{
    let detail = match &e.detail {
        Some(d) => Some(d.clone()),
        None => None,
    };
    MatchEntry { path: e.path.clone(), detail }
}

fn copy_match_group(g: &MatchGroup) -> (r: MatchGroup)
    ensures
        r@ == g@,
{
    let mut entries: Vec<MatchEntry> = Vec::new();
    let mut i: usize = 0;
    while i < g.entries.len()
        invariant
            i <= g.entries@.len(),
            entries@.map_values(|e: MatchEntry| e@) == g.entries@.take(i as int).map_values(|e: MatchEntry| e@),
        decreases g.entries@.len() - i,
    {
        let e = copy_entry(&g.entries[i]);
        let ghost prev = entries@;
        entries.push(e);
        assert(entries@.map_values(|e: MatchEntry| e@) =~= prev.map_values(|e: MatchEntry| e@).push(e@));
        assert(g.entries@.take(i + 1).map_values(|e: MatchEntry| e@) =~= g.entries@.take(i as int).map_values(
            |e: MatchEntry| e@,
        ).push(g.entries@[i as int]@));
        assert(entries@.map_values(|e: MatchEntry| e@) =~= g.entries@.take(i + 1).map_values(|e: MatchEntry| e@));
        i = i + 1;
    }
    assert(g.entries@.take(g.entries@.len() as int) =~= g.entries@);
    MatchGroup {
        kind: g.kind,
        title: g.title.clone(),
        summary: g.summary.clone(),
        confidence: g.confidence,
        entries,
    }
}

/// `a` is shown before `b`: higher confidence first, then more files, then
/// the title in text order.
pub open spec fn rank_before(a: MatchGroupView, b: MatchGroupView) -> bool {
    a.3 > b.3 || (a.3 == b.3 && (a.4.len() > b.4.len() || (a.4.len() == b.4.len() && chars_lt(a.1, b.1))))
}

/// What the order looks at: confidence, number of files, title.
pub open spec fn rank_key(a: MatchGroupView) -> (u32, nat, Seq<char>) {
    (a.3, a.4.len(), a.1)
}

/// Group `i` comes before group `j` in the stable sort of `gs`.
pub open spec fn ranked_before(gs: Seq<MatchGroupView>, i: int, j: int) -> bool {
    rank_before(gs[i], gs[j]) || (rank_key(gs[i]) == rank_key(gs[j]) && i < j)
}

/// `order` lists every index of `gs` once, in the order of a stable sort.
pub open spec fn sorted_ranked(gs: Seq<MatchGroupView>, order: Seq<usize>) -> bool {
    &&& order.len() == gs.len()
    &&& forall|i: int| 0 <= i < order.len() ==> #[trigger] order[i] < gs.len()
    &&& forall|x: usize| x < gs.len() ==> #[trigger] order.contains(x)
    &&& forall|i: int, j: int| 0 <= i < j < order.len()
        ==> ranked_before(gs, #[trigger] order[i] as int, #[trigger] order[j] as int)
}

pub proof fn lemma_rank_trans(a: MatchGroupView, b: MatchGroupView, c: MatchGroupView)
    requires
        rank_before(a, b),
        rank_before(b, c),
    ensures
        rank_before(a, c),
{
    if a.3 == b.3 && b.3 == c.3 && a.4.len() == b.4.len() && b.4.len() == c.4.len() {
        lemma_chars_lt_trans(a.1, b.1, c.1);
    }
}

pub proof fn lemma_rank_asym(a: MatchGroupView, b: MatchGroupView)
    requires
        rank_before(a, b),
    ensures
        !rank_before(b, a),
        rank_key(a) != rank_key(b),
{
    if a.3 == b.3 && a.4.len() == b.4.len() {
        lemma_chars_lt_asym(a.1, b.1);
    }
}

/// Compares two groups in the order they are shown in.
fn rank_compare(a: &MatchGroup, b: &MatchGroup) -> (r: TextOrder)
    ensures
        r == TextOrder::Less <==> rank_before(a@, b@),
        r == TextOrder::Greater <==> rank_before(b@, a@),
        r == TextOrder::Equal <==> rank_key(a@) == rank_key(b@),
{
    if a.confidence > b.confidence {
        return TextOrder::Less;
    }
    if a.confidence < b.confidence {
        return TextOrder::Greater;
    }
    if a.entries.len() > b.entries.len() {
        return TextOrder::Less;
    }
    if a.entries.len() < b.entries.len() {
        return TextOrder::Greater;
    }
    let at = vec_from_str(a.title.as_str());
    let bt = vec_from_str(b.title.as_str());
    let c = compare_chars(at.as_slice(), bt.as_slice());
    proof {
        if chars_lt(a.title@, b.title@) {
            lemma_chars_lt_asym(a.title@, b.title@);
        }
        if chars_lt(b.title@, a.title@) {
            lemma_chars_lt_asym(b.title@, a.title@);
        }
    }
    c
}

/// The indices of `gs` in the order of a stable sort.
fn order_ranked(gs: &Vec<MatchGroup>) -> (order: Vec<usize>)
    ensures
        sorted_ranked(match_views(gs@), order@),
{
    let ghost kv = match_views(gs@);
    let mut order: Vec<usize> = Vec::new();
    let mut t: usize = 0;
    while t < gs.len()
        invariant
            kv == match_views(gs@),
            t <= gs@.len(),
            order@.len() == t,
            forall|i: int| 0 <= i < order@.len() ==> #[trigger] order@[i] < t,
            forall|x: usize| x < t ==> #[trigger] order@.contains(x),
            forall|i: int, j: int| 0 <= i < j < order@.len()
                ==> ranked_before(kv, #[trigger] order@[i] as int, #[trigger] order@[j] as int),
        decreases gs@.len() - t,
    {
        let mut p: usize = 0;
        while p < order.len() && rank_compare(&gs[order[p]], &gs[t]) != TextOrder::Greater
            invariant
                kv == match_views(gs@),
                p <= order@.len(),
                order@.len() == t,
                t < gs@.len(),
                forall|i: int| 0 <= i < order@.len() ==> #[trigger] order@[i] < t,
                forall|q: int| 0 <= q < p ==> ranked_before(kv, #[trigger] order@[q] as int, t as int),
            decreases order@.len() - p,
        {
            p = p + 1;
        }
        if p < order.len() {
            let c = rank_compare(&gs[order[p]], &gs[t]);
            assert(rank_before(kv[t as int], kv[order@[p as int] as int]));
        }
        let ghost old_order = order@;
        order.insert(p, t);
        assert(order@ =~= old_order.insert(p as int, t));
        assert forall|i: int, j: int| 0 <= i < j < order@.len()
            implies ranked_before(kv, #[trigger] order@[i] as int, #[trigger] order@[j] as int) by {
            if j < p {
                assert(order@[i] == old_order[i] && order@[j] == old_order[j]);
            } else if j == p {
                assert(order@[i] == old_order[i]);
            } else if i < p {
                assert(order@[i] == old_order[i] && order@[j] == old_order[j - 1]);
            } else if i == p {
                assert(order@[j] == old_order[j - 1]);
                let a = kv[t as int];
                let b = kv[old_order[p as int] as int];
                let c = kv[old_order[j - 1] as int];
                if j - 1 > p {
                    assert(ranked_before(kv, old_order[p as int] as int, old_order[j - 1] as int));
                    if rank_before(b, c) {
                        lemma_rank_trans(a, b, c);
                    }
                }
            } else {
                assert(order@[i] == old_order[i - 1] && order@[j] == old_order[j - 1]);
            }
        }
        assert forall|x: usize| x < t + 1 implies #[trigger] order@.contains(x) by {
            if x == t {
                assert(order@[p as int] == t);
            } else {
                assert(old_order.contains(x));
                let q = choose|q: int| 0 <= q < old_order.len() && old_order[q] == x;
                if q < p {
                    assert(order@[q] == x);
                } else {
                    assert(order@[q + 1] == x);
                }
            }
        }
        t = t + 1;
    }
    order
}


proof fn lemma_ranked_prefix(gs: Seq<MatchGroupView>, o1: Seq<usize>, o2: Seq<usize>, i: int)
    requires
        sorted_ranked(gs, o1),
        sorted_ranked(gs, o2),
        0 <= i <= o1.len(),
    ensures
        forall|k: int| 0 <= k < i ==> #[trigger] o1[k] == o2[k],
    decreases i,
{
    if i > 0 {
        let p = i - 1;
        lemma_ranked_prefix(gs, o1, o2, p);
        if o1[p] != o2[p] {
            assert(o2.contains(o1[p]));
            let j = choose|j: int| 0 <= j < o2.len() && o2[j] == o1[p];
            assert(o1.contains(o2[p]));
            let q = choose|q: int| 0 <= q < o1.len() && o1[q] == o2[p];
            let a = o1[p] as int;
            let b = o2[p] as int;
            if j < p {
                assert(o1[j] == o2[j]);
                assert(ranked_before(gs, o1[j] as int, o1[p] as int));
                lemma_ranked_irreflexive(gs, a);
            }
            if q < p {
                assert(o1[q] == o2[q]);
                assert(ranked_before(gs, o2[q] as int, o2[p] as int));
                lemma_ranked_irreflexive(gs, b);
            }
            assert(j > p && q > p);
            assert(ranked_before(gs, b, a));
            assert(ranked_before(gs, a, b));
            lemma_ranked_asym(gs, a, b);
        }
    }
}

proof fn lemma_ranked_irreflexive(gs: Seq<MatchGroupView>, a: int)
    ensures
        !ranked_before(gs, a, a),
{
    if rank_before(gs[a], gs[a]) {
        lemma_rank_asym(gs[a], gs[a]);
    }
}

proof fn lemma_ranked_asym(gs: Seq<MatchGroupView>, a: int, b: int)
    requires
        ranked_before(gs, a, b),
    ensures
        !ranked_before(gs, b, a),
{
    if rank_before(gs[a], gs[b]) {
        lemma_rank_asym(gs[a], gs[b]);
    } else if rank_before(gs[b], gs[a]) {
        lemma_rank_asym(gs[b], gs[a]);
    }
}

/// The stable order of a sort is unique.
pub proof fn lemma_sorted_ranked_unique(gs: Seq<MatchGroupView>, o1: Seq<usize>, o2: Seq<usize>)
    requires
        sorted_ranked(gs, o1),
        sorted_ranked(gs, o2),
    ensures
        o1 == o2,
{
    lemma_ranked_prefix(gs, o1, o2, o1.len() as int);
    assert(o1 =~= o2);
}

/// The order in which the groups `gs` are shown.
pub open spec fn ranked_order(gs: Seq<MatchGroupView>) -> Seq<usize> {
    choose|o: Seq<usize>| sorted_ranked(gs, o)
}

/// The groups the mode shows: exact groups, then similar groups.
pub open spec fn shown_groups(mode: MatchMode, exact: Seq<MatchGroupView>, similar: Seq<MatchGroupView>) -> Seq<
    MatchGroupView,
> {
    (if shows_exact(mode) {
        exact
    } else {
        Seq::empty()
    }) + (if shows_similar(mode) {
        similar
    } else {
        Seq::empty()
    })
}

/// The groups whose confidence reaches `min`, in order.
pub open spec fn confident(gs: Seq<MatchGroupView>, min: u32) -> Seq<MatchGroupView>
    decreases gs.len(),
{
    if gs.len() == 0 {
        Seq::empty()
    } else if gs.last().3 >= min {
        confident(gs.drop_last(), min).push(gs.last())
    } else {
        confident(gs.drop_last(), min)
    }
}

/// The groups shown, in the order shown.
pub open spec fn filtered_views(
    mode: MatchMode,
    exact: Seq<MatchGroupView>,
    similar: Seq<MatchGroupView>,
    min: u32,
) -> Seq<MatchGroupView> {
    let kept = confident(shown_groups(mode, exact, similar), min);
    ranked_order(kept).map_values(|q: usize| kept[q as int])
}

/// A line of the browser: a group, or one file of an expanded group.
#[derive(Debug, Clone, Copy, PartialEq, Eq, Structural)]
pub enum VisibleRow {
    Group(usize),
    Entry(usize, usize),
}

/// The lines of group `g`: its own, then one per file when expanded.
pub open spec fn group_rows(g: usize, entries: nat, expanded: bool) -> Seq<VisibleRow> {
    seq![VisibleRow::Group(g)] + if expanded {
        Seq::new(entries, |e: int| VisibleRow::Entry(g, e as usize))
    } else {
        Seq::empty()
    }
}

/// The lines of the browser for the shown groups `gs`.
pub open spec fn visible(gs: Seq<MatchGroupView>, expanded: Set<usize>) -> Seq<VisibleRow>
    decreases gs.len(),
{
    if gs.len() == 0 {
        Seq::empty()
    } else {
        let g = (gs.len() - 1) as usize;
        visible(gs.drop_last(), expanded) + group_rows(g, gs.last().4.len(), expanded.contains(g))
    }
}

/// A selection held to the lines there are: 0 where there are none.
pub open spec fn clamped_selection(selected: usize, len: nat) -> usize {
    if len == 0 {
        0
    } else if selected >= len {
        (len - 1) as usize
    } else {
        selected
    }
}


fn append_copies(out: &mut Vec<MatchGroup>, src: &Vec<MatchGroup>)
    ensures
        match_views(final(out)@) == match_views(old(out)@) + match_views(src@),
{
    let ghost start = match_views(out@);
    let mut i: usize = 0;
    while i < src.len()
        invariant
            i <= src@.len(),
            match_views(out@) == start + match_views(src@).take(i as int),
        decreases src@.len() - i,
    {
        let g = copy_match_group(&src[i]);
        let ghost prev = out@;
        out.push(g);
        assert(match_views(out@) =~= match_views(prev).push(g@));
        assert(match_views(out@) =~= start + match_views(src@).take(i + 1));
        i = i + 1;
    }
    assert(match_views(src@).take(src@.len() as int) =~= match_views(src@));
}

fn keep_confident(gs: &Vec<MatchGroup>, min: u32) -> (r: Vec<MatchGroup>)
    ensures
        match_views(r@) == confident(match_views(gs@), min),
{
    let ghost all = match_views(gs@);
    let mut out: Vec<MatchGroup> = Vec::new();
    let mut i: usize = 0;
    while i < gs.len()
        invariant
            i <= gs@.len(),
            all == match_views(gs@),
            match_views(out@) == confident(all.take(i as int), min),
        decreases gs@.len() - i,
    {
        assert(all.take(i + 1).drop_last() =~= all.take(i as int));
        assert(all.take(i + 1).last() == gs@[i as int]@);
        if gs[i].confidence >= min {
            let g = copy_match_group(&gs[i]);
            let ghost prev = out@;
            out.push(g);
            assert(match_views(out@) =~= match_views(prev).push(g@));
        }
        i = i + 1;
    }
    assert(all.take(all.len() as int) =~= all);
    out
}

proof fn lemma_confident_zero(gs: Seq<MatchGroupView>)
    ensures
        confident(gs, 0) == gs,
    decreases gs.len(),
{
    if gs.len() > 0 {
        lemma_confident_zero(gs.drop_last());
        assert(gs.drop_last().push(gs.last()) =~= gs);
    }
}

fn filtered(mode: MatchMode, exact: &Vec<MatchGroup>, similar: &Vec<MatchGroup>, min: u32) -> (r: Vec<MatchGroup>)
    ensures
        match_views(r@) == filtered_views(mode, match_views(exact@), match_views(similar@), min),
{
    let mut shown: Vec<MatchGroup> = Vec::new();
    if mode.includes_exact() {
        append_copies(&mut shown, exact);
    }
    if mode.includes_similar() {
        append_copies(&mut shown, similar);
    }
    assert(match_views(shown@) =~= shown_groups(mode, match_views(exact@), match_views(similar@)));
    let kept = if min > 0 {
        keep_confident(&shown, min)
    } else {
        proof {
            lemma_confident_zero(match_views(shown@));
        }
        shown
    };
    let ghost kv = match_views(kept@);
    let order = order_ranked(&kept);
    proof {
        lemma_sorted_ranked_unique(kv, ranked_order(kv), order@);
    }
    let mut out: Vec<MatchGroup> = Vec::new();
    let mut k: usize = 0;
    while k < order.len()
        invariant
            k <= order@.len(),
            kv == match_views(kept@),
            sorted_ranked(kv, order@),
            match_views(out@) == order@.take(k as int).map_values(|q: usize| kv[q as int]),
        decreases order@.len() - k,
    {
        let g = copy_match_group(&kept[order[k]]);
        let ghost prev = out@;
        out.push(g);
        assert(match_views(out@) =~= match_views(prev).push(g@));
        assert(order@.take(k + 1).map_values(|q: usize| kv[q as int]) =~= order@.take(k as int).map_values(
            |q: usize| kv[q as int],
        ).push(kv[order@[k as int] as int]));
        k = k + 1;
    }
    assert(order@.take(order@.len() as int) =~= order@);
    out
}

/// The selection after a move up among `len` lines.
pub open spec fn moved_up(selected: usize, len: nat) -> usize {
    let c = clamped_selection(selected, len);
    if c > 0 {
        (c - 1) as usize
    } else {
        c
    }
}

/// The selection after a move down among `len` lines.
pub open spec fn moved_down(selected: usize, len: nat) -> usize {
    let c = clamped_selection(selected, len);
    if c + 1 < len {
        (c + 1) as usize
    } else {
        c
    }
}

/// The expanded groups with group `g` expanded if it was not, collapsed if
/// it was.
pub open spec fn toggled(expanded: Set<usize>, g: usize) -> Set<usize> {
    if expanded.contains(g) {
        expanded.remove(g)
    } else {
        expanded.insert(g)
    }
}

/// Moving down and then up comes back to a selected line that had one below.
pub proof fn lemma_down_then_up(selected: usize, len: nat)
    requires
        selected + 1 < len <= usize::MAX,
    ensures
        moved_up(moved_down(selected, len), len) == selected,
{
}

proof fn lemma_visible_agree(gs: Seq<MatchGroupView>, e1: Set<usize>, e2: Set<usize>)
    requires
        forall|x: usize| x < gs.len() ==> (e1.contains(x) <==> e2.contains(x)),
    ensures
        visible(gs, e1) == visible(gs, e2),
    decreases gs.len(),
{
    if gs.len() > 0 {
        lemma_visible_agree(gs.drop_last(), e1, e2);
    }
}

/// Expanding or collapsing the selected group keeps the selection on it,
/// and doing it twice gives back the expanded groups it started from.
pub proof fn lemma_toggle_keeps_selection(gs: Seq<MatchGroupView>, expanded: Set<usize>, selected: usize, g: usize)
    requires
        gs.len() <= usize::MAX,
        selected < visible(gs, expanded).len(),
        visible(gs, expanded)[selected as int] == VisibleRow::Group(g),
    ensures
        selected < visible(gs, toggled(expanded, g)).len(),
        visible(gs, toggled(expanded, g))[selected as int] == VisibleRow::Group(g),
        clamped_selection(selected, visible(gs, toggled(expanded, g)).len()) == selected,
        toggled(toggled(expanded, g), g) == expanded,
    decreases gs.len(),
{
    let e2 = toggled(expanded, g);
    let init = gs.drop_last();
    let m = (gs.len() - 1) as usize;
    let l = visible(init, expanded).len();
    if selected < l {
        lemma_toggle_keeps_selection(init, expanded, selected, g);
    } else {
        let rows = group_rows(m, gs.last().4.len(), expanded.contains(m));
        assert(visible(gs, expanded)[selected as int] == rows[selected - l]);
        if selected - l > 0 {
            assert(rows[selected - l] is Entry);
        }
        assert(g == m);
        assert forall|x: usize| x < init.len() implies (expanded.contains(x) <==> e2.contains(x)) by {
            assert(x != g);
        }
        lemma_visible_agree(init, expanded, e2);
    }
    if expanded.contains(g) {
        assert(e2.insert(g) =~= expanded);
    } else {
        assert(e2.remove(g) =~= expanded);
    }
}

/// The state of the match browser.
pub struct MatchesUiState {
    pub mode: MatchMode,
    pub thresholds: HashThresholds,
    pub exact: Vec<MatchGroup>,
    pub similar: Vec<MatchGroup>,
    /// Positions, among the groups shown, of the expanded groups.
    pub expanded: HashSet<usize>,
    /// Position of the selected line.
    pub selected: usize,
    /// Groups below this confidence are not shown; in units of 1/6400 of a
    /// percent.
    pub min_confidence: u32,
}

impl MatchesUiState {
    /// The groups shown, in the order shown.
    pub open spec fn shown(&self) -> Seq<MatchGroupView> {
        filtered_views(self.mode, match_views(self.exact@), match_views(self.similar@), self.min_confidence)
    }

    /// The lines shown.
    pub open spec fn rows(&self) -> Seq<VisibleRow> {
        visible(self.shown(), self.expanded@)
    }

    /// The selection lies on a line, or is 0 where there is none.
    pub open spec fn selection_ok(&self) -> bool {
        self.selected == 0 || self.selected < self.rows().len()
    }


    pub fn new(mode: MatchMode, thresholds: HashThresholds, exact: Vec<MatchGroup>, similar: Vec<MatchGroup>) -> (s:
        MatchesUiState)
        ensures
            s.mode == mode,
            s.thresholds == thresholds,
            match_views(s.exact@) == match_views(exact@),
            match_views(s.similar@) == match_views(similar@),
            s.expanded@ == Set::<usize>::empty(),
            s.selected == 0,
            s.min_confidence == 0,
            s.selection_ok(),
    {
        MatchesUiState {
            mode,
            thresholds,
            exact,
            similar,
            expanded: HashSet::new(),
            selected: 0,
            min_confidence: 0,
        }
    }

    /// The groups shown, in the order shown: those of the mode that reach the
    /// least confidence, by decreasing confidence, then by decreasing number
    /// of files, then by title; ties keep their order.
    pub fn filtered_groups(&self) -> (r: Vec<MatchGroup>)
        ensures
            match_views(r@) == self.shown(),
    {
        filtered(self.mode, &self.exact, &self.similar, self.min_confidence)
    }

    /// The lines shown: each group, followed by its files where expanded.
    pub fn visible_rows(&self) -> (r: Vec<VisibleRow>)
        ensures
            r@ == self.rows(),
    {
        let groups = self.filtered_groups();
        let ghost gs = match_views(groups@);
        let mut rows: Vec<VisibleRow> = Vec::new();
        let mut t: usize = 0;
        while t < groups.len()
            invariant
                t <= groups@.len(),
                gs == match_views(groups@),
                gs == self.shown(),
                rows@ == visible(gs.take(t as int), self.expanded@),
            decreases groups@.len() - t,
        {
            let ghost prev = rows@;
            rows.push(VisibleRow::Group(t));
            let open = self.expanded.contains(&t);
            let n = groups[t].entries.len();
            if open {
                let mut e: usize = 0;
                while e < n
                    invariant
                        e <= n,
                        rows@ == prev + seq![VisibleRow::Group(t)] + Seq::new(e as nat, |x: int| VisibleRow::Entry(t, x as usize)),
                    decreases n - e,
                {
                    rows.push(VisibleRow::Entry(t, e));
                    assert(rows@ =~= prev + seq![VisibleRow::Group(t)] + Seq::new((e + 1) as nat, |x: int| VisibleRow::Entry(t, x as usize)));
                    e = e + 1;
                }
            }
            assert(gs.take(t + 1).drop_last() =~= gs.take(t as int));
            assert(gs.take(t + 1).last() == gs[t as int]);
            assert(gs[t as int].4.len() == n);
            assert(rows@ =~= visible(gs.take(t + 1), self.expanded@));
            t = t + 1;
        }
        assert(gs.take(gs.len() as int) =~= gs);
        rows
    }

    /// The selected line, if the selection lies on one.
    pub open spec fn selected_line(&self) -> Option<VisibleRow> {
        if self.selected < self.rows().len() {
            Some(self.rows()[self.selected as int])
        } else {
            None
        }
    }

    /// `self` and `other` differ at most in the selection.
    pub open spec fn same_but_selection(&self, other: &MatchesUiState) -> bool {
        &&& self.mode == other.mode
        &&& self.thresholds == other.thresholds
        &&& self.exact == other.exact
        &&& self.similar == other.similar
        &&& self.expanded == other.expanded
        &&& self.min_confidence == other.min_confidence
    }

    /// Holds the selection to the lines shown.
    pub fn clamp_selection(&mut self)
        ensures
            final(self).same_but_selection(old(self)),
            final(self).selected == clamped_selection(old(self).selected, old(self).rows().len()),
            final(self).selection_ok(),
    {
        let len = self.visible_rows().len();
        if len == 0 {
            self.selected = 0;
        } else if self.selected >= len {
            self.selected = len - 1;
        }
    }

    /// Moves the selection one line up, if it can.
    pub fn move_up(&mut self)
        ensures
            final(self).same_but_selection(old(self)),
            final(self).selected == moved_up(old(self).selected, old(self).rows().len()),
            final(self).selection_ok(),
    {
        self.clamp_selection();
        if self.selected > 0 {
            self.selected = self.selected - 1;
        }
    }

    /// Moves the selection one line down, if it can.
    pub fn move_down(&mut self)
        ensures
            final(self).same_but_selection(old(self)),
            final(self).selected == moved_down(old(self).selected, old(self).rows().len()),
            final(self).selection_ok(),
    {
        self.clamp_selection();
        let len = self.visible_rows().len();
        if self.selected + 1 < len {
            self.selected = self.selected + 1;
        }
    }

    /// The selected line, if the selection lies on one.
    pub fn selected_row(&self) -> (r: Option<VisibleRow>)
        ensures
            r == self.selected_line(),
    {
        let rows = self.visible_rows();
        if self.selected < rows.len() {
            Some(rows[self.selected])
        } else {
            None
        }
    }

    /// Expands the selected group, or collapses it if it is expanded; the
    /// selection is then held to the lines shown. A selected file line, or
    /// none, changes nothing.
    pub fn toggle_expand_selected(&mut self)
        ensures
            match old(self).selected_line() {
                Some(VisibleRow::Group(g)) => {
                    &&& final(self).expanded@ == toggled(old(self).expanded@, g)
                    &&& final(self).mode == old(self).mode
                    &&& final(self).thresholds == old(self).thresholds
                    &&& final(self).exact == old(self).exact
                    &&& final(self).similar == old(self).similar
                    &&& final(self).min_confidence == old(self).min_confidence
                    &&& final(self).selected == clamped_selection(old(self).selected, final(self).rows().len())
                },
                _ => *final(self) == *old(self),
            },
            old(self).selection_ok() ==> final(self).selection_ok(),
    {
        if let Some(VisibleRow::Group(gidx)) = self.selected_row() {
            if self.expanded.contains(&gidx) {
                self.expanded.remove(&gidx);
            } else {
                self.expanded.insert(gidx);
            }
            self.clamp_selection();
        }
    }

    /// Collapses the group of the selected line; the selection is then held
    /// to the lines shown.
    pub fn collapse_selected(&mut self)
        ensures
            final(self).expanded@ == match old(self).selected_line() {
                Some(VisibleRow::Group(g)) => old(self).expanded@.remove(g),
                Some(VisibleRow::Entry(g, _)) => old(self).expanded@.remove(g),
                None => old(self).expanded@,
            },
            final(self).mode == old(self).mode,
            final(self).thresholds == old(self).thresholds,
            final(self).exact == old(self).exact,
            final(self).similar == old(self).similar,
            final(self).min_confidence == old(self).min_confidence,
            final(self).selected == clamped_selection(old(self).selected, final(self).rows().len()),
            final(self).selection_ok(),
    {
        match self.selected_row() {
            Some(VisibleRow::Group(gidx)) => {
                self.expanded.remove(&gidx);
            },
            Some(VisibleRow::Entry(gidx, _)) => {
                self.expanded.remove(&gidx);
            },
            None => {},
        }
        self.clamp_selection();
    }

    /// Shows the groups of another mode, all collapsed, from the top.
    pub fn set_mode(&mut self, mode: MatchMode)
        ensures
            final(self).mode == mode,
            final(self).thresholds == old(self).thresholds,
            final(self).exact == old(self).exact,
            final(self).similar == old(self).similar,
            final(self).min_confidence == old(self).min_confidence,
            final(self).expanded@ == Set::<usize>::empty(),
            final(self).selected == 0,
            final(self).selection_ok(),
    {
        self.mode = mode;
        self.expanded.clear();
        self.selected = 0;
    }

    /// Raises or lowers the least confidence shown by `delta` units, held to
    /// 0..=100%; the groups are shown anew, all collapsed, from the top.
    pub fn adjust_min_confidence(&mut self, delta: i64)
        ensures
            final(self).min_confidence == ({
                let m = old(self).min_confidence + delta;
                if m < 0 { 0 } else if m > 640000 { 640000 } else { m }
            }),
            final(self).mode == old(self).mode,
            final(self).thresholds == old(self).thresholds,
            final(self).exact == old(self).exact,
            final(self).similar == old(self).similar,
            final(self).expanded@ == Set::<usize>::empty(),
            final(self).selected == 0,
            final(self).selection_ok(),
    {
        let sum: i128 = self.min_confidence as i128 + delta as i128;
        let clamped: u32 = if sum < 0 {
            0
        } else if sum > 640000 {
            640000
        } else {
            sum as u32
        };
        self.min_confidence = clamped;
        self.selected = 0;
        self.expanded.clear();
        self.clamp_selection();
    }

    /// Shows every group of the mode again, all collapsed, from the top.
    pub fn clear_filters(&mut self)
        ensures
            final(self).min_confidence == 0,
            final(self).mode == old(self).mode,
            final(self).thresholds == old(self).thresholds,
            final(self).exact == old(self).exact,
            final(self).similar == old(self).similar,
            final(self).expanded@ == Set::<usize>::empty(),
            final(self).selected == 0,
            final(self).selection_ok(),
    {
        self.min_confidence = 0;
        self.selected = 0;
        self.expanded.clear();
        self.clamp_selection();
    }
}

} // verus!
