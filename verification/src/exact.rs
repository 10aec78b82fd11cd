//! Exact duplicates: files with the same content digest.
//!
//! A file's key is its BLAKE3 digest where it has one, else its SHA-256
//! digest; files without either have no key. Files sharing a key form a
//! group; a group of two or more files is a group of exact duplicates.

use vstd::prelude::*;
use crate::models::{FileListRow, GroupRecord, RecordView, record_views};
use crate::hex::{hex_digit, hex_of, digest_prefix_hex, lemma_hex_len, lemma_hex_prefix};
use crate::order::{order_by_desc, sorted_desc};
use crate::text::{append_decimal, append_str, append_chars, chars_lt, decimal, string_from_chars};

verus! {

/// The digest that identifies a file's content.
#[derive(Debug, Clone, Copy)]
pub enum ExactKey {
    Blake3([u8; 32]),
    Sha256([u8; 32]),
}

/// A key as a value: whether it is a BLAKE3 digest, and its bytes.
pub type KeyView = (bool, Seq<u8>);

impl View for ExactKey {
    type V = KeyView;

    open spec fn view(&self) -> KeyView {
        match self {
            ExactKey::Blake3(h) => (true, h@),
            ExactKey::Sha256(h) => (false, h@),
        }
    }
}

/// The key of a row.
pub open spec fn row_key(r: FileListRow) -> Option<KeyView> {
    match r.blake3 {
        Some(h) => Some((true, h@)),
        None => match r.sha256 {
            Some(h) => Some((false, h@)),
            None => None,
        },
    }
}

pub fn key_of_row(r: &FileListRow) -> (k: Option<ExactKey>)
    ensures
        match k {
            Some(k) => row_key(*r) == Some(k@),
            None => row_key(*r) is None,
        },
{
    match r.blake3 {
        Some(h) => Some(ExactKey::Blake3(h)),
        None => match r.sha256 {
            Some(h) => Some(ExactKey::Sha256(h)),
            None => None,
        },
    }
}

fn digests_equal(a: &[u8; 32], b: &[u8; 32]) -> (r: bool)
    ensures
        r == (a@ == b@),
{
    let mut i: usize = 0;
    while i < 32
        invariant
            i <= 32,
            a@.len() == 32 && b@.len() == 32,
            forall|j: int| 0 <= j < i ==> a@[j] == b@[j],
        decreases 32 - i,
    {
        if a[i] != b[i] {
            return false;
        }
        i = i + 1;
    }
    assert(a@ =~= b@);
    true
}

pub fn keys_equal(a: &ExactKey, b: &ExactKey) -> (r: bool)
    ensures
        r == (a@ == b@),
{
    match (a, b) {
        (ExactKey::Blake3(x), ExactKey::Blake3(y)) => digests_equal(x, y),
        (ExactKey::Sha256(x), ExactKey::Sha256(y)) => digests_equal(x, y),
        _ => false,
    }
}

/// The indices below `n` of the rows whose key is `k`, in order.
pub open spec fn indices_with_key(rows: Seq<FileListRow>, k: KeyView, n: int) -> Seq<usize>
    decreases n,
{
    if n <= 0 {
        Seq::empty()
    } else if row_key(rows[n - 1]) == Some(k) {
        indices_with_key(rows, k, n - 1).push((n - 1) as usize)
    } else {
        indices_with_key(rows, k, n - 1)
    }
}

/// The keys of the first `n` rows, each once, in order of first appearance.
pub open spec fn keys_in_order(rows: Seq<FileListRow>, n: int) -> Seq<KeyView>
    decreases n,
{
    if n <= 0 {
        Seq::empty()
    } else {
        let prev = keys_in_order(rows, n - 1);
        match row_key(rows[n - 1]) {
            Some(k) => if prev.contains(k) {
                prev
            } else {
                prev.push(k)
            },
            None => prev,
        }
    }
}

/// The files sharing one key, by index into the rows they come from.
#[derive(Debug, Clone)]
pub struct ExactGroup {
    pub key: ExactKey,
    pub members: Vec<usize>,
}

/// The groups of `rows` by key: one per key, in order of the key's first
/// appearance, each with every row of its key.
pub open spec fn groups_are(rows: Seq<FileListRow>, g: Seq<ExactGroup>) -> bool {
    let keys = keys_in_order(rows, rows.len() as int);
    &&& g.len() == keys.len()
    &&& forall|t: int| 0 <= t < g.len() ==> (#[trigger] g[t]).key@ == keys[t]
        && g[t].members@ == indices_with_key(rows, keys[t], rows.len() as int)
}

proof fn lemma_keys_distinct(rows: Seq<FileListRow>, n: int)
    ensures
        forall|a: int, b: int| 0 <= a < b < keys_in_order(rows, n).len()
            ==> keys_in_order(rows, n)[a] != keys_in_order(rows, n)[b],
        forall|j: int| 0 <= j < n && row_key(#[trigger] rows[j]) is Some
            ==> keys_in_order(rows, n).contains(row_key(rows[j])->0),
        forall|t: int| 0 <= t < keys_in_order(rows, n).len()
            ==> indices_with_key(rows, #[trigger] keys_in_order(rows, n)[t], n).len() > 0,
    decreases n,
{
    if n > 0 {
        lemma_keys_distinct(rows, n - 1);
        let prev = keys_in_order(rows, n - 1);
        assert forall|t: int| 0 <= t < keys_in_order(rows, n).len()
            implies indices_with_key(rows, #[trigger] keys_in_order(rows, n)[t], n).len() > 0 by {
            let k = keys_in_order(rows, n)[t];
            if t < prev.len() {
                assert(k == prev[t]);
                assert(indices_with_key(rows, k, n - 1).len() > 0);
            } else {
                assert(row_key(rows[n - 1]) == Some(k));
            }
        }
        assert forall|j: int| 0 <= j < n && row_key(#[trigger] rows[j]) is Some
            implies keys_in_order(rows, n).contains(row_key(rows[j])->0) by {
            if j < n - 1 {
                let k = row_key(rows[j])->0;
                let idx = choose|i: int| 0 <= i < prev.len() && prev[i] == k;
                assert(keys_in_order(rows, n)[idx] == k);
            } else {
                let k = row_key(rows[j])->0;
                if prev.contains(k) {
                } else {
                    assert(keys_in_order(rows, n)[prev.len() as int] == k);
                }
            }
        }
    }
}

proof fn lemma_indices_empty(rows: Seq<FileListRow>, k: KeyView, n: int)
    requires
        forall|j: int| 0 <= j < n ==> row_key(#[trigger] rows[j]) != Some(k),
    ensures
        indices_with_key(rows, k, n) == Seq::<usize>::empty(),
    decreases n,
{
    if n > 0 {
        lemma_indices_empty(rows, k, n - 1);
    }
}

fn find_group(groups: &Vec<ExactGroup>, k: &ExactKey) -> (r: Option<usize>)
    ensures
        match r {
            Some(t) => t < groups@.len() && groups@[t as int].key@ == k@,
            None => forall|q: int| 0 <= q < groups@.len() ==> (#[trigger] groups@[q]).key@ != k@,
        },
{
    let mut t: usize = 0;
    while t < groups.len()
        invariant
            t <= groups@.len(),
            forall|q: int| 0 <= q < t ==> (#[trigger] groups@[q]).key@ != k@,
        decreases groups@.len() - t,
    {
        if keys_equal(&groups[t].key, k) {
            return Some(t);
        }
        t = t + 1;
    }
    None
}

/// Groups the rows by key.
pub fn group_by_key(rows: &[FileListRow]) -> (g: Vec<ExactGroup>)
    ensures
        groups_are(rows@, g@),
{
    let mut groups: Vec<ExactGroup> = Vec::new();
    let mut i: usize = 0;
    while i < rows.len()
        invariant
            i <= rows@.len(),
            groups@.len() == keys_in_order(rows@, i as int).len(),
            forall|t: int| 0 <= t < groups@.len() ==> (#[trigger] groups@[t]).key@
                == keys_in_order(rows@, i as int)[t]
                && groups@[t].members@ == indices_with_key(rows@, keys_in_order(rows@, i as int)[t], i as int),
        decreases rows@.len() - i,
    {
        let ghost prev_keys = keys_in_order(rows@, i as int);
        let ghost prev_groups = groups@;
        let ghost n = i as int;
        proof { lemma_keys_distinct(rows@, n); }
        match key_of_row(&rows[i]) {
            None => {
                assert(keys_in_order(rows@, n + 1) == prev_keys);
                assert forall|t: int| 0 <= t < groups@.len() implies
                    #[trigger] indices_with_key(rows@, prev_keys[t], n + 1) == indices_with_key(rows@, prev_keys[t], n) by {
                }
            },
            Some(k) => {
                match find_group(&groups, &k) {
                    Some(t) => {
                        assert(prev_keys.contains(k@)) by {
                            assert(prev_keys[t as int] == k@);
                        }
                        assert(keys_in_order(rows@, n + 1) == prev_keys);
                        let mut g = groups.remove(t);
                        let ghost old_members = g.members@;
                        g.members.push(i);
                        groups.insert(t, g);
                        assert(groups@ =~= prev_groups.update(t as int, g));
                        assert forall|q: int| 0 <= q < groups@.len() implies (#[trigger] groups@[q]).key@
                            == keys_in_order(rows@, n + 1)[q]
                            && groups@[q].members@ == indices_with_key(rows@, keys_in_order(rows@, n + 1)[q], n + 1) by {
                            if q != t {
                                assert(prev_keys[q] != prev_keys[t as int]);
                                assert(groups@[q] == prev_groups[q]);
                            } else {
                                assert(g.members@ =~= old_members.push(i));
                            }
                        }
                    },
                    None => {
                        assert(!prev_keys.contains(k@)) by {
                            if prev_keys.contains(k@) {
                                let q = choose|q: int| 0 <= q < prev_keys.len() && prev_keys[q] == k@;
                                assert(groups@[q].key@ == prev_keys[q]);
                            }
                        }
                        assert(keys_in_order(rows@, n + 1) == prev_keys.push(k@));
                        assert forall|j: int| 0 <= j < n implies row_key(#[trigger] rows@[j]) != Some(k@) by {
                            if row_key(rows@[j]) == Some(k@) {
                                assert(prev_keys.contains(row_key(rows@[j])->0));
                            }
                        }
                        proof { lemma_indices_empty(rows@, k@, n); }
                        let mut members: Vec<usize> = Vec::new();
                        members.push(i);
                        groups.push(ExactGroup { key: k, members });
                        assert forall|q: int| 0 <= q < groups@.len() implies (#[trigger] groups@[q]).key@
                            == keys_in_order(rows@, n + 1)[q]
                            && groups@[q].members@ == indices_with_key(rows@, keys_in_order(rows@, n + 1)[q], n + 1) by {
                            if q < prev_groups.len() {
                                assert(prev_keys[q] != k@);
                                assert(groups@[q] == prev_groups[q]);
                            } else {
                                assert(groups@[q].members@ =~= seq![i]);
                                assert(indices_with_key(rows@, k@, n + 1) =~= seq![i]);
                            }
                        }
                    },
                }
            },
        }
        i = i + 1;
    }
    groups
}

/// A group as a value: its key and the indices of its rows.
pub type GroupView = (KeyView, Seq<usize>);

impl View for ExactGroup {
    type V = GroupView;

    open spec fn view(&self) -> GroupView {
        (self.key@, self.members@)
    }
}

/// Every group of `rows`, in order of first appearance of its key.
pub open spec fn all_groups(rows: Seq<FileListRow>) -> Seq<GroupView> {
    let keys = keys_in_order(rows, rows.len() as int);
    Seq::new(keys.len(), |t: int| (keys[t], indices_with_key(rows, keys[t], rows.len() as int)))
}

/// The groups of two or more, in the order given.
pub open spec fn only_duplicates(g: Seq<GroupView>) -> Seq<GroupView>
    decreases g.len(),
{
    if g.len() == 0 {
        Seq::empty()
    } else if g.last().1.len() >= 2 {
        only_duplicates(g.drop_last()).push(g.last())
    } else {
        only_duplicates(g.drop_last())
    }
}

/// The groups of exact duplicates of `rows`, in order of first appearance.
pub open spec fn duplicate_groups(rows: Seq<FileListRow>) -> Seq<GroupView> {
    only_duplicates(all_groups(rows))
}

pub open spec fn views_of(g: Seq<ExactGroup>) -> Seq<GroupView> {
    Seq::new(g.len(), |i: int| g[i]@)
}

pub fn copy_members(v: &Vec<usize>) -> (r: Vec<usize>)
    ensures
        r@ == v@,
{
    let mut out: Vec<usize> = Vec::new();
    let mut i: usize = 0;
    while i < v.len()
        invariant
            i <= v@.len(),
            out@ == v@.take(i as int),
        decreases v@.len() - i,
    {
        out.push(v[i]);
        assert(out@ =~= v@.take(i + 1));
        i = i + 1;
    }
    assert(v@.take(v@.len() as int) =~= v@);
    out
}

fn copy_group(g: &ExactGroup) -> (r: ExactGroup)
    ensures
        r@ == g@,
{
    ExactGroup { key: g.key, members: copy_members(&g.members) }
}

proof fn lemma_only_duplicates_members(g: Seq<GroupView>)
    ensures
        forall|i: int| 0 <= i < only_duplicates(g).len() ==> #[trigger] only_duplicates(g)[i].1.len() >= 2,
        forall|i: int| 0 <= i < only_duplicates(g).len() ==> g.contains(#[trigger] only_duplicates(g)[i]),
    decreases g.len(),
{
    if g.len() > 0 {
        lemma_only_duplicates_members(g.drop_last());
        let d = only_duplicates(g.drop_last());
        assert forall|i: int| 0 <= i < only_duplicates(g).len() implies g.contains(#[trigger] only_duplicates(g)[i]) by {
            if i < d.len() {
                let j = choose|j: int| 0 <= j < g.drop_last().len() && g.drop_last()[j] == d[i];
                assert(g[j] == d[i]);
            } else {
                assert(g[g.len() - 1] == g.last());
            }
        }
    }
}

/// The groups of exact duplicates among `rows`: every key shared by two or
/// more rows, with all its rows in order, keys in order of first appearance.
pub fn duplicate_groups_of(rows: &[FileListRow]) -> (r: Vec<ExactGroup>)
    ensures
        views_of(r@) == duplicate_groups(rows@),
{
    let groups = group_by_key(rows);
    let ghost all = all_groups(rows@);
    assert(views_of(groups@) =~= all);
    let mut out: Vec<ExactGroup> = Vec::new();
    let mut i: usize = 0;
    while i < groups.len()
        invariant
            i <= groups@.len(),
            views_of(groups@) == all,
            views_of(out@) == only_duplicates(all.take(i as int)),
        decreases groups@.len() - i,
    {
        let ghost t = all.take(i + 1);
        assert(t.drop_last() =~= all.take(i as int));
        assert(t.last() == groups@[i as int]@);
        if groups[i].members.len() >= 2 {
            let g = copy_group(&groups[i]);
            let ghost prev = views_of(out@);
            out.push(g);
            assert(views_of(out@) =~= prev.push(g@));
        }
        i = i + 1;
    }
    assert(all.take(groups@.len() as int) =~= all);
    out
}


/// `a` comes before `b` in lexicographic order.
pub open spec fn bytes_lt(a: Seq<u8>, b: Seq<u8>) -> bool {
    exists|i: int|
        0 <= i < a.len() && i < b.len() && #[trigger] a[i] < #[trigger] b[i] && forall|j: int|
            0 <= j < i ==> a[j] == b[j]
}

/// The order of keys: BLAKE3 keys before SHA-256 keys, and keys of one kind
/// by their digest bytes, lexicographically. It is the order of the keys'
/// texts `blake3:<hex>` and `sha256:<hex>`.
pub open spec fn key_lt(a: KeyView, b: KeyView) -> bool {
    (a.0 && !b.0) || (a.0 == b.0 && bytes_lt(a.1, b.1))
}

pub proof fn lemma_bytes_lt_trans(a: Seq<u8>, b: Seq<u8>, c: Seq<u8>)
    requires
        bytes_lt(a, b),
        bytes_lt(b, c),
    ensures
        bytes_lt(a, c),
{
    let i = choose|i: int|
        0 <= i < a.len() && i < b.len() && #[trigger] a[i] < #[trigger] b[i] && forall|j: int|
            0 <= j < i ==> a[j] == b[j];
    let k = choose|k: int|
        0 <= k < b.len() && k < c.len() && #[trigger] b[k] < #[trigger] c[k] && forall|j: int|
            0 <= j < k ==> b[j] == c[j];
    if i < k {
        assert(b[i] == c[i]);
        assert(a[i] < c[i]);
    } else if k < i {
        assert(a[k] == b[k]);
        assert(a[k] < c[k]);
    } else {
        assert(a[i] < c[i]);
    }
}

pub proof fn lemma_bytes_lt_asym(a: Seq<u8>, b: Seq<u8>)
    requires
        bytes_lt(a, b),
    ensures
        !bytes_lt(b, a),
{
    let i = choose|i: int|
        0 <= i < a.len() && i < b.len() && #[trigger] a[i] < #[trigger] b[i] && forall|j: int|
            0 <= j < i ==> a[j] == b[j];
    if bytes_lt(b, a) {
        let k = choose|k: int|
            0 <= k < b.len() && k < a.len() && #[trigger] b[k] < #[trigger] a[k] && forall|j: int|
                0 <= j < k ==> b[j] == a[j];
        if i < k {
            assert(b[i] == a[i]);
        } else if k < i {
            assert(a[k] == b[k]);
        }
    }
}

pub proof fn lemma_key_lt_trans(a: KeyView, b: KeyView, c: KeyView)
    requires
        key_lt(a, b),
        key_lt(b, c),
    ensures
        key_lt(a, c),
{
    if a.0 == b.0 && b.0 == c.0 {
        lemma_bytes_lt_trans(a.1, b.1, c.1);
    }
}


/// How one key compares with another.
#[derive(Debug, Clone, Copy, PartialEq, Eq, Structural)]
pub enum KeyOrder {
    Less,
    Same,
    Greater,
}

fn digests_compare(a: &[u8; 32], b: &[u8; 32]) -> (r: KeyOrder)
    ensures
        r == KeyOrder::Less ==> bytes_lt(a@, b@),
        r == KeyOrder::Greater ==> bytes_lt(b@, a@),
        r == KeyOrder::Same ==> a@ == b@,
{
    let mut i: usize = 0;
    while i < 32
        invariant
            i <= 32,
            a@.len() == 32 && b@.len() == 32,
            forall|j: int| 0 <= j < i ==> a@[j] == b@[j],
        decreases 32 - i,
    {
        if a[i] < b[i] {
            assert(a@[i as int] < b@[i as int]);
            return KeyOrder::Less;
        }
        if a[i] > b[i] {
            assert(b@[i as int] < a@[i as int]);
            return KeyOrder::Greater;
        }
        i = i + 1;
    }
    assert(a@ =~= b@);
    KeyOrder::Same
}

/// Compares two keys in key order.
pub fn compare_keys(a: &ExactKey, b: &ExactKey) -> (r: KeyOrder)
    ensures
        r == KeyOrder::Less ==> key_lt(a@, b@),
        r == KeyOrder::Greater ==> key_lt(b@, a@),
        r == KeyOrder::Same ==> a@ == b@,
{
    match (a, b) {
        (ExactKey::Blake3(x), ExactKey::Blake3(y)) => digests_compare(x, y),
        (ExactKey::Sha256(x), ExactKey::Sha256(y)) => digests_compare(x, y),
        (ExactKey::Blake3(_), ExactKey::Sha256(_)) => KeyOrder::Less,
        (ExactKey::Sha256(_), ExactKey::Blake3(_)) => KeyOrder::Greater,
    }
}

/// `order` lists every index of `keys` once, by increasing key.
pub open spec fn sorted_by_key(keys: Seq<KeyView>, order: Seq<usize>) -> bool {
    &&& order.len() == keys.len()
    &&& forall|i: int| 0 <= i < order.len() ==> #[trigger] order[i] < keys.len()
    &&& forall|x: usize| x < keys.len() ==> #[trigger] order.contains(x)
    &&& forall|i: int, j: int| 0 <= i < j < order.len()
        ==> key_lt(keys[#[trigger] order[i] as int], keys[#[trigger] order[j] as int])
}

pub open spec fn keys_distinct(keys: Seq<KeyView>) -> bool {
    forall|a: int, b: int| 0 <= a < b < keys.len() ==> #[trigger] keys[a] != #[trigger] keys[b]
}

/// The indices of `keys` by increasing key; the keys are distinct.
fn order_by_key(keys: &Vec<ExactKey>) -> (order: Vec<usize>)
    requires
        keys_distinct(keys@.map_values(|k: ExactKey| k@)),
    ensures
        sorted_by_key(keys@.map_values(|k: ExactKey| k@), order@),
{
    let ghost kv = keys@.map_values(|k: ExactKey| k@);
    let mut order: Vec<usize> = Vec::new();
    let mut t: usize = 0;
    while t < keys.len()
        invariant
            kv == keys@.map_values(|k: ExactKey| k@),
            keys_distinct(kv),
            t <= keys@.len(),
            order@.len() == t,
            forall|i: int| 0 <= i < order@.len() ==> #[trigger] order@[i] < t,
            forall|x: usize| x < t ==> #[trigger] order@.contains(x),
            forall|i: int, j: int| 0 <= i < j < order@.len()
                ==> key_lt(kv[#[trigger] order@[i] as int], kv[#[trigger] order@[j] as int]),
        decreases keys@.len() - t,
    {
        let mut p: usize = 0;
        while p < order.len() && compare_keys(&keys[order[p]], &keys[t]) == KeyOrder::Less
            invariant
                kv == keys@.map_values(|k: ExactKey| k@),
                p <= order@.len(),
                order@.len() == t,
                t < keys@.len(),
                forall|i: int| 0 <= i < order@.len() ==> #[trigger] order@[i] < t,
                forall|q: int| 0 <= q < p ==> key_lt(kv[#[trigger] order@[q] as int], kv[t as int]),
            decreases order@.len() - p,
        {
            p = p + 1;
        }
        if p < order.len() {
            let c = compare_keys(&keys[order[p]], &keys[t]);
            assert(c != KeyOrder::Less);
            assert(kv[order@[p as int] as int] != kv[t as int]);
            assert(key_lt(kv[t as int], kv[order@[p as int] as int]));
        }
        let ghost old_order = order@;
        order.insert(p, t);
        assert(order@ =~= old_order.insert(p as int, t));
        assert forall|i: int, j: int| 0 <= i < j < order@.len()
            implies key_lt(kv[#[trigger] order@[i] as int], kv[#[trigger] order@[j] as int]) by {
            if j < p {
                assert(order@[i] == old_order[i] && order@[j] == old_order[j]);
            } else if j == p {
                assert(order@[i] == old_order[i]);
            } else if i < p {
                assert(order@[i] == old_order[i] && order@[j] == old_order[j - 1]);
            } else if i == p {
                assert(order@[j] == old_order[j - 1]);
                if j - 1 > p {
                    assert(key_lt(kv[old_order[p as int] as int], kv[old_order[j - 1] as int]));
                    lemma_key_lt_trans(kv[t as int], kv[old_order[p as int] as int], kv[old_order[j - 1] as int]);
                }
            } else {
                assert(order@[i] == old_order[i - 1] && order@[j] == old_order[j - 1]);
            }
        }
        assert forall|x: usize| x < t + 1 implies #[trigger] order@.contains(x) by {
            if x == t {
                assert(order@[p as int] == t);
            } else {
                assert(old_order.contains(x));
                let q = choose|q: int| 0 <= q < old_order.len() && old_order[q] == x;
                if q < p {
                    assert(order@[q] == x);
                } else {
                    assert(order@[q + 1] == x);
                }
            }
        }
        t = t + 1;
    }
    order
}


/// The keys of groups.
pub open spec fn group_keys(g: Seq<GroupView>) -> Seq<KeyView> {
    g.map_values(|v: GroupView| v.0)
}

proof fn lemma_only_duplicates_distinct(g: Seq<GroupView>)
    requires
        keys_distinct(group_keys(g)),
    ensures
        keys_distinct(group_keys(only_duplicates(g))),
    decreases g.len(),
{
    if g.len() > 0 {
        let init = g.drop_last();
        assert(keys_distinct(group_keys(init))) by {
            assert forall|a: int, b: int| 0 <= a < b < group_keys(init).len()
                implies #[trigger] group_keys(init)[a] != #[trigger] group_keys(init)[b] by {
                assert(group_keys(init)[a] == group_keys(g)[a] && group_keys(init)[b] == group_keys(g)[b]);
            }
        }
        lemma_only_duplicates_distinct(init);
        lemma_only_duplicates_members(init);
        let d = only_duplicates(init);
        if g.last().1.len() >= 2 {
            let d2 = d.push(g.last());
            assert(only_duplicates(g) == d2);
            assert forall|a: int, b: int| 0 <= a < b < group_keys(d2).len()
                implies #[trigger] group_keys(d2)[a] != #[trigger] group_keys(d2)[b] by {
                if b < d.len() {
                    assert(group_keys(d2)[a] == group_keys(d)[a] && group_keys(d2)[b] == group_keys(d)[b]);
                } else {
                    assert(init.contains(d[a]));
                    let j = choose|j: int| 0 <= j < init.len() && init[j] == d[a];
                    assert(group_keys(g)[j] != group_keys(g)[g.len() - 1]);
                }
            }
        }
    }
}

/// The groups of exact duplicates have distinct keys.
pub proof fn lemma_duplicate_keys_distinct(rows: Seq<FileListRow>)
    ensures
        keys_distinct(group_keys(duplicate_groups(rows))),
{
    let n = rows.len() as int;
    lemma_keys_distinct(rows, n);
    let all = all_groups(rows);
    assert(group_keys(all) =~= keys_in_order(rows, n));
    lemma_only_duplicates_distinct(all);
}

/// The groups of `d` in the given order.
pub open spec fn arranged(d: Seq<GroupView>, order: Seq<usize>) -> Seq<GroupView> {
    order.map_values(|q: usize| d[q as int])
}

/// The groups of exact duplicates among `rows`, by increasing key: BLAKE3
/// digests first, each kind by digest bytes; each group's rows in order.
pub fn exact_groups_by_key(rows: &[FileListRow]) -> (r: Vec<ExactGroup>)
    ensures
        exists|o: Seq<usize>| #[trigger] sorted_by_key(group_keys(duplicate_groups(rows@)), o)
            && views_of(r@) == arranged(duplicate_groups(rows@), o),
{
    let groups = duplicate_groups_of(rows);
    let ghost d = duplicate_groups(rows@);
    proof {
        lemma_duplicate_keys_distinct(rows@);
    }
    let mut keys: Vec<ExactKey> = Vec::new();
    let mut i: usize = 0;
    while i < groups.len()
        invariant
            i <= groups@.len(),
            views_of(groups@) == d,
            keys@.map_values(|k: ExactKey| k@) == group_keys(d).take(i as int),
        decreases groups@.len() - i,
    {
        let ghost prev = keys@;
        assert(views_of(groups@)[i as int] == groups@[i as int]@);
        keys.push(groups[i].key);
        assert(keys@ == prev.push(groups@[i as int].key));
        assert(keys@.map_values(|k: ExactKey| k@) =~= prev.map_values(|k: ExactKey| k@).push(groups@[i as int].key@));
        assert(group_keys(d).take(i + 1) =~= group_keys(d).take(i as int).push(d[i as int].0));
        assert(keys@.map_values(|k: ExactKey| k@) =~= group_keys(d).take(i + 1));
        i = i + 1;
    }
    assert(group_keys(d).take(d.len() as int) =~= group_keys(d));
    let order = order_by_key(&keys);
    let mut out: Vec<ExactGroup> = Vec::new();
    let mut k: usize = 0;
    while k < order.len()
        invariant
            k <= order@.len(),
            views_of(groups@) == d,
            sorted_by_key(group_keys(d), order@),
            views_of(out@) == arranged(d, order@.take(k as int)),
        decreases order@.len() - k,
    {
        let g = copy_group(&groups[order[k]]);
        assert(views_of(groups@)[order@[k as int] as int] == groups@[order@[k as int] as int]@);
        let ghost prev = views_of(out@);
        out.push(g);
        assert(views_of(out@) =~= prev.push(g@));
        assert(views_of(out@) =~= arranged(d, order@.take(k + 1)));
        k = k + 1;
    }
    assert(order@.take(order@.len() as int) =~= order@);
    out
}

/// The number of rows of each group.
pub open spec fn member_counts(d: Seq<GroupView>) -> Seq<u64> {
    d.map_values(|v: GroupView| v.1.len() as u64)
}

/// The groups of exact duplicates among `rows`, largest first; groups of one
/// size keep the order of their keys' first appearance.
pub fn exact_groups_largest_first(rows: &[FileListRow]) -> (r: Vec<ExactGroup>)
    ensures
        exists|o: Seq<usize>| #[trigger] sorted_desc(member_counts(duplicate_groups(rows@)), o)
            && views_of(r@) == arranged(duplicate_groups(rows@), o),
{
    let groups = duplicate_groups_of(rows);
    let ghost d = duplicate_groups(rows@);
    let mut counts: Vec<u64> = Vec::new();
    let mut i: usize = 0;
    while i < groups.len()
        invariant
            i <= groups@.len(),
            views_of(groups@) == d,
            counts@ == member_counts(d).take(i as int),
        decreases groups@.len() - i,
    {
        counts.push(groups[i].members.len() as u64);
        assert(counts@ =~= member_counts(d).take(i + 1));
        i = i + 1;
    }
    assert(member_counts(d).take(d.len() as int) =~= member_counts(d));
    let order = order_by_desc(counts.as_slice());
    let mut out: Vec<ExactGroup> = Vec::new();
    let mut k: usize = 0;
    while k < order.len()
        invariant
            k <= order@.len(),
            views_of(groups@) == d,
            sorted_desc(member_counts(d), order@),
            views_of(out@) == arranged(d, order@.take(k as int)),
        decreases order@.len() - k,
    {
        let g = copy_group(&groups[order[k]]);
        assert(views_of(groups@)[order@[k as int] as int] == groups@[order@[k as int] as int]@);
        let ghost prev = views_of(out@);
        out.push(g);
        assert(views_of(out@) =~= prev.push(g@));
        assert(views_of(out@) =~= arranged(d, order@.take(k + 1)));
        k = k + 1;
    }
    assert(order@.take(order@.len() as int) =~= order@);
    out
}



fn key_bytes(k: &ExactKey) -> (h: &[u8; 32])
    ensures
        h@ == k@.1,
{
    match k {
        ExactKey::Blake3(h) => h,
        ExactKey::Sha256(h) => h,
    }
}

/// A group's label on the C interface: its size and the first twelve
/// hexadecimal digits of its digest.
pub open spec fn exact_label(g: GroupView) -> Seq<char> {
    "Exact group ("@ + decimal(g.1.len()) + " files) - "@ + hex_of(g.0.1).take(12)
}

/// The rows of all groups, one group after another.
pub open spec fn flat_rows(d: Seq<GroupView>) -> Seq<usize>
    decreases d.len(),
{
    if d.len() == 0 {
        Seq::empty()
    } else {
        flat_rows(d.drop_last()) + d.last().1
    }
}

pub open spec fn exact_records(d: Seq<GroupView>) -> Seq<RecordView> {
    Seq::new(d.len(), |t: int| (exact_label(d[t]), flat_rows(d.take(t)).len() as usize, d[t].1.len() as usize))
}

fn exact_group_label(g: &ExactGroup, count: usize) -> (s: String)
    requires
        count == g.members@.len(),
    ensures
        s@ == exact_label(g@),
{
    let mut v: Vec<char> = Vec::new();
    append_str(&mut v, "Exact group (");
    append_decimal(&mut v, count as u64);
    append_str(&mut v, " files) - ");
    let h = digest_prefix_hex(key_bytes(&g.key), 6);
    proof {
        lemma_hex_prefix(g.key@.1, 6);
    }
    append_chars(&mut v, h.as_slice());
    string_from_chars(v.as_slice())
}

/// The groups of exact duplicates as the C interface lists them: a record
/// per group by increasing key, and the rows of all groups one group after
/// another.
pub fn list_exact_groups(rows: &[FileListRow]) -> (r: (Vec<GroupRecord>, Vec<usize>))
    ensures
        exists|o: Seq<usize>| #[trigger] sorted_by_key(group_keys(duplicate_groups(rows@)), o)
            && record_views(r.0@) == exact_records(arranged(duplicate_groups(rows@), o))
            && r.1@ == flat_rows(arranged(duplicate_groups(rows@), o)),
{
    let groups = exact_groups_by_key(rows);
    let ghost o = choose|o: Seq<usize>| #[trigger] sorted_by_key(group_keys(duplicate_groups(rows@)), o)
        && views_of(groups@) == arranged(duplicate_groups(rows@), o);
    let ghost d = views_of(groups@);
    let mut records: Vec<GroupRecord> = Vec::new();
    let mut out: Vec<usize> = Vec::new();
    let mut t: usize = 0;
    while t < groups.len()
        invariant
            t <= groups@.len(),
            d == views_of(groups@),
            out@ == flat_rows(d.take(t as int)),
            records@.len() == t,
            forall|u: int| 0 <= u < t ==> (#[trigger] records@[u])@ == (
                exact_label(d[u]),
                flat_rows(d.take(u)).len() as usize,
                d[u].1.len() as usize,
            ),
        decreases groups@.len() - t,
    {
        let g = &groups[t];
        assert(g@ == d[t as int]);
        let rows_start = out.len();
        append_indices(&mut out, &g.members);
        let rows_len = out.len() - rows_start;
        let label = exact_group_label(g, rows_len);
        let ghost prev = records@;
        records.push(GroupRecord { label, rows_start, rows_len });
        assert(d.take(t + 1).drop_last() =~= d.take(t as int));
        assert(d.take(t + 1).last() == d[t as int]);
        assert forall|u: int| 0 <= u < t + 1 implies (#[trigger] records@[u])@ == (
            exact_label(d[u]),
            flat_rows(d.take(u)).len() as usize,
            d[u].1.len() as usize,
        ) by {
            if u < t {
                assert(records@[u] == prev[u]);
            }
        }
        t = t + 1;
    }
    assert(d.take(d.len() as int) =~= d);
    assert(record_views(records@) =~= exact_records(d));
    (records, out)
}

fn append_indices(out: &mut Vec<usize>, v: &Vec<usize>)
    ensures
        final(out)@ == old(out)@ + v@,
{
    let ghost start = out@;
    let mut i: usize = 0;
    while i < v.len()
        invariant
            i <= v@.len(),
            out@ == start + v@.take(i as int),
        decreases v@.len() - i,
    {
        out.push(v[i]);
        assert(out@ =~= start + v@.take(i + 1));
        i = i + 1;
    }
    assert(v@.take(v@.len() as int) =~= v@);
}

/// The name of a key's digest algorithm.
pub open spec fn algo_name(k: KeyView) -> Seq<char> {
    if k.0 {
        "blake3"@
    } else {
        "sha256"@
    }
}

/// A group's title on the command line: its size, its digest algorithm and
/// the first sixteen hexadecimal digits of its digest.
pub open spec fn exact_title(g: GroupView) -> Seq<char> {
    "exact "@ + decimal(g.1.len()) + " ["@ + algo_name(g.0) + ":"@ + hex_of(g.0.1).take(16) + "]"@
}

pub fn exact_group_title(g: &ExactGroup) -> (s: String)
    ensures
        s@ == exact_title(g@),
{
    let mut v: Vec<char> = Vec::new();
    append_str(&mut v, "exact ");
    append_decimal(&mut v, g.members.len() as u64);
    append_str(&mut v, " [");
    match &g.key {
        ExactKey::Blake3(_) => append_str(&mut v, "blake3"),
        ExactKey::Sha256(_) => append_str(&mut v, "sha256"),
    }
    append_str(&mut v, ":");
    let h = digest_prefix_hex(key_bytes(&g.key), 8);
    proof {
        lemma_hex_prefix(g.key@.1, 8);
    }
    append_chars(&mut v, h.as_slice());
    append_str(&mut v, "]");
    string_from_chars(v.as_slice())
}

/// `"<n> files"`.
pub fn files_summary(n: usize) -> (s: String)
    ensures
        s@ == decimal(n as nat) + " files"@,
{
    let mut v: Vec<char> = Vec::new();
    append_decimal(&mut v, n as u64);
    append_str(&mut v, " files");
    string_from_chars(v.as_slice())
}


proof fn lemma_indices_with_key(rows: Seq<FileListRow>, k: KeyView, n: int)
    requires
        0 <= n <= rows.len() <= usize::MAX,
    ensures
        forall|a: int| 0 <= a < indices_with_key(rows, k, n).len() ==> {
            let j = #[trigger] indices_with_key(rows, k, n)[a];
            j < n && row_key(rows[j as int]) == Some(k)
        },
        forall|j: int| 0 <= j < n && row_key(rows[j]) == Some(k)
            ==> #[trigger] indices_with_key(rows, k, n).contains(j as usize),
    decreases n,
{
    if n > 0 {
        lemma_indices_with_key(rows, k, n - 1);
        let prev = indices_with_key(rows, k, n - 1);
        let cur = indices_with_key(rows, k, n);
        assert forall|j: int| 0 <= j < n && row_key(rows[j]) == Some(k) implies #[trigger] cur.contains(j as usize) by {
            if j < n - 1 {
                assert(prev.contains(j as usize));
                let a = choose|a: int| 0 <= a < prev.len() && prev[a] == j as usize;
                assert(cur[a] == j as usize);
            } else {
                assert(cur[cur.len() - 1] == j as usize);
            }
        }
        assert forall|a: int| 0 <= a < cur.len() implies {
            let j = #[trigger] cur[a];
            j < n && row_key(rows[j as int]) == Some(k)
        } by {
            if a < prev.len() {
                assert(cur[a] == prev[a]);
            }
        }
    }
}

proof fn lemma_only_duplicates_complete(g: Seq<GroupView>)
    ensures
        forall|i: int| 0 <= i < g.len() && (#[trigger] g[i]).1.len() >= 2 ==> only_duplicates(g).contains(g[i]),
    decreases g.len(),
{
    if g.len() > 0 {
        lemma_only_duplicates_complete(g.drop_last());
        let d = only_duplicates(g.drop_last());
        assert forall|i: int| 0 <= i < g.len() && (#[trigger] g[i]).1.len() >= 2 implies only_duplicates(g).contains(g[i]) by {
            if i < g.len() - 1 {
                assert(g.drop_last()[i] == g[i]);
                assert(d.contains(g[i]));
                let a = choose|a: int| 0 <= a < d.len() && d[a] == g[i];
                if g.last().1.len() >= 2 {
                    assert(only_duplicates(g)[a] == g[i]);
                }
            } else {
                assert(only_duplicates(g)[only_duplicates(g).len() - 1] == g[i]);
            }
        }
    }
}

/// Exact duplicates are exact and none is missed: every group holds two or
/// more rows, every row of a group has the group's key, no two groups share
/// a key, and any two rows with the same key are in the group of that key.
pub proof fn lemma_duplicate_groups_exact(rows: Seq<FileListRow>)
    requires
        rows.len() <= usize::MAX,
    ensures
        forall|t: int| 0 <= t < duplicate_groups(rows).len() ==> (#[trigger] duplicate_groups(rows)[t]).1.len() >= 2,
        forall|t: int, a: int| 0 <= t < duplicate_groups(rows).len() && 0 <= a < duplicate_groups(rows)[t].1.len()
            ==> {
            let j = #[trigger] duplicate_groups(rows)[t].1[a];
            j < rows.len() && row_key(rows[j as int]) == Some(duplicate_groups(rows)[t].0)
        },
        keys_distinct(group_keys(duplicate_groups(rows))),
        forall|i: int, j: int| 0 <= i < j < rows.len() && row_key(#[trigger] rows[i]) is Some && row_key(rows[i])
            == row_key(#[trigger] rows[j]) ==> exists|t: int| 0 <= t < duplicate_groups(rows).len()
            && (#[trigger] duplicate_groups(rows)[t]).0 == row_key(rows[i])->0 && duplicate_groups(rows)[t].1.contains(
            i as usize,
        ) && duplicate_groups(rows)[t].1.contains(j as usize),
{
    let n = rows.len() as int;
    let all = all_groups(rows);
    let d = duplicate_groups(rows);
    lemma_keys_distinct(rows, n);
    lemma_only_duplicates_members(all);
    lemma_only_duplicates_complete(all);
    lemma_duplicate_keys_distinct(rows);
    assert forall|t: int, a: int| 0 <= t < d.len() && 0 <= a < d[t].1.len() implies {
        let j = #[trigger] d[t].1[a];
        j < rows.len() && row_key(rows[j as int]) == Some(d[t].0)
    } by {
        assert(all.contains(d[t]));
        let u = choose|u: int| 0 <= u < all.len() && all[u] == d[t];
        lemma_indices_with_key(rows, all[u].0, n);
    }
    assert forall|i: int, j: int| 0 <= i < j < rows.len() && row_key(#[trigger] rows[i]) is Some && row_key(rows[i])
        == row_key(#[trigger] rows[j]) implies exists|t: int| 0 <= t < d.len() && (#[trigger] d[t]).0 == row_key(
        rows[i],
    )->0 && d[t].1.contains(i as usize) && d[t].1.contains(j as usize) by {
        let k = row_key(rows[i])->0;
        let keys = keys_in_order(rows, n);
        assert(keys.contains(k));
        let u = choose|u: int| 0 <= u < keys.len() && keys[u] == k;
        lemma_indices_with_key(rows, k, n);
        let g = all[u];
        assert(g.1.contains(i as usize) && g.1.contains(j as usize));
        let ai = choose|a: int| 0 <= a < g.1.len() && g.1[a] == i as usize;
        let aj = choose|a: int| 0 <= a < g.1.len() && g.1[a] == j as usize;
        assert(ai != aj);
        assert(g.1.len() >= 2);
        assert(d.contains(g));
        let t = choose|t: int| 0 <= t < d.len() && d[t] == g;
        assert(d[t].0 == k);
    }
}


/// The text of a key: its algorithm, a colon, and the digest in
/// hexadecimal.
pub open spec fn key_text(k: KeyView) -> Seq<char> {
    algo_name(k) + ":"@ + hex_of(k.1)
}

/// `u` comes before `v` at their first difference.
pub open spec fn first_diff_lt(u: Seq<char>, v: Seq<char>) -> bool {
    exists|i: int|
        0 <= i < u.len() && i < v.len() && #[trigger] u[i] < #[trigger] v[i] && forall|j: int|
            0 <= j < i ==> u[j] == v[j]
}

proof fn lemma_chars_lt_same_len(u: Seq<char>, v: Seq<char>)
    requires
        u.len() == v.len(),
    ensures
        chars_lt(u, v) == first_diff_lt(u, v),
    decreases u.len(),
{
    if u.len() > 0 {
        if u[0] != v[0] {
            if u[0] < v[0] {
                assert(u[0] < v[0] && forall|j: int| 0 <= j < 0 ==> u[j] == v[j]);
            } else if first_diff_lt(u, v) {
                let i = choose|i: int|
                    0 <= i < u.len() && i < v.len() && #[trigger] u[i] < #[trigger] v[i] && forall|j: int|
                        0 <= j < i ==> u[j] == v[j];
                if i > 0 {
                    assert(u[0] == v[0]);
                }
            }
        } else {
            let u1 = u.drop_first();
            let v1 = v.drop_first();
            lemma_chars_lt_same_len(u1, v1);
            if first_diff_lt(u1, v1) {
                let i = choose|i: int|
                    0 <= i < u1.len() && i < v1.len() && #[trigger] u1[i] < #[trigger] v1[i] && forall|j: int|
                        0 <= j < i ==> u1[j] == v1[j];
                assert(u[i + 1] < v[i + 1]);
                assert forall|j: int| 0 <= j < i + 1 implies u[j] == v[j] by {
                    if j > 0 {
                        assert(u1[j - 1] == v1[j - 1]);
                    }
                }
            }
            if first_diff_lt(u, v) {
                let i = choose|i: int|
                    0 <= i < u.len() && i < v.len() && #[trigger] u[i] < #[trigger] v[i] && forall|j: int|
                        0 <= j < i ==> u[j] == v[j];
                assert(i > 0);
                assert(u1[i - 1] < v1[i - 1]);
                assert forall|j: int| 0 <= j < i - 1 implies u1[j] == v1[j] by {
                    assert(u[j + 1] == v[j + 1]);
                }
            }
        }
    }
}

proof fn lemma_chars_lt_common_prefix(p: Seq<char>, u: Seq<char>, v: Seq<char>)
    ensures
        chars_lt(p + u, p + v) == chars_lt(u, v),
    decreases p.len(),
{
    if p.len() > 0 {
        assert((p + u).drop_first() =~= p.drop_first() + u);
        assert((p + v).drop_first() =~= p.drop_first() + v);
        assert((p + u)[0] == p[0] && (p + v)[0] == p[0]);
        lemma_chars_lt_common_prefix(p.drop_first(), u, v);
    } else {
        assert(p + u =~= u);
        assert(p + v =~= v);
    }
}

proof fn lemma_hex_at(bytes: Seq<u8>, i: int)
    requires
        0 <= i < bytes.len(),
    ensures
        hex_of(bytes).len() == 2 * bytes.len(),
        hex_of(bytes)[2 * i] == hex_digit((bytes[i] / 16) as int),
        hex_of(bytes)[2 * i + 1] == hex_digit((bytes[i] % 16) as int),
    decreases bytes.len(),
{
    lemma_hex_len(bytes);
    lemma_hex_len(bytes.drop_last());
    if i < bytes.len() - 1 {
        lemma_hex_at(bytes.drop_last(), i);
    }
}

proof fn lemma_hex_digit_order(d: int, e: int)
    requires
        0 <= d < 16,
        0 <= e < 16,
    ensures
        d < e ==> hex_digit(d) < hex_digit(e),
        d == e <==> hex_digit(d) == hex_digit(e),
{
}

proof fn lemma_hex_order(a: Seq<u8>, b: Seq<u8>)
    requires
        a.len() == b.len(),
    ensures
        bytes_lt(a, b) == first_diff_lt(hex_of(a), hex_of(b)),
{
    let ha = hex_of(a);
    let hb = hex_of(b);
    lemma_hex_len(a);
    lemma_hex_len(b);
    if bytes_lt(a, b) {
        let i = choose|i: int|
            0 <= i < a.len() && i < b.len() && #[trigger] a[i] < #[trigger] b[i] && forall|j: int|
                0 <= j < i ==> a[j] == b[j];
        lemma_hex_at(a, i);
        lemma_hex_at(b, i);
        assert forall|j: int| 0 <= j < 2 * i implies ha[j] == hb[j] by {
            let k = j / 2;
            lemma_hex_at(a, k);
            lemma_hex_at(b, k);
            assert(a[k] == b[k]);
            if j % 2 == 0 {
                assert(j == 2 * k);
            } else {
                assert(j == 2 * k + 1);
            }
        }
        let hi_a = (a[i] / 16) as int;
        let hi_b = (b[i] / 16) as int;
        lemma_hex_digit_order(hi_a, hi_b);
        lemma_hex_digit_order((a[i] % 16) as int, (b[i] % 16) as int);
        if hi_a < hi_b {
            assert(ha[2 * i] < hb[2 * i]);
        } else {
            assert(hi_a == hi_b);
            assert(ha[2 * i + 1] < hb[2 * i + 1]);
            assert forall|j: int| 0 <= j < 2 * i + 1 implies ha[j] == hb[j] by {
                if j == 2 * i {
                } else {
                    assert(j < 2 * i);
                }
            }
        }
    }
    if first_diff_lt(ha, hb) {
        let j = choose|j: int|
            0 <= j < ha.len() && j < hb.len() && #[trigger] ha[j] < #[trigger] hb[j] && forall|q: int|
                0 <= q < j ==> ha[q] == hb[q];
        let i = j / 2;
        lemma_hex_at(a, i);
        lemma_hex_at(b, i);
        assert forall|k: int| 0 <= k < i implies a[k] == b[k] by {
            lemma_hex_at(a, k);
            lemma_hex_at(b, k);
            assert(ha[2 * k] == hb[2 * k]);
            assert(ha[2 * k + 1] == hb[2 * k + 1]);
            lemma_hex_digit_order((a[k] / 16) as int, (b[k] / 16) as int);
            lemma_hex_digit_order((a[k] % 16) as int, (b[k] % 16) as int);
            assert(a[k] == (a[k] / 16) * 16 + a[k] % 16);
            assert(b[k] == (b[k] / 16) * 16 + b[k] % 16);
        }
        let hi_a = (a[i] / 16) as int;
        let hi_b = (b[i] / 16) as int;
        let lo_a = (a[i] % 16) as int;
        let lo_b = (b[i] % 16) as int;
        lemma_hex_digit_order(hi_a, hi_b);
        lemma_hex_digit_order(hi_b, hi_a);
        lemma_hex_digit_order(lo_a, lo_b);
        lemma_hex_digit_order(lo_b, lo_a);
        assert(a[i] == hi_a * 16 + lo_a);
        assert(b[i] == hi_b * 16 + lo_b);
        if j == 2 * i {
            assert(hi_a < hi_b);
        } else {
            assert(j == 2 * i + 1);
            assert(ha[2 * i] == hb[2 * i]);
            assert(hi_a == hi_b);
            assert(lo_a < lo_b);
        }
        assert(a[i] < b[i]);
    }
}

/// The order of keys is the order of their texts: BLAKE3 keys come before
/// SHA-256 keys because `blake3:` comes before `sha256:`, and digests of
/// one kind compare as their hexadecimal texts do.
pub proof fn lemma_key_order_is_text_order(a: KeyView, b: KeyView)
    requires
        a.1.len() == b.1.len(),
    ensures
        key_lt(a, b) == chars_lt(key_text(a), key_text(b)),
{
    reveal_strlit("blake3");
    reveal_strlit("sha256");
    reveal_strlit(":");
    if a.0 == b.0 {
        let p = algo_name(a) + ":"@;
        assert(key_text(a) == p + hex_of(a.1));
        assert(key_text(b) == p + hex_of(b.1));
        lemma_chars_lt_common_prefix(p, hex_of(a.1), hex_of(b.1));
        lemma_hex_len(a.1);
        lemma_hex_len(b.1);
        lemma_chars_lt_same_len(hex_of(a.1), hex_of(b.1));
        lemma_hex_order(a.1, b.1);
    } else {
        assert(key_text(a)[0] == algo_name(a)[0]);
        assert(key_text(b)[0] == algo_name(b)[0]);
    }
}

} // verus!
