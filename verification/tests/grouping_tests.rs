use dupdupninja::exact::{
    compare_keys, duplicate_groups_of, exact_group_title, exact_groups_by_key, exact_groups_largest_first,
    files_summary, group_by_key, list_exact_groups, ExactKey, KeyOrder,
};
use dupdupninja::matches::{exact_match_groups, MatchGroupKind};
use dupdupninja::models::FileListRow;
use dupdupninja::order::order_by_desc;
use dupdupninja::similar::{
    clamp_threshold, collect_similar_groups, group_similar, hamming_distance, hash_score, list_similar_groups,
    matches_rule, passes_similarity, similarity_scores, HashThresholds, SimilarityRule,
};

fn row(id: i64, path: &str, blake3: Option<[u8; 32]>, sha256: Option<[u8; 32]>) -> FileListRow {
    FileListRow {
        id,
        path: path.to_string(),
        size_bytes: 10,
        blake3,
        sha256,
        ahash: None,
        dhash: None,
        phash: None,
        file_type: None,
    }
}

fn hashed(id: i64, path: &str, ahash: Option<u64>, dhash: Option<u64>, phash: Option<u64>) -> FileListRow {
    FileListRow {
        id,
        path: path.to_string(),
        size_bytes: 10,
        blake3: None,
        sha256: None,
        ahash,
        dhash,
        phash,
        file_type: None,
    }
}

fn exact_rows() -> Vec<FileListRow> {
    let a = [1u8; 32];
    let b = [2u8; 32];
    let c = [0u8; 32];
    vec![
        row(1, "/m/a1.jpg", Some(a), Some(c)),
        row(2, "/m/b1.jpg", Some(b), None),
        row(3, "/m/a2.jpg", Some(a), None),
        row(4, "/m/c1.jpg", None, Some(c)),
        row(5, "/m/c2.jpg", None, Some(c)),
        row(6, "/m/none.jpg", None, None),
        row(7, "/m/b2.jpg", Some(b), None),
        row(8, "/m/b3.jpg", Some(b), None),
        row(9, "/m/single.jpg", Some([9u8; 32]), None),
    ]
}

#[test]
fn groups_by_key_in_order_of_first_appearance() {
    let rows = exact_rows();
    let groups = group_by_key(&rows);
    assert_eq!(groups.len(), 4);
    assert_eq!(groups[0].members, vec![0, 2]);
    assert_eq!(groups[1].members, vec![1, 6, 7]);
    assert_eq!(groups[2].members, vec![3, 4]);
    assert_eq!(groups[3].members, vec![8]);
}

#[test]
fn blake3_digest_takes_precedence_over_sha256() {
    let rows = exact_rows();
    let groups = group_by_key(&rows);
    assert!(matches!(groups[0].key, ExactKey::Blake3(_)));
    assert!(matches!(groups[2].key, ExactKey::Sha256(_)));
}

#[test]
fn duplicate_groups_leave_out_singletons() {
    let rows = exact_rows();
    let groups = duplicate_groups_of(&rows);
    assert_eq!(groups.len(), 3);
    for g in &groups {
        assert!(g.members.len() >= 2);
    }
}

#[test]
fn exact_groups_largest_first_keeps_ties_in_order() {
    let rows = exact_rows();
    let groups = exact_groups_largest_first(&rows);
    assert_eq!(groups.len(), 3);
    assert_eq!(groups[0].members, vec![1, 6, 7]);
    assert_eq!(groups[1].members, vec![0, 2]);
    assert_eq!(groups[2].members, vec![3, 4]);
}

#[test]
fn exact_groups_by_key_orders_blake3_first_then_bytes() {
    let rows = exact_rows();
    let groups = exact_groups_by_key(&rows);
    assert_eq!(groups.len(), 3);
    assert_eq!(groups[0].members, vec![0, 2]);
    assert_eq!(groups[1].members, vec![1, 6, 7]);
    assert_eq!(groups[2].members, vec![3, 4]);
}

#[test]
fn compare_keys_orders_kinds_and_bytes() {
    let a = ExactKey::Blake3([1u8; 32]);
    let b = ExactKey::Blake3([2u8; 32]);
    let s = ExactKey::Sha256([0u8; 32]);
    assert_eq!(compare_keys(&a, &b), KeyOrder::Less);
    assert_eq!(compare_keys(&b, &a), KeyOrder::Greater);
    assert_eq!(compare_keys(&a, &a), KeyOrder::Same);
    assert_eq!(compare_keys(&s, &a), KeyOrder::Greater);
    let mut late = [1u8; 32];
    late[31] = 0;
    assert_eq!(compare_keys(&ExactKey::Blake3(late), &a), KeyOrder::Less);
}

#[test]
fn list_exact_groups_labels_and_runs() {
    let rows = exact_rows();
    let (records, flat) = list_exact_groups(&rows);
    assert_eq!(records.len(), 3);
    assert_eq!(records[0].label, "Exact group (2 files) - 010101010101");
    assert_eq!((records[0].rows_start, records[0].rows_len), (0, 2));
    assert_eq!(records[1].label, "Exact group (3 files) - 020202020202");
    assert_eq!((records[1].rows_start, records[1].rows_len), (2, 3));
    assert_eq!(records[2].label, "Exact group (2 files) - 000000000000");
    assert_eq!((records[2].rows_start, records[2].rows_len), (5, 2));
    assert_eq!(flat, vec![0, 2, 1, 6, 7, 3, 4]);
}

#[test]
fn list_exact_groups_of_no_duplicates_is_empty() {
    let rows = vec![row(1, "/x", Some([3u8; 32]), None), row(2, "/y", None, None)];
    let (records, flat) = list_exact_groups(&rows);
    assert!(records.is_empty());
    assert!(flat.is_empty());
}

#[test]
fn exact_title_and_summary() {
    let rows = exact_rows();
    let groups = exact_groups_largest_first(&rows);
    assert_eq!(exact_group_title(&groups[0]), "exact 3 [blake3:0202020202020202]");
    assert_eq!(exact_group_title(&groups[2]), "exact 2 [sha256:0000000000000000]");
    assert_eq!(files_summary(3), "3 files");
    assert_eq!(files_summary(0), "0 files");
}

#[test]
fn order_by_desc_is_a_stable_descending_sort() {
    assert_eq!(order_by_desc(&[2, 5, 2, 7, 5]), vec![3, 1, 4, 0, 2]);
    assert_eq!(order_by_desc(&[]), Vec::<usize>::new());
}

#[test]
fn hamming_distance_counts_differing_bits() {
    assert_eq!(hamming_distance(0, u64::MAX), 64);
    assert_eq!(hamming_distance(0b1011, 0b0001), 2);
    assert_eq!(hamming_distance(12345, 12345), 0);
}

#[test]
fn hash_score_confidence_units() {
    let s = hash_score(Some(0), Some(0)).unwrap();
    assert_eq!((s.distance, s.confidence), (0, 639936));
    let s = hash_score(Some(0), Some(1)).unwrap();
    assert_eq!((s.distance, s.confidence), (1, 630000));
    let s = hash_score(Some(0), Some(u64::MAX)).unwrap();
    assert_eq!((s.distance, s.confidence), (64, 0));
    assert!(hash_score(None, Some(1)).is_none());
    assert!(hash_score(Some(1), None).is_none());
}

#[test]
fn overall_confidence_prefers_phash_then_averages() {
    let a = hashed(1, "/a", Some(0), Some(0), Some(0));
    let b = hashed(2, "/b", Some(3), Some(1), Some(0b111));
    let s = similarity_scores(&a, &b);
    assert_eq!(s.overall, 610000);
    let a = hashed(1, "/a", Some(0), Some(0), None);
    let b = hashed(2, "/b", Some(3), Some(1), Some(7));
    let s = similarity_scores(&a, &b);
    assert!(s.phash.is_none());
    assert_eq!(s.overall, (630000 + 620000) / 2);
    let a = hashed(1, "/a", None, None, None);
    let s = similarity_scores(&a, &b);
    assert_eq!(s.overall, 0);
}

#[test]
fn strongest_hash_decides() {
    let t = HashThresholds { ahash: 10, dhash: 10, phash: 8 };
    let a = hashed(1, "/a", Some(0), Some(0), Some(0));
    let far_phash = hashed(2, "/b", Some(0), Some(0), Some(0xFFFF));
    assert!(!passes_similarity(similarity_scores(&a, &far_phash), t));
    let no_phash = hashed(3, "/c", Some(u64::MAX), Some(0x3), None);
    assert!(passes_similarity(similarity_scores(&a, &no_phash), t));
    let nothing = hashed(4, "/d", None, None, None);
    assert!(!passes_similarity(similarity_scores(&a, &nothing), t));
}

#[test]
fn all_hashes_rule_needs_phash_and_close_others() {
    let t = HashThresholds { ahash: 4, dhash: 4, phash: 4 };
    let rule = SimilarityRule::AllHashes(t);
    let a = hashed(1, "/a", Some(0), Some(0), Some(0));
    let b = hashed(2, "/b", None, Some(0xF), Some(0x3));
    assert!(matches_rule(&rule, &a, &b));
    let c = hashed(3, "/c", None, Some(0x1F), Some(0x3));
    assert!(!matches_rule(&rule, &a, &c));
    let d = hashed(4, "/d", Some(0), Some(0), None);
    assert!(!matches_rule(&rule, &a, &d));
}

#[test]
fn clamp_threshold_holds_to_range() {
    assert_eq!(clamp_threshold(0), 1);
    assert_eq!(clamp_threshold(10), 10);
    assert_eq!(clamp_threshold(40), 32);
}

fn similar_rows() -> Vec<FileListRow> {
    vec![
        hashed(1, "/p/a.jpg", Some(0), None, Some(0)),
        hashed(2, "/p/b.jpg", Some(1), None, Some(1)),
        hashed(3, "/p/c.jpg", None, None, Some(0xFF)),
        hashed(4, "/p/d.jpg", None, None, None),
        hashed(5, "/p/e.jpg", Some(0), None, Some(0)),
        hashed(6, "/p/f.jpg", None, None, Some(0x1FF)),
    ]
}

#[test]
fn greedy_grouping_takes_later_free_rows() {
    let rows = similar_rows();
    let rule = SimilarityRule::AllHashes(HashThresholds { ahash: 4, dhash: 4, phash: 4 });
    let groups = group_similar(&rows, &rule);
    assert_eq!(groups.len(), 2);
    assert_eq!(groups[0].anchor, 0);
    assert_eq!(groups[0].members, vec![1, 4]);
    assert_eq!(groups[1].anchor, 2);
    assert_eq!(groups[1].members, vec![5]);
}

#[test]
fn grouped_rows_are_never_regrouped() {
    let rows = vec![
        hashed(1, "/a", None, None, Some(0)),
        hashed(2, "/b", None, None, Some(0x3)),
        hashed(3, "/c", None, None, Some(0xF)),
    ];
    let rule = SimilarityRule::AllHashes(HashThresholds { ahash: 2, dhash: 2, phash: 2 });
    let groups = group_similar(&rows, &rule);
    assert_eq!(groups.len(), 1);
    assert_eq!(groups[0].anchor, 0);
    assert_eq!(groups[0].members, vec![1]);
}

#[test]
fn list_similar_groups_reports_distances_and_labels() {
    let rows = similar_rows();
    let (records, members) = list_similar_groups(&rows, 4, 4, 4);
    assert_eq!(records.len(), 2);
    assert_eq!(records[0].label, "Similar group (3 files) - a.jpg");
    assert_eq!((records[0].rows_start, records[0].rows_len), (0, 3));
    assert_eq!(records[1].label, "Similar group (2 files) - c.jpg");
    assert_eq!((records[1].rows_start, records[1].rows_len), (3, 2));
    let idx: Vec<usize> = members.iter().map(|m| m.index).collect();
    assert_eq!(idx, vec![0, 1, 4, 2, 5]);
    assert_eq!(members[1].phash_distance, 1);
    assert_eq!(members[1].ahash_distance, 1);
    assert_eq!(members[1].dhash_distance, 64);
    assert_eq!(members[4].phash_distance, 1);
    assert_eq!(members[4].ahash_distance, 64);
    assert_eq!(members[0].confidence, 639936);
    assert_eq!(members[1].confidence, 630000);
}

#[test]
fn collect_similar_groups_ranks_members_and_groups() {
    let rows = vec![
        hashed(1, "/a", None, None, Some(0)),
        hashed(2, "/b", None, None, Some(0x7)),
        hashed(3, "/c", None, None, Some(0x1)),
        hashed(4, "/d", None, None, Some(0xFF00)),
        hashed(5, "/e", None, None, Some(0xFF01)),
        hashed(6, "/f", None, None, Some(0xFF03)),
        hashed(7, "/g", None, None, Some(0xFF07)),
    ];
    let t = HashThresholds { ahash: 10, dhash: 10, phash: 4 };
    let groups = collect_similar_groups(&rows, t);
    assert_eq!(groups.len(), 2);
    assert_eq!(groups[0].anchor, 3);
    let m0: Vec<usize> = groups[0].members.iter().map(|m| m.index).collect();
    assert_eq!(m0, vec![4, 5, 6]);
    assert_eq!(groups[0].best, 630000);
    assert_eq!(groups[1].anchor, 0);
    let m1: Vec<usize> = groups[1].members.iter().map(|m| m.index).collect();
    assert_eq!(m1, vec![2, 1]);
    assert_eq!(groups[1].members[1].scores.overall, 610000);
}

#[test]
fn exact_match_groups_show_titles_and_paths() {
    let rows = vec![
        row(1, "/a", Some([1; 32]), None),
        row(2, "/b", Some([2; 32]), None),
        row(3, "/c", Some([1; 32]), None),
        row(4, "/d", Some([2; 32]), None),
        row(5, "/e", Some([2; 32]), None),
    ];
    let groups = exact_match_groups(&rows);
    assert_eq!(groups.len(), 2);
    assert!(groups[0].kind == MatchGroupKind::Exact);
    assert_eq!(groups[0].title, format!("exact 3 [blake3:{}]", "02".repeat(8)));
    assert_eq!(groups[0].summary, "3 files");
    assert_eq!(groups[0].confidence, 640000);
    let paths: Vec<&str> = groups[0].entries.iter().map(|e| e.path.as_str()).collect();
    assert_eq!(paths, vec!["/b", "/d", "/e"]);
    assert!(groups[0].entries.iter().all(|e| e.detail.is_none()));
    assert_eq!(groups[1].title, format!("exact 2 [blake3:{}]", "01".repeat(8)));
}
