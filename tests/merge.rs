use ref_merge::ref_target::sort_ids;
use ref_merge::{find_pair_to_remove, merge_ref_targets, AncestorPairs, AncestryIndex, CommitId, RefTarget};

fn id(name: &str) -> CommitId {
    CommitId::new(name.as_bytes().to_vec())
}

fn normal(name: &str) -> RefTarget {
    RefTarget::Normal(id(name))
}

fn conflict(adds: &[&str], removes: &[&str]) -> RefTarget {
    RefTarget::Conflict {
        removes: removes.iter().map(|n| id(n)).collect(),
        adds: adds.iter().map(|n| id(n)).collect(),
    }
}

/// A is the root, B a child of A, C a child of B, D a child of A off the B, C line.
fn graph() -> AncestorPairs {
    let mut g = AncestorPairs::new();
    g.add(id("A"), id("B"));
    g.add(id("A"), id("C"));
    g.add(id("B"), id("C"));
    g.add(id("A"), id("D"));
    g
}

fn merge(left: Option<&RefTarget>, base: Option<&RefTarget>, right: Option<&RefTarget>) -> Option<RefTarget> {
    merge_ref_targets(&graph(), left, base, right)
}

#[test]
fn left_moved_right_unchanged() {
    let (a, b) = (normal("A"), normal("B"));
    assert_eq!(merge(Some(&b), Some(&a), Some(&a)), Some(normal("B")));
}

#[test]
fn both_moved_to_same_commit() {
    let (a, b) = (normal("A"), normal("B"));
    assert_eq!(merge(Some(&b), Some(&a), Some(&b)), Some(normal("B")));
}

#[test]
fn incomparable_moves_conflict() {
    let (b, c, d) = (normal("B"), normal("C"), normal("D"));
    assert_eq!(merge(Some(&c), Some(&b), Some(&d)), Some(conflict(&["C", "D"], &["B"])));
}

#[test]
fn descendant_supersedes_ancestor() {
    let (a, b, c) = (normal("A"), normal("B"), normal("C"));
    assert_eq!(merge(Some(&b), Some(&a), Some(&c)), Some(normal("C")));
    assert_eq!(merge(Some(&c), Some(&a), Some(&b)), Some(normal("C")));
}

#[test]
fn both_created_same_commit() {
    let b = normal("B");
    assert_eq!(merge(Some(&b), None, Some(&b)), Some(normal("B")));
}

#[test]
fn deleted_on_one_side() {
    let b = normal("B");
    assert_eq!(merge(None, Some(&b), Some(&b)), None);
}

#[test]
fn diverging_from_root_conflict() {
    let (a, b, d) = (normal("A"), normal("B"), normal("D"));
    assert_eq!(merge(Some(&d), Some(&a), Some(&b)), Some(conflict(&["D", "B"], &["A"])));
}

#[test]
fn conflict_equality_ignores_order_and_counts_duplicates() {
    assert_eq!(conflict(&["C", "D"], &["B"]), conflict(&["D", "C"], &["B"]));
    assert_ne!(conflict(&["C", "C", "D"], &["B"]), conflict(&["C", "D", "D"], &["B"]));
    assert_ne!(conflict(&["C"], &[]), normal("C"));
    assert_ne!(conflict(&["C", "D"], &["B"]), conflict(&["C", "D"], &["A"]));
}

#[test]
fn unchanged_side_is_identity() {
    let (a, b) = (normal("A"), normal("B"));
    let x = conflict(&["C", "D"], &["B"]);
    assert_eq!(merge(Some(&x), Some(&a), Some(&x)), Some(x.clone()));
    assert_eq!(merge(Some(&x), Some(&b), Some(&b)), Some(x.clone()));
    assert_eq!(merge(None, Some(&a), None), None);
}

#[test]
fn merge_commutes_on_single_commits() {
    let names = ["A", "B", "C", "D"];
    for l in names {
        for z in names {
            for r in names {
                let (lt, zt, rt) = (normal(l), normal(z), normal(r));
                assert_eq!(merge(Some(&lt), Some(&zt), Some(&rt)), merge(Some(&rt), Some(&zt), Some(&lt)));
                assert_eq!(merge(None, Some(&zt), Some(&rt)), merge(Some(&rt), Some(&zt), None));
                assert_eq!(merge(Some(&lt), None, Some(&rt)), merge(Some(&rt), None, Some(&lt)));
            }
        }
    }
}

#[test]
fn remerging_result_gives_it_back() {
    let (b, c, d) = (normal("B"), normal("C"), normal("D"));
    let r = merge(Some(&c), Some(&b), Some(&d)).unwrap();
    assert_eq!(merge(Some(&r), Some(&b), Some(&r)), Some(r.clone()));
}

#[test]
fn result_is_no_larger_than_inputs() {
    let (a, b, c) = (normal("A"), normal("B"), normal("C"));
    let r = merge(Some(&b), Some(&a), Some(&c)).unwrap();
    assert_eq!(r.adds().len() + r.removes().len(), 1);
    let x = conflict(&["C", "D"], &["B"]);
    let y = conflict(&["B", "D"], &["A"]);
    let r = merge(Some(&x), Some(&a), Some(&y)).unwrap();
    assert!(r.adds().len() + r.removes().len() <= 3 + 1 + 3);
    assert_eq!(r, conflict(&["C", "D"], &["A"]));
}

#[test]
fn duplicate_add_leaves_with_ancestor_remove() {
    // Left has conflict {C, D} - {B}; right resolved it to C from base B.
    let b = normal("B");
    let x = conflict(&["C", "D"], &["B"]);
    let c = normal("C");
    // Adds C, D, C and removes B, B: nothing cancels exactly; the two Cs
    // pair up, and one of them leaves together with a B, its ancestor.
    let r = merge(Some(&x), Some(&b), Some(&c));
    assert_eq!(r, Some(conflict(&["C", "D"], &["B"])));
}

#[test]
fn negative_base_cancels() {
    // The base only removed C: adds C, C, D and no removes; the two Cs
    // collapse into one, and C and D are incomparable.
    let neg = conflict(&[], &["C"]);
    let c = normal("C");
    let d = normal("D");
    assert_eq!(merge(Some(&c), Some(&neg), Some(&d)), Some(conflict(&["C", "D"], &[])));
}

#[test]
fn no_adds_left_is_absent() {
    let (a, b) = (normal("A"), normal("B"));
    // Left deleted the ref, right moved it: adds B, removes A.
    let r = merge(None, Some(&a), Some(&b));
    assert_eq!(r, Some(conflict(&["B"], &["A"])));
    // Nothing is added on any side: removes A, A and no adds.
    let neg = conflict(&[], &["A"]);
    assert_eq!(merge(None, Some(&a), Some(&neg)), None);
    // The base only removed A, right holds A: the two adds of A collapse.
    assert_eq!(merge(None, Some(&neg), Some(&a)), Some(normal("A")));
}

#[test]
fn duplicates_without_removes_collapse() {
    let x = conflict(&["C", "D"], &[]);
    let y = conflict(&["C", "B"], &[]);
    // adds C, D, C, B with no removes: C twice, B under C; D stays beside C.
    let r = merge(Some(&x), None, Some(&y));
    assert_eq!(r, Some(conflict(&["C", "D"], &[])));
}

#[test]
fn from_adds_and_removes_normal_form() {
    assert_eq!(RefTarget::from_adds_and_removes(vec![], vec![]), None);
    assert_eq!(RefTarget::from_adds_and_removes(vec![id("A")], vec![]), Some(normal("A")));
    assert_eq!(
        RefTarget::from_adds_and_removes(vec![id("A")], vec![id("B")]),
        Some(conflict(&["A"], &["B"]))
    );
    assert_eq!(RefTarget::from_adds_and_removes(vec![], vec![id("B")]), Some(conflict(&[], &["B"])));
}

#[test]
fn accessors() {
    assert_eq!(normal("A").adds(), vec![id("A")]);
    assert!(normal("A").removes().is_empty());
    let x = conflict(&["C", "D"], &["B"]);
    assert_eq!(x.adds(), vec![id("C"), id("D")]);
    assert_eq!(x.removes(), vec![id("B")]);
}

#[test]
fn commit_ids_compare_by_bytes() {
    assert_eq!(id("abc"), CommitId::new(vec![b'a', b'b', b'c']));
    assert_ne!(id("abc"), id("abd"));
    assert_ne!(id("ab"), id("abc"));
    assert_eq!(id("xy").clone().as_bytes(), b"xy");
}

#[test]
fn ancestor_pairs_answer_listed_pairs() {
    let g = graph();
    assert!(g.is_ancestor(&id("A"), &id("C")));
    assert!(!g.is_ancestor(&id("C"), &id("A")));
    assert!(!g.is_ancestor(&id("B"), &id("D")));
}

#[test]
fn next_step_prefers_cancellation() {
    let g = graph();
    let adds = vec![id("C"), id("B")];
    let removes = vec![id("A"), id("B")];
    assert_eq!(find_pair_to_remove(&g, &adds, &removes), Some((Some(1), 1)));
    let removes = vec![id("D"), id("A")];
    // B is an ancestor of C; the first remove that is an ancestor of B is A.
    assert_eq!(find_pair_to_remove(&g, &adds, &removes), Some((Some(1), 1)));
    let removes: Vec<CommitId> = vec![];
    assert_eq!(find_pair_to_remove(&g, &adds, &removes), Some((None, 1)));
    // Of two equal adds the later one leaves.
    let twice = vec![id("C"), id("C")];
    assert_eq!(find_pair_to_remove(&g, &twice, &removes), Some((None, 1)));
    let adds = vec![id("C"), id("D")];
    let removes = vec![id("B")];
    assert_eq!(find_pair_to_remove(&g, &adds, &removes), None);
}

#[test]
fn merge_commutes_with_one_remove() {
    let a = normal("A");
    let x = conflict(&["C", "D"], &[]);
    let y = conflict(&["B", "D"], &[]);
    let m1 = merge(Some(&x), Some(&a), Some(&y));
    let m2 = merge(Some(&y), Some(&a), Some(&x));
    assert_eq!(m1, Some(conflict(&["C", "D"], &[])));
    assert_eq!(m1, m2);
}

#[test]
fn merge_commutes_without_removes() {
    let x = conflict(&["C", "D"], &[]);
    let y = conflict(&["C", "B"], &[]);
    assert_eq!(merge(Some(&x), None, Some(&y)), merge(Some(&y), None, Some(&x)));
    let z = conflict(&["A", "D", "B"], &[]);
    assert_eq!(merge(Some(&z), None, Some(&y)), Some(conflict(&["C", "D"], &[])));
    assert_eq!(merge(Some(&y), None, Some(&z)), Some(conflict(&["D", "C"], &[])));
}

/// O, A, B, C, each an ancestor of the next.
fn chain() -> AncestorPairs {
    let mut g = AncestorPairs::new();
    for (p, q) in [("O", "A"), ("O", "B"), ("O", "C"), ("A", "B"), ("A", "C"), ("B", "C")] {
        g.add(id(p), id(q));
    }
    g
}

#[test]
fn merge_commutes_with_several_removes() {
    let g = chain();
    let left = conflict(&["B"], &["O"]);
    let right = conflict(&["C"], &["A"]);
    let m1 = merge_ref_targets(&g, Some(&left), None, Some(&right));
    let m2 = merge_ref_targets(&g, Some(&right), None, Some(&left));
    assert_eq!(m1, Some(conflict(&["C"], &["O"])));
    assert_eq!(m1, m2);
}

#[test]
fn merge_ignores_listing_order() {
    let g = chain();
    let c = normal("C");
    let l1 = conflict(&["B"], &["O", "A"]);
    let l2 = conflict(&["B"], &["A", "O"]);
    let m1 = merge_ref_targets(&g, Some(&l1), None, Some(&c));
    let m2 = merge_ref_targets(&g, Some(&l2), None, Some(&c));
    assert_eq!(m1, Some(conflict(&["C"], &["O"])));
    assert_eq!(m1, m2);
}

#[test]
fn commits_sort_in_byte_order() {
    assert!(id("a").is_at_most(&id("ab")));
    assert!(id("ab").is_at_most(&id("b")));
    assert!(!id("b").is_at_most(&id("ab")));
    assert!(id("ab").is_at_most(&id("ab")));
    let sorted = sort_ids(&vec![id("b"), id("ab"), id("a"), id("ab")]);
    assert_eq!(sorted, vec![id("a"), id("ab"), id("ab"), id("b")]);
}
