use canopy::ancestry::{is_ancestor_or_same, needs_merge_base, AncestryTable, MergeBase};
use canopy::dedup::deduplicate_tips;
use canopy::object::{ObjectId, ResolvedTip};
use canopy::report::{BranchError, ErrorContext, Note};

fn id(hex: &str) -> ObjectId {
    ObjectId::from_hex(hex.to_owned())
}

fn tip(input: &str, commit: &str) -> ResolvedTip {
    ResolvedTip::new(input.to_owned(), id(commit))
}

fn inputs(tips: &[ResolvedTip]) -> Vec<String> {
    tips.iter().map(|t| t.input.clone()).collect()
}

fn table(rows: &[&[bool]]) -> AncestryTable {
    AncestryTable::from_rows(rows.iter().map(|r| r.to_vec()).collect())
}

#[test]
fn same_commit_is_its_own_ancestor_without_search() {
    let a = id("aaaa");
    assert!(!needs_merge_base(&a, &id("aaaa")));
    assert!(needs_merge_base(&a, &id("bbbb")));
    let r = is_ancestor_or_same(&a, &id("aaaa"), &MergeBase::Failed("unused".to_owned()));
    assert!(matches!(r, Ok(true)));
}

#[test]
fn ancestor_is_the_merge_base() {
    let a = id("aaaa");
    let b = id("bbbb");
    assert!(matches!(is_ancestor_or_same(&a, &b, &MergeBase::Found(id("aaaa"))), Ok(true)));
    assert!(matches!(is_ancestor_or_same(&a, &b, &MergeBase::Found(id("cccc"))), Ok(false)));
    assert!(matches!(is_ancestor_or_same(&a, &b, &MergeBase::NotFound), Ok(false)));
    match is_ancestor_or_same(&a, &b, &MergeBase::Failed("boom".to_owned())) {
        Err(e) => assert_eq!(e.cause, "boom"),
        Ok(_) => panic!("expected an error"),
    }
}

#[test]
fn ancestor_chain_keeps_only_the_newest() {
    let tips = vec![tip("one", "01"), tip("two", "02"), tip("three", "03")];
    let t = table(&[&[true, true, true], &[false, true, true], &[false, false, true]]);
    let kept = deduplicate_tips(tips, &t);
    assert_eq!(inputs(&kept), vec!["three"]);
}

#[test]
fn newer_tip_first_still_wins() {
    let tips = vec![tip("new", "02"), tip("old", "01")];
    let t = table(&[&[true, false], &[true, true]]);
    let kept = deduplicate_tips(tips, &t);
    assert_eq!(inputs(&kept), vec!["new"]);
}

#[test]
fn unrelated_tips_are_kept_in_order() {
    let tips = vec![tip("a", "0a"), tip("b", "0b"), tip("c", "0c")];
    let t = table(&[&[true, false, false], &[false, true, false], &[false, false, true]]);
    let kept = deduplicate_tips(tips, &t);
    assert_eq!(inputs(&kept), vec!["a", "b", "c"]);
    let again = deduplicate_tips(
        kept,
        &table(&[&[true, false, false], &[false, true, false], &[false, false, true]]),
    );
    assert_eq!(inputs(&again), vec!["a", "b", "c"]);
}

#[test]
fn same_commit_twice_keeps_the_last_spelling() {
    let tips = vec![tip("main", "0a"), tip("x", "0b"), tip("0a", "0a")];
    let t = table(&[&[true, false, true], &[false, true, false], &[true, false, true]]);
    let kept = deduplicate_tips(tips, &t);
    assert_eq!(inputs(&kept), vec!["x", "0a"]);
}

#[test]
fn covered_by_a_later_tip_of_two_branches() {
    // a is an ancestor of c; b is unrelated to both.
    let tips = vec![tip("a", "0a"), tip("b", "0b"), tip("c", "0c")];
    let t = table(&[&[true, false, true], &[false, true, false], &[false, false, true]]);
    let kept = deduplicate_tips(tips, &t);
    assert_eq!(inputs(&kept), vec!["b", "c"]);
    assert_eq!(kept[1].commit.hex, "0c");
}

#[test]
fn table_shape() {
    assert!(table(&[&[true, false], &[false, true]]).is_square(2));
    assert!(!table(&[&[true, false], &[false]]).is_square(2));
    assert!(!table(&[&[true]]).is_square(2));
    assert!(table(&[]).is_square(0));
    assert!(table(&[&[true, false], &[true, true]]).get(1, 0));
}

#[test]
fn note_texts() {
    let c = || id("abc123");
    let cases = vec![
        (Note::SelectedBase("release".to_owned()), "selected base: release"),
        (Note::DetectedDefaultBranch("refs/heads/main".to_owned()), "detected default branch: refs/heads/main"),
        (Note::TargetBranch("integration".to_owned()), "target branch: integration"),
        (Note::ResolvedTips, "resolved tips:"),
        (Note::DeduplicatedTips, "deduplicated tips:"),
        (Note::TipLine("feature-a".to_owned(), c()), "  feature-a -> abc123"),
        (Note::AttemptingMerge("feature-a".to_owned(), c()), "attempting merge: feature-a (abc123)"),
        (
            Note::MergeConflicted("feature-b".to_owned(), c()),
            "failed merge due to conflicts: feature-b (abc123)",
        ),
        (Note::MergeSucceeded("feature-a".to_owned(), c()), "successful merge: feature-a -> abc123"),
        (Note::SuccessfulMerges, "successful merges:"),
        (Note::FailedMerges, "failed merges due to conflicts:"),
        (
            Note::BranchReplaced("integration".to_owned(), c()),
            "final branch update: replaced integration -> abc123",
        ),
        (
            Note::BranchCreated("integration".to_owned(), c()),
            "final branch creation: created integration -> abc123",
        ),
    ];
    for (note, text) in cases {
        assert_eq!(note.render(), text);
    }
}

#[test]
fn error_texts() {
    let e = BranchError { context: ErrorContext::NoTips, cause: None };
    assert_eq!(e.message(), "at least one tip is required");
    let e = BranchError {
        context: ErrorContext::MergeTip("feature-a".to_owned()),
        cause: Some("object not found".to_owned()),
    };
    assert_eq!(e.message(), "failed to merge tip 'feature-a': object not found");
    let e = BranchError { context: ErrorContext::BaseNotCommit("v1".to_owned()), cause: Some("tree".to_owned()) };
    assert_eq!(e.message(), "base 'v1' does not resolve to a commit: tree");
    let e = BranchError { context: ErrorContext::NoDefaultBranch, cause: None };
    assert_eq!(e.message(), "could not determine a default branch from local repository state");
    let e = BranchError {
        context: ErrorContext::UpdateTarget("integration".to_owned()),
        cause: Some("locked".to_owned()),
    };
    assert_eq!(e.message(), "failed to update target branch 'integration': locked");
}


#[test]
fn ancestry_error_text() {
    let a = id("aaaa");
    let b = id("bbbb");
    match is_ancestor_or_same(&a, &b, &MergeBase::Failed("walk failed".to_owned())) {
        Err(e) => assert_eq!(e.message(), "failed to compare commit ancestry: walk failed"),
        Ok(_) => panic!("expected an error"),
    }
}

#[test]
fn keeps_the_newest_last_occurrences() {
    // commits: 0a <- 0b (0a is an ancestor of 0b), 0c unrelated; tips
    // [0b, 0a, 0c, 0b]: the first 0b is not the last occurrence of its commit,
    // 0a is an ancestor of 0b, so only 0c and the last 0b stay.
    let tips = vec![tip("b1", "0b"), tip("a", "0a"), tip("c", "0c"), tip("b2", "0b")];
    let t = table(&[
        &[true, false, false, true],
        &[true, true, false, true],
        &[false, false, true, false],
        &[true, false, false, true],
    ]);
    let kept = deduplicate_tips(tips, &t);
    assert_eq!(inputs(&kept), vec!["c", "b2"]);
}
