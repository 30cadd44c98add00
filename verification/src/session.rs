//! The branch workflow as a machine: from its state and the outcome of the last
//! repository operation to its next state, the lines it reports and the next
//! operation it asks for.
//!
//! The caller performs each operation on the repository and hands back what
//! came of it. The machine decides everything else: which base to start from,
//! which tips to keep, which merges to keep, and how the target branch is set.
use vstd::prelude::*;
use crate::ancestry::{square, ancestry_or_false, needs_merge_base, is_ancestor_or_same_or_false, AncestryTable, MergeBase, MergeBaseView};
use crate::dedup::{
    deduplicate_tips, dedup_positions, lemma_dedup_distinct_commits, lemma_dedup_len, marks_same_commits,
    select,
};
use crate::object::{duplicate_tips, tip_views, ObjectId, ResolvedTip, TipView};
use crate::report::{join2, join4, BranchError, BranchErrorView, ErrorContext, ErrorContextView, Note, NoteView};
use vstd::pervasive::unreached;

verus! {

/// Where the workflow stands; each stage waits for the outcome of one operation.
#[derive(Debug, Clone, Copy, PartialEq, Eq, Structural)]
pub enum Stage {
    ReadingCurrentDir,
    Discovering,
    InspectingTarget,
    ParsingBase,
    LoadingBase,
    PeelingBase,
    FindingOriginHead,
    FollowingOriginHead,
    PeelingOriginHead,
    FindingHeadRef,
    ReadingTrackingName,
    OpeningTracking,
    PeelingTracking,
    ReadingHeadName,
    OpeningCurrentBranch,
    PeelingCurrentBranch,
    ParsingTip(usize),
    LoadingTip(usize),
    PeelingTip(usize),
    ComparingAncestry(usize, usize),
    PreparingMerge(usize),
    Merging(usize),
    WritingTree(usize),
    WritingCommit(usize),
    UpdatingTarget,
    Finished,
}

/// An operation that the workflow asks its caller to perform on the repository.
#[derive(Debug)]
pub enum Action {
    /// Read the working directory.
    ReadCurrentDir,
    /// Open the repository that contains the working directory.
    DiscoverRepository,
    /// Look a reference up by its full name and hold it as the current
    /// reference. When `must_exist`, a missing reference is a failure.
    FindReference { name: String, must_exist: bool },
    /// Replace the current reference by the one it points to, if it is symbolic.
    FollowReference,
    /// Peel the current reference to a commit.
    PeelReference,
    /// Hold the reference that HEAD points to as the current reference.
    FindHeadReference,
    /// Name the reference that the current reference tracks for fetching.
    TrackingReferenceName,
    /// Name the reference that HEAD points to.
    HeadName,
    /// Parse a revision that names a single object and hold it.
    RevParse { spec: String },
    /// Load the held object.
    LoadObject,
    /// Peel the loaded object to a commit.
    PeelToCommit,
    /// Search for the best common ancestor of two commits.
    MergeBase { left: ObjectId, right: ObjectId },
    /// Read the repository's tree-merge options.
    PrepareMergeOptions,
    /// Merge `theirs` into `ours` and hold the outcome; when
    /// `allow_missing_merge_base`, commits without shared history merge against
    /// an empty tree.
    MergeCommits { ours: ObjectId, theirs: ObjectId, allow_missing_merge_base: bool },
    /// Write the tree of the held merge outcome.
    WriteMergedTree,
    /// Write a commit with the given message, tree and two parents.
    WriteMergeCommit { message: String, tree: ObjectId, first_parent: ObjectId, second_parent: ObjectId },
    /// Point the named reference at the commit; when `must_not_exist`, it must
    /// not exist beforehand.
    UpdateReference { name: String, commit: ObjectId, must_not_exist: bool, log_message: String },
    /// Nothing is left to do; the workflow ended thus.
    Finish(Result<(), BranchError>),
}

/// What came of an operation.
#[derive(Debug)]
pub enum Event {
    /// It succeeded and has nothing to report.
    Done,
    /// It failed; the text says why.
    Failed(String),
    /// The looked-for reference exists, or the current reference was symbolic
    /// and was followed.
    Found,
    /// The looked-for reference, name or merge base does not exist, or the
    /// current reference is not symbolic.
    Missing,
    /// The name that was asked for.
    Named(String),
    /// The current reference, by its full name, peeled to the commit.
    Peeled(String, ObjectId),
    /// A commit: what an object peeled to, a merge base, or a written commit.
    Commit(ObjectId),
    /// A written tree.
    Tree(ObjectId),
    /// A merge completed; whether it left unresolved conflicts.
    Merged(bool),
}

/// An action as a specification sees it.
pub enum ActionView {
    ReadCurrentDir,
    DiscoverRepository,
    FindReference { name: Seq<char>, must_exist: bool },
    FollowReference,
    PeelReference,
    FindHeadReference,
    TrackingReferenceName,
    HeadName,
    RevParse { spec: Seq<char> },
    LoadObject,
    PeelToCommit,
    MergeBase { left: Seq<char>, right: Seq<char> },
    PrepareMergeOptions,
    MergeCommits { ours: Seq<char>, theirs: Seq<char>, allow_missing_merge_base: bool },
    WriteMergedTree,
    WriteMergeCommit {
        message: Seq<char>,
        tree: Seq<char>,
        first_parent: Seq<char>,
        second_parent: Seq<char>,
    },
    UpdateReference {
        name: Seq<char>,
        commit: Seq<char>,
        must_not_exist: bool,
        log_message: Seq<char>,
    },
    Finish(Result<(), BranchErrorView>),
}

/// An event as a specification sees it.
pub enum EventView {
    Done,
    Failed(Seq<char>),
    Found,
    Missing,
    Named(Seq<char>),
    Peeled(Seq<char>, Seq<char>),
    Commit(Seq<char>),
    Tree(Seq<char>),
    Merged(bool),
}

impl View for Action {
    type V = ActionView;

    open spec fn view(&self) -> ActionView {
        match self {
            Action::ReadCurrentDir => ActionView::ReadCurrentDir,
            Action::DiscoverRepository => ActionView::DiscoverRepository,
            Action::FindReference { name, must_exist } => ActionView::FindReference {
                name: name@,
                must_exist: *must_exist,
            },
            Action::FollowReference => ActionView::FollowReference,
            Action::PeelReference => ActionView::PeelReference,
            Action::FindHeadReference => ActionView::FindHeadReference,
            Action::TrackingReferenceName => ActionView::TrackingReferenceName,
            Action::HeadName => ActionView::HeadName,
            Action::RevParse { spec } => ActionView::RevParse { spec: spec@ },
            Action::LoadObject => ActionView::LoadObject,
            Action::PeelToCommit => ActionView::PeelToCommit,
            Action::MergeBase { left, right } => ActionView::MergeBase { left: left@, right: right@ },
            Action::PrepareMergeOptions => ActionView::PrepareMergeOptions,
            Action::MergeCommits { ours, theirs, allow_missing_merge_base } => ActionView::MergeCommits {
                ours: ours@,
                theirs: theirs@,
                allow_missing_merge_base: *allow_missing_merge_base,
            },
            Action::WriteMergedTree => ActionView::WriteMergedTree,
            Action::WriteMergeCommit { message, tree, first_parent, second_parent } =>
                ActionView::WriteMergeCommit {
                message: message@,
                tree: tree@,
                first_parent: first_parent@,
                second_parent: second_parent@,
            },
            Action::UpdateReference { name, commit, must_not_exist, log_message } =>
                ActionView::UpdateReference {
                name: name@,
                commit: commit@,
                must_not_exist: *must_not_exist,
                log_message: log_message@,
            },
            Action::Finish(r) => ActionView::Finish(
                match r {
                    Ok(()) => Ok(()),
                    Err(e) => Err(e@),
                },
            ),
        }
    }
}

impl View for Event {
    type V = EventView;

    open spec fn view(&self) -> EventView {
        match self {
            Event::Done => EventView::Done,
            Event::Failed(c) => EventView::Failed(c@),
            Event::Found => EventView::Found,
            Event::Missing => EventView::Missing,
            Event::Named(n) => EventView::Named(n@),
            Event::Peeled(n, id) => EventView::Peeled(n@, id@),
            Event::Commit(id) => EventView::Commit(id@),
            Event::Tree(id) => EventView::Tree(id@),
            Event::Merged(c) => EventView::Merged(*c),
        }
    }
}

/// What one step hands back: lines to report, then the next operation.
#[derive(Debug)]
pub struct Output {
    pub notes: Vec<Note>,
    pub action: Action,
}

/// An output as a specification sees it.
#[verifier::ext_equal]
pub struct OutputView {
    pub notes: Seq<NoteView>,
    pub action: ActionView,
}

impl View for Output {
    type V = OutputView;

    open spec fn view(&self) -> OutputView {
        OutputView { notes: Seq::new(self.notes@.len(), |i: int| self.notes@[i]@), action: self.action@ }
    }
}

/// The workflow's state as a specification sees it.
#[verifier::ext_equal]
pub struct SessionView {
    /// Replace an existing target branch.
    pub force: bool,
    /// The base that was asked for, if any.
    pub base: Option<Seq<char>>,
    /// The branch to create or replace.
    pub target: Seq<char>,
    /// The tips as given.
    pub tips: Seq<Seq<char>>,
    /// Whether the target branch existed when it was inspected.
    pub target_exists: bool,
    /// The commit that the integration has reached.
    pub current: Seq<char>,
    /// The tips resolved so far.
    pub resolved: Seq<TipView>,
    /// The completed rows of the ancestry table.
    pub rows: Seq<Seq<bool>>,
    /// The row of the ancestry table being filled.
    pub row: Seq<bool>,
    /// The tips kept by deduplication.
    pub deduped: Seq<TipView>,
    /// The tips merged so far.
    pub successes: Seq<TipView>,
    /// The tips skipped for conflicts so far.
    pub failures: Seq<TipView>,
    /// The base commit the integration starts from.
    pub start: Seq<char>,
    /// The tree written for the merge in progress.
    pub tree: Seq<char>,
    /// The merge commits written so far, in order.
    pub merges: Seq<MergeView>,
    /// For each kept tip tried so far, whether it was merged (or skipped).
    pub outcomes: Seq<bool>,
    /// How many merge-base searches have been answered.
    pub searches: nat,
    /// Where the workflow stands.
    pub stage: Stage,
}

/// A merge commit the workflow had written: its message, its tree, its parents
/// and the commit that came of it.
pub struct MergeView {
    pub message: Seq<char>,
    pub tree: Seq<char>,
    pub first_parent: Seq<char>,
    pub second_parent: Seq<char>,
    pub commit: Seq<char>,
}

/// The full name of the local branch `target`.
pub open spec fn branch_ref_name(target: Seq<char>) -> Seq<char> {
    "refs/heads/"@ + target
}

/// The reference that names the remote's default branch.
pub open spec fn origin_head_name() -> Seq<char> {
    "refs/remotes/origin/HEAD"@
}

/// The message of the commit that merges tip `input` into `target`.
pub open spec fn merge_message(input: Seq<char>, target: Seq<char>) -> Seq<char> {
    "Merge "@ + input + " into "@ + target
}

/// The reflog message of the final branch update.
pub open spec fn update_log_message(target: Seq<char>) -> Seq<char> {
    "canopy branch "@ + target
}

/// A list of tips, one line each.
pub open spec fn tip_lines(tips: Seq<TipView>) -> Seq<NoteView> {
    Seq::new(tips.len(), |k: int| NoteView::TipLine(tips[k].input, tips[k].commit))
}

/// A heading followed by the list of tips, or nothing for no tips.
pub open spec fn listing(heading: NoteView, tips: Seq<TipView>) -> Seq<NoteView> {
    if tips.len() == 0 {
        Seq::empty()
    } else {
        seq![heading] + tip_lines(tips)
    }
}

/// An output with no lines.
pub open spec fn ask(action: ActionView) -> OutputView {
    OutputView { notes: Seq::empty(), action }
}

/// The same step, with lines reported before it.
pub open spec fn after_notes(notes: Seq<NoteView>, r: (SessionView, OutputView)) -> (
    SessionView,
    OutputView,
) {
    (r.0, OutputView { notes: notes + r.1.notes, action: r.1.action })
}

/// The state with a new stage.
pub open spec fn at(s: SessionView, stage: Stage) -> SessionView {
    SessionView { stage, ..s }
}

/// Stop with an error.
pub open spec fn stop(s: SessionView, context: ErrorContextView, cause: Option<Seq<char>>) -> (
    SessionView,
    OutputView,
) {
    (
        at(s, Stage::Finished),
        ask(ActionView::Finish(Err(BranchErrorView { context, cause }))),
    )
}

/// Stop because an operation failed.
pub open spec fn stop_failed(s: SessionView, context: ErrorContextView, cause: Seq<char>) -> (
    SessionView,
    OutputView,
) {
    stop(s, context, Some(cause))
}

/// The state before anything happened.
pub open spec fn initial(
    force: bool,
    base: Option<Seq<char>>,
    target: Seq<char>,
    tips: Seq<Seq<char>>,
) -> SessionView {
    SessionView {
        force,
        base,
        target,
        tips,
        target_exists: false,
        current: Seq::empty(),
        resolved: Seq::empty(),
        rows: Seq::empty(),
        row: Seq::empty(),
        deduped: Seq::empty(),
        successes: Seq::empty(),
        failures: Seq::empty(),
        start: Seq::empty(),
        tree: Seq::empty(),
        merges: Seq::empty(),
        outcomes: Seq::empty(),
        searches: 0,
        stage: Stage::ReadingCurrentDir,
    }
}

/// The workflow begins: without tips it stops at once; otherwise it reads the
/// working directory.
pub open spec fn start_spec(
    force: bool,
    base: Option<Seq<char>>,
    target: Seq<char>,
    tips: Seq<Seq<char>>,
) -> (SessionView, OutputView) {
    let s = initial(force, base, target, tips);
    if tips.len() == 0 {
        stop(s, ErrorContextView::NoTips, None)
    } else {
        (s, ask(ActionView::ReadCurrentDir))
    }
}

/// After the target was inspected: find the base, from the one asked for or
/// from the repository's default branch.
pub open spec fn begin_base(s: SessionView) -> (SessionView, OutputView) {
    match s.base {
        Some(b) => (at(s, Stage::ParsingBase), ask(ActionView::RevParse { spec: b })),
        None => (
            at(s, Stage::FindingOriginHead),
            ask(ActionView::FindReference { name: origin_head_name(), must_exist: false }),
        ),
    }
}

/// The base is known: report it and the target, then resolve the tips.
pub open spec fn base_found(s: SessionView, note: NoteView, commit: Seq<char>) -> (
    SessionView,
    OutputView,
) {
    after_notes(
        seq![note, NoteView::TargetBranch(s.target)],
        resolve_from(SessionView { current: commit, start: commit, ..s }, 0),
    )
}

/// Resolve the tips from position `i` on.
pub open spec fn resolve_from(s: SessionView, i: int) -> (SessionView, OutputView) {
    if 0 <= i < s.tips.len() {
        (at(s, Stage::ParsingTip(i as usize)), ask(ActionView::RevParse { spec: s.tips[i] }))
    } else {
        after_notes(
            seq![NoteView::ResolvedTips] + tip_lines(s.resolved),
            compare_from(SessionView { rows: Seq::empty(), row: Seq::empty(), ..s }, 0, 0),
        )
    }
}

/// Fill the ancestry table from row `i`, column `j` on: a tip against itself or
/// against a tip of the same commit is related without asking; every other pair
/// asks for a merge base.
pub open spec fn compare_from(s: SessionView, i: int, j: int) -> (SessionView, OutputView)
    decreases s.resolved.len() - i, s.resolved.len() - j,
{
    let n = s.resolved.len() as int;
    if i < 0 || j < 0 || i >= n {
        deduplicate(s)
    } else if j >= n {
        compare_from(SessionView { rows: s.rows.push(s.row), row: Seq::empty(), ..s }, i + 1, 0)
    } else if s.resolved[i].commit == s.resolved[j].commit {
        compare_from(SessionView { row: s.row.push(true), ..s }, i, j + 1)
    } else {
        (
            at(s, Stage::ComparingAncestry(i as usize, j as usize)),
            ask(ActionView::MergeBase { left: s.resolved[i].commit, right: s.resolved[j].commit }),
        )
    }
}

/// The table is complete: keep the tips that no other tip contains, report
/// them, and start merging.
pub open spec fn deduplicate(s: SessionView) -> (SessionView, OutputView) {
    let kept = select(s.resolved, dedup_positions(s.rows));
    after_notes(
        seq![NoteView::DeduplicatedTips] + tip_lines(kept),
        merge_from(SessionView { deduped: kept, ..s }, 0),
    )
}

/// Merge the kept tips from position `k` on.
pub open spec fn merge_from(s: SessionView, k: int) -> (SessionView, OutputView) {
    if 0 <= k < s.deduped.len() {
        (
            at(s, Stage::PreparingMerge(k as usize)),
            OutputView {
                notes: seq![NoteView::AttemptingMerge(s.deduped[k].input, s.deduped[k].commit)],
                action: ActionView::PrepareMergeOptions,
            },
        )
    } else {
        finish_merges(s)
    }
}

/// Every kept tip was tried: report the merged and the skipped tips, then set
/// the target branch to the reached commit.
pub open spec fn finish_merges(s: SessionView) -> (SessionView, OutputView) {
    (
        at(s, Stage::UpdatingTarget),
        OutputView {
            notes: listing(NoteView::SuccessfulMerges, s.successes) + listing(
                NoteView::FailedMerges,
                s.failures,
            ),
            action: ActionView::UpdateReference {
                name: branch_ref_name(s.target),
                commit: s.current,
                must_not_exist: !s.force,
                log_message: update_log_message(s.target),
            },
        },
    )
}

/// The merge-base outcome that an event to a merge-base search reports.
pub open spec fn merge_base_of(e: EventView) -> MergeBaseView {
    match e {
        EventView::Commit(id) => MergeBaseView::Found(id),
        EventView::Failed(cause) => MergeBaseView::Failed(cause),
        _ => MergeBaseView::NotFound,
    }
}

/// Whether an event can answer the operation that the stage waits for.
pub open spec fn answers(stage: Stage, e: EventView) -> bool {
    match stage {
        Stage::ReadingCurrentDir | Stage::Discovering | Stage::ParsingBase | Stage::LoadingBase
        | Stage::ParsingTip(_) | Stage::LoadingTip(_) | Stage::PreparingMerge(_)
        | Stage::UpdatingTarget => e is Done || e is Failed,
        Stage::InspectingTarget | Stage::FindingOriginHead | Stage::FollowingOriginHead
        | Stage::FindingHeadRef => e is Found || e is Missing || e is Failed,
        Stage::OpeningTracking | Stage::OpeningCurrentBranch => e is Found || e is Failed,
        Stage::PeelingOriginHead | Stage::PeelingTracking | Stage::PeelingCurrentBranch => e is Peeled
            || e is Failed,
        Stage::ReadingTrackingName | Stage::ReadingHeadName => e is Named || e is Missing
            || e is Failed,
        Stage::PeelingBase | Stage::PeelingTip(_) | Stage::WritingCommit(_) => e is Commit
            || e is Failed,
        Stage::ComparingAncestry(_, _) => e is Commit || e is Missing || e is Failed,
        Stage::Merging(_) => e is Merged || e is Failed,
        Stage::WritingTree(_) => e is Tree || e is Failed,
        Stage::Finished => false,
    }
}

/// The cause carried by a failure event.
pub open spec fn cause_of(e: EventView) -> Seq<char> {
    match e {
        EventView::Failed(c) => c,
        _ => Seq::empty(),
    }
}

/// The value of [`next`] for an event that does not answer the awaited
/// operation: the state is left as it is. [`BranchSession::step`] never takes
/// such an event, so the output here is never produced.
pub open spec fn unanswered(s: SessionView) -> (SessionView, OutputView) {
    (s, ask(ActionView::Finish(Ok(()))))
}

/// One step of the workflow: the outcome `e` of the awaited operation moves the
/// state on and yields the lines to report and the next operation.
pub open spec fn next(s: SessionView, e: EventView) -> (SessionView, OutputView) {
    if e is Failed && failure_context(s) is Some {
        stop_failed(s, failure_context(s)->0, cause_of(e))
    } else {
        match s.stage {
            Stage::ReadingCurrentDir => (at(s, Stage::Discovering), ask(ActionView::DiscoverRepository)),
            Stage::Discovering => (
                at(s, Stage::InspectingTarget),
                ask(ActionView::FindReference { name: branch_ref_name(s.target), must_exist: false }),
            ),
            Stage::InspectingTarget => {
                let exists = e is Found;
                if exists && !s.force {
                    stop(s, ErrorContextView::TargetExists(s.target), None)
                } else {
                    begin_base(SessionView { target_exists: exists, ..s })
                }
            },
            Stage::ParsingBase => (at(s, Stage::LoadingBase), ask(ActionView::LoadObject)),
            Stage::LoadingBase => (at(s, Stage::PeelingBase), ask(ActionView::PeelToCommit)),
            Stage::PeelingBase => match e {
                EventView::Commit(id) => base_found(s, NoteView::SelectedBase(s.base.unwrap()), id),
                _ => unanswered(s),
            },
            Stage::FindingOriginHead => if e is Found {
                (at(s, Stage::FollowingOriginHead), ask(ActionView::FollowReference))
            } else {
                (at(s, Stage::FindingHeadRef), ask(ActionView::FindHeadReference))
            },
            Stage::FollowingOriginHead => (at(s, Stage::PeelingOriginHead), ask(ActionView::PeelReference)),
            Stage::PeelingOriginHead | Stage::PeelingTracking | Stage::PeelingCurrentBranch => match e {
                EventView::Peeled(name, id) => base_found(s, NoteView::DetectedDefaultBranch(name), id),
                _ => unanswered(s),
            },
            Stage::FindingHeadRef => if e is Found {
                (at(s, Stage::ReadingTrackingName), ask(ActionView::TrackingReferenceName))
            } else {
                (at(s, Stage::ReadingHeadName), ask(ActionView::HeadName))
            },
            Stage::ReadingTrackingName => match e {
                EventView::Named(name) => (
                    at(s, Stage::OpeningTracking),
                    ask(ActionView::FindReference { name, must_exist: true }),
                ),
                _ => (at(s, Stage::ReadingHeadName), ask(ActionView::HeadName)),
            },
            Stage::OpeningTracking => (at(s, Stage::PeelingTracking), ask(ActionView::PeelReference)),
            Stage::ReadingHeadName => match e {
                EventView::Named(name) => (
                    at(s, Stage::OpeningCurrentBranch),
                    ask(ActionView::FindReference { name, must_exist: true }),
                ),
                _ => stop(s, ErrorContextView::NoDefaultBranch, None),
            },
            Stage::OpeningCurrentBranch => (
                at(s, Stage::PeelingCurrentBranch),
                ask(ActionView::PeelReference),
            ),
            Stage::ParsingTip(i) => (at(s, Stage::LoadingTip(i)), ask(ActionView::LoadObject)),
            Stage::LoadingTip(i) => (at(s, Stage::PeelingTip(i)), ask(ActionView::PeelToCommit)),
            Stage::PeelingTip(i) => match e {
                EventView::Commit(id) => resolve_from(
                    SessionView {
                        resolved: s.resolved.push(TipView { input: s.tips[i as int], commit: id }),
                        ..s
                    },
                    i + 1,
                ),
                _ => unanswered(s),
            },
            Stage::ComparingAncestry(i, j) => {
                let answer = ancestry_or_false(
                    s.resolved[i as int].commit,
                    s.resolved[j as int].commit,
                    merge_base_of(e),
                );
                compare_from(
                    SessionView { row: s.row.push(answer), searches: s.searches + 1, ..s },
                    i as int,
                    j + 1,
                )
            },
            Stage::PreparingMerge(k) => (
                at(s, Stage::Merging(k)),
                ask(
                    ActionView::MergeCommits {
                        ours: s.current,
                        theirs: s.deduped[k as int].commit,
                        allow_missing_merge_base: true,
                    },
                ),
            ),
            Stage::Merging(k) => match e {
                EventView::Merged(true) => after_notes(
                    seq![NoteView::MergeConflicted(s.deduped[k as int].input, s.deduped[k as int].commit)],
                    merge_from(
                        SessionView {
                            failures: s.failures.push(s.deduped[k as int]),
                            outcomes: s.outcomes.push(false),
                            ..s
                        },
                        k + 1,
                    ),
                ),
                _ => (at(s, Stage::WritingTree(k)), ask(ActionView::WriteMergedTree)),
            },
            Stage::WritingTree(k) => {
                let tree = match e {
                    EventView::Tree(t) => t,
                    _ => Seq::empty(),
                };
                (
                    SessionView { tree, stage: Stage::WritingCommit(k), ..s },
                    ask(
                        ActionView::WriteMergeCommit {
                            message: merge_message(s.deduped[k as int].input, s.target),
                            tree,
                            first_parent: s.current,
                            second_parent: s.deduped[k as int].commit,
                        },
                    ),
                )
            },
            Stage::WritingCommit(k) => match e {
                EventView::Commit(id) => after_notes(
                    seq![NoteView::MergeSucceeded(s.deduped[k as int].input, id)],
                    merge_from(
                        SessionView {
                            current: id,
                            successes: s.successes.push(s.deduped[k as int]),
                            outcomes: s.outcomes.push(true),
                            merges: s.merges.push(
                                MergeView {
                                    message: merge_message(s.deduped[k as int].input, s.target),
                                    tree: s.tree,
                                    first_parent: s.current,
                                    second_parent: s.deduped[k as int].commit,
                                    commit: id,
                                },
                            ),
                            ..s
                        },
                        k + 1,
                    ),
                ),
                _ => unanswered(s),
            },
            Stage::UpdatingTarget => (
                at(s, Stage::Finished),
                OutputView {
                    notes: seq![
                        if s.target_exists {
                            NoteView::BranchReplaced(s.target, s.current)
                        } else {
                            NoteView::BranchCreated(s.target, s.current)
                        },
                    ],
                    action: ActionView::Finish(Ok(())),
                },
            ),
            Stage::Finished => unanswered(s),
        }
    }
}

/// What the workflow was doing when the awaited operation failed; a failed
/// merge-base search stops nothing (it counts as "not an ancestor").
pub open spec fn failure_context(s: SessionView) -> Option<ErrorContextView> {
    let base = match s.base {
        Some(b) => b,
        None => Seq::empty(),
    };
    match s.stage {
        Stage::ReadingCurrentDir => Some(ErrorContextView::ReadCurrentDir),
        Stage::Discovering => Some(ErrorContextView::DiscoverRepository),
        Stage::InspectingTarget => Some(ErrorContextView::InspectTarget),
        Stage::ParsingBase => Some(ErrorContextView::ResolveBase(base)),
        Stage::LoadingBase => Some(ErrorContextView::LoadBase(base)),
        Stage::PeelingBase => Some(ErrorContextView::BaseNotCommit(base)),
        Stage::FindingOriginHead => Some(ErrorContextView::InspectOriginHead),
        Stage::FollowingOriginHead => Some(ErrorContextView::ResolveOriginHead),
        Stage::PeelingOriginHead => Some(ErrorContextView::PeelOriginHead),
        Stage::FindingHeadRef => Some(ErrorContextView::InspectHead),
        Stage::ReadingTrackingName => Some(ErrorContextView::ResolveTracking),
        Stage::OpeningTracking => Some(ErrorContextView::OpenTracking),
        Stage::PeelingTracking => Some(ErrorContextView::PeelTracking),
        Stage::ReadingHeadName => Some(ErrorContextView::InspectHeadName),
        Stage::OpeningCurrentBranch => Some(ErrorContextView::OpenCurrentBranch),
        Stage::PeelingCurrentBranch => Some(ErrorContextView::PeelCurrentBranch),
        Stage::ParsingTip(i) => Some(ErrorContextView::ResolveTip(s.tips[i as int])),
        Stage::LoadingTip(i) => Some(ErrorContextView::LoadTip(s.tips[i as int])),
        Stage::PeelingTip(i) => Some(ErrorContextView::TipNotCommit(s.tips[i as int])),
        Stage::ComparingAncestry(_, _) => None,
        Stage::PreparingMerge(_) => Some(ErrorContextView::PrepareMergeOptions),
        Stage::Merging(k) => Some(ErrorContextView::MergeTip(s.deduped[k as int].input)),
        Stage::WritingTree(k) => Some(ErrorContextView::WriteTree(s.deduped[k as int].input)),
        Stage::WritingCommit(k) => Some(ErrorContextView::WriteCommit(s.deduped[k as int].input)),
        Stage::UpdatingTarget => Some(ErrorContextView::UpdateTarget(s.target)),
        Stage::Finished => None,
    }
}

/// The number of ordered pairs of different positions among `n` tips that come
/// before row `i`, column `j`.
pub open spec fn pairs_before(n: int, i: int, j: int) -> int {
    i * (n - 1) + j - (if i < j {
        1int
    } else {
        0int
    })
}

/// The ancestry table under construction has `i` complete rows and `j` answers
/// in the current row, for `n` tips; same commits are answered as related; and
/// the searches answered so far are at most the pairs of different positions
/// before that place.
pub open spec fn table_at(s: SessionView, i: int, j: int) -> bool {
    let n = s.resolved.len() as int;
    &&& 0 <= i <= n
    &&& 0 <= j <= n
    &&& s.rows.len() == i
    &&& s.row.len() == j
    &&& forall|r: int| 0 <= r < s.rows.len() ==> #[trigger] s.rows[r].len() == n
    &&& forall|r: int, c: int|
        0 <= r < i && 0 <= c < n && s.resolved[r].commit == s.resolved[c].commit
            ==> #[trigger] s.rows[r][c]
    &&& forall|c: int|
        0 <= c < j && s.resolved[i].commit == s.resolved[c].commit ==> #[trigger] s.row[c]
    &&& s.searches <= pairs_before(n, i, j)
    &&& i == n ==> j == 0
}

/// No two tips name the same commit.
pub open spec fn distinct_commits(tips: Seq<TipView>) -> bool {
    forall|p: int, q: int|
        0 <= p < tips.len() && 0 <= q < tips.len() && p != q ==> #[trigger] tips[p].commit
            != #[trigger] tips[q].commit
}

/// The lists fit in memory: at most as many resolved tips as tips, and at most
/// as many kept tips as resolved ones.
pub open spec fn sized(s: SessionView) -> bool {
    &&& s.tips.len() <= usize::MAX
    &&& s.resolved.len() <= s.tips.len()
    &&& s.deduped.len() <= s.resolved.len()
}

/// Each resolved tip is the tip given at its position.
pub open spec fn resolved_in_order(s: SessionView) -> bool {
    forall|k: int| 0 <= k < s.resolved.len() ==> #[trigger] s.resolved[k].input == s.tips[k]
}

/// No tip has been merged or skipped yet, and no merge-base search answered.
pub open spec fn before_merging(s: SessionView) -> bool {
    &&& s.successes.len() == 0
    &&& s.failures.len() == 0
    &&& s.outcomes.len() == 0
    &&& s.merges.len() == 0
    &&& s.current == s.start
}

/// The tips of `tips`, among the first `flags.len()`, whose flag is `want`.
pub open spec fn picked(tips: Seq<TipView>, flags: Seq<bool>, want: bool) -> Seq<TipView>
    decreases flags.len(),
{
    if flags.len() == 0 {
        Seq::empty()
    } else {
        let rest = picked(tips, flags.drop_last(), want);
        if flags.last() == want {
            rest.push(tips[flags.len() - 1])
        } else {
            rest
        }
    }
}

/// The merged and the skipped tips split the kept tips tried so far, in order,
/// by whether their merge went through.
pub open spec fn outcomes_split(s: SessionView) -> bool {
    &&& s.successes == picked(s.deduped, s.outcomes, true)
    &&& s.failures == picked(s.deduped, s.outcomes, false)
}

/// The merge commits chain from the base: the first has the base as first
/// parent and each next one the previous merge commit; the second parent of
/// each is the merged tip at the same position, and its message names that tip
/// and the target; the reached commit is the last merge commit, or the base
/// when nothing was merged.
pub open spec fn merge_chain(s: SessionView) -> bool {
    &&& s.merges.len() == s.successes.len()
    &&& forall|k: int|
        0 <= k < s.merges.len() ==> {
            &&& (#[trigger] s.merges[k]).second_parent == s.successes[k].commit
            &&& s.merges[k].message == merge_message(s.successes[k].input, s.target)
            &&& s.merges[k].first_parent == if k == 0 {
                s.start
            } else {
                s.merges[k - 1].commit
            }
        }
    &&& s.current == if s.merges.len() == 0 {
        s.start
    } else {
        s.merges.last().commit
    }
}

/// The ancestry table is complete, one row and one column per resolved tip,
/// marks tips of the same commit as related, and the kept tips are those that
/// deduplication keeps by it.
pub open spec fn deduplicated(s: SessionView) -> bool {
    &&& square(s.rows, s.resolved.len() as int)
    &&& marks_same_commits(s.resolved, s.rows)
    &&& s.deduped == select(s.resolved, dedup_positions(s.rows))
}

/// The number of ordered pairs of different positions among the resolved tips.
pub open spec fn pair_count(s: SessionView) -> int {
    s.resolved.len() * (s.resolved.len() - 1)
}

/// What holds of every state of the workflow: an existing target is only ever
/// kept with `force`; each stage has what it works on; the resolved tips are the
/// given ones in order; once merging begins, the ancestry table is complete and
/// the kept tips are those that deduplication keeps by it, and they name
/// distinct commits, so no commit is merged twice; the tips tried are split into
/// merged and skipped by their outcome; the merge commits chain from the base to
/// the reached commit; and the merge-base searches asked are at most one per
/// ordered pair of different tips.
pub open spec fn wf(s: SessionView) -> bool {
    &&& s.target_exists ==> s.force
    &&& s.stage != Stage::Finished ==> s.tips.len() > 0
    &&& (s.stage == Stage::ReadingCurrentDir || s.stage == Stage::Discovering || s.stage
        == Stage::InspectingTarget) ==> !s.target_exists
    &&& sized(s)
    &&& resolved_in_order(s)
    &&& merge_chain(s)
    &&& outcomes_split(s)
    &&& s.searches + (if s.stage is ComparingAncestry {
        1int
    } else {
        0int
    }) <= pair_count(s)
    &&& match s.stage {
        Stage::ReadingCurrentDir | Stage::Discovering | Stage::InspectingTarget => s.resolved.len() == 0
            && before_merging(s) && s.searches == 0,
        Stage::FindingOriginHead | Stage::FollowingOriginHead | Stage::PeelingOriginHead
        | Stage::FindingHeadRef | Stage::ReadingTrackingName | Stage::OpeningTracking
        | Stage::PeelingTracking | Stage::ReadingHeadName | Stage::OpeningCurrentBranch
        | Stage::PeelingCurrentBranch => s.base is None && s.resolved.len() == 0 && before_merging(s)
            && s.searches == 0,
        Stage::ParsingBase | Stage::LoadingBase | Stage::PeelingBase => s.base is Some
            && s.resolved.len() == 0 && before_merging(s) && s.searches == 0,
        Stage::ParsingTip(i) | Stage::LoadingTip(i) | Stage::PeelingTip(i) => i < s.tips.len()
            && s.resolved.len() == i && before_merging(s) && s.searches == 0,
        Stage::ComparingAncestry(i, j) => i < s.resolved.len() && j < s.resolved.len() && table_at(
            s,
            i as int,
            j as int,
        ) && s.resolved[i as int].commit != s.resolved[j as int].commit && before_merging(s)
            && s.resolved.len() == s.tips.len(),
        Stage::PreparingMerge(k) | Stage::Merging(k) | Stage::WritingTree(k)
        | Stage::WritingCommit(k) => k < s.deduped.len() && s.outcomes.len() == k
            && distinct_commits(s.deduped) && s.resolved.len() == s.tips.len() && deduplicated(s),
        Stage::UpdatingTarget => s.outcomes.len() == s.deduped.len() && distinct_commits(s.deduped)
            && s.resolved.len() == s.tips.len() && deduplicated(s),
        Stage::Finished => true,
    }
}

proof fn lemma_pair_count_nonneg(s: SessionView)
    ensures
        pair_count(s) >= 0,
{
    let n = s.resolved.len() as int;
    assert(n * (n - 1) >= 0) by (nonlinear_arith)
        requires
            n >= 0,
    ;
}

proof fn lemma_before_merging_split(s: SessionView)
    requires
        before_merging(s),
    ensures
        outcomes_split(s),
        merge_chain(s),
{
    assert(s.successes =~= Seq::<TipView>::empty());
    assert(s.failures =~= Seq::<TipView>::empty());
}

proof fn lemma_picked_push(tips: Seq<TipView>, flags: Seq<bool>, b: bool, want: bool)
    ensures
        picked(tips, flags.push(b), want) == if b == want {
            picked(tips, flags, want).push(tips[flags.len() as int])
        } else {
            picked(tips, flags, want)
        },
{
    assert(flags.push(b).drop_last() =~= flags);
}

/// Of the first `x` flags, no more tips are picked than of all of them.
pub proof fn lemma_picked_take(tips: Seq<TipView>, flags: Seq<bool>, x: int)
    requires
        0 <= x <= flags.len(),
    ensures
        picked(tips, flags.take(x), true).len() <= picked(tips, flags, true).len(),
    decreases flags.len(),
{
    if x < flags.len() {
        lemma_picked_take(tips, flags.drop_last(), x);
        assert(flags.drop_last().take(x) == flags.take(x));
    } else {
        assert(flags.take(x) == flags);
    }
}

proof fn lemma_pairs_before(n: int, i: int, j: int)
    requires
        0 <= i < n,
        0 <= j <= n,
    ensures
        pairs_before(n, i, j) <= (i + 1) * (n - 1),
        (i + 1) * (n - 1) <= n * (n - 1),
        pairs_before(n, i, n) == pairs_before(n, i + 1, 0),
        pairs_before(n, n, 0) == n * (n - 1),
{
    assert((i + 1) * (n - 1) == i * (n - 1) + (n - 1)) by (nonlinear_arith);
    assert((i + 1) * (n - 1) <= n * (n - 1)) by (nonlinear_arith)
        requires
            0 <= i < n,
    ;
}

proof fn lemma_merge_from_wf(s: SessionView, k: int)
    requires
        s.tips.len() > 0,
        s.target_exists ==> s.force,
        sized(s),
        resolved_in_order(s),
        merge_chain(s),
        outcomes_split(s),
        s.searches <= pair_count(s),
        s.resolved.len() == s.tips.len(),
        0 <= k <= s.deduped.len(),
        s.outcomes.len() == k,
        distinct_commits(s.deduped),
        deduplicated(s),
    ensures
        wf(merge_from(s, k).0),
{
}

proof fn lemma_compare_from_wf(s: SessionView, i: int, j: int)
    requires
        s.tips.len() > 0,
        s.target_exists ==> s.force,
        sized(s),
        resolved_in_order(s),
        s.resolved.len() == s.tips.len(),
        table_at(s, i, j),
        before_merging(s),
    ensures
        wf(compare_from(s, i, j).0),
    decreases s.resolved.len() - i, s.resolved.len() - j,
{
    let n = s.resolved.len() as int;
    lemma_before_merging_split(s);
    if i >= n {
        let kept = select(s.resolved, dedup_positions(s.rows));
        lemma_dedup_len(s.rows, s.rows.len());
        assert(marks_same_commits(s.resolved, s.rows));
        lemma_dedup_distinct_commits(s.resolved, s.rows);
        let t = SessionView { deduped: kept, ..s };
        lemma_before_merging_split(t);
        assert(s.searches <= pair_count(s));
        lemma_merge_from_wf(t, 0);
    } else if j >= n {
        lemma_pairs_before(n, i, j);
        let t = SessionView { rows: s.rows.push(s.row), row: Seq::empty(), ..s };
        assert(table_at(t, i + 1, 0)) by {
            assert forall|r: int| 0 <= r < t.rows.len() implies #[trigger] t.rows[r].len() == n by {
                if r < s.rows.len() {
                    assert(t.rows[r] == s.rows[r]);
                }
            }
        }
        lemma_compare_from_wf(t, i + 1, 0);
    } else if s.resolved[i].commit == s.resolved[j].commit {
        let t = SessionView { row: s.row.push(true), ..s };
        lemma_compare_from_wf(t, i, j + 1);
    } else {
        lemma_pairs_before(n, i, j + 1);
    }
}

proof fn lemma_resolve_from_wf(s: SessionView, i: int)
    requires
        s.tips.len() > 0,
        s.target_exists ==> s.force,
        sized(s),
        resolved_in_order(s),
        0 <= i <= s.tips.len(),
        s.resolved.len() == i,
        before_merging(s),
        s.searches == 0,
    ensures
        wf(resolve_from(s, i).0),
{
    lemma_before_merging_split(s);
    lemma_pair_count_nonneg(s);
    if i >= s.tips.len() {
        lemma_compare_from_wf(SessionView { rows: Seq::empty(), row: Seq::empty(), ..s }, 0, 0);
    }
}

/// The workflow begins in a state where its invariant holds.
pub proof fn lemma_start_wf(force: bool, base: Option<Seq<char>>, target: Seq<char>, tips: Seq<Seq<char>>)
    requires
        tips.len() <= usize::MAX,
    ensures
        wf(start_spec(force, base, target, tips).0),
{
}

/// Every step keeps the workflow's invariant: an existing target is never kept
/// without `force`, and when the target is set every kept tip has been tried
/// exactly once (merged or skipped).
pub proof fn lemma_next_wf(s: SessionView, e: EventView)
    requires
        wf(s),
        answers(s.stage, e),
    ensures
        wf(next(s, e).0),
{
    if e is Failed && failure_context(s) is Some {
    } else {
        match s.stage {
            Stage::InspectingTarget => {
                let exists = e is Found;
                if !(exists && !s.force) {
                    let t = SessionView { target_exists: exists, ..s };
                    assert(wf(begin_base(t).0));
                }
            },
            Stage::PeelingBase | Stage::PeelingOriginHead | Stage::PeelingTracking
            | Stage::PeelingCurrentBranch => {
                match e {
                    EventView::Commit(id) => {
                        lemma_resolve_from_wf(SessionView { current: id, start: id, ..s }, 0);
                    },
                    EventView::Peeled(name, id) => {
                        lemma_resolve_from_wf(SessionView { current: id, start: id, ..s }, 0);
                    },
                    _ => {},
                }
            },
            Stage::PeelingTip(i) => {
                if let EventView::Commit(id) = e {
                    let t = SessionView {
                        resolved: s.resolved.push(TipView { input: s.tips[i as int], commit: id }),
                        ..s
                    };
                    lemma_resolve_from_wf(t, i + 1);
                }
            },
            Stage::ComparingAncestry(i, j) => {
                let answer = ancestry_or_false(
                    s.resolved[i as int].commit,
                    s.resolved[j as int].commit,
                    merge_base_of(e),
                );
                lemma_compare_from_wf(
                    SessionView { row: s.row.push(answer), searches: s.searches + 1, ..s },
                    i as int,
                    j + 1,
                );
            },
            Stage::Merging(k) => {
                if e == EventView::Merged(true) {
                    lemma_picked_push(s.deduped, s.outcomes, false, true);
                    lemma_picked_push(s.deduped, s.outcomes, false, false);
                    lemma_merge_from_wf(
                        SessionView {
                            failures: s.failures.push(s.deduped[k as int]),
                            outcomes: s.outcomes.push(false),
                            ..s
                        },
                        k + 1,
                    );
                }
            },
            Stage::WritingCommit(k) => {
                if let EventView::Commit(id) = e {
                    lemma_picked_push(s.deduped, s.outcomes, true, true);
                    lemma_picked_push(s.deduped, s.outcomes, true, false);
                    lemma_merge_from_wf(
                        SessionView {
                            current: id,
                            successes: s.successes.push(s.deduped[k as int]),
                            outcomes: s.outcomes.push(true),
                            merges: s.merges.push(
                                MergeView {
                                    message: merge_message(s.deduped[k as int].input, s.target),
                                    tree: s.tree,
                                    first_parent: s.current,
                                    second_parent: s.deduped[k as int].commit,
                                    commit: id,
                                },
                            ),
                            ..s
                        },
                        k + 1,
                    );
                }
            },
            _ => {},
        }
    }
}

/// The branch workflow in progress.
pub struct BranchSession {
    force: bool,
    base: Option<String>,
    target: String,
    tips: Vec<String>,
    target_exists: bool,
    current: ObjectId,
    resolved: Vec<ResolvedTip>,
    rows: Vec<Vec<bool>>,
    row: Vec<bool>,
    deduped: Vec<ResolvedTip>,
    successes: Vec<ResolvedTip>,
    failures: Vec<ResolvedTip>,
    start: ObjectId,
    tree: ObjectId,
    merges: Vec<MergeRecord>,
    outcomes: Vec<bool>,
    searches: Ghost<nat>,
    stage: Stage,
}

/// A merge commit the workflow had written.
#[derive(Debug)]
pub struct MergeRecord {
    pub message: String,
    pub tree: ObjectId,
    pub first_parent: ObjectId,
    pub second_parent: ObjectId,
    pub commit: ObjectId,
}

impl View for MergeRecord {
    type V = MergeView;

    open spec fn view(&self) -> MergeView {
        MergeView {
            message: self.message@,
            tree: self.tree@,
            first_parent: self.first_parent@,
            second_parent: self.second_parent@,
            commit: self.commit@,
        }
    }
}

/// The views of a list of merge records.
pub open spec fn merge_views(v: Seq<MergeRecord>) -> Seq<MergeView> {
    Seq::new(v.len(), |i: int| v[i]@)
}

/// The views of a list of strings.
pub open spec fn string_views(v: Seq<String>) -> Seq<Seq<char>> {
    Seq::new(v.len(), |i: int| v[i]@)
}

/// The views of a list of rows.
pub open spec fn row_views(v: Seq<Vec<bool>>) -> Seq<Seq<bool>> {
    Seq::new(v.len(), |i: int| v[i]@)
}

/// The views of a list of notes.
pub open spec fn note_list(v: Seq<Note>) -> Seq<NoteView> {
    Seq::new(v.len(), |i: int| v[i]@)
}

/// The view of an optional string.
pub open spec fn opt_view(o: Option<String>) -> Option<Seq<char>> {
    match o {
        Some(s) => Some(s@),
        None => None,
    }
}

impl View for BranchSession {
    type V = SessionView;

    closed spec fn view(&self) -> SessionView {
        SessionView {
            force: self.force,
            base: opt_view(self.base),
            target: self.target@,
            tips: string_views(self.tips@),
            target_exists: self.target_exists,
            current: self.current@,
            resolved: tip_views(self.resolved@),
            rows: row_views(self.rows@),
            row: self.row@,
            deduped: tip_views(self.deduped@),
            successes: tip_views(self.successes@),
            failures: tip_views(self.failures@),
            start: self.start@,
            tree: self.tree@,
            merges: merge_views(self.merges@),
            outcomes: self.outcomes@,
            searches: self.searches@,
            stage: self.stage,
        }
    }
}

/// An output with no lines.
fn asking(action: Action) -> (res: Output)
    ensures
        res@ == ask(action@),
{
    let res = Output { notes: Vec::new(), action };
    assert(res@.notes =~= Seq::<NoteView>::empty());
    res
}

/// The output, with lines reported before it.
fn prefixed(mut notes: Vec<Note>, out: Output) -> (res: Output)
    ensures
        res@.notes == note_list(notes@) + out@.notes,
        res@.action == out@.action,
{
    let ghost first = note_list(notes@);
    let Output { notes: mut more, action } = out;
    let ghost second = note_list(more@);
    notes.append(&mut more);
    let res = Output { notes, action };
    assert(res@.notes =~= first + second);
    res
}

/// One line per tip.
fn tip_line_notes(tips: &Vec<ResolvedTip>) -> (res: Vec<Note>)
    ensures
        note_list(res@) == tip_lines(tip_views(tips@)),
{
    let mut res: Vec<Note> = Vec::new();
    let n = tips.len();
    for k in 0..n
        invariant
            n == tips.len(),
            res.len() == k,
            forall|x: int| 0 <= x < k ==> #[trigger] res@[x]@ == NoteView::TipLine(tips@[x]@.input, tips@[x]@.commit),
    {
        res.push(Note::TipLine(tips[k].input.clone(), tips[k].commit.duplicate()));
    }
    assert(note_list(res@) =~= tip_lines(tip_views(tips@)));
    res
}

/// A heading followed by one line per tip, or nothing for no tips.
fn listing_notes(heading: Note, tips: &Vec<ResolvedTip>) -> (res: Vec<Note>)
    ensures
        note_list(res@) == listing(heading@, tip_views(tips@)),
{
    if tips.len() == 0 {
        let res: Vec<Note> = Vec::new();
        assert(note_list(res@) =~= Seq::<NoteView>::empty());
        res
    } else {
        let ghost h = heading@;
        let mut res = vec![heading];
        let mut lines = tip_line_notes(tips);
        let ghost l = note_list(lines@);
        res.append(&mut lines);
        assert(note_list(res@) =~= seq![h] + l);
        res
    }
}

/// The full name of the local branch `target`.
pub fn branch_ref_name_of(target: &String) -> (res: String)
    ensures
        res@ == branch_ref_name(target@),
{
    join2("refs/heads/", target)
}

/// The message of the commit that merges tip `input` into `target`.
pub fn merge_message_of(input: &String, target: &String) -> (res: String)
    ensures
        res@ == merge_message(input@, target@),
{
    join4("Merge ", input, " into ", target)
}

/// The reflog message of the final branch update.
pub fn update_log_message_of(target: &String) -> (res: String)
    ensures
        res@ == update_log_message(target@),
{
    join2("canopy branch ", target)
}

/// A copy of an optional string.
fn copy_opt(o: &Option<String>) -> (res: Option<String>)
    ensures
        opt_view(res) == opt_view(*o),
{
    match o {
        Some(s) => Some(s.clone()),
        None => None,
    }
}

impl BranchSession {
    /// Begins the workflow for the request: without tips it stops at once with
    /// [`ErrorContext::NoTips`]; otherwise it asks for the working directory.
    pub fn start(force: bool, base: Option<String>, target: String, tips: Vec<String>) -> (res: (
        BranchSession,
        Output,
    ))
        ensures
            (res.0@, res.1@) == start_spec(force, opt_view(base), target@, string_views(tips@)),
            wf(res.0@),
    {
        let empty = tips.len() == 0;
        proof {
            lemma_start_wf(force, opt_view(base), target@, string_views(tips@));
        }
        let mut s = BranchSession {
            force,
            base,
            target,
            tips,
            target_exists: false,
            current: ObjectId { hex: String::new() },
            resolved: Vec::new(),
            rows: Vec::new(),
            row: Vec::new(),
            deduped: Vec::new(),
            successes: Vec::new(),
            failures: Vec::new(),
            start: ObjectId { hex: String::new() },
            tree: ObjectId { hex: String::new() },
            merges: Vec::new(),
            outcomes: Vec::new(),
            searches: Ghost(0),
            stage: Stage::ReadingCurrentDir,
        };
        proof {
            assert(s@.resolved =~= Seq::<TipView>::empty());
            assert(s@.rows =~= Seq::<Seq<bool>>::empty());
            assert(s@.row =~= Seq::<bool>::empty());
            assert(s@.deduped =~= Seq::<TipView>::empty());
            assert(s@.successes =~= Seq::<TipView>::empty());
            assert(s@.failures =~= Seq::<TipView>::empty());
            assert(s@.merges =~= Seq::<MergeView>::empty());
            assert(s@.outcomes =~= Seq::<bool>::empty());
        }
        if empty {
            let out = s.stop_with(ErrorContext::NoTips, None);
            (s, out)
        } else {
            (s, asking(Action::ReadCurrentDir))
        }
    }

    /// Whether the workflow has ended.
    pub fn is_finished(&self) -> (res: bool)
        ensures
            res == (self@.stage == Stage::Finished),
    {
        self.stage == Stage::Finished
    }

    /// Whether `e` can answer the operation the workflow waits for.
    pub fn accepts(&self, e: &Event) -> (res: bool)
        ensures
            res == answers(self@.stage, e@),
    {
        let done_or_failed = matches!(e, Event::Done | Event::Failed(_));
        let found_missing = matches!(e, Event::Found | Event::Missing | Event::Failed(_));
        match self.stage {
            Stage::ReadingCurrentDir | Stage::Discovering | Stage::ParsingBase | Stage::LoadingBase
            | Stage::ParsingTip(_) | Stage::LoadingTip(_) | Stage::PreparingMerge(_)
            | Stage::UpdatingTarget => done_or_failed,
            Stage::InspectingTarget | Stage::FindingOriginHead | Stage::FollowingOriginHead
            | Stage::FindingHeadRef => found_missing,
            Stage::OpeningTracking | Stage::OpeningCurrentBranch => matches!(e, Event::Found | Event::Failed(_)),
            Stage::PeelingOriginHead | Stage::PeelingTracking | Stage::PeelingCurrentBranch => matches!(e, Event::Peeled(_, _) | Event::Failed(_)),
            Stage::ReadingTrackingName | Stage::ReadingHeadName => matches!(e, Event::Named(_) | Event::Missing | Event::Failed(_)),
            Stage::PeelingBase | Stage::PeelingTip(_) | Stage::WritingCommit(_) => matches!(e, Event::Commit(_) | Event::Failed(_)),
            Stage::ComparingAncestry(_, _) => matches!(e, Event::Commit(_) | Event::Missing | Event::Failed(_)),
            Stage::Merging(_) => matches!(e, Event::Merged(_) | Event::Failed(_)),
            Stage::WritingTree(_) => matches!(e, Event::Tree(_) | Event::Failed(_)),
            Stage::Finished => false,
        }
    }
}

impl BranchSession {
    /// Stops with an error.
    fn stop_with(&mut self, context: ErrorContext, cause: Option<String>) -> (res: Output)
        ensures
            (final(self)@, res@) == stop(old(self)@, context@, opt_view(cause)),
    {
        self.stage = Stage::Finished;
        asking(Action::Finish(Err(BranchError { context, cause })))
    }

    /// Finds the base, from the one asked for or from the default branch.
    fn begin_base(&mut self) -> (res: Output)
        ensures
            (final(self)@, res@) == begin_base(old(self)@),
    {
        match &self.base {
            Some(b) => {
                let spec = b.clone();
                self.stage = Stage::ParsingBase;
                asking(Action::RevParse { spec })
            },
            None => {
                self.stage = Stage::FindingOriginHead;
                asking(
                    Action::FindReference {
                        name: String::from_str("refs/remotes/origin/HEAD"),
                        must_exist: false,
                    },
                )
            },
        }
    }

    /// The base is known: reports it and the target, then resolves the tips.
    fn base_found(&mut self, note: Note, commit: ObjectId) -> (res: Output)
        requires
            old(self)@.resolved.len() == 0,
            old(self)@.searches == 0,
        ensures
            (final(self)@, res@) == base_found(old(self)@, note@, commit@),
    {
        let ghost n = note@;
        let notes = vec![note, Note::TargetBranch(self.target.clone())];
        self.start = commit.duplicate();
        self.current = commit;
        let out = self.resolve_from(0);
        let res = prefixed(notes, out);
        assert(note_list(notes@) =~= seq![n, NoteView::TargetBranch(old(self)@.target)]);
        assert(res@ =~= base_found(old(self)@, n, commit@).1);
        res
    }

    /// Resolves the tips from position `i` on.
    fn resolve_from(&mut self, i: usize) -> (res: Output)
        requires
            old(self)@.resolved.len() == i,
            old(self)@.searches == 0,
        ensures
            (final(self)@, res@) == resolve_from(old(self)@, i as int),
    {
        if i < self.tips.len() {
            let spec = self.tips[i].clone();
            self.stage = Stage::ParsingTip(i);
            asking(Action::RevParse { spec })
        } else {
            let mut notes = vec![Note::ResolvedTips];
            let mut lines = tip_line_notes(&self.resolved);
            let ghost l = note_list(lines@);
            notes.append(&mut lines);
            assert(note_list(notes@) =~= seq![NoteView::ResolvedTips] + l);
            self.rows = Vec::new();
            self.row = Vec::new();
            assert(self@ =~= SessionView { rows: Seq::empty(), row: Seq::empty(), ..old(self)@ });
            let out = self.compare_from(0, 0);
            prefixed(notes, out)
        }
    }

    /// Fills the ancestry table from row `i`, column `j` on, asking for a merge
    /// base at the first pair of different commits.
    fn compare_from(&mut self, i0: usize, j0: usize) -> (res: Output)
        requires
            table_at(old(self)@, i0 as int, j0 as int),
        ensures
            (final(self)@, res@) == compare_from(old(self)@, i0 as int, j0 as int),
    {
        let ghost goal = compare_from(self@, i0 as int, j0 as int);
        let n = self.resolved.len();
        let mut i = i0;
        let mut j = j0;
        loop
            invariant
                n == self.resolved.len(),
                table_at(self@, i as int, j as int),
                compare_from(self@, i as int, j as int) == goal,
                goal == compare_from(old(self)@, i0 as int, j0 as int),
            decreases n - i, n - j,
        {
            if i >= n {
                return self.deduplicate();
            }
            if j >= n {
                let ghost before = self@;
                proof {
                    lemma_pairs_before(n as int, i as int, j as int);
                }
                let mut full: Vec<bool> = Vec::new();
                std::mem::swap(&mut full, &mut self.row);
                self.rows.push(full);
                i = i + 1;
                j = 0;
                assert(self@ =~= SessionView {
                    rows: before.rows.push(before.row),
                    row: Seq::empty(),
                    ..before
                });
            } else if !needs_merge_base(&self.resolved[i].commit, &self.resolved[j].commit) {
                let ghost before = self@;
                self.row.push(true);
                j = j + 1;
                assert(self@ =~= SessionView { row: before.row.push(true), ..before });
            } else {
                let left = self.resolved[i].commit.duplicate();
                let right = self.resolved[j].commit.duplicate();
                self.stage = Stage::ComparingAncestry(i, j);
                return asking(Action::MergeBase { left, right });
            }
        }
    }

    /// Keeps the tips that no other tip contains, reports them, and starts
    /// merging.
    fn deduplicate(&mut self) -> (res: Output)
        requires
            square(old(self)@.rows, old(self)@.resolved.len() as int),
        ensures
            (final(self)@, res@) == deduplicate(old(self)@),
    {
        let mut rows: Vec<Vec<bool>> = Vec::new();
        std::mem::swap(&mut rows, &mut self.rows);
        let table = AncestryTable::from_rows(rows);
        assert(table@ =~= old(self)@.rows);
        let kept = deduplicate_tips(duplicate_tips(&self.resolved), &table);
        let AncestryTable { rows } = table;
        self.rows = rows;
        let mut notes = vec![Note::DeduplicatedTips];
        let mut lines = tip_line_notes(&kept);
        let ghost l = note_list(lines@);
        notes.append(&mut lines);
        assert(note_list(notes@) =~= seq![NoteView::DeduplicatedTips] + l);
        self.deduped = kept;
        assert(self@ =~= SessionView {
            deduped: select(old(self)@.resolved, dedup_positions(old(self)@.rows)),
            ..old(self)@
        });
        let out = self.merge_from(0);
        prefixed(notes, out)
    }

    /// Merges the kept tips from position `k` on.
    fn merge_from(&mut self, k: usize) -> (res: Output)
        ensures
            (final(self)@, res@) == merge_from(old(self)@, k as int),
    {
        if k < self.deduped.len() {
            let note = Note::AttemptingMerge(self.deduped[k].input.clone(), self.deduped[k].commit.duplicate());
            self.stage = Stage::PreparingMerge(k);
            let res = Output { notes: vec![note], action: Action::PrepareMergeOptions };
            assert(res@ =~= merge_from(old(self)@, k as int).1);
            res
        } else {
            self.finish_merges()
        }
    }

    /// Reports the merged and skipped tips, then asks to set the target branch.
    fn finish_merges(&mut self) -> (res: Output)
        ensures
            (final(self)@, res@) == finish_merges(old(self)@),
    {
        let mut notes = listing_notes(Note::SuccessfulMerges, &self.successes);
        let ghost first = note_list(notes@);
        let mut more = listing_notes(Note::FailedMerges, &self.failures);
        let ghost second = note_list(more@);
        notes.append(&mut more);
        self.stage = Stage::UpdatingTarget;
        let action = Action::UpdateReference {
            name: branch_ref_name_of(&self.target),
            commit: self.current.duplicate(),
            must_not_exist: !self.force,
            log_message: update_log_message_of(&self.target),
        };
        let res = Output { notes, action };
        assert(res@.notes =~= first + second);
        res
    }

    /// What the workflow was doing, for a failure of the awaited operation.
    fn failure_context_of(&self) -> (res: Option<ErrorContext>)
        requires
            wf(self@),
        ensures
            match failure_context(self@) {
                Some(c) => res matches Some(r) && r@ == c,
                None => res is None,
            },
    {
        let base = match &self.base {
            Some(b) => b.clone(),
            None => String::new(),
        };
        match self.stage {
            Stage::ReadingCurrentDir => Some(ErrorContext::ReadCurrentDir),
            Stage::Discovering => Some(ErrorContext::DiscoverRepository),
            Stage::InspectingTarget => Some(ErrorContext::InspectTarget),
            Stage::ParsingBase => Some(ErrorContext::ResolveBase(base)),
            Stage::LoadingBase => Some(ErrorContext::LoadBase(base)),
            Stage::PeelingBase => Some(ErrorContext::BaseNotCommit(base)),
            Stage::FindingOriginHead => Some(ErrorContext::InspectOriginHead),
            Stage::FollowingOriginHead => Some(ErrorContext::ResolveOriginHead),
            Stage::PeelingOriginHead => Some(ErrorContext::PeelOriginHead),
            Stage::FindingHeadRef => Some(ErrorContext::InspectHead),
            Stage::ReadingTrackingName => Some(ErrorContext::ResolveTracking),
            Stage::OpeningTracking => Some(ErrorContext::OpenTracking),
            Stage::PeelingTracking => Some(ErrorContext::PeelTracking),
            Stage::ReadingHeadName => Some(ErrorContext::InspectHeadName),
            Stage::OpeningCurrentBranch => Some(ErrorContext::OpenCurrentBranch),
            Stage::PeelingCurrentBranch => Some(ErrorContext::PeelCurrentBranch),
            Stage::ParsingTip(i) => Some(ErrorContext::ResolveTip(self.tips[i].clone())),
            Stage::LoadingTip(i) => Some(ErrorContext::LoadTip(self.tips[i].clone())),
            Stage::PeelingTip(i) => Some(ErrorContext::TipNotCommit(self.tips[i].clone())),
            Stage::ComparingAncestry(_, _) => None,
            Stage::PreparingMerge(_) => Some(ErrorContext::PrepareMergeOptions),
            Stage::Merging(k) => Some(ErrorContext::MergeTip(self.deduped[k].input.clone())),
            Stage::WritingTree(k) => Some(ErrorContext::WriteTree(self.deduped[k].input.clone())),
            Stage::WritingCommit(k) => Some(ErrorContext::WriteCommit(self.deduped[k].input.clone())),
            Stage::UpdatingTarget => Some(ErrorContext::UpdateTarget(self.target.clone())),
            Stage::Finished => None,
        }
    }
}


impl BranchSession {
    /// A merge commit was written for kept tip `k`.
    fn record_merge(&mut self, k: usize, id: ObjectId) -> (res: Output)
        requires
            wf(old(self)@),
            old(self)@.stage == Stage::WritingCommit(k),
        ensures
            (final(self)@, res@) == next(old(self)@, EventView::Commit(id@)),
    {
        let ghost before = self@;
        let note = Note::MergeSucceeded(self.deduped[k].input.clone(), id.duplicate());
        let ghost nv = note@;
        let tip = self.deduped[k].duplicate();
        self.successes.push(tip);
        self.outcomes.push(true);
        let record = MergeRecord {
            message: merge_message_of(&self.deduped[k].input, &self.target),
            tree: self.tree.duplicate(),
            first_parent: self.current.duplicate(),
            second_parent: self.deduped[k].commit.duplicate(),
            commit: id.duplicate(),
        };
        self.merges.push(record);
        self.current = id;
        assert(self@ =~= SessionView {
            current: id@,
            successes: before.successes.push(before.deduped[k as int]),
            outcomes: before.outcomes.push(true),
            merges: before.merges.push(
                MergeView {
                    message: merge_message(before.deduped[k as int].input, before.target),
                    tree: before.tree,
                    first_parent: before.current,
                    second_parent: before.deduped[k as int].commit,
                    commit: id@,
                },
            ),
            ..before
        });
        let notes = vec![note];
        assert(note_list(notes@) =~= seq![nv]);
        assert(k < self.deduped.len());
        let out = self.merge_from(k + 1);
        prefixed(notes, out)
    }

    /// The merge of kept tip `k` conflicted.
    fn record_conflict(&mut self, k: usize) -> (res: Output)
        requires
            wf(old(self)@),
            old(self)@.stage == Stage::Merging(k),
        ensures
            (final(self)@, res@) == next(old(self)@, EventView::Merged(true)),
    {
        let ghost before = self@;
        let note = Note::MergeConflicted(
            self.deduped[k].input.clone(),
            self.deduped[k].commit.duplicate(),
        );
        let ghost nv = note@;
        let tip = self.deduped[k].duplicate();
        self.failures.push(tip);
        self.outcomes.push(false);
        assert(self@ =~= SessionView {
            failures: before.failures.push(before.deduped[k as int]),
            outcomes: before.outcomes.push(false),
            ..before
        });
        let notes = vec![note];
        assert(note_list(notes@) =~= seq![nv]);
        assert(k < self.deduped.len());
        let out = self.merge_from(k + 1);
        prefixed(notes, out)
    }
}

impl BranchSession {
    /// Takes in what came of the awaited operation: moves the workflow on and
    /// returns the lines to report and the next operation.
    #[verifier::rlimit(60)]
    pub fn step(&mut self, e: Event) -> (res: Output)
        requires
            wf(old(self)@),
            answers(old(self)@.stage, e@),
        ensures
            (final(self)@, res@) == next(old(self)@, e@),
            wf(final(self)@),
    {
        proof {
            lemma_next_wf(old(self)@, e@);
        }
        if let Event::Failed(cause) = &e {
            match self.failure_context_of() {
                Some(context) => {
                    return self.stop_with(context, Some(cause.clone()));
                },
                None => {},
            }
        }
        match self.stage {
            Stage::ReadingCurrentDir => {
                self.stage = Stage::Discovering;
                asking(Action::DiscoverRepository)
            },
            Stage::Discovering => {
                self.stage = Stage::InspectingTarget;
                asking(Action::FindReference { name: branch_ref_name_of(&self.target), must_exist: false })
            },
            Stage::InspectingTarget => {
                let exists = matches!(e, Event::Found);
                if exists && !self.force {
                    self.stop_with(ErrorContext::TargetExists(self.target.clone()), None)
                } else {
                    self.target_exists = exists;
                    self.begin_base()
                }
            },
            Stage::ParsingBase => {
                self.stage = Stage::LoadingBase;
                asking(Action::LoadObject)
            },
            Stage::LoadingBase => {
                self.stage = Stage::PeelingBase;
                asking(Action::PeelToCommit)
            },
            Stage::PeelingBase => match e {
                Event::Commit(id) => {
                    let name = match &self.base {
                        Some(b) => b.clone(),
                        None => unreached(),
                    };
                    self.base_found(Note::SelectedBase(name), id)
                },
                _ => unreached(),
            },
            Stage::FindingOriginHead => {
                if matches!(e, Event::Found) {
                    self.stage = Stage::FollowingOriginHead;
                    asking(Action::FollowReference)
                } else {
                    self.stage = Stage::FindingHeadRef;
                    asking(Action::FindHeadReference)
                }
            },
            Stage::FollowingOriginHead => {
                self.stage = Stage::PeelingOriginHead;
                asking(Action::PeelReference)
            },
            Stage::PeelingOriginHead | Stage::PeelingTracking | Stage::PeelingCurrentBranch => match e {
                Event::Peeled(name, id) => self.base_found(Note::DetectedDefaultBranch(name), id),
                _ => unreached(),
            },
            Stage::FindingHeadRef => {
                if matches!(e, Event::Found) {
                    self.stage = Stage::ReadingTrackingName;
                    asking(Action::TrackingReferenceName)
                } else {
                    self.stage = Stage::ReadingHeadName;
                    asking(Action::HeadName)
                }
            },
            Stage::ReadingTrackingName => match e {
                Event::Named(name) => {
                    self.stage = Stage::OpeningTracking;
                    asking(Action::FindReference { name, must_exist: true })
                },
                _ => {
                    self.stage = Stage::ReadingHeadName;
                    asking(Action::HeadName)
                },
            },
            Stage::OpeningTracking => {
                self.stage = Stage::PeelingTracking;
                asking(Action::PeelReference)
            },
            Stage::ReadingHeadName => match e {
                Event::Named(name) => {
                    self.stage = Stage::OpeningCurrentBranch;
                    asking(Action::FindReference { name, must_exist: true })
                },
                _ => self.stop_with(ErrorContext::NoDefaultBranch, None),
            },
            Stage::OpeningCurrentBranch => {
                self.stage = Stage::PeelingCurrentBranch;
                asking(Action::PeelReference)
            },
            Stage::ParsingTip(i) => {
                self.stage = Stage::LoadingTip(i);
                asking(Action::LoadObject)
            },
            Stage::LoadingTip(i) => {
                self.stage = Stage::PeelingTip(i);
                asking(Action::PeelToCommit)
            },
            Stage::PeelingTip(i) => match e {
                Event::Commit(id) => {
                    let ghost before = self@;
                    let tip = ResolvedTip::new(self.tips[i].clone(), id);
                    self.resolved.push(tip);
                    assert(self@ =~= SessionView {
                        resolved: before.resolved.push(TipView { input: before.tips[i as int], commit: id@ }),
                        ..before
                    });
                    assert(i < self.tips.len());
                    self.resolve_from(i + 1)
                },
                _ => unreached(),
            },
            Stage::ComparingAncestry(i, j) => {
                let ghost ev = e@;
                let merge_base = match e {
                    Event::Commit(id) => MergeBase::Found(id),
                    Event::Failed(cause) => MergeBase::Failed(cause),
                    _ => MergeBase::NotFound,
                };
                assert(merge_base@ == merge_base_of(ev));
                let answer = is_ancestor_or_same_or_false(
                    &self.resolved[i].commit,
                    &self.resolved[j].commit,
                    &merge_base,
                );
                let ghost before = self@;
                self.row.push(answer);
                self.searches = Ghost((self.searches@ + 1) as nat);
                assert(self@ =~= SessionView {
                    row: before.row.push(answer),
                    searches: before.searches + 1,
                    ..before
                });
                assert(j < self.resolved.len());
                self.compare_from(i, j + 1)
            },
            Stage::PreparingMerge(k) => {
                self.stage = Stage::Merging(k);
                asking(
                    Action::MergeCommits {
                        ours: self.current.duplicate(),
                        theirs: self.deduped[k].commit.duplicate(),
                        allow_missing_merge_base: true,
                    },
                )
            },
            Stage::Merging(k) => match e {
                Event::Merged(true) => {
                    self.record_conflict(k)
                },
                _ => {
                    self.stage = Stage::WritingTree(k);
                    asking(Action::WriteMergedTree)
                },
            },
            Stage::WritingTree(k) => match e {
                Event::Tree(tree) => {
                    self.stage = Stage::WritingCommit(k);
                    self.tree = tree.duplicate();
                    asking(
                        Action::WriteMergeCommit {
                            message: merge_message_of(&self.deduped[k].input, &self.target),
                            tree,
                            first_parent: self.current.duplicate(),
                            second_parent: self.deduped[k].commit.duplicate(),
                        },
                    )
                },
                _ => unreached(),
            },
            Stage::WritingCommit(k) => match e {
                Event::Commit(id) => {
                    self.record_merge(k, id)
                },
                _ => unreached(),
            },
            Stage::UpdatingTarget => {
                let note = if self.target_exists {
                    Note::BranchReplaced(self.target.clone(), self.current.duplicate())
                } else {
                    Note::BranchCreated(self.target.clone(), self.current.duplicate())
                };
                self.stage = Stage::Finished;
                let res = Output { notes: vec![note], action: Action::Finish(Ok(())) };
                assert(res@ =~= next(old(self)@, e@).1);
                res
            },
            Stage::Finished => unreached(),
        }
    }
}

/// Both states carry the same request: force flag, base, target and tips.
pub open spec fn same_request(a: SessionView, b: SessionView) -> bool {
    &&& a.force == b.force
    &&& a.base == b.base
    &&& a.target == b.target
    &&& a.tips == b.tips
}

/// Both states agree on whether the target existed, on the searches answered, on
/// the resolved tips, on the base and reached commits, on the pending tree and
/// on the merges and their outcomes.
pub open spec fn same_record(a: SessionView, b: SessionView) -> bool {
    &&& a.target_exists == b.target_exists
    &&& a.searches == b.searches
    &&& a.resolved == b.resolved
    &&& a.start == b.start
    &&& a.current == b.current
    &&& a.tree == b.tree
    &&& a.merges == b.merges
    &&& a.outcomes == b.outcomes
}

/// The stages that peel the base, explicit or default, to a commit.
pub open spec fn is_base_peel(stage: Stage) -> bool {
    stage == Stage::PeelingBase || stage == Stage::PeelingOriginHead || stage == Stage::PeelingTracking
        || stage == Stage::PeelingCurrentBranch
}

/// The stages that merge a kept tip or set the target.
pub open spec fn merging_phase(stage: Stage) -> bool {
    stage is PreparingMerge || stage is Merging || stage is WritingTree || stage is WritingCommit
        || stage == Stage::UpdatingTarget
}

/// The stages that hold the ancestry table: while it is filled and after.
pub open spec fn table_phase(stage: Stage) -> bool {
    stage is ComparingAncestry || merging_phase(stage)
}

/// The stages that come after the base was found.
pub open spec fn after_base(stage: Stage) -> bool {
    stage is ParsingTip || stage is LoadingTip || stage is PeelingTip || table_phase(stage)
}

/// The commit that an event to a peeling operation names, if any.
pub open spec fn peeled_commit(e: EventView) -> Option<Seq<char>> {
    match e {
        EventView::Commit(id) => Some(id),
        EventView::Peeled(_, id) => Some(id),
        _ => None,
    }
}

/// The answer held for tips `r` and `c` in the ancestry table: from the
/// completed rows, or from the row being filled.
pub open spec fn cell(s: SessionView, r: int, c: int) -> bool {
    if r < s.rows.len() {
        s.rows[r][c]
    } else {
        s.row[c]
    }
}

/// The answer for tips `r` and `c` is in the ancestry table.
pub open spec fn filled(s: SessionView, r: int, c: int) -> bool {
    &&& 0 <= r < s.resolved.len()
    &&& 0 <= c < s.resolved.len()
    &&& (r < s.rows.len() || (r == s.rows.len() && c < s.row.len()))
}

/// The operation asked for agrees with the state it leaves: the target is set to
/// the reached commit, by its full branch name, refusing an existing branch
/// unless forced; each merge joins the next kept tip into the reached commit;
/// each merge commit names them as parents; a merge-base search is asked
/// exactly while comparing two tips, for those tips' commits; the merge options
/// and the merged tree are asked for only at their own stages, and nothing but
/// merging, writing and setting the target is asked once merging began; and
/// only a finished workflow asks for nothing.
pub open spec fn coherent(s: SessionView, o: OutputView) -> bool {
    match o.action {
        ActionView::UpdateReference { name, commit, must_not_exist, log_message } => {
            &&& s.stage == Stage::UpdatingTarget
            &&& name == branch_ref_name(s.target)
            &&& commit == s.current
            &&& must_not_exist == !s.force
            &&& log_message == update_log_message(s.target)
        },
        ActionView::MergeCommits { ours, theirs, allow_missing_merge_base } => match s.stage {
            Stage::Merging(k) => ours == s.current && theirs == s.deduped[k as int].commit
                && allow_missing_merge_base,
            _ => false,
        },
        ActionView::WriteMergeCommit { message, tree, first_parent, second_parent } => match s.stage {
            Stage::WritingCommit(k) => {
                &&& message == merge_message(s.deduped[k as int].input, s.target)
                &&& tree == s.tree
                &&& first_parent == s.current
                &&& second_parent == s.deduped[k as int].commit
            },
            _ => false,
        },
        ActionView::MergeBase { left, right } => match s.stage {
            Stage::ComparingAncestry(i, j) => left == s.resolved[i as int].commit && right
                == s.resolved[j as int].commit,
            _ => false,
        },
        ActionView::PrepareMergeOptions => s.stage is PreparingMerge,
        ActionView::WriteMergedTree => s.stage is WritingTree,
        ActionView::Finish(_) => s.stage == Stage::Finished,
        _ => !merging_phase(s.stage) && s.stage != Stage::Finished && !(s.stage is ComparingAncestry),
    }
}

proof fn lemma_merge_from_coherent(s: SessionView, k: int)
    ensures
        same_request(s, merge_from(s, k).0),
        coherent(merge_from(s, k).0, merge_from(s, k).1),
        same_record(s, merge_from(s, k).0),
        merge_from(s, k).0.stage != Stage::Finished,
{
}

proof fn lemma_compare_from_coherent(s: SessionView, i: int, j: int)
    requires
        s.resolved.len() <= usize::MAX,
    ensures
        same_request(s, compare_from(s, i, j).0),
        coherent(compare_from(s, i, j).0, compare_from(s, i, j).1),
        same_record(s, compare_from(s, i, j).0),
        compare_from(s, i, j).0.stage is ComparingAncestry || compare_from(s, i, j).0.stage is PreparingMerge
            || compare_from(s, i, j).0.stage == Stage::UpdatingTarget,
    decreases s.resolved.len() - i, s.resolved.len() - j,
{
    let n = s.resolved.len() as int;
    if i < 0 || j < 0 || i >= n {
        let kept = select(s.resolved, dedup_positions(s.rows));
        lemma_merge_from_coherent(SessionView { deduped: kept, ..s }, 0);
    } else if j >= n {
        lemma_compare_from_coherent(
            SessionView { rows: s.rows.push(s.row), row: Seq::empty(), ..s },
            i + 1,
            0,
        );
    } else if s.resolved[i].commit == s.resolved[j].commit {
        lemma_compare_from_coherent(SessionView { row: s.row.push(true), ..s }, i, j + 1);
    }
}

proof fn lemma_compare_from_cells(s: SessionView, i: int, j: int)
    requires
        0 <= i <= s.resolved.len(),
        0 <= j <= s.resolved.len(),
        s.rows.len() == i,
        s.row.len() == j,
        i == s.resolved.len() ==> j == 0,
    ensures
        compare_from(s, i, j).0.resolved == s.resolved,
        forall|r: int, c: int| #[trigger] filled(s, r, c) ==> filled(compare_from(s, i, j).0, r, c),
        forall|r: int, c: int|
            #[trigger] filled(compare_from(s, i, j).0, r, c) ==> {
                ||| filled(s, r, c) && cell(compare_from(s, i, j).0, r, c) == cell(s, r, c)
                ||| s.resolved[r].commit == s.resolved[c].commit
            },
    decreases s.resolved.len() - i, s.resolved.len() - j,
{
    let n = s.resolved.len() as int;
    if i >= n {
    } else if j >= n {
        let t = SessionView { rows: s.rows.push(s.row), row: Seq::empty(), ..s };
        lemma_compare_from_cells(t, i + 1, 0);
        assert forall|r: int, c: int| #[trigger] filled(s, r, c) implies filled(t, r, c) by {}
        assert forall|r: int, c: int| #[trigger] filled(t, r, c) implies filled(s, r, c) && cell(t, r, c)
            == cell(s, r, c) by {
            if r < i {
                assert(t.rows[r] == s.rows[r]);
            } else {
                assert(t.rows[r] == s.row);
            }
        }
    } else if s.resolved[i].commit == s.resolved[j].commit {
        let t = SessionView { row: s.row.push(true), ..s };
        lemma_compare_from_cells(t, i, j + 1);
        assert forall|r: int, c: int| #[trigger] filled(s, r, c) implies filled(t, r, c) by {}
        assert forall|r: int, c: int| #[trigger] filled(t, r, c) && !(filled(s, r, c)) implies r == i
            && c == j by {}
    }
}

proof fn lemma_resolve_from_coherent(s: SessionView, i: int)
    requires
        s.resolved.len() <= usize::MAX,
    ensures
        same_request(s, resolve_from(s, i).0),
        coherent(resolve_from(s, i).0, resolve_from(s, i).1),
        same_record(s, resolve_from(s, i).0),
        resolve_from(s, i).0.stage is ParsingTip || resolve_from(s, i).0.stage is ComparingAncestry
            || resolve_from(s, i).0.stage is PreparingMerge || resolve_from(s, i).0.stage == Stage::UpdatingTarget,
{
    if !(0 <= i < s.tips.len()) {
        lemma_compare_from_coherent(SessionView { rows: Seq::empty(), row: Seq::empty(), ..s }, 0, 0);
    }
}

/// The workflow begins coherently.
pub proof fn lemma_start_coherent(
    force: bool,
    base: Option<Seq<char>>,
    target: Seq<char>,
    tips: Seq<Seq<char>>,
)
    ensures
        coherent(start_spec(force, base, target, tips).0, start_spec(force, base, target, tips).1),
{
}

/// Every step keeps the request as it was given and asks for an operation that
/// agrees with the state it leaves (see [`coherent`]). It ends the workflow
/// only as [`lemma_finish_sources`] lists. And it records only what the outcome
/// it takes says: the base commit is set only by the peeling of the base, to the
/// commit named; a tip is resolved only by its peeling, to the commit named; an
/// answer of the ancestry table, once there, never changes, and a new one is
/// "related" for tips of the same commit or else what the search for that pair
/// came back with; the kept tips stay once merging began; a merged tree is held
/// only from its writing, after a merge without conflict; a tip's outcome is
/// recorded only from its merge, as skipped exactly when it conflicted, or from
/// the writing of its merge commit; and a merge commit is recorded only from its
/// writing, with the message, tree and parents it was asked with.
pub proof fn lemma_next_coherent(s: SessionView, e: EventView)
    requires
        wf(s),
        answers(s.stage, e),
    ensures
        same_request(s, next(s, e).0),
        coherent(next(s, e).0, next(s, e).1),
        s.stage != Stage::InspectingTarget ==> next(s, e).0.target_exists == s.target_exists,
        next(s, e).0.searches == s.searches + if s.stage is ComparingAncestry {
            1nat
        } else {
            0nat
        },
        next(s, e).1.action matches ActionView::Finish(r) ==> {
            ||| r == Ok::<(), BranchErrorView>(()) && s.stage == Stage::UpdatingTarget && e
                == EventView::Done
            ||| r == Err::<(), BranchErrorView>(
                BranchErrorView { context: ErrorContextView::TargetExists(s.target), cause: None },
            ) && s.stage == Stage::InspectingTarget && e == EventView::Found && !s.force
            ||| r == Err::<(), BranchErrorView>(
                BranchErrorView { context: ErrorContextView::NoDefaultBranch, cause: None },
            ) && s.stage == Stage::ReadingHeadName && e == EventView::Missing
            ||| e is Failed && failure_context(s) is Some && r == Err::<(), BranchErrorView>(
                BranchErrorView { context: failure_context(s)->0, cause: Some(cause_of(e)) },
            )
        },
        ({
            let t = next(s, e).0;
            &&& !is_base_peel(s.stage) ==> t.start == s.start
            &&& !is_base_peel(s.stage) && !after_base(s.stage) ==> !after_base(t.stage)
            &&& is_base_peel(s.stage) && after_base(t.stage) ==> peeled_commit(e) == Some(t.start)
            &&& t.resolved == s.resolved || (s.stage == Stage::PeelingTip(s.resolved.len() as usize)
                && e == EventView::Commit(t.resolved.last().commit) && t.resolved == s.resolved.push(
                TipView { input: s.tips[s.resolved.len() as int], commit: t.resolved.last().commit },
            ))
            &&& table_phase(s.stage) ==> t.resolved == s.resolved
            &&& merging_phase(s.stage) ==> t.deduped == s.deduped
            &&& table_phase(t.stage) ==> forall|r: int, c: int|
                #[trigger] filled(t, r, c) ==> {
                    ||| table_phase(s.stage) && filled(s, r, c) && cell(t, r, c) == cell(s, r, c)
                    ||| t.resolved[r].commit == t.resolved[c].commit
                    ||| s.stage == Stage::ComparingAncestry(r as usize, c as usize) && cell(t, r, c)
                        == ancestry_or_false(s.resolved[r].commit, s.resolved[c].commit, merge_base_of(e))
                }
            &&& match t.stage {
                Stage::WritingTree(k) => s.stage == Stage::Merging(k) && e == EventView::Merged(false),
                Stage::WritingCommit(k) => s.stage == Stage::WritingTree(k) && e == EventView::Tree(t.tree),
                _ => true,
            }
            &&& t.outcomes == s.outcomes || match s.stage {
                Stage::Merging(_) => e == EventView::Merged(true) && t.outcomes == s.outcomes.push(false),
                Stage::WritingCommit(_) => e is Commit && t.outcomes == s.outcomes.push(true),
                _ => false,
            }
            &&& t.merges == s.merges || match s.stage {
                Stage::WritingCommit(k) => e == EventView::Commit(t.merges.last().commit) && t.merges
                    == s.merges.push(
                    MergeView {
                        message: merge_message(s.deduped[k as int].input, s.target),
                        tree: s.tree,
                        first_parent: s.current,
                        second_parent: s.deduped[k as int].commit,
                        commit: t.merges.last().commit,
                    },
                ),
                _ => false,
            }
        }),
{
    if e is Failed && failure_context(s) is Some {
    } else {
        match s.stage {
            Stage::PeelingBase | Stage::PeelingOriginHead | Stage::PeelingTracking
            | Stage::PeelingCurrentBranch => {
                match e {
                    EventView::Commit(id) => {
                        lemma_resolve_from_coherent(SessionView { current: id, start: id, ..s }, 0);
                    },
                    EventView::Peeled(name, id) => {
                        lemma_resolve_from_coherent(SessionView { current: id, start: id, ..s }, 0);
                    },
                    _ => {},
                }
            },
            Stage::PeelingTip(i) => {
                if let EventView::Commit(id) = e {
                    let t1 = SessionView {
                        resolved: s.resolved.push(TipView { input: s.tips[i as int], commit: id }),
                        ..s
                    };
                    lemma_resolve_from_coherent(t1, i + 1);
                    if i + 1 >= s.tips.len() {
                        lemma_compare_from_cells(SessionView { rows: Seq::empty(), row: Seq::empty(), ..t1 }, 0, 0);
                    }
                }
            },
            Stage::ComparingAncestry(i, j) => {
                let answer = ancestry_or_false(
                    s.resolved[i as int].commit,
                    s.resolved[j as int].commit,
                    merge_base_of(e),
                );
                let t1 = SessionView { row: s.row.push(answer), searches: s.searches + 1, ..s };
                lemma_compare_from_coherent(t1, i as int, j + 1);
                lemma_compare_from_cells(t1, i as int, j + 1);
                assert forall|r: int, c: int| #[trigger] filled(t1, r, c) implies (filled(s, r, c) && cell(t1, r, c)
                    == cell(s, r, c)) || (r == i && c == j && cell(t1, r, c) == answer) by {}
            },
            Stage::Merging(k) => {
                if e == EventView::Merged(true) {
                    lemma_merge_from_coherent(
                        SessionView {
                            failures: s.failures.push(s.deduped[k as int]),
                            outcomes: s.outcomes.push(false),
                            ..s
                        },
                        k + 1,
                    );
                } else if let EventView::Merged(b) = e {
                    assert(!b);
                }
            },
            Stage::WritingCommit(k) => {
                if let EventView::Commit(id) = e {
                    lemma_merge_from_coherent(
                        SessionView {
                            current: id,
                            successes: s.successes.push(s.deduped[k as int]),
                            outcomes: s.outcomes.push(true),
                            merges: s.merges.push(
                                MergeView {
                                    message: merge_message(s.deduped[k as int].input, s.target),
                                    tree: s.tree,
                                    first_parent: s.current,
                                    second_parent: s.deduped[k as int].commit,
                                    commit: id,
                                },
                            ),
                            ..s
                        },
                        k + 1,
                    );
                }
            },
            _ => {},
        }
    }
}

/// Where a step can end the workflow: only setting the target successfully
/// ends it well; it ends with "already exists" only when the inspection found
/// the target and `force` is off; with "no default branch" only when HEAD names
/// no branch; and otherwise only when the awaited operation failed, with the
/// context of that operation and the failure's own account.
pub proof fn lemma_finish_sources(s: SessionView, e: EventView)
    requires
        wf(s),
        answers(s.stage, e),
    ensures
        next(s, e).1.action matches ActionView::Finish(r) ==> {
            ||| r == Ok::<(), BranchErrorView>(()) && s.stage == Stage::UpdatingTarget && e
                == EventView::Done
            ||| r == Err::<(), BranchErrorView>(
                BranchErrorView { context: ErrorContextView::TargetExists(s.target), cause: None },
            ) && s.stage == Stage::InspectingTarget && e == EventView::Found && !s.force
            ||| r == Err::<(), BranchErrorView>(
                BranchErrorView { context: ErrorContextView::NoDefaultBranch, cause: None },
            ) && s.stage == Stage::ReadingHeadName && e == EventView::Missing
            ||| e is Failed && failure_context(s) is Some && r == Err::<(), BranchErrorView>(
                BranchErrorView { context: failure_context(s)->0, cause: Some(cause_of(e)) },
            )
        },
{
    lemma_next_coherent(s, e);
}

/// A failed merge-base search stops nothing: the workflow goes on, and the
/// ancestry table holds "not related" for the two tips.
pub proof fn lemma_failed_search_unrelated(s: SessionView, cause: Seq<char>)
    requires
        wf(s),
        s.stage is ComparingAncestry,
    ensures
        ({
            let (t, o) = next(s, EventView::Failed(cause));
            let (i, j) = (s.stage->ComparingAncestry_0 as int, s.stage->ComparingAncestry_1 as int);
            &&& !(o.action is Finish)
            &&& filled(t, i, j)
            &&& !cell(t, i, j)
        }),
{
    let e = EventView::Failed(cause);
    lemma_next_coherent(s, e);
    if let Stage::ComparingAncestry(i, j) = s.stage {
        let t1 = SessionView { row: s.row.push(false), searches: s.searches + 1, ..s };
        lemma_compare_from_cells(t1, i as int, j + 1);
        assert(filled(t1, i as int, j as int));
    }
}

/// With at least one tip the workflow starts, whatever the base, target and
/// `force`: it holds the request as given, with nothing resolved or merged yet,
/// reports nothing, and asks to read the working directory.
pub proof fn lemma_start_with_tips(force: bool, base: Option<Seq<char>>, target: Seq<char>, tips: Seq<Seq<char>>)
    requires
        tips.len() > 0,
    ensures
        ({
            let (s, o) = start_spec(force, base, target, tips);
            &&& s.stage == Stage::ReadingCurrentDir
            &&& s.force == force && s.base == base && s.target == target && s.tips == tips
            &&& s.resolved.len() == 0 && s.merges.len() == 0 && s.outcomes.len() == 0
            &&& o.notes.len() == 0
            &&& o.action == ActionView::ReadCurrentDir
        }),
{
}

/// When a base is given, the target inspection (the target missing, or found
/// with `force`) is followed by parsing the base exactly as it was given (a
/// branch, a tag, a remote branch or a commit name alike), reporting nothing
/// yet.
pub proof fn lemma_explicit_base_parsed_as_given(s: SessionView, e: EventView)
    requires
        wf(s),
        s.stage == Stage::InspectingTarget,
        (s.base is Some),
        e == EventView::Missing || (e == EventView::Found && s.force),
    ensures
        next(s, e).0.stage == Stage::ParsingBase,
        next(s, e).0.base == s.base,
        next(s, e).1.notes.len() == 0,
        next(s, e).1.action == (ActionView::RevParse { spec: s.base->0 }),
{
}

/// When no base is given, the default branch is looked for in this order.
/// First `refs/remotes/origin/HEAD`: when it exists it is followed if symbolic
/// and peeled, and the commit it peels to is the base, reported by the name it
/// led to; HEAD is not consulted. Only when it is missing, the branch HEAD
/// points to: its tracking branch if it has one, else the branch itself, each
/// peeled to the base commit. When HEAD names no branch, the workflow stops
/// with "no default branch".
pub proof fn lemma_default_branch_order(
    s: SessionView,
    e: EventView,
    name: Seq<char>,
    id: Seq<char>,
)
    requires
        wf(s),
        s.stage == Stage::InspectingTarget,
        (s.base is None),
        e == EventView::Missing || (e == EventView::Found && s.force),
    ensures
        ({
            let (s0, o0) = next(s, e);
            let f = next(s0, EventView::Found).0;
            let p1 = next(f, EventView::Found).0;
            let p2 = next(f, EventView::Missing).0;
            let (b1, n1) = next(p1, EventView::Peeled(name, id));
            let (b2, n2) = next(p2, EventView::Peeled(name, id));
            &&& o0.notes.len() == 0
            &&& o0.action == ActionView::FindReference { name: origin_head_name(), must_exist: false }
            &&& next(s0, EventView::Found).1.action == ActionView::FollowReference
            &&& next(f, EventView::Found).1.action == ActionView::PeelReference
            &&& next(f, EventView::Missing).1.action == ActionView::PeelReference
            &&& b1.start == id && b1.current == id && b2.start == id && b2.current == id
            &&& n1.notes == seq![NoteView::DetectedDefaultBranch(name), NoteView::TargetBranch(s.target)]
            &&& n2.notes == seq![NoteView::DetectedDefaultBranch(name), NoteView::TargetBranch(s.target)]
            &&& next(s0, EventView::Missing).1.action == ActionView::FindHeadReference
        }),
        ({
            let h = next(next(s, e).0, EventView::Missing).0;
            let hf = next(h, EventView::Found).0;
            let (tr, otr) = next(hf, EventView::Named(name));
            let tp = next(tr, EventView::Found).0;
            let hn1 = next(hf, EventView::Missing).0;
            let hn2 = next(h, EventView::Missing).0;
            let (cb, ocb) = next(hn1, EventView::Named(name));
            let cp = next(cb, EventView::Found).0;
            &&& next(h, EventView::Found).1.action == ActionView::TrackingReferenceName
            &&& otr.action == ActionView::FindReference { name, must_exist: true }
            &&& next(tr, EventView::Found).1.action == ActionView::PeelReference
            &&& next(tp, EventView::Peeled(name, id)).0.start == id
            &&& next(hf, EventView::Missing).1.action == ActionView::HeadName
            &&& next(h, EventView::Missing).1.action == ActionView::HeadName
            &&& hn1.stage == hn2.stage
            &&& ocb.action == ActionView::FindReference { name, must_exist: true }
            &&& next(cb, EventView::Found).1.action == ActionView::PeelReference
            &&& next(cp, EventView::Peeled(name, id)).0.start == id
            &&& next(hn1, EventView::Missing).1.action == ActionView::Finish(
                Err(BranchErrorView { context: ErrorContextView::NoDefaultBranch, cause: None }),
            )
        }),
{
    let (s0, o0) = next(s, e);
    let f = next(s0, EventView::Found).0;
    let p1 = next(f, EventView::Found).0;
    let p2 = next(f, EventView::Missing).0;
    assert(next(p1, EventView::Peeled(name, id)).1.notes =~= seq![
        NoteView::DetectedDefaultBranch(name),
        NoteView::TargetBranch(s.target),
    ]);
    assert(next(p2, EventView::Peeled(name, id)).1.notes =~= seq![
        NoteView::DetectedDefaultBranch(name),
        NoteView::TargetBranch(s.target),
    ]);
}

/// The summary that ends the merging: the step that merges or skips the last
/// kept tip reports that tip, then lists under "successful merges:" exactly the
/// kept tips whose merge went through, and under "failed merges due to
/// conflicts:" exactly those skipped for conflicts, each in the order they were
/// kept (a heading only over a list that is not empty), and asks to set the
/// target; by then every kept tip has been tried.
pub proof fn lemma_merge_summary(s: SessionView, e: EventView)
    requires
        wf(s),
        answers(s.stage, e),
        !(e is Failed),
        (s.stage is Merging || s.stage is WritingCommit),
        next(s, e).0.stage == Stage::UpdatingTarget,
    ensures
        ({
            let (t, o) = next(s, e);
            &&& t.outcomes.len() == t.deduped.len()
            &&& o.notes.len() >= 1
            &&& o.notes.drop_first() == listing(NoteView::SuccessfulMerges, picked(t.deduped, t.outcomes, true))
                + listing(NoteView::FailedMerges, picked(t.deduped, t.outcomes, false))
            &&& o.action is UpdateReference
        }),
{
    lemma_next_wf(s, e);
    let (t, o) = next(s, e);
    let rest = listing(NoteView::SuccessfulMerges, t.successes) + listing(NoteView::FailedMerges, t.failures);
    assert(o.notes.drop_first() =~= rest);
}

/// Resolving an explicit base takes three operations: parse it, load the
/// object, peel it to a commit. When all succeed, the commit is the base the
/// integration starts from, the base is reported by the name given, and the
/// first tip is parsed next; when one fails, the workflow stops with that
/// operation's context naming the base and the failure's own account.
pub proof fn lemma_base_resolution(s: SessionView, commit: Seq<char>, cause: Seq<char>)
    requires
        wf(s),
        s.stage == Stage::ParsingBase,
    ensures
        ({
            let b = s.base->0;
            let s1 = next(s, EventView::Done).0;
            let s2 = next(s1, EventView::Done).0;
            let (s3, o3) = next(s2, EventView::Commit(commit));
            &&& s1.stage == Stage::LoadingBase
            &&& s2.stage == Stage::PeelingBase
            &&& s3.start == commit
            &&& s3.current == commit
            &&& s3.stage == Stage::ParsingTip(0)
            &&& s3.resolved.len() == 0
            &&& o3.notes == seq![NoteView::SelectedBase(b), NoteView::TargetBranch(s.target)]
            &&& o3.action == ActionView::RevParse { spec: s.tips[0] }
            &&& next(s, EventView::Failed(cause)).1.action == ActionView::Finish(
                Err(BranchErrorView { context: ErrorContextView::ResolveBase(b), cause: Some(cause) }),
            )
            &&& next(s1, EventView::Failed(cause)).1.action == ActionView::Finish(
                Err(BranchErrorView { context: ErrorContextView::LoadBase(b), cause: Some(cause) }),
            )
            &&& next(s2, EventView::Failed(cause)).1.action == ActionView::Finish(
                Err(BranchErrorView { context: ErrorContextView::BaseNotCommit(b), cause: Some(cause) }),
            )
        }),
{
    let s1 = next(s, EventView::Done).0;
    let s2 = next(s1, EventView::Done).0;
    let (s3, o3) = next(s2, EventView::Commit(commit));
    assert(o3.notes =~= seq![NoteView::SelectedBase(s.base->0), NoteView::TargetBranch(s.target)]);
}

/// The state after the first `m` tips were each parsed, loaded and peeled to
/// the commit given for it.
pub open spec fn after_tips(s: SessionView, commits: Seq<Seq<char>>, m: nat) -> SessionView
    decreases m,
{
    if m == 0 {
        s
    } else {
        let p = after_tips(s, commits, (m - 1) as nat);
        next(
            next(next(p, EventView::Done).0, EventView::Done).0,
            EventView::Commit(commits[m - 1]),
        ).0
    }
}

/// Resolving the tips: each is parsed, loaded and peeled in turn. After the
/// first `m` tips resolved to `commits`, the resolved tips are exactly those,
/// by the input given and in input order, duplicates kept; while tips remain,
/// the next one is parsed, and if any of its operations fails the workflow
/// stops with that operation's context naming the tip.
pub proof fn lemma_tip_resolution(s: SessionView, commits: Seq<Seq<char>>, m: nat, cause: Seq<char>)
    requires
        wf(s),
        s.stage == Stage::ParsingTip(0),
        commits.len() == s.tips.len(),
        m <= s.tips.len(),
    ensures
        ({
            let p = after_tips(s, commits, m);
            &&& p.resolved == Seq::new(m, |i: int| TipView { input: s.tips[i], commit: commits[i] })
            &&& m < s.tips.len() ==> {
                &&& wf(p)
                &&& p.stage == Stage::ParsingTip(m as usize)
                &&& same_request(s, p)
                &&& next(p, EventView::Failed(cause)).1.action == ActionView::Finish(
                    Err(
                        BranchErrorView {
                            context: ErrorContextView::ResolveTip(s.tips[m as int]),
                            cause: Some(cause),
                        },
                    ),
                )
                &&& next(next(p, EventView::Done).0, EventView::Failed(cause)).1.action
                    == ActionView::Finish(
                    Err(
                        BranchErrorView {
                            context: ErrorContextView::LoadTip(s.tips[m as int]),
                            cause: Some(cause),
                        },
                    ),
                )
                &&& next(
                    next(next(p, EventView::Done).0, EventView::Done).0,
                    EventView::Failed(cause),
                ).1.action == ActionView::Finish(
                    Err(
                        BranchErrorView {
                            context: ErrorContextView::TipNotCommit(s.tips[m as int]),
                            cause: Some(cause),
                        },
                    ),
                )
            }
        }),
    decreases m,
{
    if m == 0 {
        assert(s.resolved =~= Seq::new(0, |i: int| TipView { input: s.tips[i], commit: commits[i] }));
    } else {
        lemma_tip_resolution(s, commits, (m - 1) as nat, cause);
        let p = after_tips(s, commits, (m - 1) as nat);
        let p1 = next(p, EventView::Done).0;
        lemma_next_wf(p, EventView::Done);
        let p2 = next(p1, EventView::Done).0;
        lemma_next_wf(p1, EventView::Done);
        let i = (m - 1) as int;
        let t = SessionView {
            resolved: p2.resolved.push(TipView { input: p2.tips[i], commit: commits[i] }),
            ..p2
        };
        lemma_next_wf(p2, EventView::Commit(commits[i]));
        lemma_resolve_from_coherent(t, m as int);
        assert(t.resolved =~= Seq::new(m, |x: int| TipView { input: s.tips[x], commit: commits[x] }));
    }
}

/// Without tips the workflow stops at once with "at least one tip is required",
/// reporting nothing and touching no repository.
pub proof fn lemma_no_tips_stops(force: bool, base: Option<Seq<char>>, target: Seq<char>)
    ensures
        ({
            let (s, o) = start_spec(force, base, target, Seq::empty());
            &&& s.stage == Stage::Finished
            &&& o.notes.len() == 0
            &&& o.action == ActionView::Finish(
                Err(BranchErrorView { context: ErrorContextView::NoTips, cause: None }),
            )
        }),
{
}

/// An existing target branch without `force` stops the workflow before anything
/// is written, with the error that names the branch.
pub proof fn lemma_existing_target_refused(s: SessionView)
    requires
        s.stage == Stage::InspectingTarget,
        !s.force,
    ensures
        ({
            let (t, o) = next(s, EventView::Found);
            &&& t.stage == Stage::Finished
            &&& o.notes.len() == 0
            &&& o.action == ActionView::Finish(
                Err(BranchErrorView { context: ErrorContextView::TargetExists(s.target), cause: None }),
            )
        }),
{
}

/// A merge that conflicts is skipped: the reached commit stays, the tip joins
/// the skipped tips, and the merged tips are unchanged.
pub proof fn lemma_conflict_skips_tip(s: SessionView, k: usize)
    requires
        s.stage == Stage::Merging(k),
        k < s.deduped.len(),
    ensures
        ({
            let (t, o) = next(s, EventView::Merged(true));
            &&& t.current == s.current
            &&& t.failures == s.failures.push(s.deduped[k as int])
            &&& t.successes == s.successes
            &&& o.notes[0] == NoteView::MergeConflicted(s.deduped[k as int].input, s.deduped[k as int].commit)
        }),
{
}

/// A written merge commit becomes the reached commit and its tip joins the
/// merged tips; the skipped tips are unchanged.
pub proof fn lemma_merge_commit_advances(s: SessionView, k: usize, id: Seq<char>)
    requires
        s.stage == Stage::WritingCommit(k),
        k < s.deduped.len(),
    ensures
        ({
            let (t, o) = next(s, EventView::Commit(id));
            &&& t.current == id
            &&& t.successes == s.successes.push(s.deduped[k as int])
            &&& t.failures == s.failures
            &&& o.notes[0] == NoteView::MergeSucceeded(s.deduped[k as int].input, id)
        }),
{
}

/// Once the target is set, the workflow reports it as replaced exactly when it
/// existed, and as created otherwise, at the reached commit.
pub proof fn lemma_final_report(s: SessionView)
    requires
        s.stage == Stage::UpdatingTarget,
    ensures
        ({
            let (t, o) = next(s, EventView::Done);
            &&& t.stage == Stage::Finished
            &&& o.action == ActionView::Finish(Ok(()))
            &&& o.notes == seq![
                if s.target_exists {
                    NoteView::BranchReplaced(s.target, s.current)
                } else {
                    NoteView::BranchCreated(s.target, s.current)
                },
            ]
        }),
{
}

} // verus!
