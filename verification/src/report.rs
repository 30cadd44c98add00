//! What the workflow tells its user: progress notes and errors, and their text.
use vstd::prelude::*;
use crate::object::ObjectId;

verus! {

/// One line of progress output.
#[derive(Debug)]
pub enum Note {
    /// An explicit base was resolved.
    SelectedBase(String),
    /// No base was given and the default branch was found.
    DetectedDefaultBranch(String),
    /// The branch that will receive the result.
    TargetBranch(String),
    /// Heading of the list of resolved tips.
    ResolvedTips,
    /// Heading of the list of tips kept after deduplication.
    DeduplicatedTips,
    /// A tip in a list: its input and its commit.
    TipLine(String, ObjectId),
    /// A merge of a tip is about to be attempted.
    AttemptingMerge(String, ObjectId),
    /// The merge of a tip conflicted and was skipped.
    MergeConflicted(String, ObjectId),
    /// A tip was merged; the commit is the new merge commit.
    MergeSucceeded(String, ObjectId),
    /// Heading of the list of merged tips.
    SuccessfulMerges,
    /// Heading of the list of skipped tips.
    FailedMerges,
    /// An existing target branch now points at the commit.
    BranchReplaced(String, ObjectId),
    /// A new target branch was created at the commit.
    BranchCreated(String, ObjectId),
}

/// A note as a specification sees it.
pub enum NoteView {
    SelectedBase(Seq<char>),
    DetectedDefaultBranch(Seq<char>),
    TargetBranch(Seq<char>),
    ResolvedTips,
    DeduplicatedTips,
    TipLine(Seq<char>, Seq<char>),
    AttemptingMerge(Seq<char>, Seq<char>),
    MergeConflicted(Seq<char>, Seq<char>),
    MergeSucceeded(Seq<char>, Seq<char>),
    SuccessfulMerges,
    FailedMerges,
    BranchReplaced(Seq<char>, Seq<char>),
    BranchCreated(Seq<char>, Seq<char>),
}

impl View for Note {
    type V = NoteView;

    open spec fn view(&self) -> NoteView {
        match self {
            Note::SelectedBase(a) => NoteView::SelectedBase(a@),
            Note::DetectedDefaultBranch(a) => NoteView::DetectedDefaultBranch(a@),
            Note::TargetBranch(a) => NoteView::TargetBranch(a@),
            Note::ResolvedTips => NoteView::ResolvedTips,
            Note::DeduplicatedTips => NoteView::DeduplicatedTips,
            Note::TipLine(a, b) => NoteView::TipLine(a@, b@),
            Note::AttemptingMerge(a, b) => NoteView::AttemptingMerge(a@, b@),
            Note::MergeConflicted(a, b) => NoteView::MergeConflicted(a@, b@),
            Note::MergeSucceeded(a, b) => NoteView::MergeSucceeded(a@, b@),
            Note::SuccessfulMerges => NoteView::SuccessfulMerges,
            Note::FailedMerges => NoteView::FailedMerges,
            Note::BranchReplaced(a, b) => NoteView::BranchReplaced(a@, b@),
            Note::BranchCreated(a, b) => NoteView::BranchCreated(a@, b@),
        }
    }
}

/// The text of a note.
pub open spec fn note_text(n: NoteView) -> Seq<char> {
    match n {
        NoteView::SelectedBase(name) => "selected base: "@ + name,
        NoteView::DetectedDefaultBranch(name) => "detected default branch: "@ + name,
        NoteView::TargetBranch(name) => "target branch: "@ + name,
        NoteView::ResolvedTips => "resolved tips:"@,
        NoteView::DeduplicatedTips => "deduplicated tips:"@,
        NoteView::TipLine(input, id) => "  "@ + input + " -> "@ + id,
        NoteView::AttemptingMerge(input, id) => "attempting merge: "@ + input + " ("@ + id + ")"@,
        NoteView::MergeConflicted(input, id) => "failed merge due to conflicts: "@ + input + " ("@ + id
            + ")"@,
        NoteView::MergeSucceeded(input, id) => "successful merge: "@ + input + " -> "@ + id,
        NoteView::SuccessfulMerges => "successful merges:"@,
        NoteView::FailedMerges => "failed merges due to conflicts:"@,
        NoteView::BranchReplaced(target, id) => "final branch update: replaced "@ + target + " -> "@
            + id,
        NoteView::BranchCreated(target, id) => "final branch creation: created "@ + target + " -> "@
            + id,
    }
}

/// `head`, then `a`.
pub(crate) fn join2(head: &str, a: &String) -> (res: String)
    ensures
        res@ == head@ + a@,
{
    let mut s = String::from_str(head);
    s.append(a.as_str());
    s
}

/// `head`, `a`, `mid`, then `b`.
pub(crate) fn join4(head: &str, a: &String, mid: &str, b: &String) -> (res: String)
    ensures
        res@ == head@ + a@ + mid@ + b@,
{
    let mut s = String::from_str(head);
    s.append(a.as_str());
    s.append(mid);
    s.append(b.as_str());
    s
}

/// `head`, `a`, `mid`, `b`, then `tail`.
pub(crate) fn join5(head: &str, a: &String, mid: &str, b: &String, tail: &str) -> (res: String)
    ensures
        res@ == head@ + a@ + mid@ + b@ + tail@,
{
    let mut s = String::from_str(head);
    s.append(a.as_str());
    s.append(mid);
    s.append(b.as_str());
    s.append(tail);
    s
}

impl Note {
    /// The line that this note prints as.
    pub fn render(&self) -> (res: String)
        ensures
            res@ == note_text(self@),
    {
        match self {
            Note::SelectedBase(name) => join2("selected base: ", name),
            Note::DetectedDefaultBranch(name) => join2("detected default branch: ", name),
            Note::TargetBranch(name) => join2("target branch: ", name),
            Note::ResolvedTips => String::from_str("resolved tips:"),
            Note::DeduplicatedTips => String::from_str("deduplicated tips:"),
            Note::TipLine(input, id) => join4("  ", input, " -> ", &id.hex),
            Note::AttemptingMerge(input, id) => join5("attempting merge: ", input, " (", &id.hex, ")"),
            Note::MergeConflicted(input, id) => join5(
                "failed merge due to conflicts: ",
                input,
                " (",
                &id.hex,
                ")",
            ),
            Note::MergeSucceeded(input, id) => join4("successful merge: ", input, " -> ", &id.hex),
            Note::SuccessfulMerges => String::from_str("successful merges:"),
            Note::FailedMerges => String::from_str("failed merges due to conflicts:"),
            Note::BranchReplaced(target, id) => join4("final branch update: replaced ", target, " -> ", &id.hex),
            Note::BranchCreated(target, id) => join4("final branch creation: created ", target, " -> ", &id.hex),
        }
    }
}

/// `head`, `a`, then `tail`.
pub(crate) fn join3(head: &str, a: &String, tail: &str) -> (res: String)
    ensures
        res@ == head@ + a@ + tail@,
{
    let mut s = String::from_str(head);
    s.append(a.as_str());
    s.append(tail);
    s
}

/// What the workflow was doing when it stopped.
#[derive(Debug)]
pub enum ErrorContext {
    /// No tips were given.
    NoTips,
    /// The working directory could not be read.
    ReadCurrentDir,
    /// No repository was found from the working directory.
    DiscoverRepository,
    /// Looking up the target branch failed.
    InspectTarget,
    /// The target branch exists and replacing it was not asked for.
    TargetExists(String),
    /// The base did not parse as a revision.
    ResolveBase(String),
    /// The base's object could not be loaded.
    LoadBase(String),
    /// The base names no commit.
    BaseNotCommit(String),
    /// Looking up the remote's HEAD failed.
    InspectOriginHead,
    /// Following the remote's HEAD failed.
    ResolveOriginHead,
    /// The remote's HEAD names no commit.
    PeelOriginHead,
    /// Reading HEAD failed.
    InspectHead,
    /// The current branch's tracking branch could not be named.
    ResolveTracking,
    /// The tracking branch could not be opened.
    OpenTracking,
    /// The tracking branch names no commit.
    PeelTracking,
    /// Reading the name HEAD points to failed.
    InspectHeadName,
    /// The current branch could not be opened.
    OpenCurrentBranch,
    /// The current branch names no commit.
    PeelCurrentBranch,
    /// No default branch could be found.
    NoDefaultBranch,
    /// A tip did not parse as a revision.
    ResolveTip(String),
    /// A tip's object could not be loaded.
    LoadTip(String),
    /// A tip names no commit.
    TipNotCommit(String),
    /// The merge options could not be read.
    PrepareMergeOptions,
    /// Merging a tip failed (a conflict is no failure).
    MergeTip(String),
    /// The merged tree could not be written.
    WriteTree(String),
    /// The merge commit could not be written.
    WriteCommit(String),
    /// The target branch could not be set.
    UpdateTarget(String),
}

/// An error context as a specification sees it.
pub enum ErrorContextView {
    NoTips,
    ReadCurrentDir,
    DiscoverRepository,
    InspectTarget,
    TargetExists(Seq<char>),
    ResolveBase(Seq<char>),
    LoadBase(Seq<char>),
    BaseNotCommit(Seq<char>),
    InspectOriginHead,
    ResolveOriginHead,
    PeelOriginHead,
    InspectHead,
    ResolveTracking,
    OpenTracking,
    PeelTracking,
    InspectHeadName,
    OpenCurrentBranch,
    PeelCurrentBranch,
    NoDefaultBranch,
    ResolveTip(Seq<char>),
    LoadTip(Seq<char>),
    TipNotCommit(Seq<char>),
    PrepareMergeOptions,
    MergeTip(Seq<char>),
    WriteTree(Seq<char>),
    WriteCommit(Seq<char>),
    UpdateTarget(Seq<char>),
}

impl View for ErrorContext {
    type V = ErrorContextView;

    open spec fn view(&self) -> ErrorContextView {
        match self {
            ErrorContext::NoTips => ErrorContextView::NoTips,
            ErrorContext::ReadCurrentDir => ErrorContextView::ReadCurrentDir,
            ErrorContext::DiscoverRepository => ErrorContextView::DiscoverRepository,
            ErrorContext::InspectTarget => ErrorContextView::InspectTarget,
            ErrorContext::TargetExists(a) => ErrorContextView::TargetExists(a@),
            ErrorContext::ResolveBase(a) => ErrorContextView::ResolveBase(a@),
            ErrorContext::LoadBase(a) => ErrorContextView::LoadBase(a@),
            ErrorContext::BaseNotCommit(a) => ErrorContextView::BaseNotCommit(a@),
            ErrorContext::InspectOriginHead => ErrorContextView::InspectOriginHead,
            ErrorContext::ResolveOriginHead => ErrorContextView::ResolveOriginHead,
            ErrorContext::PeelOriginHead => ErrorContextView::PeelOriginHead,
            ErrorContext::InspectHead => ErrorContextView::InspectHead,
            ErrorContext::ResolveTracking => ErrorContextView::ResolveTracking,
            ErrorContext::OpenTracking => ErrorContextView::OpenTracking,
            ErrorContext::PeelTracking => ErrorContextView::PeelTracking,
            ErrorContext::InspectHeadName => ErrorContextView::InspectHeadName,
            ErrorContext::OpenCurrentBranch => ErrorContextView::OpenCurrentBranch,
            ErrorContext::PeelCurrentBranch => ErrorContextView::PeelCurrentBranch,
            ErrorContext::NoDefaultBranch => ErrorContextView::NoDefaultBranch,
            ErrorContext::ResolveTip(a) => ErrorContextView::ResolveTip(a@),
            ErrorContext::LoadTip(a) => ErrorContextView::LoadTip(a@),
            ErrorContext::TipNotCommit(a) => ErrorContextView::TipNotCommit(a@),
            ErrorContext::PrepareMergeOptions => ErrorContextView::PrepareMergeOptions,
            ErrorContext::MergeTip(a) => ErrorContextView::MergeTip(a@),
            ErrorContext::WriteTree(a) => ErrorContextView::WriteTree(a@),
            ErrorContext::WriteCommit(a) => ErrorContextView::WriteCommit(a@),
            ErrorContext::UpdateTarget(a) => ErrorContextView::UpdateTarget(a@),
        }
    }
}

/// The text of an error context.
pub open spec fn context_text(c: ErrorContextView) -> Seq<char> {
    match c {
        ErrorContextView::NoTips => "at least one tip is required"@,
        ErrorContextView::ReadCurrentDir => "failed to read current directory"@,
        ErrorContextView::DiscoverRepository => "failed to discover git repository"@,
        ErrorContextView::InspectTarget => "failed to inspect target branch"@,
        ErrorContextView::TargetExists(a) => "target branch '"@ + a + "' already exists; re-run with --force to replace it"@,
        ErrorContextView::ResolveBase(a) => "failed to resolve base '"@ + a + "'"@,
        ErrorContextView::LoadBase(a) => "failed to load object for base '"@ + a + "'"@,
        ErrorContextView::BaseNotCommit(a) => "base '"@ + a + "' does not resolve to a commit"@,
        ErrorContextView::InspectOriginHead => "failed to inspect origin/HEAD"@,
        ErrorContextView::ResolveOriginHead => "failed to resolve origin/HEAD"@,
        ErrorContextView::PeelOriginHead => "failed to peel origin/HEAD to a commit"@,
        ErrorContextView::InspectHead => "failed to inspect HEAD"@,
        ErrorContextView::ResolveTracking => "failed to resolve tracking branch"@,
        ErrorContextView::OpenTracking => "failed to open tracking branch"@,
        ErrorContextView::PeelTracking => "failed to peel tracking branch to a commit"@,
        ErrorContextView::InspectHeadName => "failed to inspect HEAD name"@,
        ErrorContextView::OpenCurrentBranch => "failed to open current branch"@,
        ErrorContextView::PeelCurrentBranch => "failed to peel current branch to a commit"@,
        ErrorContextView::NoDefaultBranch => "could not determine a default branch from local repository state"@,
        ErrorContextView::ResolveTip(a) => "failed to resolve tip '"@ + a + "'"@,
        ErrorContextView::LoadTip(a) => "failed to load object for tip '"@ + a + "'"@,
        ErrorContextView::TipNotCommit(a) => "tip '"@ + a + "' does not resolve to a commit"@,
        ErrorContextView::PrepareMergeOptions => "failed to prepare merge options"@,
        ErrorContextView::MergeTip(a) => "failed to merge tip '"@ + a + "'"@,
        ErrorContextView::WriteTree(a) => "failed to write merged tree for '"@ + a + "'"@,
        ErrorContextView::WriteCommit(a) => "failed to write merge commit for '"@ + a + "'"@,
        ErrorContextView::UpdateTarget(a) => "failed to update target branch '"@ + a + "'"@,
    }
}

impl ErrorContext {
    /// The text of this context.
    pub fn render(&self) -> (res: String)
        ensures
            res@ == context_text(self@),
    {
        match self {
            ErrorContext::NoTips => String::from_str("at least one tip is required"),
            ErrorContext::ReadCurrentDir => String::from_str("failed to read current directory"),
            ErrorContext::DiscoverRepository => String::from_str("failed to discover git repository"),
            ErrorContext::InspectTarget => String::from_str("failed to inspect target branch"),
            ErrorContext::TargetExists(a) => join3("target branch '", a, "' already exists; re-run with --force to replace it"),
            ErrorContext::ResolveBase(a) => join3("failed to resolve base '", a, "'"),
            ErrorContext::LoadBase(a) => join3("failed to load object for base '", a, "'"),
            ErrorContext::BaseNotCommit(a) => join3("base '", a, "' does not resolve to a commit"),
            ErrorContext::InspectOriginHead => String::from_str("failed to inspect origin/HEAD"),
            ErrorContext::ResolveOriginHead => String::from_str("failed to resolve origin/HEAD"),
            ErrorContext::PeelOriginHead => String::from_str("failed to peel origin/HEAD to a commit"),
            ErrorContext::InspectHead => String::from_str("failed to inspect HEAD"),
            ErrorContext::ResolveTracking => String::from_str("failed to resolve tracking branch"),
            ErrorContext::OpenTracking => String::from_str("failed to open tracking branch"),
            ErrorContext::PeelTracking => String::from_str("failed to peel tracking branch to a commit"),
            ErrorContext::InspectHeadName => String::from_str("failed to inspect HEAD name"),
            ErrorContext::OpenCurrentBranch => String::from_str("failed to open current branch"),
            ErrorContext::PeelCurrentBranch => String::from_str("failed to peel current branch to a commit"),
            ErrorContext::NoDefaultBranch => String::from_str("could not determine a default branch from local repository state"),
            ErrorContext::ResolveTip(a) => join3("failed to resolve tip '", a, "'"),
            ErrorContext::LoadTip(a) => join3("failed to load object for tip '", a, "'"),
            ErrorContext::TipNotCommit(a) => join3("tip '", a, "' does not resolve to a commit"),
            ErrorContext::PrepareMergeOptions => String::from_str("failed to prepare merge options"),
            ErrorContext::MergeTip(a) => join3("failed to merge tip '", a, "'"),
            ErrorContext::WriteTree(a) => join3("failed to write merged tree for '", a, "'"),
            ErrorContext::WriteCommit(a) => join3("failed to write merge commit for '", a, "'"),
            ErrorContext::UpdateTarget(a) => join3("failed to update target branch '", a, "'"),
        }
    }
}

/// Why the workflow stopped: what it was doing and, when an outside operation
/// failed, that operation's own account of the failure.
#[derive(Debug)]
pub struct BranchError {
    pub context: ErrorContext,
    pub cause: Option<String>,
}

/// An error as a specification sees it.
pub struct BranchErrorView {
    pub context: ErrorContextView,
    pub cause: Option<Seq<char>>,
}

impl View for BranchError {
    type V = BranchErrorView;

    open spec fn view(&self) -> BranchErrorView {
        BranchErrorView {
            context: self.context@,
            cause: match self.cause {
                Some(c) => Some(c@),
                None => None,
            },
        }
    }
}

/// The text of an error: its context, then the cause after a colon.
pub open spec fn error_text(e: BranchErrorView) -> Seq<char> {
    match e.cause {
        Some(cause) => context_text(e.context) + ": "@ + cause,
        None => context_text(e.context),
    }
}

impl BranchError {
    /// The message this error prints as.
    pub fn message(&self) -> (res: String)
        ensures
            res@ == error_text(self@),
    {
        let head = self.context.render();
        match &self.cause {
            Some(cause) => {
                let mut s = head;
                s.append(": ");
                s.append(cause.as_str());
                s
            },
            None => head,
        }
    }
}

} // verus!
