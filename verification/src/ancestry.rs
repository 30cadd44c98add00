//! Whether one commit is an ancestor of another, decided from a merge base.
use vstd::prelude::*;
use crate::object::ObjectId;

verus! {

/// What a merge-base search between two commits came back with.
#[derive(Debug)]
pub enum MergeBase {
    /// The best common ancestor of the two commits.
    Found(ObjectId),
    /// The two commits share no history.
    NotFound,
    /// The search itself failed; the text says why.
    Failed(String),
}

/// A merge-base outcome as a specification sees it.
pub enum MergeBaseView {
    Found(Seq<char>),
    NotFound,
    Failed(Seq<char>),
}

impl View for MergeBase {
    type V = MergeBaseView;

    open spec fn view(&self) -> MergeBaseView {
        match self {
            MergeBase::Found(id) => MergeBaseView::Found(id@),
            MergeBase::NotFound => MergeBaseView::NotFound,
            MergeBase::Failed(cause) => MergeBaseView::Failed(cause@),
        }
    }
}

/// The ancestry comparison failed for a reason other than unrelated histories.
#[derive(Debug)]
pub struct AncestryError {
    pub cause: String,
}

/// The text of a failed ancestry comparison.
pub open spec fn ancestry_error_text(cause: Seq<char>) -> Seq<char> {
    "failed to compare commit ancestry: "@ + cause
}

impl AncestryError {
    /// The message this error prints as.
    pub fn message(&self) -> (res: String)
        ensures
            res@ == ancestry_error_text(self.cause@),
    {
        crate::report::join2("failed to compare commit ancestry: ", &self.cause)
    }
}

/// `left` is an ancestor of `right` or the same commit: equal commits need no
/// search; otherwise `left` is an ancestor exactly when it is the merge base.
pub open spec fn ancestry_verdict(
    left: Seq<char>,
    right: Seq<char>,
    merge_base: MergeBaseView,
) -> Result<bool, Seq<char>> {
    if left == right {
        Ok(true)
    } else {
        match merge_base {
            MergeBaseView::Found(base) => Ok(base == left),
            MergeBaseView::NotFound => Ok(false),
            MergeBaseView::Failed(cause) => Err(cause),
        }
    }
}

/// Whether the merge base of the two commits has to be searched for at all.
pub fn needs_merge_base(left: &ObjectId, right: &ObjectId) -> (res: bool)
    ensures
        res == (left@ != right@),
{
    !left.same_as(right)
}

/// Decides whether `left` is an ancestor of `right` or the same commit, given
/// the outcome of the merge-base search between them (consulted only when the
/// two commits differ).
pub fn is_ancestor_or_same(left: &ObjectId, right: &ObjectId, merge_base: &MergeBase) -> (res:
    Result<bool, AncestryError>)
    ensures
        match ancestry_verdict(left@, right@, merge_base@) {
            Ok(b) => res matches Ok(r) && r == b,
            Err(cause) => res matches Err(e) && e.cause@ == cause,
        },
{
    if left.same_as(right) {
        return Ok(true);
    }
    match merge_base {
        MergeBase::Found(base) => Ok(base.same_as(left)),
        MergeBase::NotFound => Ok(false),
        MergeBase::Failed(cause) => Err(AncestryError { cause: cause.clone() }),
    }
}

/// Ancestry read from a merge base: of two different commits, the one that is
/// their merge base is an ancestor of the other, and the other is not an
/// ancestor of it; a merge base that is neither commit, or none at all, makes
/// neither an ancestor of the other; a failed search decides nothing. Every
/// commit is an ancestor of itself, whatever the search says.
pub proof fn lemma_ancestry_from_merge_base(left: Seq<char>, right: Seq<char>, base: Seq<char>, cause: Seq<char>)
    ensures
        ancestry_verdict(left, left, MergeBaseView::Failed(cause)) == Ok::<bool, Seq<char>>(true),
        left != right ==> ancestry_verdict(left, right, MergeBaseView::Found(left)) == Ok::<bool, Seq<char>>(true),
        left != right ==> ancestry_verdict(right, left, MergeBaseView::Found(left)) == Ok::<bool, Seq<char>>(false),
        left != right && base != left && base != right ==> ancestry_verdict(left, right, MergeBaseView::Found(base))
            == Ok::<bool, Seq<char>>(false),
        left != right ==> ancestry_verdict(left, right, MergeBaseView::NotFound) == Ok::<bool, Seq<char>>(false),
        left != right ==> ancestry_verdict(left, right, MergeBaseView::Failed(cause)) == Err::<bool, Seq<char>>(cause),
{
}

/// Ancestry read from one merge-base search is antisymmetric: of two different
/// commits, at most one is an ancestor of the other.
pub proof fn lemma_ancestry_antisymmetric(left: Seq<char>, right: Seq<char>, merge_base: MergeBaseView)
    requires
        left != right,
    ensures
        !(ancestry_or_false(left, right, merge_base) && ancestry_or_false(right, left, merge_base)),
{
}

/// The ancestry answer that deduplication works with: a failed comparison counts
/// as "not an ancestor".
pub open spec fn ancestry_or_false(left: Seq<char>, right: Seq<char>, merge_base: MergeBaseView) -> bool {
    match ancestry_verdict(left, right, merge_base) {
        Ok(b) => b,
        Err(_) => false,
    }
}

/// [`is_ancestor_or_same`], with a failed comparison read as `false`.
pub fn is_ancestor_or_same_or_false(left: &ObjectId, right: &ObjectId, merge_base: &MergeBase) -> (res: bool)
    ensures
        res == ancestry_or_false(left@, right@, merge_base@),
{
    match is_ancestor_or_same(left, right, merge_base) {
        Ok(b) => b,
        Err(_) => false,
    }
}

/// The ancestry relation among a list of tips, by position: row `i`, column `j`
/// says whether tip `i` is an ancestor of tip `j` or the same commit.
#[derive(Debug)]
pub struct AncestryTable {
    pub rows: Vec<Vec<bool>>,
}

impl View for AncestryTable {
    type V = Seq<Seq<bool>>;

    open spec fn view(&self) -> Seq<Seq<bool>> {
        Seq::new(self.rows@.len(), |i: int| self.rows@[i]@)
    }
}

/// The table has `n` rows of `n` answers each.
pub open spec fn square(t: Seq<Seq<bool>>, n: int) -> bool {
    &&& t.len() == n
    &&& forall|i: int| 0 <= i < n ==> #[trigger] t[i].len() == n
}

impl AncestryTable {
    /// A table with the given rows.
    pub fn from_rows(rows: Vec<Vec<bool>>) -> (res: AncestryTable)
        ensures
            res.rows@ == rows@,
    {
        AncestryTable { rows }
    }

    /// Whether the table has `n` rows of `n` answers each.
    pub fn is_square(&self, n: usize) -> (res: bool)
        ensures
            res == square(self@, n as int),
    {
        if self.rows.len() != n {
            return false;
        }
        let mut i: usize = 0;
        while i < n
            invariant
                n == self.rows.len(),
                i <= n,
                forall|k: int| 0 <= k < i ==> #[trigger] self@[k].len() == n,
            decreases n - i,
        {
            if self.rows[i].len() != n {
                assert(self@[i as int].len() != n);
                return false;
            }
            i = i + 1;
        }
        true
    }

    /// The answer for tip `i` against tip `j`.
    pub fn get(&self, i: usize, j: usize) -> (res: bool)
        requires
            i < self@.len(),
            j < self@[i as int].len(),
        ensures
            res == self@[i as int][j as int],
    {
        self.rows[i][j]
    }
}

} // verus!
