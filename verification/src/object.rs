//! Object names and resolved tips.
use vstd::prelude::*;

verus! {

/// The name of a Git object, held as its hexadecimal spelling.
///
/// Two object names are the same object exactly when their spellings are equal.
#[derive(Debug)]
pub struct ObjectId {
    pub hex: String,
}

impl View for ObjectId {
    type V = Seq<char>;

    open spec fn view(&self) -> Seq<char> {
        self.hex@
    }
}

impl ObjectId {
    /// Wraps a hexadecimal object name.
    pub fn from_hex(hex: String) -> (res: ObjectId)
        ensures
            res@ == hex@,
    {
        ObjectId { hex }
    }

    /// A second handle on the same object name.
    pub fn duplicate(&self) -> (res: ObjectId)
        ensures
            res@ == self@,
    {
        ObjectId { hex: self.hex.clone() }
    }

    /// Whether both names denote the same object.
    pub fn same_as(&self, other: &ObjectId) -> (res: bool)
        ensures
            res == (self@ == other@),
    {
        self.hex == other.hex
    }
}

/// What a resolved tip looks like to a specification: the text the user gave and
/// the commit it names.
pub struct TipView {
    pub input: Seq<char>,
    pub commit: Seq<char>,
}

/// A tip as the user wrote it, together with the commit it resolved to.
#[derive(Debug)]
pub struct ResolvedTip {
    pub input: String,
    pub commit: ObjectId,
}

impl View for ResolvedTip {
    type V = TipView;

    open spec fn view(&self) -> TipView {
        TipView { input: self.input@, commit: self.commit@ }
    }
}

impl ResolvedTip {
    /// Pairs the user's text with the commit it names.
    pub fn new(input: String, commit: ObjectId) -> (res: ResolvedTip)
        ensures
            res@.input == input@,
            res@.commit == commit@,
    {
        ResolvedTip { input, commit }
    }

    /// A second handle on the same tip.
    pub fn duplicate(&self) -> (res: ResolvedTip)
        ensures
            res@ == self@,
    {
        ResolvedTip { input: self.input.clone(), commit: self.commit.duplicate() }
    }
}

/// The views of a list of tips.
pub open spec fn tip_views(tips: Seq<ResolvedTip>) -> Seq<TipView> {
    Seq::new(tips.len(), |i: int| tips[i]@)
}

/// Copies a list of tips element by element.
pub fn duplicate_tips(tips: &Vec<ResolvedTip>) -> (res: Vec<ResolvedTip>)
    ensures
        tip_views(res@) == tip_views(tips@),
{
    let mut res: Vec<ResolvedTip> = Vec::new();
    let n = tips.len();
    for i in 0..n
        invariant
            n == tips.len(),
            res.len() == i,
            forall|k: int| 0 <= k < i ==> #[trigger] res@[k]@ == tips@[k]@,
    {
        res.push(tips[i].duplicate());
    }
    assert(tip_views(res@) =~= tip_views(tips@));
    res
}

} // verus!
