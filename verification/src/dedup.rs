//! Removing redundant tips: a tip whose commit is already contained in another
//! tip's history adds nothing to an integration branch.
use vstd::prelude::*;
use crate::ancestry::{square, AncestryTable};
use crate::object::{tip_views, ResolvedTip, TipView};

verus! {

/// Tip `i` is an ancestor of tip `j`, or the same commit, by the table.
pub open spec fn related(t: Seq<Seq<bool>>, i: int, j: int) -> bool {
    t[i][j]
}

/// The tips of `retained`, in order, that are not ancestors of candidate `c`.
pub open spec fn unrelated_to(retained: Seq<int>, c: int, t: Seq<Seq<bool>>) -> Seq<int>
    decreases retained.len(),
{
    if retained.len() == 0 {
        retained
    } else {
        let rest = unrelated_to(retained.drop_last(), c, t);
        if related(t, retained.last(), c) {
            rest
        } else {
            rest.push(retained.last())
        }
    }
}

/// Candidate `c` is an ancestor of one of the tips in `kept`.
pub open spec fn covered(kept: Seq<int>, c: int, t: Seq<Seq<bool>>) -> bool {
    exists|k: int| 0 <= k < kept.len() && #[trigger] related(t, c, kept[k])
}

/// One candidate is taken in: the tips it supersedes leave, and it joins unless a
/// remaining tip already contains it.
pub open spec fn dedup_step(retained: Seq<int>, c: int, t: Seq<Seq<bool>>) -> Seq<int> {
    let kept = unrelated_to(retained, c, t);
    if covered(kept, c, t) {
        kept
    } else {
        kept.push(c)
    }
}

/// The positions of the tips kept after the first `n` candidates.
pub open spec fn dedup_prefix(t: Seq<Seq<bool>>, n: nat) -> Seq<int>
    decreases n,
{
    if n == 0 {
        Seq::empty()
    } else {
        dedup_step(dedup_prefix(t, (n - 1) as nat), n - 1, t)
    }
}

/// The positions of the tips that deduplication keeps, for a table over all tips.
pub open spec fn dedup_positions(t: Seq<Seq<bool>>) -> Seq<int> {
    dedup_prefix(t, t.len())
}

/// The tips at the given positions.
pub open spec fn select(tips: Seq<TipView>, positions: Seq<int>) -> Seq<TipView> {
    Seq::new(positions.len(), |k: int| tips[positions[k]])
}

/// Strictly increasing positions.
pub open spec fn increasing(s: Seq<int>) -> bool {
    forall|i: int, j: int| 0 <= i < j < s.len() ==> s[i] < s[j]
}

/// Every position lies in `0..n`.
pub open spec fn within(s: Seq<int>, n: int) -> bool {
    forall|i: int| 0 <= i < s.len() ==> 0 <= #[trigger] s[i] < n
}

/// No kept tip is an ancestor of another kept tip.
pub open spec fn antichain(s: Seq<int>, t: Seq<Seq<bool>>) -> bool {
    forall|i: int, j: int|
        0 <= i < s.len() && 0 <= j < s.len() && i != j ==> !related(t, #[trigger] s[i], #[trigger] s[j])
}

/// The ancestry answers among the first `n` tips chain: an ancestor of an
/// ancestor is an ancestor.
pub open spec fn transitive(t: Seq<Seq<bool>>, n: int) -> bool {
    forall|a: int, b: int, c: int|
        0 <= a < n && 0 <= b < n && 0 <= c < n && #[trigger] related(t, a, b) && #[trigger] related(
            t,
            b,
            c,
        ) ==> related(t, a, c)
}

/// Tip `i` is kept or is an ancestor of a kept tip.
pub open spec fn represented(s: Seq<int>, i: int, t: Seq<Seq<bool>>) -> bool {
    s.contains(i) || exists|k: int| 0 <= k < s.len() && #[trigger] related(t, i, s[k])
}

proof fn lemma_unrelated_to(retained: Seq<int>, c: int, t: Seq<Seq<bool>>)
    ensures
        forall|x: int|
            #[trigger] unrelated_to(retained, c, t).contains(x) <==> (retained.contains(x)
                && !related(t, x, c)),
        increasing(retained) ==> increasing(unrelated_to(retained, c, t)),
    decreases retained.len(),
{
    if retained.len() > 0 {
        let prefix = retained.drop_last();
        let e = retained.last();
        let rest = unrelated_to(prefix, c, t);
        lemma_unrelated_to(prefix, c, t);
        assert forall|x: int| #[trigger] retained.contains(x) <==> (prefix.contains(x) || x == e) by {
            if retained.contains(x) {
                let k = choose|k: int| 0 <= k < retained.len() && retained[k] == x;
                if k < retained.len() - 1 {
                    assert(prefix[k] == x);
                }
            }
            if prefix.contains(x) {
                let k = choose|k: int| 0 <= k < prefix.len() && prefix[k] == x;
                assert(retained[k] == x);
            }
            if x == e {
                assert(retained[retained.len() - 1] == x);
            }
        }
        if !related(t, e, c) {
            assert forall|x: int| #[trigger] rest.push(e).contains(x) <==> (rest.contains(x) || x == e) by {
                if rest.push(e).contains(x) {
                    let k = choose|k: int| 0 <= k < rest.push(e).len() && rest.push(e)[k] == x;
                    if k < rest.len() {
                        assert(rest[k] == x);
                    }
                }
                if rest.contains(x) {
                    let k = choose|k: int| 0 <= k < rest.len() && rest[k] == x;
                    assert(rest.push(e)[k] == x);
                }
                if x == e {
                    assert(rest.push(e)[rest.len() as int] == x);
                }
            }
        }
        if increasing(retained) {
            assert(increasing(prefix));
            if !related(t, e, c) {
                let u = rest.push(e);
                assert forall|i: int, j: int| 0 <= i < j < u.len() implies u[i] < u[j] by {
                    if j == u.len() - 1 {
                        assert(rest.contains(rest[i]));
                        assert(prefix.contains(rest[i]));
                        let k = choose|k: int| 0 <= k < prefix.len() && prefix[k] == rest[i];
                        assert(retained[k] == rest[i]);
                    }
                }
            }
        }
    }
}

proof fn lemma_unrelated_to_all(retained: Seq<int>, c: int, t: Seq<Seq<bool>>)
    requires
        forall|k: int| 0 <= k < retained.len() ==> !related(t, #[trigger] retained[k], c),
    ensures
        unrelated_to(retained, c, t) == retained,
    decreases retained.len(),
{
    if retained.len() > 0 {
        let prefix = retained.drop_last();
        assert forall|k: int| 0 <= k < prefix.len() implies !related(t, #[trigger] prefix[k], c) by {
            assert(prefix[k] == retained[k]);
        }
        lemma_unrelated_to_all(prefix, c, t);
        assert(retained[retained.len() - 1] == retained.last());
        assert(prefix.push(retained.last()) =~= retained);
    }
}

proof fn lemma_unrelated_to_len(retained: Seq<int>, c: int, t: Seq<Seq<bool>>)
    ensures
        unrelated_to(retained, c, t).len() <= retained.len(),
    decreases retained.len(),
{
    if retained.len() > 0 {
        lemma_unrelated_to_len(retained.drop_last(), c, t);
    }
}

/// Deduplication keeps at most as many tips as it was given.
pub proof fn lemma_dedup_len(t: Seq<Seq<bool>>, n: nat)
    ensures
        dedup_prefix(t, n).len() <= n,
    decreases n,
{
    if n > 0 {
        lemma_dedup_len(t, (n - 1) as nat);
        lemma_unrelated_to_len(dedup_prefix(t, (n - 1) as nat), n - 1, t);
    }
}

/// Deduplication keeps a selection of the tips in their given order: the kept
/// positions are strictly increasing and lie among the candidates.
pub proof fn lemma_dedup_keeps_order(t: Seq<Seq<bool>>, n: nat)
    ensures
        increasing(dedup_prefix(t, n)),
        within(dedup_prefix(t, n), n as int),
    decreases n,
{
    if n > 0 {
        let prev = dedup_prefix(t, (n - 1) as nat);
        let c = n - 1;
        lemma_dedup_keeps_order(t, (n - 1) as nat);
        lemma_unrelated_to(prev, c, t);
        let kept = unrelated_to(prev, c, t);
        assert forall|i: int| 0 <= i < kept.len() implies 0 <= #[trigger] kept[i] < c by {
            assert(kept.contains(kept[i]));
            let k = choose|k: int| 0 <= k < prev.len() && prev[k] == kept[i];
        }
        if !covered(kept, c, t) {
            let d = kept.push(c);
            assert forall|i: int| 0 <= i < d.len() implies 0 <= #[trigger] d[i] < n by {
                if i < kept.len() {
                    assert(d[i] == kept[i]);
                }
            }
            assert forall|i: int, j: int| 0 <= i < j < d.len() implies d[i] < d[j] by {
                assert(d[i] == kept[i]);
                if j < kept.len() {
                    assert(d[j] == kept[j]);
                }
            }
        }
    }
}

/// No kept tip is an ancestor of another kept tip, whatever the table says.
pub proof fn lemma_dedup_antichain(t: Seq<Seq<bool>>, n: nat)
    ensures
        antichain(dedup_prefix(t, n), t),
    decreases n,
{
    if n > 0 {
        let prev = dedup_prefix(t, (n - 1) as nat);
        let c = n - 1;
        lemma_dedup_antichain(t, (n - 1) as nat);
        lemma_dedup_keeps_order(t, (n - 1) as nat);
        lemma_unrelated_to(prev, c, t);
        let kept = unrelated_to(prev, c, t);
        assert(increasing(kept));
        // every kept element sits somewhere in prev
        assert forall|i: int, j: int|
            0 <= i < kept.len() && 0 <= j < kept.len() && i != j implies !related(
                t,
                #[trigger] kept[i],
                #[trigger] kept[j],
            ) by {
            assert(kept.contains(kept[i]));
            assert(kept.contains(kept[j]));
            let a = choose|a: int| 0 <= a < prev.len() && prev[a] == kept[i];
            let b = choose|b: int| 0 <= b < prev.len() && prev[b] == kept[j];
            assert(kept[i] != kept[j]);
            assert(a != b);
            assert(!related(t, prev[a], prev[b]));
        }
        if !covered(kept, c, t) {
            let d = kept.push(c);
            assert forall|i: int, j: int|
                0 <= i < d.len() && 0 <= j < d.len() && i != j implies !related(
                    t,
                    #[trigger] d[i],
                    #[trigger] d[j],
                ) by {
                if i < kept.len() && j < kept.len() {
                    assert(d[i] == kept[i] && d[j] == kept[j]);
                } else if i < kept.len() {
                    assert(d[i] == kept[i]);
                    assert(kept.contains(kept[i]));
                } else {
                    assert(d[j] == kept[j]);
                    assert(!related(t, c, kept[j]));
                }
            }
        }
    }
}

/// When ancestry chains, every candidate is either kept or an ancestor of a kept
/// tip: nothing that a candidate brings is lost.
pub proof fn lemma_dedup_represents_all(t: Seq<Seq<bool>>, n: nat)
    requires
        transitive(t, n as int),
    ensures
        forall|i: int| 0 <= i < n ==> #[trigger] represented(dedup_prefix(t, n), i, t),
    decreases n,
{
    if n > 0 {
        let prev = dedup_prefix(t, (n - 1) as nat);
        let c = n - 1;
        assert(transitive(t, c));
        lemma_dedup_represents_all(t, (n - 1) as nat);
        lemma_dedup_keeps_order(t, (n - 1) as nat);
        lemma_unrelated_to(prev, c, t);
        let kept = unrelated_to(prev, c, t);
        let d = dedup_prefix(t, n);
        assert(d == dedup_step(prev, c, t));
        // elements of kept stay in d
        assert forall|x: int| #[trigger] kept.contains(x) implies d.contains(x) by {
            if !covered(kept, c, t) {
                let k = choose|k: int| 0 <= k < kept.len() && kept[k] == x;
                assert(d[k] == x);
            }
        }
        // c itself is represented
        assert(represented(d, c, t)) by {
            if covered(kept, c, t) {
                let k = choose|k: int| 0 <= k < kept.len() && #[trigger] related(t, c, kept[k]);
                assert(d[k] == kept[k]);
            } else {
                assert(d[kept.len() as int] == c);
            }
        }
        // anything that is an ancestor of c is represented
        assert forall|i: int| 0 <= i < n && related(t, i, c) implies represented(d, i, t) by {
            if covered(kept, c, t) {
                let k = choose|k: int| 0 <= k < kept.len() && #[trigger] related(t, c, kept[k]);
                assert(kept.contains(kept[k]));
                let a = choose|a: int| 0 <= a < prev.len() && prev[a] == kept[k];
                assert(0 <= prev[a] < c);
                assert(related(t, i, kept[k]));
                assert(d[k] == kept[k]);
            } else {
                assert(d[kept.len() as int] == c);
            }
        }
        assert forall|i: int| 0 <= i < n implies #[trigger] represented(d, i, t) by {
            if i < c {
                assert(represented(prev, i, t));
                if prev.contains(i) {
                    if !related(t, i, c) {
                        assert(kept.contains(i));
                    }
                } else {
                    let k = choose|k: int| 0 <= k < prev.len() && #[trigger] related(t, i, prev[k]);
                    let e = prev[k];
                    assert(prev.contains(e));
                    assert(0 <= e < c);
                    if related(t, e, c) {
                        assert(related(t, i, c));
                    } else {
                        assert(kept.contains(e));
                        assert(d.contains(e));
                        let m = choose|m: int| 0 <= m < d.len() && d[m] == e;
                        assert(related(t, i, d[m]));
                    }
                }
            }
        }
    }
}

/// Tips that are pairwise unrelated are all kept, in their order: deduplication
/// leaves its own output unchanged.
pub proof fn lemma_dedup_keeps_unrelated(t: Seq<Seq<bool>>, n: nat)
    requires
        forall|i: int, j: int| 0 <= i < n && 0 <= j < n && i != j ==> !#[trigger] related(t, i, j),
    ensures
        dedup_prefix(t, n) == Seq::new(n, |i: int| i),
    decreases n,
{
    if n > 0 {
        let c = n - 1;
        lemma_dedup_keeps_unrelated(t, (n - 1) as nat);
        let prev = dedup_prefix(t, (n - 1) as nat);
        assert(prev == Seq::new((n - 1) as nat, |i: int| i));
        assert forall|k: int| 0 <= k < prev.len() implies !related(t, #[trigger] prev[k], c) by {
            assert(prev[k] == k);
        }
        lemma_unrelated_to_all(prev, c, t);
        assert(!covered(prev, c, t)) by {
            if covered(prev, c, t) {
                let k = choose|k: int| 0 <= k < prev.len() && #[trigger] related(t, c, prev[k]);
                assert(prev[k] == k);
            }
        }
        assert(prev.push(c) =~= Seq::new(n, |i: int| i));
    }
}

/// When ancestry chains, a kept tip is an ancestor of another candidate only if
/// that candidate is its ancestor as well (the same commit): the kept tips are
/// the newest ones.
pub proof fn lemma_dedup_keeps_newest(t: Seq<Seq<bool>>, n: nat)
    requires
        transitive(t, n as int),
    ensures
        forall|p: int, j: int|
            0 <= p < dedup_prefix(t, n).len() && 0 <= j < n && #[trigger] related(
                t,
                dedup_prefix(t, n)[p],
                j,
            ) ==> related(t, j, dedup_prefix(t, n)[p]),
{
    let d = dedup_prefix(t, n);
    lemma_dedup_keeps_order(t, n);
    lemma_dedup_antichain(t, n);
    lemma_dedup_represents_all(t, n);
    assert forall|p: int, j: int|
        0 <= p < d.len() && 0 <= j < n && #[trigger] related(t, d[p], j) implies related(
        t,
        j,
        d[p],
    ) by {
        assert(represented(d, j, t));
        if d.contains(j) {
            let q = choose|q: int| 0 <= q < d.len() && d[q] == j;
            if q != p {
                assert(!related(t, d[p], d[q]));
            }
        } else {
            let m = choose|m: int| 0 <= m < d.len() && #[trigger] related(t, j, d[m]);
            if m != p {
                assert(0 <= d[m] < n);
                assert(related(t, d[p], d[m]));
                assert(!related(t, d[p], d[m]));
            }
        }
    }
}

/// A kept tip is an ancestor of no later candidate: every later candidate would
/// have displaced it.
proof fn lemma_kept_not_below_later(t: Seq<Seq<bool>>, n: nat)
    ensures
        forall|i: int, j: int|
            #[trigger] dedup_prefix(t, n).contains(i) && i < j < n ==> !#[trigger] related(t, i, j),
    decreases n,
{
    if n > 0 {
        let prev = dedup_prefix(t, (n - 1) as nat);
        let c = n - 1;
        lemma_kept_not_below_later(t, (n - 1) as nat);
        lemma_unrelated_to(prev, c, t);
        let kept = unrelated_to(prev, c, t);
        let d = dedup_prefix(t, n);
        assert forall|i: int, j: int| #[trigger] d.contains(i) && i < j < n implies !#[trigger] related(
            t,
            i,
            j,
        ) by {
            let k = choose|k: int| 0 <= k < d.len() && d[k] == i;
            if k < kept.len() {
                assert(kept[k] == i);
                assert(kept.contains(i));
                assert(prev.contains(i));
                assert(!related(t, i, c));
            } else {
                assert(i == c);
            }
        }
    }
}

/// The answers among the tips behave as ancestry does: a tip's commit is
/// related to itself and to equal commits, relations chain, and two tips that
/// are each other's ancestors name the same commit.
pub open spec fn ancestry_order(tips: Seq<TipView>, t: Seq<Seq<bool>>) -> bool {
    &&& t.len() == tips.len()
    &&& marks_same_commits(tips, t)
    &&& transitive(t, tips.len() as int)
    &&& forall|i: int, j: int|
        0 <= i < tips.len() && 0 <= j < tips.len() && #[trigger] related(t, i, j) && related(t, j, i)
            ==> tips[i].commit == tips[j].commit
}

/// Tip `i` is an ancestor of no tip of another commit, and no later tip names
/// its commit.
pub open spec fn newest_and_last(tips: Seq<TipView>, t: Seq<Seq<bool>>, i: int) -> bool {
    &&& forall|j: int|
        0 <= j < tips.len() && #[trigger] related(t, i, j) ==> tips[j].commit == tips[i].commit
    &&& forall|j: int| i < j < tips.len() ==> #[trigger] tips[j].commit != tips[i].commit
}

/// When the answers behave as ancestry does, deduplication keeps, in input
/// order, exactly the tips that are an ancestor of no tip of another commit,
/// each at the last position its commit is given.
pub proof fn lemma_dedup_characterized(tips: Seq<TipView>, t: Seq<Seq<bool>>)
    requires
        ancestry_order(tips, t),
    ensures
        increasing(dedup_positions(t)),
        forall|i: int|
            0 <= i < tips.len() ==> (dedup_positions(t).contains(i) <==> newest_and_last(tips, t, i)),
{
    let n = tips.len();
    let d = dedup_positions(t);
    lemma_dedup_keeps_order(t, n);
    lemma_dedup_keeps_newest(t, n);
    lemma_dedup_represents_all(t, n);
    lemma_kept_not_below_later(t, n);
    assert forall|i: int| 0 <= i < tips.len() implies (d.contains(i) <==> newest_and_last(tips, t, i)) by {
        if d.contains(i) {
            let p = choose|p: int| 0 <= p < d.len() && d[p] == i;
            assert forall|j: int| 0 <= j < tips.len() && #[trigger] related(t, i, j) implies tips[j].commit
                == tips[i].commit by {
                assert(related(t, d[p], j));
                assert(related(t, j, d[p]));
            }
            assert forall|j: int| i < j < tips.len() implies #[trigger] tips[j].commit
                != tips[i].commit by {
                if tips[j].commit == tips[i].commit {
                    assert(related(t, i, j));
                }
            }
        }
        if newest_and_last(tips, t, i) && !d.contains(i) {
            assert(represented(d, i, t));
            let m = choose|m: int| 0 <= m < d.len() && #[trigger] related(t, i, d[m]);
            let x = d[m];
            assert(0 <= x < n);
            assert(tips[x].commit == tips[i].commit);
            if x > i {
                assert(tips[x].commit != tips[i].commit);
            } else {
                assert(x != i);
                assert(d.contains(x));
                assert(related(t, x, i));
            }
        }
    }
}

/// The table answers "same commit" pairs as related.
pub open spec fn marks_same_commits(tips: Seq<TipView>, t: Seq<Seq<bool>>) -> bool {
    forall|i: int, j: int|
        0 <= i < tips.len() && 0 <= j < tips.len() && tips[i].commit == tips[j].commit
            ==> #[trigger] related(t, i, j)
}

/// When the table answers equal commits as related, no two kept tips name the
/// same commit.
pub proof fn lemma_dedup_distinct_commits(tips: Seq<TipView>, t: Seq<Seq<bool>>)
    requires
        t.len() == tips.len(),
        marks_same_commits(tips, t),
    ensures
        forall|p: int, q: int|
            0 <= p < dedup_positions(t).len() && 0 <= q < dedup_positions(t).len() && p != q
                ==> #[trigger] select(tips, dedup_positions(t))[p].commit != #[trigger] select(
                tips,
                dedup_positions(t),
            )[q].commit,
{
    let d = dedup_positions(t);
    lemma_dedup_keeps_order(t, t.len());
    lemma_dedup_antichain(t, t.len());
    assert forall|p: int, q: int|
        0 <= p < d.len() && 0 <= q < d.len() && p != q implies #[trigger] select(tips, d)[p].commit
        != #[trigger] select(tips, d)[q].commit by {
        assert(0 <= d[p] < t.len());
        assert(0 <= d[q] < t.len());
        assert(!related(t, d[p], d[q]));
    }
}

/// The table among the kept tips, in their kept order.
pub open spec fn restrict(t: Seq<Seq<bool>>, d: Seq<int>) -> Seq<Seq<bool>> {
    Seq::new(d.len(), |p: int| Seq::new(d.len(), |q: int| t[d[p]][d[q]]))
}

/// Deduplicating the kept tips again, with the answers among them, keeps all of
/// them: deduplication is idempotent.
pub proof fn lemma_dedup_idempotent(tips: Seq<TipView>, t: Seq<Seq<bool>>)
    requires
        t.len() == tips.len(),
    ensures
        dedup_positions(restrict(t, dedup_positions(t))) == Seq::new(
            dedup_positions(t).len(),
            |p: int| p,
        ),
        select(select(tips, dedup_positions(t)), dedup_positions(restrict(t, dedup_positions(t))))
            == select(tips, dedup_positions(t)),
{
    let d = dedup_positions(t);
    let t2 = restrict(t, d);
    lemma_dedup_keeps_order(t, t.len());
    lemma_dedup_antichain(t, t.len());
    assert forall|p: int, q: int|
        0 <= p < d.len() && 0 <= q < d.len() && p != q implies !#[trigger] related(t2, p, q) by {
        assert(related(t2, p, q) == related(t, d[p], d[q]));
    }
    lemma_dedup_keeps_unrelated(t2, d.len());
    let once = select(tips, d);
    let twice = select(once, dedup_positions(t2));
    assert(twice =~= once);
}

/// Positions held in a vector, as integers.
pub open spec fn ints(v: Seq<usize>) -> Seq<int> {
    Seq::new(v.len(), |k: int| v[k] as int)
}

/// Keeps the tips that no other kept tip contains.
///
/// Candidates are taken in order. Each candidate first displaces the kept tips
/// that are its ancestors (or the same commit); it then joins the kept tips
/// unless it is itself an ancestor of one of them. `table` answers, for the tips
/// by position, whether one is an ancestor of another or the same commit.
pub fn deduplicate_tips(tips: Vec<ResolvedTip>, table: &AncestryTable) -> (res: Vec<ResolvedTip>)
    requires
        square(table@, tips.len() as int),
    ensures
        tip_views(res@) == select(tip_views(tips@), dedup_positions(table@)),
{
    let n = tips.len();
    let ghost t = table@;
    let mut retained: Vec<usize> = Vec::new();
    for c in 0..n
        invariant
            n == tips.len(),
            t == table@,
            square(t, n as int),
            ints(retained@) == dedup_prefix(t, c as nat),
            forall|k: int| 0 <= k < retained.len() ==> #[trigger] retained@[k] < c,
    {
        let mut kept: Vec<usize> = Vec::new();
        let m = retained.len();
        for k in 0..m
            invariant
                m == retained.len(),
                c < n,
                t == table@,
                square(t, n as int),
                forall|x: int| 0 <= x < retained.len() ==> #[trigger] retained@[x] < c,
                ints(kept@) == unrelated_to(ints(retained@).take(k as int), c as int, t),
                forall|x: int| 0 <= x < kept.len() ==> #[trigger] kept@[x] < c,
        {
            let e = retained[k];
            let ghost before = ints(retained@).take(k as int);
            let ghost after = ints(retained@).take(k + 1);
            assert(after.drop_last() =~= before);
            assert(after.last() == e as int);
            if !table.get(e, c) {
                kept.push(e);
                assert(ints(kept@) =~= unrelated_to(before, c as int, t).push(e as int));
            }
        }
        assert(ints(retained@).take(m as int) =~= ints(retained@));
        let ghost kept_spec = unrelated_to(ints(retained@), c as int, t);
        let mut is_covered = false;
        let mut k: usize = 0;
        while k < kept.len()
            invariant
                k <= kept.len(),
                c < n,
                t == table@,
                square(t, n as int),
                ints(kept@) == kept_spec,
                forall|x: int| 0 <= x < kept.len() ==> #[trigger] kept@[x] < c,
                is_covered == exists|j: int| 0 <= j < k && #[trigger] related(t, c as int, kept_spec[j]),
            decreases kept.len() - k,
        {
            assert(kept_spec[k as int] == kept@[k as int] as int);
            let hit = table.get(c, kept[k]);
            assert(hit == related(t, c as int, kept_spec[k as int]));
            if hit {
                is_covered = true;
            }
            k = k + 1;
            assert(is_covered == exists|j: int| 0 <= j < k && #[trigger] related(t, c as int, kept_spec[j])) by {
                if hit {
                    assert(related(t, c as int, kept_spec[(k - 1) as int]));
                }
            }
        }
        assert(is_covered == covered(kept_spec, c as int, t));
        if !is_covered {
            kept.push(c);
            assert(ints(kept@) =~= kept_spec.push(c as int));
        }
        assert(ints(kept@) == dedup_step(ints(retained@), c as int, t));
        retained = kept;
    }
    let mut res: Vec<ResolvedTip> = Vec::new();
    let m = retained.len();
    let ghost d = dedup_positions(t);
    assert(ints(retained@) == d);
    for k in 0..m
        invariant
            m == retained.len(),
            n == tips.len(),
            ints(retained@) == d,
            forall|x: int| 0 <= x < retained.len() ==> #[trigger] retained@[x] < n,
            res.len() == k,
            forall|x: int| 0 <= x < k ==> #[trigger] res@[x]@ == tips@[d[x]]@,
    {
        assert(d[k as int] == retained@[k as int] as int);
        res.push(tips[retained[k]].duplicate());
    }
    assert(tip_views(res@) =~= select(tip_views(tips@), d));
    res
}

} // verus!
