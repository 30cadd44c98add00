//! Whole runs of the branch workflow: the states and outputs that a sequence
//! of outcomes produces from the start, and what holds of every such run.
use vstd::prelude::*;
use crate::report::{BranchErrorView, ErrorContextView, NoteView};
use crate::ancestry::{ancestry_or_false, square};
use crate::dedup::{dedup_positions, marks_same_commits, select};
use crate::session::{
    after_base, answers, branch_ref_name, cell, coherent, failure_context, filled, is_base_peel,
    lemma_finish_sources, lemma_next_coherent, lemma_next_wf, lemma_start_coherent, lemma_start_wf,
    lemma_picked_take, merge_base_of, merge_chain, merging_phase, next, outcomes_split,
    peeled_commit, picked, same_request, start_spec, table_phase, update_log_message, wf,
    ActionView, EventView, MergeView, OutputView, SessionView, Stage,
};

verus! {

/// The state after the first `k` outcomes, from state `s`.
pub open spec fn state_after(s: SessionView, events: Seq<EventView>, k: int) -> SessionView
    decreases k,
{
    if k <= 0 {
        s
    } else {
        next(state_after(s, events, k - 1), events[k - 1]).0
    }
}

/// What outcome `k` (counting from 0) hands back.
pub open spec fn output_of(s: SessionView, events: Seq<EventView>, k: int) -> OutputView {
    next(state_after(s, events, k), events[k]).1
}

/// Every outcome answers the operation that its state waits for.
pub open spec fn valid_run(s: SessionView, events: Seq<EventView>) -> bool {
    forall|k: int| 0 <= k < events.len() ==> answers(#[trigger] state_after(s, events, k).stage, events[k])
}

/// The operation that outcome `k` answers: the first is asked by the start,
/// each next one by the step before it.
pub open spec fn asked(o0: OutputView, s: SessionView, events: Seq<EventView>, k: int) -> ActionView {
    if k == 0 {
        o0.action
    } else {
        output_of(s, events, k - 1).action
    }
}

/// The target was inspected, before outcome `k`, and found to exist.
pub open spec fn found_at_inspection(s: SessionView, events: Seq<EventView>, k: int) -> bool {
    exists|m: int|
        0 <= m < k && #[trigger] state_after(s, events, m).stage == Stage::InspectingTarget
            && events[m] == EventView::Found
}

/// How many of the operations asked up to and including the `k`-th are
/// merge-base searches.
pub open spec fn searches_asked(o0: OutputView, s: SessionView, events: Seq<EventView>, k: int) -> int
    decreases k + 1,
{
    if k < 0 {
        0
    } else {
        searches_asked(o0, s, events, k - 1) + if asked(o0, s, events, k) is MergeBase {
            1int
        } else {
            0int
        }
    }
}

/// Outcome `m` answered the peeling of the base, explicit or default, with
/// `commit`.
pub open spec fn base_peeled(s: SessionView, events: Seq<EventView>, m: int, commit: Seq<char>) -> bool {
    is_base_peel(state_after(s, events, m).stage) && peeled_commit(events[m]) == Some(commit)
}

/// Outcome `m` answered the peeling of tip `i` with `commit`.
pub open spec fn tip_peeled(s: SessionView, events: Seq<EventView>, m: int, i: int, commit: Seq<char>) -> bool {
    state_after(s, events, m).stage == Stage::PeelingTip(i as usize) && events[m] == EventView::Commit(commit)
}

/// Outcome `m` answered the merge-base search for tips `r` and `c`, of commits
/// `left` and `right`, and `value` is what it makes of their ancestry (a failed
/// search counts as "not related").
pub open spec fn searched(
    s: SessionView,
    events: Seq<EventView>,
    m: int,
    r: int,
    c: int,
    left: Seq<char>,
    right: Seq<char>,
    value: bool,
) -> bool {
    &&& state_after(s, events, m).stage == Stage::ComparingAncestry(r as usize, c as usize)
    &&& value == ancestry_or_false(left, right, merge_base_of(events[m]))
}

/// Outcome `m` answered the writing of a merged tree with `tree`.
pub open spec fn tree_written(s: SessionView, events: Seq<EventView>, m: int, tree: Seq<char>) -> bool {
    state_after(s, events, m).stage is WritingTree && events[m] == EventView::Tree(tree)
}

/// Outcome `m` answered the writing of merge commit `mv`: the commit was asked
/// for with its message, tree and parents and came back as its commit, and its
/// tree is the one an earlier outcome wrote.
pub open spec fn merge_written(o0: OutputView, s: SessionView, events: Seq<EventView>, m: int, mv: MergeView) -> bool {
    &&& state_after(s, events, m).stage is WritingCommit
    &&& asked(o0, s, events, m) == ActionView::WriteMergeCommit {
        message: mv.message,
        tree: mv.tree,
        first_parent: mv.first_parent,
        second_parent: mv.second_parent,
    }
    &&& events[m] == EventView::Commit(mv.commit)
    &&& tree_witnessed(s, events, m, mv.tree)
}

/// Before outcome `k`, an outcome answered the writing of a merged tree with
/// `tree`.
pub open spec fn tree_witnessed(s: SessionView, events: Seq<EventView>, k: int, tree: Seq<char>) -> bool {
    exists|w: int| 0 <= w < k && #[trigger] tree_written(s, events, w, tree)
}

/// Before outcome `k`, an outcome answered the writing of merge commit `mv`.
pub open spec fn commit_witnessed(o0: OutputView, s: SessionView, events: Seq<EventView>, k: int, mv: MergeView) -> bool {
    exists|m: int| 0 <= m < k && #[trigger] merge_written(o0, s, events, m, mv)
}

/// Outcome `m` answered the merge of kept tip `x`, of commit `theirs`, into
/// commit `ours`, and the tip counts as `merged` exactly when the merge left no
/// conflict.
pub open spec fn merge_tried(
    o0: OutputView,
    s: SessionView,
    events: Seq<EventView>,
    m: int,
    x: int,
    ours: Seq<char>,
    theirs: Seq<char>,
    merged: bool,
) -> bool {
    &&& state_after(s, events, m).stage == Stage::Merging(x as usize)
    &&& asked(o0, s, events, m) matches ActionView::MergeCommits { ours: into, theirs: tip, .. } && into
        == ours && tip == theirs
    &&& merged <==> events[m] != EventView::Merged(true)
}

/// Before outcome `k`, an outcome answered the merge of kept tip `x`, of commit
/// `theirs`, into commit `ours`, with the outcome `merged`.
pub open spec fn try_witnessed(
    o0: OutputView,
    s: SessionView,
    events: Seq<EventView>,
    k: int,
    x: int,
    ours: Seq<char>,
    theirs: Seq<char>,
    merged: bool,
) -> bool {
    exists|m: int| 0 <= m < k && #[trigger] merge_tried(o0, s, events, m, x, ours, theirs, merged)
}

/// The commit reached after the first `p` merge commits of `t`: the base commit
/// for none, else the `p`-th merge commit.
pub open spec fn reached_after(t: SessionView, p: int) -> Seq<char> {
    if p == 0 {
        t.start
    } else {
        t.merges[p - 1].commit
    }
}

/// How many of the first `x` kept tips of `t` were merged.
pub open spec fn merged_before(t: SessionView, x: int) -> int {
    picked(t.deduped, t.outcomes.take(x), true).len() as int
}

/// The commit that the merge of kept tip `x` of `t` was made into: the one
/// reached after the merges of the tips merged before it.
pub open spec fn merged_into(t: SessionView, x: int) -> Seq<char> {
    reached_after(t, merged_before(t, x))
}

/// What the state at outcome `k` of a run holds from the outcomes before it:
/// the base commit is the one the base peeled to; each resolved tip's commit is
/// the one it peeled to; each answer of the ancestry table for tips of
/// different commits is what the search for them came back with; a pending
/// merge commit's tree is the one written for it; each merge commit was written
/// as recorded; and each kept tip tried, and each merge in progress, was merged
/// into the commit reached before it, with the outcome recorded for it.
pub open spec fn run_record(o0: OutputView, s: SessionView, events: Seq<EventView>, k: int) -> bool {
    let t = state_after(s, events, k);
    &&& record_base(s, events, k, t)
    &&& record_tips(s, events, k, t)
    &&& record_table(s, events, k, t)
    &&& record_writes(o0, s, events, k, t)
    &&& record_outcomes(o0, s, events, k, t)
}

/// Once the base is found, the base commit of `t` is the one the base peeled to
/// before outcome `k`.
pub open spec fn record_base(s: SessionView, events: Seq<EventView>, k: int, t: SessionView) -> bool {
    after_base(t.stage) ==> exists|m: int| 0 <= m < k && #[trigger] base_peeled(s, events, m, t.start)
}

/// Each resolved tip's commit in `t` is the one it peeled to before outcome `k`.
pub open spec fn record_tips(s: SessionView, events: Seq<EventView>, k: int, t: SessionView) -> bool {
    forall|i: int| 0 <= i < t.resolved.len() ==> #[trigger] tip_witnessed(s, events, k, i, t.resolved[i].commit)
}

/// Before outcome `k`, an outcome answered the peeling of tip `i` with `commit`.
pub open spec fn tip_witnessed(s: SessionView, events: Seq<EventView>, k: int, i: int, commit: Seq<char>) -> bool {
    exists|m: int| 0 <= m < k && #[trigger] tip_peeled(s, events, m, i, commit)
}

/// Each answer of the ancestry table of `t` for tips of different commits is
/// what the search for them came back with before outcome `k`.
pub open spec fn record_table(s: SessionView, events: Seq<EventView>, k: int, t: SessionView) -> bool {
    table_phase(t.stage) ==> forall|r: int, c: int|
        #[trigger] filled(t, r, c) && t.resolved[r].commit != t.resolved[c].commit ==> search_witnessed(
            s,
            events,
            k,
            r,
            c,
            t.resolved[r].commit,
            t.resolved[c].commit,
            cell(t, r, c),
        )
}

/// Before outcome `k`, an outcome answered the merge-base search for tips `r`
/// and `c`, of commits `left` and `right`, and `value` is what it makes of their
/// ancestry.
pub open spec fn search_witnessed(
    s: SessionView,
    events: Seq<EventView>,
    k: int,
    r: int,
    c: int,
    left: Seq<char>,
    right: Seq<char>,
    value: bool,
) -> bool {
    exists|m: int| 0 <= m < k && #[trigger] searched(s, events, m, r, c, left, right, value)
}

/// A pending merge commit's tree in `t` is the one written for it, and each
/// merge commit of `t` was written as recorded, before outcome `k`.
pub open spec fn record_writes(
    o0: OutputView,
    s: SessionView,
    events: Seq<EventView>,
    k: int,
    t: SessionView,
) -> bool {
    &&& t.stage is WritingCommit ==> tree_witnessed(s, events, k, t.tree)
    &&& forall|j: int| 0 <= j < t.merges.len() ==> #[trigger] commit_witnessed(o0, s, events, k, t.merges[j])
}

/// Each kept tip tried in `t`, and a merge in progress, was merged into the
/// commit reached before it, with the outcome recorded for it, before outcome
/// `k`.
pub open spec fn record_outcomes(
    o0: OutputView,
    s: SessionView,
    events: Seq<EventView>,
    k: int,
    t: SessionView,
) -> bool {
    &&& forall|x: int|
        0 <= x < t.outcomes.len() ==> #[trigger] try_witnessed(
            o0,
            s,
            events,
            k,
            x,
            merged_into(t, x),
            t.deduped[x].commit,
            t.outcomes[x],
        )
    &&& match t.stage {
        Stage::WritingTree(x) | Stage::WritingCommit(x) => try_witnessed(
            o0,
            s,
            events,
            k,
            x as int,
            merged_into(t, x as int),
            t.deduped[x as int].commit,
            true,
        ),
        _ => true,
    }
}

/// What holds at outcome `k` of a run from the start.
pub open spec fn run_holds(
    o0: OutputView,
    s: SessionView,
    events: Seq<EventView>,
    k: int,
) -> bool {
    let t = state_after(s, events, k);
    &&& wf(t)
    &&& same_request(s, t)
    &&& coherent(t, if k == 0 {
        o0
    } else {
        output_of(s, events, k - 1)
    })
    &&& t.stage != Stage::Finished ==> (t.target_exists <==> found_at_inspection(s, events, k))
    &&& searches_asked(o0, s, events, k) == t.searches + if t.stage is ComparingAncestry {
        1int
    } else {
        0int
    }
}

proof fn lemma_run_step(o0: OutputView, s: SessionView, events: Seq<EventView>, k: int)
    requires
        0 <= k < events.len(),
        valid_run(s, events),
        run_holds(o0, s, events, k),
    ensures
        run_holds(o0, s, events, k + 1),
{
    let t = state_after(s, events, k);
    let e = events[k];
    assert(answers(state_after(s, events, k).stage, events[k]));
    lemma_next_wf(t, e);
    lemma_next_coherent(t, e);
    let u = state_after(s, events, k + 1);
    assert(u == next(t, e).0);
    assert(asked(o0, s, events, k + 1) == output_of(s, events, k).action);
    if u.stage != Stage::Finished {
        if t.stage == Stage::InspectingTarget {
            assert(!t.target_exists);
            assert(!found_at_inspection(s, events, k));
            if e == EventView::Found {
                assert(found_at_inspection(s, events, k + 1));
            } else {
                assert forall|m: int|
                    0 <= m < k + 1 && #[trigger] state_after(s, events, m).stage
                        == Stage::InspectingTarget implies events[m] != EventView::Found by {
                    if m < k {
                        assert(!found_at_inspection(s, events, k));
                    }
                }
            }
        } else {
            if found_at_inspection(s, events, k + 1) {
                let m = choose|m: int|
                    0 <= m < k + 1 && #[trigger] state_after(s, events, m).stage
                        == Stage::InspectingTarget && events[m] == EventView::Found;
                assert(m < k);
                assert(found_at_inspection(s, events, k));
            }
            if found_at_inspection(s, events, k) {
                let m = choose|m: int|
                    0 <= m < k && #[trigger] state_after(s, events, m).stage
                        == Stage::InspectingTarget && events[m] == EventView::Found;
                assert(found_at_inspection(s, events, k + 1));
            }
        }
    }
}

/// The facts of one step of a run that the records below build on.
proof fn lemma_step_facts(o0: OutputView, s: SessionView, events: Seq<EventView>, k: int)
    requires
        0 <= k < events.len(),
        valid_run(s, events),
        run_holds(o0, s, events, k),
    ensures
        answers(state_after(s, events, k).stage, events[k]),
        state_after(s, events, k + 1) == next(state_after(s, events, k), events[k]).0,
        coherent(state_after(s, events, k), OutputView { notes: Seq::empty(), action: asked(o0, s, events, k) }),
{
    assert(answers(state_after(s, events, k).stage, events[k]));
}

proof fn lemma_base_step(o0: OutputView, s: SessionView, events: Seq<EventView>, k: int)
    requires
        0 <= k < events.len(),
        valid_run(s, events),
        run_holds(o0, s, events, k),
        record_base(s, events, k, state_after(s, events, k)),
    ensures
        record_base(s, events, k + 1, state_after(s, events, k + 1)),
{
    lemma_step_facts(o0, s, events, k);
    let t = state_after(s, events, k);
    let u = state_after(s, events, k + 1);
    lemma_next_coherent(t, events[k]);
    if after_base(u.stage) {
        if is_base_peel(t.stage) {
            assert(base_peeled(s, events, k, u.start));
        } else {
            let m = choose|m: int| 0 <= m < k && #[trigger] base_peeled(s, events, m, t.start);
            assert(base_peeled(s, events, m, u.start));
        }
    }
}

proof fn lemma_tips_step(o0: OutputView, s: SessionView, events: Seq<EventView>, k: int)
    requires
        0 <= k < events.len(),
        valid_run(s, events),
        run_holds(o0, s, events, k),
        record_tips(s, events, k, state_after(s, events, k)),
    ensures
        record_tips(s, events, k + 1, state_after(s, events, k + 1)),
{
    lemma_step_facts(o0, s, events, k);
    let t = state_after(s, events, k);
    let u = state_after(s, events, k + 1);
    lemma_next_coherent(t, events[k]);
    assert forall|i: int| 0 <= i < u.resolved.len() implies #[trigger] tip_witnessed(s, events, k + 1, i, u.resolved[i].commit) by {
        if i < t.resolved.len() {
            assert(u.resolved[i] == t.resolved[i]);
            assert(tip_witnessed(s, events, k, i, t.resolved[i].commit));
            let m = choose|m: int| 0 <= m < k && #[trigger] tip_peeled(s, events, m, i, t.resolved[i].commit);
            assert(tip_peeled(s, events, m, i, u.resolved[i].commit));
        } else {
            assert(tip_peeled(s, events, k, i, u.resolved[i].commit));
        }
    }
    assert(record_tips(s, events, k + 1, u));
}

proof fn lemma_table_step(o0: OutputView, s: SessionView, events: Seq<EventView>, k: int)
    requires
        0 <= k < events.len(),
        valid_run(s, events),
        run_holds(o0, s, events, k),
        record_table(s, events, k, state_after(s, events, k)),
    ensures
        record_table(s, events, k + 1, state_after(s, events, k + 1)),
{
    lemma_step_facts(o0, s, events, k);
    let t = state_after(s, events, k);
    let u = state_after(s, events, k + 1);
    lemma_next_coherent(t, events[k]);
    if table_phase(u.stage) {
        assert forall|r: int, c: int|
            #[trigger] filled(u, r, c) && u.resolved[r].commit != u.resolved[c].commit implies search_witnessed(
                s,
                events,
                k + 1,
                r,
                c,
                u.resolved[r].commit,
                u.resolved[c].commit,
                cell(u, r, c),
            ) by {
            if table_phase(t.stage) && filled(t, r, c) && cell(u, r, c) == cell(t, r, c) {
                assert(search_witnessed(s, events, k, r, c, t.resolved[r].commit, t.resolved[c].commit, cell(t, r, c)));
                let m = choose|m: int|
                    0 <= m < k && #[trigger] searched(
                        s,
                        events,
                        m,
                        r,
                        c,
                        t.resolved[r].commit,
                        t.resolved[c].commit,
                        cell(t, r, c),
                    );
                assert(searched(s, events, m, r, c, u.resolved[r].commit, u.resolved[c].commit, cell(u, r, c)));
            } else {
                assert(searched(s, events, k, r, c, u.resolved[r].commit, u.resolved[c].commit, cell(u, r, c)));
            }
        }
    }
}

proof fn lemma_writes_step(o0: OutputView, s: SessionView, events: Seq<EventView>, k: int)
    requires
        0 <= k < events.len(),
        valid_run(s, events),
        run_holds(o0, s, events, k),
        record_writes(o0, s, events, k, state_after(s, events, k)),
    ensures
        record_writes(o0, s, events, k + 1, state_after(s, events, k + 1)),
{
    lemma_step_facts(o0, s, events, k);
    let t = state_after(s, events, k);
    let u = state_after(s, events, k + 1);
    lemma_next_coherent(t, events[k]);
    if u.stage is WritingCommit {
        assert(tree_written(s, events, k, u.tree));
    }
    assert forall|j: int| 0 <= j < u.merges.len() implies #[trigger] commit_witnessed(o0, s, events, k + 1, u.merges[j]) by {
        if j < t.merges.len() {
            assert(u.merges[j] == t.merges[j]);
            assert(commit_witnessed(o0, s, events, k, t.merges[j]));
            let m = choose|m: int| 0 <= m < k && #[trigger] merge_written(o0, s, events, m, t.merges[j]);
            assert(merge_written(o0, s, events, m, u.merges[j]));
        } else {
            assert(merge_written(o0, s, events, k, u.merges[j]));
        }
    }
    assert(record_writes(o0, s, events, k + 1, u));
}

#[verifier::rlimit(60)]
proof fn lemma_outcomes_step(o0: OutputView, s: SessionView, events: Seq<EventView>, k: int)
    requires
        0 <= k < events.len(),
        valid_run(s, events),
        run_holds(o0, s, events, k),
        record_outcomes(o0, s, events, k, state_after(s, events, k)),
    ensures
        record_outcomes(o0, s, events, k + 1, state_after(s, events, k + 1)),
{
    lemma_step_facts(o0, s, events, k);
    let t = state_after(s, events, k);
    let u = state_after(s, events, k + 1);
    lemma_next_coherent(t, events[k]);
    if merging_phase(t.stage) {
        assert forall|x: int| 0 <= x <= t.outcomes.len() implies #[trigger] merged_into(u, x) == merged_into(t, x) by {
            assert(u.outcomes.take(x) == t.outcomes.take(x));
            lemma_picked_take(t.deduped, t.outcomes, x);
            assert(t.outcomes.take(t.outcomes.len() as int) == t.outcomes);
        }
        assert(merged_into(t, t.outcomes.len() as int) == t.current) by {
            assert(t.outcomes.take(t.outcomes.len() as int) == t.outcomes);
        }
    }
    assert forall|x: int| 0 <= x < u.outcomes.len() implies #[trigger] try_witnessed(
        o0,
        s,
        events,
        k + 1,
        x,
        merged_into(u, x),
        u.deduped[x].commit,
        u.outcomes[x],
    ) by {
        if x < t.outcomes.len() {
            assert(merging_phase(t.stage));
            assert(u.outcomes[x] == t.outcomes[x]);
            assert(try_witnessed(o0, s, events, k, x, merged_into(t, x), t.deduped[x].commit, t.outcomes[x]));
            let m = choose|m: int|
                0 <= m < k && #[trigger] merge_tried(o0, s, events, m, x, merged_into(t, x), t.deduped[x].commit, t.outcomes[x]);
            assert(merge_tried(o0, s, events, m, x, merged_into(u, x), u.deduped[x].commit, u.outcomes[x]));
        } else {
            match t.stage {
                Stage::Merging(y) => {
                    assert(merge_tried(o0, s, events, k, x, merged_into(u, x), u.deduped[x].commit, u.outcomes[x]));
                },
                Stage::WritingCommit(y) => {
                    let m = choose|m: int|
                        0 <= m < k && #[trigger] merge_tried(
                            o0,
                            s,
                            events,
                            m,
                            y as int,
                            merged_into(t, y as int),
                            t.deduped[y as int].commit,
                            true,
                        );
                    assert(merge_tried(o0, s, events, m, x, merged_into(u, x), u.deduped[x].commit, u.outcomes[x]));
                },
                _ => {},
            }
        }
    }
    match u.stage {
        Stage::WritingTree(x) => {
            assert(merge_tried(o0, s, events, k, x as int, merged_into(u, x as int), u.deduped[x as int].commit, true));
        },
        Stage::WritingCommit(x) => {
            let m = choose|m: int|
                0 <= m < k && #[trigger] merge_tried(
                    o0,
                    s,
                    events,
                    m,
                    x as int,
                    merged_into(t, x as int),
                    t.deduped[x as int].commit,
                    true,
                );
            assert(merge_tried(o0, s, events, m, x as int, merged_into(u, x as int), u.deduped[x as int].commit, true));
        },
        _ => {},
    }
    assert(record_outcomes(o0, s, events, k + 1, u));
}

/// What holds at every outcome of a valid run from the start: the workflow's
/// invariant, the request as given, an operation that agrees with its state,
/// "target existed" exactly when the inspection found it, and as many
/// merge-base searches asked as answered (plus the one awaited).
pub proof fn lemma_run(
    force: bool,
    base: Option<Seq<char>>,
    target: Seq<char>,
    tips: Seq<Seq<char>>,
    events: Seq<EventView>,
    k: int,
)
    requires
        tips.len() <= usize::MAX,
        valid_run(start_spec(force, base, target, tips).0, events),
        0 <= k <= events.len(),
    ensures
        run_holds(start_spec(force, base, target, tips).1, start_spec(force, base, target, tips).0, events, k),
    decreases k,
{
    let (s, o0) = start_spec(force, base, target, tips);
    if k == 0 {
        lemma_start_wf(force, base, target, tips);
        lemma_start_coherent(force, base, target, tips);
        assert(!found_at_inspection(s, events, 0));
        assert(searches_asked(o0, s, events, 0) == searches_asked(o0, s, events, -1) + 0);
    } else {
        lemma_run(force, base, target, tips, events, k - 1);
        lemma_run_step(o0, s, events, k - 1);
    }
}

/// What every outcome of a valid run from the start has recorded (see
/// [`run_record`]).
pub proof fn lemma_run_record(
    force: bool,
    base: Option<Seq<char>>,
    target: Seq<char>,
    tips: Seq<Seq<char>>,
    events: Seq<EventView>,
    k: int,
)
    requires
        tips.len() <= usize::MAX,
        valid_run(start_spec(force, base, target, tips).0, events),
        0 <= k <= events.len(),
    ensures
        run_record(start_spec(force, base, target, tips).1, start_spec(force, base, target, tips).0, events, k),
    decreases k,
{
    let (s, o0) = start_spec(force, base, target, tips);
    if k > 0 {
        lemma_run_record(force, base, target, tips, events, k - 1);
        lemma_run(force, base, target, tips, events, k - 1);
        lemma_base_step(o0, s, events, k - 1);
        lemma_tips_step(o0, s, events, k - 1);
        lemma_table_step(o0, s, events, k - 1);
        lemma_writes_step(o0, s, events, k - 1);
        lemma_outcomes_step(o0, s, events, k - 1);
    }
}

/// "Target branch already exists" ends a run exactly when the inspection of the
/// target found it and `force` is off; it ends the run before any base or tip is
/// resolved and before anything is written.
pub proof fn lemma_run_target_exists(
    force: bool,
    base: Option<Seq<char>>,
    target: Seq<char>,
    tips: Seq<Seq<char>>,
    events: Seq<EventView>,
    k: int,
)
    requires
        tips.len() <= usize::MAX,
        valid_run(start_spec(force, base, target, tips).0, events),
        0 <= k < events.len(),
    ensures
        ({
            let (s0, o0) = start_spec(force, base, target, tips);
            let t = state_after(s0, events, k);
            &&& (output_of(s0, events, k).action matches ActionView::Finish(Err(err))
                && err.context is TargetExists) <==> (t.stage == Stage::InspectingTarget && events[k]
                == EventView::Found && !force)
            &&& (t.stage == Stage::InspectingTarget && events[k] == EventView::Found && !force)
                ==> {
                &&& output_of(s0, events, k).action == ActionView::Finish(
                    Err(BranchErrorView { context: ErrorContextView::TargetExists(target), cause: None }),
                )
                &&& t.resolved.len() == 0
                &&& forall|m: int| 0 <= m <= k ==> !(#[trigger] asked(o0, s0, events, m) is UpdateReference)
            }
        }),
{
    let (s0, o0) = start_spec(force, base, target, tips);
    let t = state_after(s0, events, k);
    lemma_run(force, base, target, tips, events, k);
    assert(answers(state_after(s0, events, k).stage, events[k]));
    lemma_finish_sources(t, events[k]);
    assert(failure_context(t) is Some ==> !(failure_context(t)->0 is TargetExists));
    if t.stage == Stage::InspectingTarget && events[k] == EventView::Found && !force {
        assert forall|m: int| 0 <= m <= k implies !(#[trigger] asked(o0, s0, events, m) is UpdateReference) by {
            lemma_run(force, base, target, tips, events, m);
            if m > 0 && asked(o0, s0, events, m) is UpdateReference {
                lemma_update_is_last(force, base, target, tips, events, m);
            }
        }
    }
}

/// A reference is updated only by the last operation of a run, once: the
/// target branch `refs/heads/<target>`, set to the reached commit, refusing an
/// existing branch unless forced. When that update succeeds the run ends well;
/// when it fails, it ends with "failed to update target branch".
pub proof fn lemma_update_is_last(
    force: bool,
    base: Option<Seq<char>>,
    target: Seq<char>,
    tips: Seq<Seq<char>>,
    events: Seq<EventView>,
    k: int,
)
    requires
        tips.len() <= usize::MAX,
        valid_run(start_spec(force, base, target, tips).0, events),
        0 <= k <= events.len(),
        asked(start_spec(force, base, target, tips).1, start_spec(force, base, target, tips).0, events, k) is UpdateReference,
    ensures
        ({
            let (s0, o0) = start_spec(force, base, target, tips);
            let t = state_after(s0, events, k);
            &&& asked(o0, s0, events, k) == ActionView::UpdateReference {
                name: branch_ref_name(target),
                commit: t.current,
                must_not_exist: !force,
                log_message: update_log_message(target),
            }
            &&& t.stage == Stage::UpdatingTarget
            &&& k >= events.len() - 1
            &&& k < events.len() && events[k] == EventView::Done ==> output_of(s0, events, k).action
                == ActionView::Finish(Ok(()))
            &&& k < events.len() && events[k] is Failed ==> (output_of(s0, events, k).action
                matches ActionView::Finish(Err(err)) && err.context
                == ErrorContextView::UpdateTarget(target))
        }),
{
    let (s0, o0) = start_spec(force, base, target, tips);
    lemma_run(force, base, target, tips, events, k);
    let t = state_after(s0, events, k);
    if k + 1 < events.len() {
        lemma_run(force, base, target, tips, events, k + 1);
        assert(answers(state_after(s0, events, k + 1).stage, events[k + 1]));
        assert(answers(state_after(s0, events, k).stage, events[k]));
        assert(state_after(s0, events, k + 1) == next(t, events[k]).0);
    }
}

/// A run that ends with an error has updated no reference: no update of the
/// target was answered as done.
pub proof fn lemma_error_updates_nothing(
    force: bool,
    base: Option<Seq<char>>,
    target: Seq<char>,
    tips: Seq<Seq<char>>,
    events: Seq<EventView>,
    k: int,
)
    requires
        tips.len() <= usize::MAX,
        valid_run(start_spec(force, base, target, tips).0, events),
        0 <= k < events.len(),
        output_of(start_spec(force, base, target, tips).0, events, k).action matches ActionView::Finish(Err(_)),
    ensures
        forall|m: int|
            0 <= m <= k ==> !(#[trigger] asked(
                start_spec(force, base, target, tips).1,
                start_spec(force, base, target, tips).0,
                events,
                m,
            ) is UpdateReference && events[m] == EventView::Done),
{
    let (s0, o0) = start_spec(force, base, target, tips);
    assert forall|m: int| 0 <= m <= k implies !(#[trigger] asked(o0, s0, events, m) is UpdateReference
        && events[m] == EventView::Done) by {
        if asked(o0, s0, events, m) is UpdateReference && events[m] == EventView::Done {
            lemma_update_is_last(force, base, target, tips, events, m);
        }
    }
}

/// A run that ends well ends by setting the target to the reached commit, and
/// its last line reports the branch as replaced exactly when the inspection
/// found it, and as created otherwise.
pub proof fn lemma_run_final_report(
    force: bool,
    base: Option<Seq<char>>,
    target: Seq<char>,
    tips: Seq<Seq<char>>,
    events: Seq<EventView>,
    k: int,
)
    requires
        tips.len() <= usize::MAX,
        valid_run(start_spec(force, base, target, tips).0, events),
        0 <= k < events.len(),
        output_of(start_spec(force, base, target, tips).0, events, k).action == ActionView::Finish(
            Ok::<(), BranchErrorView>(()),
        ),
    ensures
        ({
            let (s0, o0) = start_spec(force, base, target, tips);
            let t = state_after(s0, events, k);
            &&& t.stage == Stage::UpdatingTarget
            &&& events[k] == EventView::Done
            &&& asked(o0, s0, events, k) is UpdateReference
            &&& output_of(s0, events, k).notes == seq![
                if found_at_inspection(s0, events, k) {
                    NoteView::BranchReplaced(target, t.current)
                } else {
                    NoteView::BranchCreated(target, t.current)
                },
            ]
        }),
{
    let (s0, o0) = start_spec(force, base, target, tips);
    lemma_run(force, base, target, tips, events, k);
    let t = state_after(s0, events, k);
    assert(answers(state_after(s0, events, k).stage, events[k]));
    lemma_finish_sources(t, events[k]);
}

/// The whole run, when it sets the target. The base commit is the one the base
/// peeled to: the base asked for, when there is one, and else the default
/// branch. The resolved tips
/// are the tips as given, in order, each at the commit it peeled to. The
/// ancestry table has one answer per ordered pair of tips: "related" for tips
/// of the same commit, and otherwise what the merge-base search for the pair
/// came back with, a failed search counting as "not related". The kept tips are
/// those that deduplication keeps by that table. Each kept tip, in turn, was
/// merged into the commit reached so far and counts as merged exactly when that
/// merge left no conflict; the merged and the skipped tips split the kept tips
/// in order by that outcome. The merge commits chain from the base commit, one
/// per merged tip, each written with the merge message, with the reached commit
/// and the tip as parents and with the tree written for its merge. The target
/// branch is set to the end of that chain, or to the base commit when nothing
/// was merged.
pub proof fn lemma_run_result(
    force: bool,
    base: Option<Seq<char>>,
    target: Seq<char>,
    tips: Seq<Seq<char>>,
    events: Seq<EventView>,
    k: int,
)
    requires
        tips.len() <= usize::MAX,
        valid_run(start_spec(force, base, target, tips).0, events),
        0 <= k <= events.len(),
        asked(start_spec(force, base, target, tips).1, start_spec(force, base, target, tips).0, events, k) is UpdateReference,
    ensures
        ({
            let (s0, o0) = start_spec(force, base, target, tips);
            let t = state_after(s0, events, k);
            let n = tips.len() as int;
            &&& exists|m: int|
                0 <= m < k && #[trigger] base_peeled(s0, events, m, t.start) && (state_after(s0, events, m).stage
                    == Stage::PeelingBase <==> base is Some)
            &&& t.resolved.len() == n
            &&& forall|i: int|
                0 <= i < n ==> t.resolved[i].input == tips[i] && #[trigger] tip_witnessed(
                    s0,
                    events,
                    k,
                    i,
                    t.resolved[i].commit,
                )
            &&& square(t.rows, n)
            &&& marks_same_commits(t.resolved, t.rows)
            &&& forall|r: int, c: int|
                0 <= r < n && 0 <= c < n && t.resolved[r].commit != t.resolved[c].commit
                    ==> #[trigger] search_witnessed(
                    s0,
                    events,
                    k,
                    r,
                    c,
                    t.resolved[r].commit,
                    t.resolved[c].commit,
                    t.rows[r][c],
                )
            &&& t.deduped == select(t.resolved, dedup_positions(t.rows))
            &&& t.outcomes.len() == t.deduped.len()
            &&& forall|x: int|
                0 <= x < t.deduped.len() ==> #[trigger] try_witnessed(
                    o0,
                    s0,
                    events,
                    k,
                    x,
                    merged_into(t, x),
                    t.deduped[x].commit,
                    t.outcomes[x],
                )
            &&& outcomes_split(t)
            &&& merge_chain(t)
            &&& forall|j: int| 0 <= j < t.merges.len() ==> #[trigger] commit_witnessed(o0, s0, events, k, t.merges[j])
            &&& asked(o0, s0, events, k) == ActionView::UpdateReference {
                name: branch_ref_name(target),
                commit: if t.merges.len() == 0 {
                    t.start
                } else {
                    t.merges.last().commit
                },
                must_not_exist: !force,
                log_message: update_log_message(target),
            }
        }),
{
    let (s0, o0) = start_spec(force, base, target, tips);
    lemma_run(force, base, target, tips, events, k);
    lemma_run_record(force, base, target, tips, events, k);
    lemma_update_is_last(force, base, target, tips, events, k);
    let t = state_after(s0, events, k);
    let n = tips.len() as int;
    let m = choose|m: int| 0 <= m < k && #[trigger] base_peeled(s0, events, m, t.start);
    lemma_run(force, base, target, tips, events, m);
    assert(record_table(s0, events, k, t));
    assert forall|r: int, c: int|
        0 <= r < n && 0 <= c < n && t.resolved[r].commit != t.resolved[c].commit implies #[trigger] search_witnessed(
        s0,
        events,
        k,
        r,
        c,
        t.resolved[r].commit,
        t.resolved[c].commit,
        t.rows[r][c],
    ) by {
        assert(filled(t, r, c));
        assert(cell(t, r, c) == t.rows[r][c]);
    }
}

/// Whether an operation writes to the repository: a tree, a commit or a
/// reference.
pub open spec fn writes(a: ActionView) -> bool {
    a is WriteMergedTree || a is WriteMergeCommit || a is UpdateReference
}

/// Until merging begins (while the target is inspected, the base or the default
/// branch is found, the tips are resolved and their ancestry is searched) a run
/// only reads the repository: no operation it asks writes a tree, a commit or a
/// reference.
pub proof fn lemma_reads_before_merging(
    force: bool,
    base: Option<Seq<char>>,
    target: Seq<char>,
    tips: Seq<Seq<char>>,
    events: Seq<EventView>,
    k: int,
)
    requires
        tips.len() <= usize::MAX,
        valid_run(start_spec(force, base, target, tips).0, events),
        0 <= k <= events.len(),
        !merging_phase(state_after(start_spec(force, base, target, tips).0, events, k).stage),
    ensures
        !writes(asked(start_spec(force, base, target, tips).1, start_spec(force, base, target, tips).0, events, k)),
{
    lemma_run(force, base, target, tips, events, k);
}

/// A run asks at most one merge-base search per ordered pair of different
/// tips: at most `n * (n - 1)` searches for `n` tips.
pub proof fn lemma_run_search_bound(
    force: bool,
    base: Option<Seq<char>>,
    target: Seq<char>,
    tips: Seq<Seq<char>>,
    events: Seq<EventView>,
    k: int,
)
    requires
        tips.len() <= usize::MAX,
        valid_run(start_spec(force, base, target, tips).0, events),
        0 <= k <= events.len(),
    ensures
        searches_asked(start_spec(force, base, target, tips).1, start_spec(force, base, target, tips).0, events, k)
            <= tips.len() * (tips.len() - 1),
{
    let (s0, o0) = start_spec(force, base, target, tips);
    lemma_run(force, base, target, tips, events, k);
    let t = state_after(s0, events, k);
    let r = t.resolved.len() as int;
    let n = tips.len() as int;
    assert(r * (r - 1) <= n * (n - 1)) by (nonlinear_arith)
        requires
            0 <= r <= n,
    ;
}

} // verus!
