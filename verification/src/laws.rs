//! Properties of evaluating context actions that span several actions.

use vstd::prelude::*;

use crate::actions::{ActionView, is_unlink, link_of};
use crate::cob::{
    OpView,
    authorized,
    kept_actions,
    overridden,
    lemma_kept_members,
    lemma_kept_reads_author,
    lemma_replay_keeps_author,
    replay,
};
use crate::state::{ContextView, same_core, step};

verus! {

/// Whether applying `a` and `b` in either order can give different states:
/// a link and an unlink of the same target in the same set.
pub open spec fn conflicting(a: ActionView, b: ActionView) -> bool {
    match (a, b) {
        (ActionView::LinkCommit { sha: x }, ActionView::UnlinkCommit { sha: y }) => x == y,
        (ActionView::UnlinkCommit { sha: x }, ActionView::LinkCommit { sha: y }) => x == y,
        (ActionView::LinkIssue { issue_id: x }, ActionView::UnlinkIssue { issue_id: y }) => x == y,
        (ActionView::UnlinkIssue { issue_id: x }, ActionView::LinkIssue { issue_id: y }) => x == y,
        (ActionView::LinkPatch { patch_id: x }, ActionView::UnlinkPatch { patch_id: y }) => x == y,
        (ActionView::UnlinkPatch { patch_id: x }, ActionView::LinkPatch { patch_id: y }) => x == y,
        (ActionView::LinkPlan { plan_id: x }, ActionView::UnlinkPlan { plan_id: y }) => x == y,
        (ActionView::UnlinkPlan { plan_id: x }, ActionView::LinkPlan { plan_id: y }) => x == y,
        _ => false,
    }
}

/// The unlink action that takes back the link action `a`.
pub open spec fn undo_of(a: ActionView) -> ActionView
    recommends
        is_link(a),
{
    match a {
        ActionView::LinkCommit { sha } => ActionView::UnlinkCommit { sha },
        ActionView::LinkIssue { issue_id } => ActionView::UnlinkIssue { issue_id },
        ActionView::LinkPatch { patch_id } => ActionView::UnlinkPatch { patch_id },
        ActionView::LinkPlan { plan_id } => ActionView::UnlinkPlan { plan_id },
        _ => a,
    }
}

/// `a` links a commit, an issue, a patch or a plan.
pub open spec fn is_link(a: ActionView) -> bool {
    a is LinkCommit || a is LinkIssue || a is LinkPatch || a is LinkPlan
}

/// The target of the link action `a` is not yet linked in state `s`.
pub open spec fn links_new_target(s: ContextView, a: ActionView) -> bool {
    match a {
        ActionView::LinkCommit { sha } => !s.related_commits.contains(sha),
        ActionView::LinkIssue { issue_id } => !s.related_issues.contains(issue_id),
        ActionView::LinkPatch { patch_id } => !s.related_patches.contains(patch_id),
        ActionView::LinkPlan { plan_id } => !s.related_plans.contains(plan_id),
        _ => false,
    }
}

/// Applying an action twice gives the same state as applying it once:
/// links and unlinks are set operations, and an `Open` changes nothing.
pub proof fn lemma_step_idempotent(s: ContextView, a: ActionView)
    ensures
        step(step(s, a), a) == step(s, a),
{
    assert(step(step(s, a), a) =~= step(s, a));
}

/// Actions that do not conflict commute: applying them in either order
/// reaches the same state.
pub proof fn lemma_steps_commute(s: ContextView, a: ActionView, b: ActionView)
    requires
        !conflicting(a, b),
    ensures
        step(step(s, a), b) == step(step(s, b), a),
{
    assert(step(step(s, a), b) =~= step(step(s, b), a));
}

/// Unlinking a target that a link action has just linked, where it was not
/// linked before, gives back the state before the link.
pub proof fn lemma_unlink_undoes_link(s: ContextView, a: ActionView)
    requires
        is_link(a),
        links_new_target(s, a),
    ensures
        step(step(s, a), undo_of(a)) == s,
{
    assert(step(step(s, a), undo_of(a)) =~= s);
}

/// No action changes the core fields of a context, its author or its
/// creation time.
pub proof fn lemma_step_keeps_core(s: ContextView, a: ActionView)
    ensures
        same_core(step(s, a), s),
{
}

/// No list of actions changes the core fields of a context, its author or
/// its creation time: they are set at creation and never modified.
pub proof fn lemma_replay_keeps_core(s: ContextView, actions: Seq<ActionView>)
    ensures
        same_core(replay(s, actions), s),
    decreases actions.len(),
{
    if actions.len() > 0 {
        lemma_replay_keeps_core(s, actions.drop_last());
    }
}

/// Applying two lists of actions one after the other is applying their
/// concatenation.
pub proof fn lemma_replay_concat(s: ContextView, xs: Seq<ActionView>, ys: Seq<ActionView>)
    ensures
        replay(s, xs + ys) == replay(replay(s, xs), ys),
    decreases ys.len(),
{
    if ys.len() == 0 {
        assert(xs + ys =~= xs);
    } else {
        lemma_replay_concat(s, xs, ys.drop_last());
        assert((xs + ys).drop_last() =~= xs + ys.drop_last());
        assert((xs + ys).last() == ys.last());
    }
}

/// Applying an action after a list of actions that it conflicts with none of
/// is applying it before them.
proof fn lemma_step_passes_replay(s: ContextView, a: ActionView, ys: Seq<ActionView>)
    requires
        forall|j: int| 0 <= j < ys.len() ==> !conflicting(a, #[trigger] ys[j]),
    ensures
        step(replay(s, ys), a) == replay(step(s, a), ys),
    decreases ys.len(),
{
    if ys.len() > 0 {
        let rest = ys.drop_last();
        lemma_step_passes_replay(s, a, rest);
        assert(!conflicting(a, ys[ys.len() - 1]));
        lemma_steps_commute(replay(s, rest), a, ys.last());
    }
}

/// Two lists of actions such that no action of one conflicts with an action
/// of the other can be applied in either order with the same result.
pub proof fn lemma_replay_blocks_commute(s: ContextView, xs: Seq<ActionView>, ys: Seq<ActionView>)
    requires
        forall|i: int, j: int|
            0 <= i < xs.len() && 0 <= j < ys.len() ==> !conflicting(#[trigger] xs[i], #[trigger] ys[j]),
    ensures
        replay(replay(s, xs), ys) == replay(replay(s, ys), xs),
    decreases xs.len(),
{
    if xs.len() > 0 {
        let rest = xs.drop_last();
        let x = xs.last();
        assert forall|i: int, j: int|
            0 <= i < rest.len() && 0 <= j < ys.len() implies !conflicting(
            #[trigger] rest[i],
            #[trigger] ys[j],
        ) by {
            assert(rest[i] == xs[i]);
        }
        lemma_replay_blocks_commute(s, rest, ys);
        assert forall|j: int| 0 <= j < ys.len() implies !conflicting(x, #[trigger] ys[j]) by {
            assert(xs[xs.len() - 1] == x);
        }
        lemma_step_passes_replay(replay(s, rest), x, ys);
    }
}

/// Operations applied beside each other commute: where each of two
/// operations by authorized actors is among the other's concurrent
/// operations, applying the first and then the second reaches the same state
/// as applying the second and then the first. A link and an unlink of one
/// target in the two operations agree in both orders: the link wins.
pub proof fn lemma_concurrent_ops_commute(
    s: ContextView,
    delegates: Seq<Seq<u8>>,
    o1: OpView,
    c1: Seq<OpView>,
    o2: OpView,
    c2: Seq<OpView>,
)
    requires
        authorized(s, o1.author, delegates),
        authorized(s, o2.author, delegates),
        c1.contains(o2),
        c2.contains(o1),
    ensures
        ({
            let t1 = replay(s, kept_actions(s, delegates, c1, o1.actions));
            let t2 = replay(s, kept_actions(s, delegates, c2, o2.actions));
            replay(t1, kept_actions(t1, delegates, c2, o2.actions)) == replay(
                t2,
                kept_actions(t2, delegates, c1, o1.actions),
            )
        }),
{
    let k1 = kept_actions(s, delegates, c1, o1.actions);
    let k2 = kept_actions(s, delegates, c2, o2.actions);
    let t1 = replay(s, k1);
    let t2 = replay(s, k2);
    lemma_replay_keeps_author(s, k1);
    lemma_replay_keeps_author(s, k2);
    lemma_kept_reads_author(t1, s, delegates, c2, o2.actions);
    lemma_kept_reads_author(t2, s, delegates, c1, o1.actions);
    lemma_kept_members(s, delegates, c1, o1.actions);
    lemma_kept_members(s, delegates, c2, o2.actions);
    let i2 = choose|i: int| 0 <= i < c1.len() && c1[i] == o2;
    let i1 = choose|i: int| 0 <= i < c2.len() && c2[i] == o1;
    assert forall|i: int, j: int| 0 <= i < k1.len() && 0 <= j < k2.len() implies !conflicting(
        #[trigger] k1[i],
        #[trigger] k2[j],
    ) by {
        let x = k1[i];
        let y = k2[j];
        if conflicting(x, y) {
            if is_unlink(y) {
                assert(x == link_of(y));
                assert(c2[i1].actions.contains(link_of(y)));
            } else {
                assert(is_unlink(x));
                assert(y == link_of(x));
                assert(c1[i2].actions.contains(link_of(x)));
            }
        }
    }
    lemma_replay_blocks_commute(s, k1, k2);
}

/// Linking a commit adds exactly that commit to the linked commits, and
/// unlinking it takes exactly that commit out; nothing else changes.
pub proof fn lemma_commit_link_and_unlink(s: ContextView, sha: Seq<char>)
    ensures
        ({
            let t = step(s, ActionView::LinkCommit { sha });
            &&& t.related_commits.contains(sha)
            &&& forall|x: Seq<char>| x != sha ==> t.related_commits.contains(x) == s.related_commits.contains(x)
            &&& (ContextView { related_commits: s.related_commits, ..t }) == s
        }),
        ({
            let t = step(s, ActionView::UnlinkCommit { sha });
            &&& !t.related_commits.contains(sha)
            &&& forall|x: Seq<char>| x != sha ==> t.related_commits.contains(x) == s.related_commits.contains(x)
            &&& (ContextView { related_commits: s.related_commits, ..t }) == s
        }),
{
    assert((ContextView { related_commits: s.related_commits, ..step(s, ActionView::LinkCommit { sha }) }) =~= s);
    assert((ContextView { related_commits: s.related_commits, ..step(s, ActionView::UnlinkCommit { sha }) }) =~= s);
}

/// Linking an issue adds exactly that issue to the linked issues, and
/// unlinking it takes exactly that issue out; nothing else changes.
pub proof fn lemma_issue_link_and_unlink(s: ContextView, issue_id: Seq<u8>)
    ensures
        ({
            let t = step(s, ActionView::LinkIssue { issue_id });
            &&& t.related_issues.contains(issue_id)
            &&& forall|x: Seq<u8>| x != issue_id ==> t.related_issues.contains(x) == s.related_issues.contains(x)
            &&& (ContextView { related_issues: s.related_issues, ..t }) == s
        }),
        ({
            let t = step(s, ActionView::UnlinkIssue { issue_id });
            &&& !t.related_issues.contains(issue_id)
            &&& forall|x: Seq<u8>| x != issue_id ==> t.related_issues.contains(x) == s.related_issues.contains(x)
            &&& (ContextView { related_issues: s.related_issues, ..t }) == s
        }),
{
    assert((ContextView { related_issues: s.related_issues, ..step(s, ActionView::LinkIssue { issue_id }) }) =~= s);
    assert((ContextView { related_issues: s.related_issues, ..step(s, ActionView::UnlinkIssue { issue_id }) }) =~= s);
}

/// Linking a patch adds exactly that patch to the linked patches, and
/// unlinking it takes exactly that patch out; nothing else changes.
pub proof fn lemma_patch_link_and_unlink(s: ContextView, patch_id: Seq<u8>)
    ensures
        ({
            let t = step(s, ActionView::LinkPatch { patch_id });
            &&& t.related_patches.contains(patch_id)
            &&& forall|x: Seq<u8>| x != patch_id ==> t.related_patches.contains(x) == s.related_patches.contains(x)
            &&& (ContextView { related_patches: s.related_patches, ..t }) == s
        }),
        ({
            let t = step(s, ActionView::UnlinkPatch { patch_id });
            &&& !t.related_patches.contains(patch_id)
            &&& forall|x: Seq<u8>| x != patch_id ==> t.related_patches.contains(x) == s.related_patches.contains(x)
            &&& (ContextView { related_patches: s.related_patches, ..t }) == s
        }),
{
    assert((ContextView { related_patches: s.related_patches, ..step(s, ActionView::LinkPatch { patch_id }) }) =~= s);
    assert((ContextView { related_patches: s.related_patches, ..step(s, ActionView::UnlinkPatch { patch_id }) }) =~= s);
}

/// Linking a plan adds exactly that plan to the linked plans, and unlinking
/// it takes exactly that plan out; nothing else changes.
pub proof fn lemma_plan_link_and_unlink(s: ContextView, plan_id: Seq<u8>)
    ensures
        ({
            let t = step(s, ActionView::LinkPlan { plan_id });
            &&& t.related_plans.contains(plan_id)
            &&& forall|x: Seq<u8>| x != plan_id ==> t.related_plans.contains(x) == s.related_plans.contains(x)
            &&& (ContextView { related_plans: s.related_plans, ..t }) == s
        }),
        ({
            let t = step(s, ActionView::UnlinkPlan { plan_id });
            &&& !t.related_plans.contains(plan_id)
            &&& forall|x: Seq<u8>| x != plan_id ==> t.related_plans.contains(x) == s.related_plans.contains(x)
            &&& (ContextView { related_plans: s.related_plans, ..t }) == s
        }),
{
    assert((ContextView { related_plans: s.related_plans, ..step(s, ActionView::LinkPlan { plan_id }) }) =~= s);
    assert((ContextView { related_plans: s.related_plans, ..step(s, ActionView::UnlinkPlan { plan_id }) }) =~= s);
}

/// A repository delegate may act on every context, whoever authored it.
pub proof fn lemma_delegates_are_authorized(s: ContextView, actor: Seq<u8>, delegates: Seq<Seq<u8>>)
    requires
        delegates.contains(actor),
    ensures
        authorized(s, actor, delegates),
{
}

/// The author of a context may act on it, whether or not they are a
/// delegate.
pub proof fn lemma_author_is_authorized(s: ContextView, delegates: Seq<Seq<u8>>)
    ensures
        authorized(s, s.author, delegates),
{
}

/// An actor who is neither a delegate nor the context's author may not act
/// on it.
pub proof fn lemma_others_are_refused(s: ContextView, actor: Seq<u8>, delegates: Seq<Seq<u8>>)
    requires
        !delegates.contains(actor),
        actor != s.author,
    ensures
        !authorized(s, actor, delegates),
{
}

/// `a` is an unlink action.
pub open spec fn unlinks(a: ActionView) -> bool {
    a is UnlinkCommit || a is UnlinkIssue || a is UnlinkPatch || a is UnlinkPlan
}

/// The target of the link action `l` is linked in state `s`.
pub open spec fn linked(s: ContextView, l: ActionView) -> bool {
    match l {
        ActionView::LinkCommit { sha } => s.related_commits.contains(sha),
        ActionView::LinkIssue { issue_id } => s.related_issues.contains(issue_id),
        ActionView::LinkPatch { patch_id } => s.related_patches.contains(patch_id),
        ActionView::LinkPlan { plan_id } => s.related_plans.contains(plan_id),
        _ => false,
    }
}

/// Concurrent operations never override an action that is not an unlink:
/// a link, or an `Open`, always stays.
pub proof fn lemma_only_unlinks_are_overridden(
    s: ContextView,
    delegates: Seq<Seq<u8>>,
    concurrent: Seq<OpView>,
    a: ActionView,
)
    requires
        !unlinks(a),
    ensures
        !overridden(s, delegates, concurrent, a),
{
}

/// Every action of an operation that is not an unlink is among the actions
/// that take effect, whatever the concurrent operations are.
pub proof fn lemma_non_unlinks_are_kept(
    s: ContextView,
    delegates: Seq<Seq<u8>>,
    concurrent: Seq<OpView>,
    actions: Seq<ActionView>,
)
    ensures
        forall|i: int|
            0 <= i < actions.len() && !unlinks(#[trigger] actions[i]) ==> kept_actions(
                s,
                delegates,
                concurrent,
                actions,
            ).contains(actions[i]),
    decreases actions.len(),
{
    if actions.len() > 0 {
        let rest = actions.drop_last();
        lemma_non_unlinks_are_kept(s, delegates, concurrent, rest);
        let kr = kept_actions(s, delegates, concurrent, rest);
        let k = kept_actions(s, delegates, concurrent, actions);
        assert forall|i: int| 0 <= i < actions.len() && !unlinks(#[trigger] actions[i]) implies k.contains(
            actions[i],
        ) by {
            if i < actions.len() - 1 {
                assert(rest[i] == actions[i]);
                assert(kr.contains(rest[i]));
                let j = choose|j: int| 0 <= j < kr.len() && kr[j] == rest[i];
                if overridden(s, delegates, concurrent, actions.last()) {
                    assert(k[j] == actions[i]);
                } else {
                    assert(k == kr.push(actions.last()));
                    assert(k[j] == actions[i]);
                }
            } else {
                lemma_only_unlinks_are_overridden(s, delegates, concurrent, actions[i]);
                assert(k == kr.push(actions.last()));
                assert(k[kr.len() as int] == actions[i]);
            }
        }
    }
}

/// The actions that take effect of two lists one after the other are those
/// of the first followed by those of the second.
pub proof fn lemma_kept_concat(
    s: ContextView,
    delegates: Seq<Seq<u8>>,
    concurrent: Seq<OpView>,
    xs: Seq<ActionView>,
    ys: Seq<ActionView>,
)
    ensures
        kept_actions(s, delegates, concurrent, xs + ys) == kept_actions(s, delegates, concurrent, xs)
            + kept_actions(s, delegates, concurrent, ys),
    decreases ys.len(),
{
    let kx = kept_actions(s, delegates, concurrent, xs);
    if ys.len() == 0 {
        assert(xs + ys =~= xs);
        assert(kx + kept_actions(s, delegates, concurrent, ys) =~= kx);
    } else {
        let rest = ys.drop_last();
        lemma_kept_concat(s, delegates, concurrent, xs, rest);
        assert((xs + ys).drop_last() =~= xs + rest);
        assert((xs + ys).last() == ys.last());
        let kr = kept_actions(s, delegates, concurrent, rest);
        assert((kx + kr).push(ys.last()) =~= kx + kr.push(ys.last()));
    }
}

/// Replaying actions none of which unlinks the target of the link `l`
/// leaves that target linked.
pub proof fn lemma_replay_keeps_linked(s: ContextView, l: ActionView, zs: Seq<ActionView>)
    requires
        linked(s, l),
        forall|j: int| 0 <= j < zs.len() ==> #[trigger] zs[j] != undo_of(l),
    ensures
        linked(replay(s, zs), l),
    decreases zs.len(),
{
    if zs.len() > 0 {
        let rest = zs.drop_last();
        assert forall|j: int| 0 <= j < rest.len() implies #[trigger] rest[j] != undo_of(l) by {
            assert(rest[j] == zs[j]);
        }
        lemma_replay_keeps_linked(s, l, rest);
        assert(zs[zs.len() - 1] != undo_of(l));
    }
}

/// A link that no later action of its operation undoes takes effect: after
/// the operation, whatever operations are concurrent with it, its target is
/// linked.
pub proof fn lemma_last_link_takes_effect(
    s: ContextView,
    delegates: Seq<Seq<u8>>,
    concurrent: Seq<OpView>,
    xs: Seq<ActionView>,
    l: ActionView,
    ys: Seq<ActionView>,
)
    requires
        l is LinkCommit || l is LinkIssue || l is LinkPatch || l is LinkPlan,
        !ys.contains(undo_of(l)),
    ensures
        linked(replay(s, kept_actions(s, delegates, concurrent, xs.push(l) + ys)), l),
{
    let kx = kept_actions(s, delegates, concurrent, xs);
    let ky = kept_actions(s, delegates, concurrent, ys);
    lemma_kept_concat(s, delegates, concurrent, xs.push(l), ys);
    assert(xs.push(l).drop_last() =~= xs);
    lemma_only_unlinks_are_overridden(s, delegates, concurrent, l);
    assert(kept_actions(s, delegates, concurrent, xs.push(l)) == kx.push(l));
    lemma_replay_concat(s, kx.push(l), ky);
    assert(kx.push(l).drop_last() =~= kx);
    let t = replay(s, kx.push(l));
    assert(linked(t, l));
    lemma_kept_members(s, delegates, concurrent, ys);
    assert forall|j: int| 0 <= j < ky.len() implies #[trigger] ky[j] != undo_of(l) by {
        assert(ys.contains(ky[j]));
    }
    lemma_replay_keeps_linked(t, l, ky);
}

} // verus!
