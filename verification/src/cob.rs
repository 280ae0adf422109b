//! Evaluating operations on a context: who may apply which action, and what
//! the state becomes.

use vstd::prelude::*;

use crate::actions::{Action, ActionView, is_unlink, link_of};
use crate::ids::{ActorId, Author, PublicKey, Timestamp};
use crate::laws::lemma_replay_keeps_core;
use crate::state::{Context, ContextView, same_core, step};

verus! {

/// Outcome of an authorization check.
#[derive(PartialEq, Eq, Structural, Clone, Copy, Debug)]
pub enum Authorization {
    /// Action is allowed.
    Allow,
    /// Action is denied.
    Deny,
    /// Authorization cannot be determined.
    Unknown,
}

impl Authorization {
    /// `Allow` when `allowed` holds, `Deny` otherwise.
    pub fn from_bool(allowed: bool) -> (r: Authorization)
        ensures
            r == (if allowed {
                Authorization::Allow
            } else {
                Authorization::Deny
            }),
    {
        if allowed {
            Authorization::Allow
        } else {
            Authorization::Deny
        }
    }
}

/// The part of a repository's identity document that authorization reads:
/// its delegates.
#[derive(Clone, Debug)]
pub struct Doc {
    delegates: Vec<PublicKey>,
}

impl View for Doc {
    type V = Seq<Seq<u8>>;

    closed spec fn view(&self) -> Seq<Seq<u8>> {
        self.delegates@.map_values(|k: PublicKey| k@)
    }
}

impl Doc {
    /// A document with the given delegates.
    pub fn new(delegates: Vec<PublicKey>) -> (d: Doc)
        ensures
            d@ == delegates@.map_values(|k: PublicKey| k@),
    {
        Doc { delegates }
    }

    /// The delegates.
    pub fn delegates(&self) -> (r: &[PublicKey])
        ensures
            r@.map_values(|k: PublicKey| k@) == self@,
    {
        self.delegates.as_slice()
    }

    /// Check if the given key is one of the delegates.
    pub fn is_delegate(&self, key: &PublicKey) -> (r: bool)
        ensures
            r == self@.contains(key@),
    {
        let n = self.delegates.len();
        let mut i: usize = 0;
        while i < n
            invariant
                n == self.delegates@.len(),
                0 <= i <= n,
                forall|j: int| 0 <= j < i ==> self@[j] != key@,
            decreases n - i,
        {
            if self.delegates[i].same_as(key) {
                assert(self@[i as int] == key@);
                return true;
            }
            i = i + 1;
        }
        false
    }
}

/// A context operation: actions signed by one actor at one time.
#[derive(Debug, Clone)]
pub struct Op {
    /// The actions, in order.
    pub actions: Vec<Action>,
    /// The key that signed the operation.
    pub author: ActorId,
    /// When the operation was made.
    pub timestamp: Timestamp,
}

/// What evaluation reads of an operation: its actions, in order, and the
/// key that signed it.
pub struct OpView {
    pub actions: Seq<ActionView>,
    pub author: Seq<u8>,
}

impl View for Op {
    type V = OpView;

    open spec fn view(&self) -> OpView {
        OpView { actions: action_views(self.actions@), author: self.author@ }
    }
}

/// The views of a list of operations.
pub open spec fn op_views(ops: Seq<Op>) -> Seq<OpView> {
    ops.map_values(|o: Op| o@)
}

/// Error evaluating a context operation.
#[derive(Debug)]
pub enum Error {
    /// Action not authorized.
    NotAuthorized(ActorId, Action),
    /// Identity document is missing.
    MissingIdentity,
    /// General error initializing a context.
    Init(&'static str),
}

/// The message of the error given when the first action is not an `Open`.
pub open spec fn first_action_message() -> &'static str {
    "the first action must be of type `Open`"
}

/// Whether `actor` may act on a context in state `s` under a document with
/// the given delegates: delegates may perform every action, and the
/// context's author may perform every action on it.
pub open spec fn authorized(s: ContextView, actor: Seq<u8>, delegates: Seq<Seq<u8>>) -> bool {
    delegates.contains(actor) || actor == s.author
}

/// The state after applying `actions` in order to `s`.
pub open spec fn replay(s: ContextView, actions: Seq<ActionView>) -> ContextView
    decreases actions.len(),
{
    if actions.len() == 0 {
        s
    } else {
        step(replay(s, actions.drop_last()), actions.last())
    }
}

/// The unlink action `a` is overridden, in state `s`, by an operation among
/// `concurrent` whose author is authorized and which links the same target:
/// of a concurrent link and unlink of one target, the link wins.
pub open spec fn overridden(
    s: ContextView,
    delegates: Seq<Seq<u8>>,
    concurrent: Seq<OpView>,
    a: ActionView,
) -> bool {
    &&& is_unlink(a)
    &&& exists|i: int|
        #![trigger concurrent[i]]
        0 <= i < concurrent.len() && authorized(s, concurrent[i].author, delegates)
            && concurrent[i].actions.contains(link_of(a))
}

/// The actions of an operation that take effect in state `s` beside the
/// `concurrent` operations: all of them, in order, but the overridden
/// unlinks.
pub open spec fn kept_actions(
    s: ContextView,
    delegates: Seq<Seq<u8>>,
    concurrent: Seq<OpView>,
    actions: Seq<ActionView>,
) -> Seq<ActionView>
    decreases actions.len(),
{
    if actions.len() == 0 {
        Seq::empty()
    } else {
        let rest = kept_actions(s, delegates, concurrent, actions.drop_last());
        if overridden(s, delegates, concurrent, actions.last()) {
            rest
        } else {
            rest.push(actions.last())
        }
    }
}

/// Whether an unlink is overridden depends on the state only through the
/// context's author.
pub proof fn lemma_overridden_reads_author(
    s: ContextView,
    t: ContextView,
    delegates: Seq<Seq<u8>>,
    concurrent: Seq<OpView>,
    a: ActionView,
)
    requires
        s.author == t.author,
    ensures
        overridden(s, delegates, concurrent, a) == overridden(t, delegates, concurrent, a),
{
    if overridden(s, delegates, concurrent, a) {
        let i = choose|i: int|
            #![trigger concurrent[i]]
            0 <= i < concurrent.len() && authorized(s, concurrent[i].author, delegates)
                && concurrent[i].actions.contains(link_of(a));
        assert(authorized(t, concurrent[i].author, delegates));
    }
    if overridden(t, delegates, concurrent, a) {
        let i = choose|i: int|
            #![trigger concurrent[i]]
            0 <= i < concurrent.len() && authorized(t, concurrent[i].author, delegates)
                && concurrent[i].actions.contains(link_of(a));
        assert(authorized(s, concurrent[i].author, delegates));
    }
}

/// Which actions are kept depends on the state only through the context's
/// author.
pub proof fn lemma_kept_reads_author(
    s: ContextView,
    t: ContextView,
    delegates: Seq<Seq<u8>>,
    concurrent: Seq<OpView>,
    actions: Seq<ActionView>,
)
    requires
        s.author == t.author,
    ensures
        kept_actions(s, delegates, concurrent, actions) == kept_actions(
            t,
            delegates,
            concurrent,
            actions,
        ),
    decreases actions.len(),
{
    if actions.len() > 0 {
        lemma_kept_reads_author(s, t, delegates, concurrent, actions.drop_last());
        lemma_overridden_reads_author(s, t, delegates, concurrent, actions.last());
    }
}

/// With no concurrent operations every action is kept.
pub proof fn lemma_kept_alone(s: ContextView, delegates: Seq<Seq<u8>>, actions: Seq<ActionView>)
    ensures
        kept_actions(s, delegates, Seq::empty(), actions) == actions,
    decreases actions.len(),
{
    if actions.len() > 0 {
        lemma_kept_alone(s, delegates, actions.drop_last());
        assert(actions.drop_last().push(actions.last()) =~= actions);
    }
}

/// The kept actions are actions of the operation, and none of them is an
/// overridden unlink.
pub proof fn lemma_kept_members(
    s: ContextView,
    delegates: Seq<Seq<u8>>,
    concurrent: Seq<OpView>,
    actions: Seq<ActionView>,
)
    ensures
        forall|i: int|
            0 <= i < kept_actions(s, delegates, concurrent, actions).len() ==> {
                let a = #[trigger] kept_actions(s, delegates, concurrent, actions)[i];
                actions.contains(a) && !overridden(s, delegates, concurrent, a)
            },
    decreases actions.len(),
{
    if actions.len() > 0 {
        let rest = actions.drop_last();
        lemma_kept_members(s, delegates, concurrent, rest);
        let k = kept_actions(s, delegates, concurrent, actions);
        assert forall|i: int| 0 <= i < k.len() implies {
            let a = #[trigger] k[i];
            actions.contains(a) && !overridden(s, delegates, concurrent, a)
        } by {
            let kr = kept_actions(s, delegates, concurrent, rest);
            if i < kr.len() {
                assert(k[i] == kr[i]);
                let j = choose|j: int| 0 <= j < rest.len() && rest[j] == kr[i];
                assert(actions[j] == rest[j]);
            } else {
                assert(k[i] == actions.last());
                assert(actions[actions.len() - 1] == actions.last());
            }
        }
    }
}

/// The state that an `Open` action creates, by `author` at `created_at`:
/// its core fields, and no links.
pub open spec fn opened(a: ActionView, author: Seq<u8>, created_at: u64) -> ContextView
    recommends
        a is Open,
{
    match a {
        ActionView::Open {
            title,
            description,
            approach,
            constraints,
            learnings,
            friction,
            open_items,
            files_touched,
        } => ContextView {
            title,
            description,
            approach,
            constraints,
            learnings,
            friction,
            open_items,
            files_touched,
            related_commits: Set::empty(),
            related_issues: Set::empty(),
            related_patches: Set::empty(),
            related_plans: Set::empty(),
            author,
            created_at,
        },
        _ => arbitrary(),
    }
}

/// The views of a list of actions.
pub open spec fn action_views(actions: Seq<Action>) -> Seq<ActionView> {
    actions.map_values(|a: Action| a@)
}

/// An action never changes who the author of a context is, nor when it
/// was created.
pub proof fn lemma_step_keeps_author(s: ContextView, a: ActionView)
    ensures
        step(s, a).author == s.author,
        step(s, a).created_at == s.created_at,
{
}

/// Replaying actions never changes who the author of a context is, nor when
/// it was created.
pub proof fn lemma_replay_keeps_author(s: ContextView, actions: Seq<ActionView>)
    ensures
        replay(s, actions).author == s.author,
        replay(s, actions).created_at == s.created_at,
    decreases actions.len(),
{
    if actions.len() > 0 {
        lemma_replay_keeps_author(s, actions.drop_last());
    }
}

impl Context {
    /// Apply authorization rules on context actions: a delegate may perform
    /// every action; anyone else may perform an action only on a context
    /// they authored.
    pub fn authorization(&self, action: &Action, actor: &ActorId, doc: &Doc) -> (r: Result<
        Authorization,
        Error,
    >)
        ensures
            r == Ok::<Authorization, Error>(
                if authorized(self@, actor@, doc@) {
                    Authorization::Allow
                } else {
                    Authorization::Deny
                },
            ),
    {
        if doc.is_delegate(actor) {
            return Ok(Authorization::Allow);
        }
        let author: ActorId = self.author().id;
        let outcome = match action {
            Action::Open { .. }
            | Action::LinkCommit { .. }
            | Action::UnlinkCommit { .. }
            | Action::LinkIssue { .. }
            | Action::UnlinkIssue { .. }
            | Action::LinkPatch { .. }
            | Action::UnlinkPatch { .. }
            | Action::LinkPlan { .. }
            | Action::UnlinkPlan { .. } => Authorization::from_bool(actor.same_as(&author)),
        };
        Ok(outcome)
    }

    /// Whether the unlink `action` is overridden by a link of the same target
    /// in one of the `concurrent` operations whose author is authorized.
    fn is_overridden(&self, action: &Action, concurrent: &[Op], doc: &Doc) -> (r: bool)
        ensures
            r == overridden(self@, doc@, op_views(concurrent@), action@),
    {
        let ghost cs = op_views(concurrent@);
        let ghost unlink = is_unlink(action@);
        let ghost target = link_of(action@);
        let author: ActorId = self.author().id;
        let n = concurrent.len();
        let mut i: usize = 0;
        while i < n
            invariant
                n == concurrent@.len(),
                cs == op_views(concurrent@),
                unlink == is_unlink(action@),
                target == link_of(action@),
                author@ == self@.author,
                0 <= i <= n,
                forall|j: int|
                    0 <= j < i ==> !(unlink && authorized(self@, #[trigger] cs[j].author, doc@)
                        && cs[j].actions.contains(target)),
            decreases n - i,
        {
            let c = &concurrent[i];
            assert(cs[i as int] == c@);
            if doc.is_delegate(&c.author) || c.author.same_as(&author) {
                let m = c.actions.len();
                let mut k: usize = 0;
                while k < m
                    invariant
                        m == c.actions@.len(),
                        0 <= k <= m,
                        c@.actions == action_views(c.actions@),
                        unlink == is_unlink(action@),
                        target == link_of(action@),
                        0 <= i < n,
                        n == concurrent@.len(),
                        cs == op_views(concurrent@),
                        cs[i as int] == c@,
                        authorized(self@, c@.author, doc@),
                        forall|h: int| 0 <= h < k ==> !(unlink && #[trigger] c@.actions[h] == target),
                    decreases m - k,
                {
                    assert(c@.actions[k as int] == c.actions@[k as int]@);
                    if c.actions[k].relinks(action) {
                        assert(c@.actions.contains(target));
                        assert(unlink && authorized(self@, cs[i as int].author, doc@)
                            && cs[i as int].actions.contains(target));
                        return true;
                    }
                    k = k + 1;
                }
                assert(!(unlink && c@.actions.contains(target))) by {
                    if unlink && c@.actions.contains(target) {
                        let h = choose|h: int| 0 <= h < c@.actions.len() && c@.actions[h] == target;
                        assert(!(unlink && c@.actions[h] == target));
                    }
                }
            }
            i = i + 1;
        }
        false
    }

    /// Applies each action in turn that `author` is authorized to apply,
    /// but an unlink that a concurrent operation overrides. Stops at the
    /// first refused action, leaving the state as it was.
    fn apply_authorized(
        &mut self,
        actions: Vec<Action>,
        concurrent: &[Op],
        author: &ActorId,
        timestamp: Timestamp,
        doc: &Doc,
    ) -> (r: Result<(), Error>)
        ensures
            authorized(old(self)@, author@, doc@) ==> r is Ok && final(self)@ == replay(
                old(self)@,
                kept_actions(old(self)@, doc@, op_views(concurrent@), action_views(actions@)),
            ),
            !authorized(old(self)@, author@, doc@) && actions@.len() == 0 ==> r is Ok
                && final(self)@ == old(self)@,
            !authorized(old(self)@, author@, doc@) && actions@.len() > 0 ==> r == Err::<(), Error>(
                Error::NotAuthorized(*author, actions@[0]),
            ) && final(self)@ == old(self)@,
    {
        let ghost s0 = self@;
        let ghost acts = action_views(actions@);
        let ghost orig = actions@;
        let ghost total = actions@.len();
        let ghost cs = op_views(concurrent@);
        let mut rest = actions;
        while rest.len() > 0
            invariant
                rest@.len() <= total,
                total == acts.len(),
                cs == op_views(concurrent@),
                action_views(rest@) == acts.skip(total - rest@.len()),
                self@ == replay(s0, kept_actions(s0, doc@, cs, acts.take(total - rest@.len()))),
                self@.author == s0.author,
                rest@.len() < total ==> authorized(s0, author@, doc@),
                rest@.len() == total ==> rest@ == orig,
                orig.len() == total,
                orig == actions@,
                s0 == old(self)@,
            decreases rest@.len(),
        {
            let ghost k = total - rest@.len();
            let ghost before = rest@;
            let action = rest.remove(0);
            assert(action == before[0]);
            proof {
                assert(action_views(rest@) =~= acts.skip(k + 1)) by {
                    assert(rest@ =~= before.drop_first());
                    assert forall|j: int| 0 <= j < rest@.len() implies #[trigger] action_views(
                        rest@,
                    )[j] == acts.skip(k + 1)[j] by {
                        assert(action_views(before)[j + 1] == acts.skip(k)[j + 1]);
                    }
                }
                assert(action@ == acts[k]) by {
                    assert(action_views(before)[0] == acts.skip(k)[0]);
                }
            }
            match self.authorization(&action, author, doc) {
                Ok(Authorization::Allow) => {
                    let ghost kept = kept_actions(s0, doc@, cs, acts.take(k));
                    proof {
                        assert(acts.take(k + 1).drop_last() =~= acts.take(k));
                        assert(acts.take(k + 1).last() == acts[k]);
                        lemma_overridden_reads_author(self@, s0, doc@, cs, acts[k]);
                    }
                    if !self.is_overridden(&action, concurrent, doc) {
                        self.apply_action(action, timestamp);
                        proof {
                            assert(kept.push(acts[k]).drop_last() =~= kept);
                            lemma_step_keeps_author(replay(s0, kept), acts[k]);
                        }
                    }
                },
                Ok(Authorization::Deny) => {
                    proof {
                        assert(acts.take(0) =~= Seq::<ActionView>::empty());
                        assert(kept_actions(s0, doc@, cs, acts.take(0)) =~= Seq::<ActionView>::empty());
                    }
                    return Err(Error::NotAuthorized(*author, action));
                },
                Ok(Authorization::Unknown) => {
                    continue;
                },
                Err(e) => {
                    return Err(e);
                },
            }
        }
        assert(acts.take(total as int) =~= acts);
        Ok(())
    }

    /// Initialize a context from its root operation, whose first action must
    /// be an `Open`; the remaining actions are applied in order.
    pub fn from_root(op: Op, doc: Option<&Doc>) -> (r: Result<Context, Error>)
        ensures
            doc is None ==> r matches Err(Error::MissingIdentity),
            doc is Some && (op.actions@.len() == 0 || !(op.actions@[0] is Open)) ==> (r matches Err(
                Error::Init(m),
            ) && m == first_action_message()),
            doc is Some && op.actions@.len() > 0 && op.actions@[0] is Open ==> (r matches Ok(c)
                && c@ == replay(
                opened(op.actions@[0]@, op.author@, op.timestamp@),
                action_views(op.actions@.drop_first()),
            )),
    {
        let doc = match doc {
            Some(d) => d,
            None => {
                return Err(Error::MissingIdentity);
            },
        };
        let Op { actions, author, timestamp } = op;
        let mut actions = actions;
        if actions.len() == 0 {
            return Err(Error::Init("the first action must be of type `Open`"));
        }
        let ghost all = actions@;
        let first = actions.remove(0);
        assert(actions@ =~= all.drop_first());
        match first {
            Action::Open {
                title,
                description,
                approach,
                constraints,
                learnings,
                friction,
                open_items,
                files_touched,
                ..
            } => {
                let mut context = Context::new(
                    title,
                    description,
                    approach,
                    constraints,
                    learnings,
                    friction,
                    open_items,
                    files_touched,
                    Author::new(author),
                    timestamp,
                );
                assert(context@ == opened(all[0]@, author@, timestamp@));
                let none: Vec<Op> = Vec::new();
                proof {
                    assert(op_views(none@) =~= Seq::<OpView>::empty());
                    lemma_kept_alone(context@, doc@, action_views(actions@));
                }
                match context.apply_authorized(actions, none.as_slice(), &author, timestamp, doc) {
                    Ok(()) => Ok(context),
                    Err(e) => Err(e),
                }
            },
            _ => Err(Error::Init("the first action must be of type `Open`")),
        }
    }

    /// Apply an operation to the context, beside the operations that are
    /// `concurrent` with it: an unlink whose target a concurrent operation by
    /// an authorized actor links is skipped, so that of the two the link
    /// wins. When the operation's author is neither a delegate nor the
    /// context's author, the first action is refused and the context stays
    /// as it was. The core fields of the context never change.
    pub fn op(&mut self, op: Op, concurrent: &[Op], doc: Option<&Doc>) -> (r: Result<(), Error>)
        ensures
            same_core(final(self)@, old(self)@),
            doc is None ==> (r matches Err(Error::MissingIdentity) && final(self)@ == old(self)@),
            doc matches Some(d) ==> (authorized(old(self)@, op.author@, d@) ==> r is Ok
                && final(self)@ == replay(
                old(self)@,
                kept_actions(old(self)@, d@, op_views(concurrent@), op@.actions),
            )),
            doc matches Some(d) && !authorized(old(self)@, op.author@, d@) && op.actions@.len()
                == 0 ==> r is Ok && final(self)@ == old(self)@,
            doc matches Some(d) && !authorized(old(self)@, op.author@, d@) && op.actions@.len()
                > 0 ==> r == Err::<(), Error>(Error::NotAuthorized(op.author, op.actions@[0]))
                && final(self)@ == old(self)@,
    {
        let doc = match doc {
            Some(d) => d,
            None => {
                return Err(Error::MissingIdentity);
            },
        };
        let Op { actions, author, timestamp } = op;
        let r = self.apply_authorized(actions, concurrent, &author, timestamp, doc);
        proof {
            lemma_replay_keeps_core(
                old(self)@,
                kept_actions(old(self)@, doc@, op_views(concurrent@), op@.actions),
            );
        }
        r
    }
}

} // verus!
