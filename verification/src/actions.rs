//! Context actions that can be applied to the context state.

use vstd::prelude::*;

use crate::ids::ObjectId;
use crate::sorted_set::{SortedSet, same_key};
use crate::state::{LearningsSummary, LearningsView, VerificationResult};

verus! {

/// A file embedded in an operation, with its name and the URI of its content.
#[derive(Clone, Debug)]
pub struct Embed {
    pub name: String,
    pub content: String,
}

/// Context action. Represents all possible mutations to a context's state.
#[derive(Debug, Clone)]
pub enum Action {
    /// Open a new context (initial action). Sets all immutable core fields.
    Open {
        /// Brief identifier for the session.
        title: String,
        /// Free-form description (for standalone contexts without a plan).
        description: String,
        /// What was tried, why the chosen path won, deliberate non-decisions.
        approach: String,
        /// Assumptions the work depends on.
        constraints: Vec<String>,
        /// What was discovered about the codebase.
        learnings: LearningsSummary,
        /// Problems encountered during the session.
        friction: Vec<String>,
        /// Unfinished work, tech debt introduced.
        open_items: Vec<String>,
        /// Which files were actually modified.
        files_touched: SortedSet<String>,
        /// Structured verification results from the session.
        verification: Vec<VerificationResult>,
        /// Plan task ID that produced this context.
        task_id: Option<String>,
        /// Embedded content (e.g. session transcripts as git blobs).
        embeds: Vec<Embed>,
    },
    /// Link a git commit SHA to this context.
    LinkCommit {
        /// Git commit SHA.
        sha: String,
    },
    /// Unlink a git commit SHA from this context.
    UnlinkCommit {
        /// Git commit SHA.
        sha: String,
    },
    /// Link a Radicle issue to this context.
    LinkIssue {
        /// Issue object ID.
        issue_id: ObjectId,
    },
    /// Unlink a Radicle issue from this context.
    UnlinkIssue {
        /// Issue object ID.
        issue_id: ObjectId,
    },
    /// Link a Radicle patch to this context.
    LinkPatch {
        /// Patch object ID.
        patch_id: ObjectId,
    },
    /// Unlink a Radicle patch from this context.
    UnlinkPatch {
        /// Patch object ID.
        patch_id: ObjectId,
    },
    /// Link a Radicle plan to this context.
    LinkPlan {
        /// Plan object ID.
        plan_id: ObjectId,
    },
    /// Unlink a Radicle plan from this context.
    UnlinkPlan {
        /// Plan object ID.
        plan_id: ObjectId,
    },
}

/// What the context state reads of an action.
pub enum ActionView {
    Open {
        title: Seq<char>,
        description: Seq<char>,
        approach: Seq<char>,
        constraints: Seq<Seq<char>>,
        learnings: LearningsView,
        friction: Seq<Seq<char>>,
        open_items: Seq<Seq<char>>,
        files_touched: Set<Seq<char>>,
    },
    LinkCommit { sha: Seq<char> },
    UnlinkCommit { sha: Seq<char> },
    LinkIssue { issue_id: Seq<u8> },
    UnlinkIssue { issue_id: Seq<u8> },
    LinkPatch { patch_id: Seq<u8> },
    UnlinkPatch { patch_id: Seq<u8> },
    LinkPlan { plan_id: Seq<u8> },
    UnlinkPlan { plan_id: Seq<u8> },
}

impl View for Action {
    type V = ActionView;

    open spec fn view(&self) -> ActionView {
        match self {
            Action::Open {
                title,
                description,
                approach,
                constraints,
                learnings,
                friction,
                open_items,
                files_touched,
                ..
            } => ActionView::Open {
                title: title@,
                description: description@,
                approach: approach@,
                constraints: constraints.deep_view(),
                learnings: learnings@,
                friction: friction.deep_view(),
                open_items: open_items.deep_view(),
                files_touched: files_touched@,
            },
            Action::LinkCommit { sha } => ActionView::LinkCommit { sha: sha@ },
            Action::UnlinkCommit { sha } => ActionView::UnlinkCommit { sha: sha@ },
            Action::LinkIssue { issue_id } => ActionView::LinkIssue { issue_id: issue_id@ },
            Action::UnlinkIssue { issue_id } => ActionView::UnlinkIssue { issue_id: issue_id@ },
            Action::LinkPatch { patch_id } => ActionView::LinkPatch { patch_id: patch_id@ },
            Action::UnlinkPatch { patch_id } => ActionView::UnlinkPatch { patch_id: patch_id@ },
            Action::LinkPlan { plan_id } => ActionView::LinkPlan { plan_id: plan_id@ },
            Action::UnlinkPlan { plan_id } => ActionView::UnlinkPlan { plan_id: plan_id@ },
        }
    }
}

/// `a` unlinks a commit, an issue, a patch or a plan.
pub open spec fn is_unlink(a: ActionView) -> bool {
    a is UnlinkCommit || a is UnlinkIssue || a is UnlinkPatch || a is UnlinkPlan
}

/// The link action whose target the unlink action `a` removes.
pub open spec fn link_of(a: ActionView) -> ActionView
    recommends
        is_unlink(a),
{
    match a {
        ActionView::UnlinkCommit { sha } => ActionView::LinkCommit { sha },
        ActionView::UnlinkIssue { issue_id } => ActionView::LinkIssue { issue_id },
        ActionView::UnlinkPatch { patch_id } => ActionView::LinkPatch { patch_id },
        ActionView::UnlinkPlan { plan_id } => ActionView::LinkPlan { plan_id },
        _ => a,
    }
}

/// The message given when a context is created from flags without a title.
pub open spec fn missing_title_message() -> &'static str {
    "title is required (provide as argument or use --json)"
}

impl Action {
    /// The `Open` action that creates a context with the given fields and
    /// embeds, and no verification results or task.
    pub fn open(
        title: String,
        description: String,
        approach: String,
        constraints: Vec<String>,
        learnings: LearningsSummary,
        friction: Vec<String>,
        open_items: Vec<String>,
        files_touched: SortedSet<String>,
        embeds: Vec<Embed>,
    ) -> (a: Action)
        ensures
            a@ == (ActionView::Open {
                title: title@,
                description: description@,
                approach: approach@,
                constraints: constraints.deep_view(),
                learnings: learnings@,
                friction: friction.deep_view(),
                open_items: open_items.deep_view(),
                files_touched: files_touched@,
            }),
            a matches Action::Open { verification, task_id, embeds: e, .. } && verification@.len()
                == 0 && task_id is None && e@ == embeds@,
    {
        Action::Open {
            title,
            description,
            approach,
            constraints,
            learnings,
            friction,
            open_items,
            files_touched,
            verification: Vec::new(),
            task_id: None,
            embeds,
        }
    }

    /// The `Open` action that the command line builds from its flags: the
    /// title is required; a missing description or approach is empty; the
    /// files are collected into a set; there are no learnings and no embeds.
    pub fn open_from_flags(
        title: Option<String>,
        description: Option<String>,
        approach: Option<String>,
        constraint: Vec<String>,
        friction: Vec<String>,
        open_item: Vec<String>,
        file: Vec<String>,
    ) -> (r: Result<Action, &'static str>)
        ensures
            title is None ==> r == Err::<Action, &'static str>(missing_title_message()),
            title matches Some(t) ==> (r matches Ok(a) && a@ == (ActionView::Open {
                title: t@,
                description: match description {
                    Some(d) => d@,
                    None => Seq::empty(),
                },
                approach: match approach {
                    Some(p) => p@,
                    None => Seq::empty(),
                },
                constraints: constraint.deep_view(),
                learnings: LearningsView { repo: Seq::empty(), code: Seq::empty() },
                friction: friction.deep_view(),
                open_items: open_item.deep_view(),
                files_touched: file.deep_view().to_set(),
            }) && (a matches Action::Open { verification, task_id, embeds, .. }
                && verification@.len() == 0 && task_id is None && embeds@.len() == 0)),
    {
        let t = match title {
            Some(t) => t,
            None => {
                return Err("title is required (provide as argument or use --json)");
            },
        };
        let description = match description {
            Some(d) => d,
            None => String::new(),
        };
        let approach = match approach {
            Some(p) => p,
            None => String::new(),
        };
        let ghost files = file.deep_view();
        let files_touched = SortedSet::from_vec(file);
        assert(files_touched@ =~= files.to_set()) by {
            assert(files =~= file@.map_values(|k: String| k@));
        }
        let learnings = LearningsSummary::default();
        assert(learnings@.repo =~= Seq::<Seq<char>>::empty());
        assert(learnings@.code =~= Seq::<crate::state::CodeLearningView>::empty());
        Ok(
            Action::open(
                t,
                description,
                approach,
                constraint,
                learnings,
                friction,
                open_item,
                files_touched,
                Vec::new(),
            ),
        )
    }

    /// Whether this action links the target that the unlink action `unlink`
    /// removes.
    pub fn relinks(&self, unlink: &Action) -> (r: bool)
        ensures
            r == (is_unlink(unlink@) && self@ == link_of(unlink@)),
    {
        match unlink {
            Action::UnlinkCommit { sha: x } => match self {
                Action::LinkCommit { sha: y } => same_key(y, x),
                _ => false,
            },
            Action::UnlinkIssue { issue_id: x } => match self {
                Action::LinkIssue { issue_id: y } => y.same_as(x),
                _ => false,
            },
            Action::UnlinkPatch { patch_id: x } => match self {
                Action::LinkPatch { patch_id: y } => y.same_as(x),
                _ => false,
            },
            Action::UnlinkPlan { plan_id: x } => match self {
                Action::LinkPlan { plan_id: y } => y.same_as(x),
                _ => false,
            },
            _ => false,
        }
    }

    /// No context action produces a sub-identifier.
    pub fn produces_identifier(&self) -> (r: bool)
        ensures
            !r,
    {
        false
    }
}

} // verus!
