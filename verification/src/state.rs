//! Context state structures.

use vstd::prelude::*;

use crate::actions::{Action, ActionView};
use crate::ids::{Author, ObjectId, Timestamp};
use crate::sorted_set::SortedSet;

verus! {

/// A file-specific code learning.
#[derive(Debug, Clone)]
pub struct CodeLearning {
    /// File path relative to repo root.
    pub path: String,
    /// Optional start line number.
    pub line: Option<u32>,
    /// Optional end line number.
    pub end_line: Option<u32>,
    /// What was discovered about this code.
    pub finding: String,
}

/// The contents of a [`CodeLearning`].
pub struct CodeLearningView {
    pub path: Seq<char>,
    pub line: Option<u32>,
    pub end_line: Option<u32>,
    pub finding: Seq<char>,
}

impl View for CodeLearning {
    type V = CodeLearningView;

    open spec fn view(&self) -> CodeLearningView {
        CodeLearningView {
            path: self.path@,
            line: self.line,
            end_line: self.end_line,
            finding: self.finding@,
        }
    }
}

/// Summary of learnings from a development session.
#[derive(Debug, Clone)]
pub struct LearningsSummary {
    /// Repository-level patterns and conventions discovered.
    pub repo: Vec<String>,
    /// File-specific code findings.
    pub code: Vec<CodeLearning>,
}

/// The contents of a [`LearningsSummary`].
pub struct LearningsView {
    pub repo: Seq<Seq<char>>,
    pub code: Seq<CodeLearningView>,
}

impl View for LearningsSummary {
    type V = LearningsView;

    open spec fn view(&self) -> LearningsView {
        LearningsView { repo: self.repo.deep_view(), code: self.code@.map_values(|c: CodeLearning| c@) }
    }
}

impl Default for LearningsSummary {
    fn default() -> (r: Self)
        ensures
            r.repo@.len() == 0,
            r.code@.len() == 0,
    {
        LearningsSummary { repo: Vec::new(), code: Vec::new() }
    }
}

/// One structured verification result recorded by a session.
#[derive(Debug, Clone)]
pub struct VerificationResult {
    /// What was checked (a command or a check's name).
    pub check: String,
    /// Whether the check passed.
    pub passed: bool,
}

/// Context state. Accumulates [`Action`]s.
///
/// Represents an observation record from an AI-assisted development session.
/// Core fields are set at creation and never modified; only the link sets
/// change, by set operations.
#[derive(Debug, Clone)]
pub struct Context {
    title: String,
    description: String,
    approach: String,
    constraints: Vec<String>,
    learnings: LearningsSummary,
    friction: Vec<String>,
    open_items: Vec<String>,
    files_touched: SortedSet<String>,
    related_commits: SortedSet<String>,
    related_issues: SortedSet<ObjectId>,
    related_patches: SortedSet<ObjectId>,
    related_plans: SortedSet<ObjectId>,
    author: Author,
    created_at: Timestamp,
}

/// The contents of a [`Context`].
#[verifier::ext_equal]
pub struct ContextView {
    pub title: Seq<char>,
    pub description: Seq<char>,
    pub approach: Seq<char>,
    pub constraints: Seq<Seq<char>>,
    pub learnings: LearningsView,
    pub friction: Seq<Seq<char>>,
    pub open_items: Seq<Seq<char>>,
    pub files_touched: Set<Seq<char>>,
    pub related_commits: Set<Seq<char>>,
    pub related_issues: Set<Seq<u8>>,
    pub related_patches: Set<Seq<u8>>,
    pub related_plans: Set<Seq<u8>>,
    pub author: Seq<u8>,
    pub created_at: u64,
}

impl View for Context {
    type V = ContextView;

    closed spec fn view(&self) -> ContextView {
        ContextView {
            title: self.title@,
            description: self.description@,
            approach: self.approach@,
            constraints: self.constraints.deep_view(),
            learnings: self.learnings@,
            friction: self.friction.deep_view(),
            open_items: self.open_items.deep_view(),
            files_touched: self.files_touched@,
            related_commits: self.related_commits@,
            related_issues: self.related_issues@,
            related_patches: self.related_patches@,
            related_plans: self.related_plans@,
            author: self.author.id@,
            created_at: self.created_at@,
        }
    }
}

/// The state after applying action `a` to state `s`: a link adds to its set
/// and an unlink removes from it. An `Open` changes nothing: the core fields
/// are set when a context is created from its root operation and are never
/// modified afterwards.
pub open spec fn step(s: ContextView, a: ActionView) -> ContextView {
    match a {
        ActionView::Open { .. } => s,
        ActionView::LinkCommit { sha } => ContextView {
            related_commits: s.related_commits.insert(sha),
            ..s
        },
        ActionView::UnlinkCommit { sha } => ContextView {
            related_commits: s.related_commits.remove(sha),
            ..s
        },
        ActionView::LinkIssue { issue_id } => ContextView {
            related_issues: s.related_issues.insert(issue_id),
            ..s
        },
        ActionView::UnlinkIssue { issue_id } => ContextView {
            related_issues: s.related_issues.remove(issue_id),
            ..s
        },
        ActionView::LinkPatch { patch_id } => ContextView {
            related_patches: s.related_patches.insert(patch_id),
            ..s
        },
        ActionView::UnlinkPatch { patch_id } => ContextView {
            related_patches: s.related_patches.remove(patch_id),
            ..s
        },
        ActionView::LinkPlan { plan_id } => ContextView {
            related_plans: s.related_plans.insert(plan_id),
            ..s
        },
        ActionView::UnlinkPlan { plan_id } => ContextView {
            related_plans: s.related_plans.remove(plan_id),
            ..s
        },
    }
}

/// `s` and `t` agree on the core fields of a context (everything that is
/// not a link set), on its author and on its creation time.
pub open spec fn same_core(s: ContextView, t: ContextView) -> bool {
    &&& s.title == t.title
    &&& s.description == t.description
    &&& s.approach == t.approach
    &&& s.constraints == t.constraints
    &&& s.learnings == t.learnings
    &&& s.friction == t.friction
    &&& s.open_items == t.open_items
    &&& s.files_touched == t.files_touched
    &&& s.author == t.author
    &&& s.created_at == t.created_at
}

impl Context {
    /// Create a new context, with no links.
    pub fn new(
        title: String,
        description: String,
        approach: String,
        constraints: Vec<String>,
        learnings: LearningsSummary,
        friction: Vec<String>,
        open_items: Vec<String>,
        files_touched: SortedSet<String>,
        author: Author,
        timestamp: Timestamp,
    ) -> (c: Context)
        ensures
            c@.title == title@,
            c@.description == description@,
            c@.approach == approach@,
            c@.constraints == constraints.deep_view(),
            c@.learnings == learnings@,
            c@.friction == friction.deep_view(),
            c@.open_items == open_items.deep_view(),
            c@.files_touched == files_touched@,
            c@.related_commits == Set::<Seq<char>>::empty(),
            c@.related_issues == Set::<Seq<u8>>::empty(),
            c@.related_patches == Set::<Seq<u8>>::empty(),
            c@.related_plans == Set::<Seq<u8>>::empty(),
            c@.author == author.id@,
            c@.created_at == timestamp@,
    {
        Context {
            title,
            description,
            approach,
            constraints,
            learnings,
            friction,
            open_items,
            files_touched,
            related_commits: SortedSet::new(),
            related_issues: SortedSet::new(),
            related_patches: SortedSet::new(),
            related_plans: SortedSet::new(),
            author,
            created_at: timestamp,
        }
    }

    /// Get the context title.
    pub fn title(&self) -> (r: &str)
        ensures
            r@ == self@.title,
    {
        self.title.as_str()
    }

    /// Get the context description.
    pub fn description(&self) -> (r: &str)
        ensures
            r@ == self@.description,
    {
        self.description.as_str()
    }

    /// Get the approach taken.
    pub fn approach(&self) -> (r: &str)
        ensures
            r@ == self@.approach,
    {
        self.approach.as_str()
    }

    /// Get the constraints.
    pub fn constraints(&self) -> (r: &[String])
        ensures
            r.deep_view() == self@.constraints,
    {
        let r = self.constraints.as_slice();
        assert(r.deep_view() =~= self.constraints.deep_view());
        r
    }

    /// Get the learnings summary.
    pub fn learnings(&self) -> (r: &LearningsSummary)
        ensures
            r@ == self@.learnings,
    {
        &self.learnings
    }

    /// Get the friction points.
    pub fn friction(&self) -> (r: &[String])
        ensures
            r.deep_view() == self@.friction,
    {
        let r = self.friction.as_slice();
        assert(r.deep_view() =~= self.friction.deep_view());
        r
    }

    /// Get the open items.
    pub fn open_items(&self) -> (r: &[String])
        ensures
            r.deep_view() == self@.open_items,
    {
        let r = self.open_items.as_slice();
        assert(r.deep_view() =~= self.open_items.deep_view());
        r
    }

    /// Get the files touched.
    pub fn files_touched(&self) -> (r: &SortedSet<String>)
        ensures
            r@ == self@.files_touched,
    {
        &self.files_touched
    }

    /// Get the related commits.
    pub fn related_commits(&self) -> (r: &SortedSet<String>)
        ensures
            r@ == self@.related_commits,
    {
        &self.related_commits
    }

    /// Get the related issues.
    pub fn related_issues(&self) -> (r: &SortedSet<ObjectId>)
        ensures
            r@ == self@.related_issues,
    {
        &self.related_issues
    }

    /// Get the related patches.
    pub fn related_patches(&self) -> (r: &SortedSet<ObjectId>)
        ensures
            r@ == self@.related_patches,
    {
        &self.related_patches
    }

    /// Get the related plans.
    pub fn related_plans(&self) -> (r: &SortedSet<ObjectId>)
        ensures
            r@ == self@.related_plans,
    {
        &self.related_plans
    }

    /// Get the context author.
    pub fn author(&self) -> (r: &Author)
        ensures
            r.id@ == self@.author,
    {
        &self.author
    }

    /// Get when the context was created.
    pub fn created_at(&self) -> (r: Timestamp)
        ensures
            r@ == self@.created_at,
    {
        self.created_at
    }

    /// Apply a single action to the context. A link or an unlink changes its
    /// set; an `Open` leaves the context as it is, since the core fields are
    /// set once, at creation.
    pub fn apply_action(&mut self, action: Action, _timestamp: Timestamp)
        ensures
            final(self)@ == step(old(self)@, action@),
    {
        match action {
            Action::Open { .. } => {},
            Action::LinkCommit { sha } => {
                self.related_commits.insert(sha);
            },
            Action::UnlinkCommit { sha } => {
                self.related_commits.remove(&sha);
            },
            Action::LinkIssue { issue_id } => {
                self.related_issues.insert(issue_id);
            },
            Action::UnlinkIssue { issue_id } => {
                self.related_issues.remove(&issue_id);
            },
            Action::LinkPatch { patch_id } => {
                self.related_patches.insert(patch_id);
            },
            Action::UnlinkPatch { patch_id } => {
                self.related_patches.remove(&patch_id);
            },
            Action::LinkPlan { plan_id } => {
                self.related_plans.insert(plan_id);
            },
            Action::UnlinkPlan { plan_id } => {
                self.related_plans.remove(&plan_id);
            },
        }
    }
}

} // verus!
