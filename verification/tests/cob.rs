use radicle_context_cob::{
    Action, Authorization, Context, Doc, Error, LearningsSummary, ObjectId, Op, PublicKey,
    SortedSet, Timestamp,
};

fn key(b: u8) -> PublicKey {
    PublicKey::from_bytes([b; 32])
}

fn id(b: u8) -> ObjectId {
    ObjectId::from_bytes([b; 20])
}

fn open(title: &str) -> Action {
    Action::open(
        title.to_string(),
        "desc".to_string(),
        "approach".to_string(),
        vec!["constraint".to_string()],
        LearningsSummary::default(),
        vec!["friction".to_string()],
        vec!["item".to_string()],
        SortedSet::from_vec(vec!["src/lib.rs".to_string()]),
        vec![],
    )
}

fn root(author: u8, actions: Vec<Action>) -> Op {
    Op {
        actions,
        author: key(author),
        timestamp: Timestamp::from_millis(1000),
    }
}

#[derive(Debug, PartialEq, Clone)]
struct Snapshot {
    title: String,
    description: String,
    approach: String,
    constraints: Vec<String>,
    friction: Vec<String>,
    open_items: Vec<String>,
    files: Vec<String>,
    commits: Vec<String>,
    issues: Vec<[u8; 20]>,
    patches: Vec<[u8; 20]>,
    plans: Vec<[u8; 20]>,
    author: [u8; 32],
    created_at: u64,
}

fn ids(s: &SortedSet<ObjectId>) -> Vec<[u8; 20]> {
    s.items().iter().map(|i| i.to_bytes()).collect()
}

fn snapshot(c: &Context) -> Snapshot {
    Snapshot {
        title: c.title().to_string(),
        description: c.description().to_string(),
        approach: c.approach().to_string(),
        constraints: c.constraints().to_vec(),
        friction: c.friction().to_vec(),
        open_items: c.open_items().to_vec(),
        files: c.files_touched().items().to_vec(),
        commits: c.related_commits().items().to_vec(),
        issues: ids(c.related_issues()),
        patches: ids(c.related_patches()),
        plans: ids(c.related_plans()),
        author: c.author().id.to_bytes(),
        created_at: c.created_at().as_millis(),
    }
}

fn context_by(author: u8) -> Context {
    Context::from_root(root(author, vec![open("Session")]), Some(&Doc::new(vec![]))).unwrap()
}

#[test]
fn from_root_sets_the_core_fields_and_author() {
    let c = context_by(1);
    let s = snapshot(&c);
    assert_eq!(s.title, "Session");
    assert_eq!(s.description, "desc");
    assert_eq!(s.approach, "approach");
    assert_eq!(s.constraints, vec!["constraint".to_string()]);
    assert_eq!(s.friction, vec!["friction".to_string()]);
    assert_eq!(s.open_items, vec!["item".to_string()]);
    assert_eq!(s.files, vec!["src/lib.rs".to_string()]);
    assert!(s.commits.is_empty() && s.issues.is_empty() && s.patches.is_empty() && s.plans.is_empty());
    assert_eq!(s.author, [1u8; 32]);
    assert_eq!(s.created_at, 1000);
}

#[test]
fn from_root_applies_the_remaining_actions() {
    let op = root(
        1,
        vec![
            open("Session"),
            Action::LinkCommit { sha: "abc".to_string() },
            Action::LinkIssue { issue_id: id(3) },
            Action::LinkPatch { patch_id: id(4) },
            Action::LinkPlan { plan_id: id(5) },
            Action::UnlinkPatch { patch_id: id(4) },
        ],
    );
    let c = Context::from_root(op, Some(&Doc::new(vec![]))).unwrap();
    let s = snapshot(&c);
    assert_eq!(s.commits, vec!["abc".to_string()]);
    assert_eq!(s.issues, vec![[3u8; 20]]);
    assert!(s.patches.is_empty());
    assert_eq!(s.plans, vec![[5u8; 20]]);
}

#[test]
fn from_root_needs_the_identity_document() {
    let r = Context::from_root(root(1, vec![open("Session")]), None);
    assert!(matches!(r, Err(Error::MissingIdentity)));
}

#[test]
fn from_root_needs_an_open_first() {
    let doc = Doc::new(vec![]);
    let r = Context::from_root(
        root(1, vec![Action::LinkCommit { sha: "abc".to_string() }, open("x")]),
        Some(&doc),
    );
    assert!(matches!(r, Err(Error::Init("the first action must be of type `Open`"))));
    let r = Context::from_root(root(1, vec![]), Some(&doc));
    assert!(matches!(r, Err(Error::Init("the first action must be of type `Open`"))));
}

#[test]
fn delegates_may_do_everything() {
    let c = context_by(1);
    let doc = Doc::new(vec![key(9), key(2)]);
    assert!(doc.is_delegate(&key(2)));
    assert!(!doc.is_delegate(&key(3)));
    let a = Action::LinkCommit { sha: "x".to_string() };
    assert_eq!(c.authorization(&a, &key(2), &doc).unwrap(), Authorization::Allow);
    assert_eq!(c.authorization(&open("y"), &key(9), &doc).unwrap(), Authorization::Allow);
}

#[test]
fn only_the_author_of_a_context_acts_on_it_otherwise() {
    let c = context_by(1);
    let doc = Doc::new(vec![key(9)]);
    let a = Action::UnlinkPlan { plan_id: id(1) };
    assert_eq!(c.authorization(&a, &key(1), &doc).unwrap(), Authorization::Allow);
    assert_eq!(c.authorization(&a, &key(3), &doc).unwrap(), Authorization::Deny);
    assert_eq!(c.authorization(&open("y"), &key(3), &doc).unwrap(), Authorization::Deny);
}

#[test]
fn authorization_from_bool() {
    assert_eq!(Authorization::from_bool(true), Authorization::Allow);
    assert_eq!(Authorization::from_bool(false), Authorization::Deny);
}

#[test]
fn op_by_the_author_applies_its_actions() {
    let mut c = context_by(1);
    let doc = Doc::new(vec![]);
    let r = c.op(
        root(1, vec![Action::LinkCommit { sha: "b".to_string() }, Action::LinkCommit { sha: "a".to_string() }]),
        &[],
        Some(&doc),
    );
    assert!(r.is_ok());
    assert_eq!(snapshot(&c).commits, vec!["a".to_string(), "b".to_string()]);
}

#[test]
fn op_by_a_delegate_applies_its_actions() {
    let mut c = context_by(1);
    let doc = Doc::new(vec![key(7)]);
    let r = c.op(root(7, vec![Action::LinkIssue { issue_id: id(8) }]), &[], Some(&doc));
    assert!(r.is_ok());
    assert_eq!(snapshot(&c).issues, vec![[8u8; 20]]);
}

#[test]
fn op_by_a_stranger_is_refused_and_changes_nothing() {
    let mut c = context_by(1);
    let before = snapshot(&c);
    let doc = Doc::new(vec![key(7)]);
    let r = c.op(
        root(3, vec![Action::LinkCommit { sha: "first".to_string() }, Action::LinkIssue { issue_id: id(8) }]),
        &[],
        Some(&doc),
    );
    match r {
        Err(Error::NotAuthorized(actor, Action::LinkCommit { sha })) => {
            assert_eq!(actor.to_bytes(), [3u8; 32]);
            assert_eq!(sha, "first");
        }
        other => panic!("unexpected result {other:?}"),
    }
    assert_eq!(snapshot(&c), before);
}

#[test]
fn empty_op_by_a_stranger_is_accepted() {
    let mut c = context_by(1);
    let before = snapshot(&c);
    let r = c.op(root(3, vec![]), &[], Some(&Doc::new(vec![])));
    assert!(r.is_ok());
    assert_eq!(snapshot(&c), before);
}

#[test]
fn op_needs_the_identity_document() {
    let mut c = context_by(1);
    let before = snapshot(&c);
    let r = c.op(root(1, vec![Action::LinkCommit { sha: "a".to_string() }]), &[], None);
    assert!(matches!(r, Err(Error::MissingIdentity)));
    assert_eq!(snapshot(&c), before);
}

#[test]
fn a_later_open_leaves_the_core_fields_alone() {
    let mut c = context_by(1);
    c.apply_action(Action::LinkCommit { sha: "a".to_string() }, Timestamp::from_millis(5));
    let before = snapshot(&c);
    c.apply_action(open("Second"), Timestamp::from_millis(5));
    let s = snapshot(&c);
    assert_eq!(s, before);
    assert_eq!(s.title, "Session");
    assert_eq!(s.commits, vec!["a".to_string()]);
}

#[test]
fn an_op_with_an_open_does_not_retitle_the_context() {
    let mut c = context_by(1);
    let before = snapshot(&c);
    let r = c.op(root(1, vec![open("Renamed"), Action::LinkCommit { sha: "c".to_string() }]), &[], Some(&Doc::new(vec![])));
    assert!(r.is_ok());
    let s = snapshot(&c);
    assert_eq!(s.title, "Session");
    assert_eq!(s.commits, vec!["c".to_string()]);
    let mut expected = before;
    expected.commits = vec!["c".to_string()];
    assert_eq!(s, expected);
}

#[test]
fn a_second_open_in_the_root_op_is_ignored() {
    let c = Context::from_root(root(1, vec![open("First"), open("Second")]), Some(&Doc::new(vec![]))).unwrap();
    assert_eq!(snapshot(&c).title, "First");
}

#[test]
fn applying_an_action_twice_is_applying_it_once() {
    let mut once = context_by(1);
    let mut twice = context_by(1);
    once.apply_action(Action::LinkPlan { plan_id: id(2) }, Timestamp::from_millis(1));
    twice.apply_action(Action::LinkPlan { plan_id: id(2) }, Timestamp::from_millis(1));
    twice.apply_action(Action::LinkPlan { plan_id: id(2) }, Timestamp::from_millis(1));
    assert_eq!(snapshot(&once), snapshot(&twice));
}

#[test]
fn non_conflicting_actions_commute() {
    let mut ab = context_by(1);
    let mut ba = context_by(1);
    ab.apply_action(Action::LinkCommit { sha: "a".to_string() }, Timestamp::from_millis(1));
    ab.apply_action(Action::UnlinkCommit { sha: "b".to_string() }, Timestamp::from_millis(1));
    ab.apply_action(Action::LinkIssue { issue_id: id(1) }, Timestamp::from_millis(1));
    ba.apply_action(Action::LinkIssue { issue_id: id(1) }, Timestamp::from_millis(1));
    ba.apply_action(Action::UnlinkCommit { sha: "b".to_string() }, Timestamp::from_millis(1));
    ba.apply_action(Action::LinkCommit { sha: "a".to_string() }, Timestamp::from_millis(1));
    assert_eq!(snapshot(&ab), snapshot(&ba));
}

#[test]
fn link_and_unlink_in_sequence_keep_their_order() {
    let mut link_last = context_by(1);
    let mut unlink_last = context_by(1);
    link_last.apply_action(Action::UnlinkCommit { sha: "a".to_string() }, Timestamp::from_millis(1));
    link_last.apply_action(Action::LinkCommit { sha: "a".to_string() }, Timestamp::from_millis(1));
    unlink_last.apply_action(Action::LinkCommit { sha: "a".to_string() }, Timestamp::from_millis(1));
    unlink_last.apply_action(Action::UnlinkCommit { sha: "a".to_string() }, Timestamp::from_millis(1));
    assert_eq!(snapshot(&link_last).commits, vec!["a".to_string()]);
    assert!(snapshot(&unlink_last).commits.is_empty());
}

#[test]
fn unlinking_a_new_link_restores_the_state() {
    let mut c = context_by(1);
    let before = snapshot(&c);
    c.apply_action(Action::LinkPatch { patch_id: id(6) }, Timestamp::from_millis(1));
    assert_eq!(snapshot(&c).patches, vec![[6u8; 20]]);
    c.apply_action(Action::UnlinkPatch { patch_id: id(6) }, Timestamp::from_millis(1));
    assert_eq!(snapshot(&c), before);
}

#[test]
fn links_leave_the_core_fields_alone() {
    let mut c = context_by(1);
    let before = snapshot(&c);
    c.apply_action(Action::LinkCommit { sha: "a".to_string() }, Timestamp::from_millis(9));
    c.apply_action(Action::LinkPlan { plan_id: id(1) }, Timestamp::from_millis(9));
    c.apply_action(Action::UnlinkIssue { issue_id: id(1) }, Timestamp::from_millis(9));
    let after = snapshot(&c);
    let core = |s: &Snapshot| {
        let mut s = s.clone();
        s.commits.clear();
        s.issues.clear();
        s.patches.clear();
        s.plans.clear();
        s
    };
    assert_eq!(core(&after), core(&before));
}

#[test]
fn new_context_has_no_links() {
    let c = Context::new(
        "t".to_string(),
        String::new(),
        String::new(),
        vec![],
        LearningsSummary::default(),
        vec![],
        vec![],
        SortedSet::new(),
        radicle_context_cob::Author::new(key(4)),
        Timestamp::from_millis(77),
    );
    let s = snapshot(&c);
    assert_eq!(s.title, "t");
    assert!(s.commits.is_empty() && s.issues.is_empty() && s.patches.is_empty() && s.plans.is_empty());
    assert_eq!(s.author, [4u8; 32]);
    assert_eq!(s.created_at, 77);
    assert!(c.learnings().repo.is_empty());
}

#[test]
fn one_op_of_two_actions_is_two_ops_of_one() {
    let doc = Doc::new(vec![]);
    let mut together = context_by(1);
    let mut apart = context_by(1);
    together
        .op(
            root(1, vec![Action::LinkCommit { sha: "a".to_string() }, Action::UnlinkCommit { sha: "a".to_string() }]),
            &[],
            Some(&doc),
        )
        .unwrap();
    apart.op(root(1, vec![Action::LinkCommit { sha: "a".to_string() }]), &[], Some(&doc)).unwrap();
    apart.op(root(1, vec![Action::UnlinkCommit { sha: "a".to_string() }]), &[], Some(&doc)).unwrap();
    assert_eq!(snapshot(&together), snapshot(&apart));
    assert!(snapshot(&apart).commits.is_empty());
}

fn link_op(author: u8, sha: &str) -> Op {
    root(author, vec![Action::LinkCommit { sha: sha.to_string() }])
}

fn unlink_op(author: u8, sha: &str) -> Op {
    root(author, vec![Action::UnlinkCommit { sha: sha.to_string() }])
}

#[test]
fn concurrent_link_and_unlink_commute_and_the_link_wins() {
    let doc = Doc::new(vec![]);
    let link = link_op(1, "abc");
    let unlink = unlink_op(1, "abc");

    let mut link_first = context_by(1);
    link_first.op(link.clone(), &[unlink.clone()], Some(&doc)).unwrap();
    link_first.op(unlink.clone(), &[link.clone()], Some(&doc)).unwrap();

    let mut unlink_first = context_by(1);
    unlink_first.op(unlink.clone(), &[link.clone()], Some(&doc)).unwrap();
    unlink_first.op(link.clone(), &[unlink.clone()], Some(&doc)).unwrap();

    assert_eq!(snapshot(&link_first), snapshot(&unlink_first));
    assert_eq!(snapshot(&link_first).commits, vec!["abc".to_string()]);
}

#[test]
fn concurrent_unlink_of_an_existing_link_is_overridden_for_every_set() {
    let doc = Doc::new(vec![key(7)]);
    let mut c = context_by(1);
    c.op(
        root(
            1,
            vec![
                Action::LinkIssue { issue_id: id(1) },
                Action::LinkPatch { patch_id: id(2) },
                Action::LinkPlan { plan_id: id(3) },
            ],
        ),
        &[],
        Some(&doc),
    )
    .unwrap();
    let relink = root(
        7,
        vec![
            Action::LinkIssue { issue_id: id(1) },
            Action::LinkPatch { patch_id: id(2) },
            Action::LinkPlan { plan_id: id(3) },
        ],
    );
    c.op(
        root(
            1,
            vec![
                Action::UnlinkIssue { issue_id: id(1) },
                Action::UnlinkPatch { patch_id: id(2) },
                Action::UnlinkPlan { plan_id: id(3) },
            ],
        ),
        &[relink],
        Some(&doc),
    )
    .unwrap();
    let s = snapshot(&c);
    assert_eq!(s.issues, vec![[1u8; 20]]);
    assert_eq!(s.patches, vec![[2u8; 20]]);
    assert_eq!(s.plans, vec![[3u8; 20]]);
}

#[test]
fn concurrent_link_of_another_target_does_not_stop_an_unlink() {
    let doc = Doc::new(vec![]);
    let mut c = context_by(1);
    c.op(link_op(1, "a"), &[], Some(&doc)).unwrap();
    c.op(unlink_op(1, "a"), &[link_op(1, "b"), unlink_op(1, "a")], Some(&doc)).unwrap();
    assert!(snapshot(&c).commits.is_empty());
}

#[test]
fn concurrent_link_by_an_unauthorized_actor_does_not_stop_an_unlink() {
    let doc = Doc::new(vec![]);
    let mut c = context_by(1);
    c.op(link_op(1, "a"), &[], Some(&doc)).unwrap();
    c.op(unlink_op(1, "a"), &[link_op(9, "a")], Some(&doc)).unwrap();
    assert!(snapshot(&c).commits.is_empty());
}

#[test]
fn concurrent_unlink_does_not_stop_a_link() {
    let doc = Doc::new(vec![]);
    let mut c = context_by(1);
    c.op(link_op(1, "a"), &[unlink_op(1, "a")], Some(&doc)).unwrap();
    assert_eq!(snapshot(&c).commits, vec!["a".to_string()]);
}

#[test]
fn a_refused_op_is_refused_whatever_is_concurrent() {
    let doc = Doc::new(vec![]);
    let mut c = context_by(1);
    let before = snapshot(&c);
    let r = c.op(unlink_op(3, "a"), &[link_op(1, "a")], Some(&doc));
    assert!(matches!(r, Err(Error::NotAuthorized(_, Action::UnlinkCommit { .. }))));
    assert_eq!(snapshot(&c), before);
}
