use radicle_context_cob::render::{
    decimal_string, list_entry, list_summary, location_text, render_show, short_id, show,
};
use radicle_context_cob::{
    Action, CodeLearning, Context, Doc, LearningsSummary, ObjectId, Op, PublicKey, SortedSet,
    Timestamp,
};

fn learning(path: &str, line: Option<u32>, end_line: Option<u32>, finding: &str) -> CodeLearning {
    CodeLearning {
        path: path.to_string(),
        line,
        end_line,
        finding: finding.to_string(),
    }
}

fn sample() -> Context {
    let open = Action::open(
        "Implement auth flow".to_string(),
        "Session".to_string(),
        String::new(),
        vec!["c1".to_string()],
        LearningsSummary {
            repo: vec!["r1".to_string()],
            code: vec![
                learning("src/auth.rs", Some(42), None, "f"),
                learning("a.rs", Some(1), Some(5), "g"),
                learning("b.rs", None, Some(3), "h"),
            ],
        },
        vec![],
        vec!["o".to_string()],
        SortedSet::from_vec(vec!["z.rs".to_string(), "a.rs".to_string()]),
        vec![],
    );
    let op = Op {
        actions: vec![
            open,
            Action::LinkCommit { sha: "abc".to_string() },
            Action::LinkIssue { issue_id: ObjectId::from_bytes([1u8; 20]) },
        ],
        author: PublicKey::from_bytes([2u8; 32]),
        timestamp: Timestamp::from_millis(1),
    };
    Context::from_root(op, Some(&Doc::new(vec![]))).unwrap()
}

#[test]
fn decimal_strings() {
    assert_eq!(decimal_string(0), "0");
    assert_eq!(decimal_string(7), "7");
    assert_eq!(decimal_string(42), "42");
    assert_eq!(decimal_string(1000), "1000");
    assert_eq!(decimal_string(u128::MAX), u128::MAX.to_string());
}

#[test]
fn short_id_is_seven_hex_digits() {
    let id = ObjectId::from_str("d96f02665bf896324e2f0a4c18d08a768135ef2e").unwrap();
    assert_eq!(short_id(&id), "d96f026");
}

#[test]
fn locations_of_code_learnings() {
    assert_eq!(location_text(&learning("src/a.rs", Some(3), Some(9), "x")), "src/a.rs:3-9");
    assert_eq!(location_text(&learning("src/a.rs", Some(3), None, "x")), "src/a.rs:3");
    assert_eq!(location_text(&learning("src/a.rs", None, Some(9), "x")), "src/a.rs");
    assert_eq!(location_text(&learning("src/a.rs", None, None, "x")), "src/a.rs");
}

#[test]
fn show_renders_the_non_empty_sections() {
    let c = sample();
    let text = render_show(&c, "ID1", "AUTH");
    let expected = [
        "# Implement auth flow\n\nID: ID1\nAuthor: AUTH\n\n",
        "## Description\n\nSession\n\n",
        "## Constraints\n\n- c1\n\n",
        "## Learnings\n\n### Repository\n- r1\n\n### Code\n",
        "- **src/auth.rs:42**: f\n- **a.rs:1-5**: g\n- **b.rs**: h\n\n",
        "## Open Items\n\n- o\n\n",
        "## Files Touched\n\n- a.rs\n- z.rs\n\n",
        "## Linked Commits\n  - abc\n\n",
        "## Linked Issues\n  - 0101010101010101010101010101010101010101\n\n",
    ]
    .concat();
    assert_eq!(text, expected);
}

#[test]
fn show_uses_the_hex_id_and_did_of_the_author() {
    let c = sample();
    let id = ObjectId::from_bytes([0xab; 20]);
    let text = show(&c, &id);
    let author = PublicKey::from_bytes([2u8; 32]).to_did();
    assert!(text.starts_with(&format!(
        "# Implement auth flow\n\nID: {}\nAuthor: {}\n\n",
        "ab".repeat(20),
        author
    )));
    assert!(author.starts_with("did:key:z6Mk"));
}

#[test]
fn list_entries() {
    let c = sample();
    let id = ObjectId::from_str("d96f02665bf896324e2f0a4c18d08a768135ef2e").unwrap();
    assert_eq!(list_entry(&id, &c), "d96f026 Implement auth flow [1c 1l]\n");
    let bare = Context::from_root(
        Op {
            actions: vec![Action::open(
                "Bare".to_string(),
                String::new(),
                String::new(),
                vec![],
                LearningsSummary::default(),
                vec![],
                vec![],
                SortedSet::new(),
                vec![],
            )],
            author: PublicKey::from_bytes([2u8; 32]),
            timestamp: Timestamp::from_millis(1),
        },
        Some(&Doc::new(vec![])),
    )
    .unwrap();
    assert_eq!(list_entry(&id, &bare), "d96f026 Bare\n");
    let bare_text = render_show(&bare, "I", "A");
    assert_eq!(bare_text, "# Bare\n\nID: I\nAuthor: A\n\n");
}

#[test]
fn list_summaries() {
    assert_eq!(list_summary(0), "No contexts found.\n");
    assert_eq!(list_summary(1), "\n1 context(s)\n");
    assert_eq!(list_summary(12), "\n12 context(s)\n");
}
