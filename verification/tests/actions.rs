use radicle_context_cob::{Action, Embed, LearningsSummary, SortedSet};

fn sample_open() -> Action {
    Action::Open {
        title: "test".to_string(),
        description: String::new(),
        approach: String::new(),
        constraints: vec![],
        learnings: LearningsSummary::default(),
        friction: vec![],
        open_items: vec![],
        files_touched: SortedSet::new(),
        verification: vec![],
        task_id: None,
        embeds: vec![],
    }
}

#[test]
fn test_produces_identifier() {
    let open = sample_open();
    assert!(!open.produces_identifier());

    let link = Action::LinkCommit {
        sha: "abc".to_string(),
    };
    assert!(!link.produces_identifier());
}

#[test]
fn open_from_flags_requires_a_title() {
    let r = Action::open_from_flags(None, None, None, vec![], vec![], vec![], vec![]);
    assert_eq!(
        r.err(),
        Some("title is required (provide as argument or use --json)")
    );
}

#[test]
fn open_from_flags_fills_defaults_and_collects_files() {
    let r = Action::open_from_flags(
        Some("Implement auth flow".to_string()),
        None,
        Some("Used passport.js for OAuth".to_string()),
        vec!["Assumes Redis for sessions".to_string()],
        vec!["Async middleware type errors".to_string()],
        vec![],
        vec![
            "src/middleware.rs".to_string(),
            "src/auth.rs".to_string(),
            "src/auth.rs".to_string(),
        ],
    );
    match r {
        Ok(Action::Open {
            title,
            description,
            approach,
            constraints,
            learnings,
            friction,
            open_items,
            files_touched,
            verification,
            task_id,
            embeds,
        }) => {
            assert_eq!(title, "Implement auth flow");
            assert_eq!(description, "");
            assert_eq!(approach, "Used passport.js for OAuth");
            assert_eq!(constraints, vec!["Assumes Redis for sessions".to_string()]);
            assert!(learnings.repo.is_empty());
            assert!(learnings.code.is_empty());
            assert_eq!(friction, vec!["Async middleware type errors".to_string()]);
            assert!(open_items.is_empty());
            assert_eq!(
                files_touched.items().to_vec(),
                vec!["src/auth.rs".to_string(), "src/middleware.rs".to_string()]
            );
            assert!(verification.is_empty());
            assert!(task_id.is_none());
            assert!(embeds.is_empty());
        }
        _ => panic!("expected Open action"),
    }
}

#[test]
fn open_keeps_the_given_embeds() {
    let embeds = vec![Embed {
        name: "transcript.md".to_string(),
        content: "git:abc".to_string(),
    }];
    let a = Action::open(
        "t".to_string(),
        String::new(),
        String::new(),
        vec![],
        LearningsSummary::default(),
        vec![],
        vec![],
        SortedSet::new(),
        embeds,
    );
    match a {
        Action::Open {
            embeds,
            verification,
            task_id,
            ..
        } => {
            assert_eq!(embeds.len(), 1);
            assert_eq!(embeds[0].name, "transcript.md");
            assert_eq!(embeds[0].content, "git:abc");
            assert!(verification.is_empty());
            assert!(task_id.is_none());
        }
        _ => panic!("expected Open action"),
    }
}
