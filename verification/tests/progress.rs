use achievement_progress::aggregate::aggregate_progress;
use achievement_progress::model::{
    Achievement, AchievementProgress, Category, CategoryProgress, CompletionRecord,
};
use achievement_progress::query::PipelineStage;
use achievement_progress::wallet::WalletId;
use achievement_progress::{ProgressError, StoreOutcome, get_progress_finish, get_progress_local, get_progress_start};

fn cat(id: &str, name: &str, desc: &str) -> Category {
    Category { id: id.to_string(), name: name.to_string(), desc: desc.to_string() }
}

fn ach(id: &str, category_id: &str, name: &str) -> Achievement {
    Achievement {
        id: id.to_string(),
        category_id: category_id.to_string(),
        name: name.to_string(),
        short_desc: "Visit 5 places".to_string(),
        todo_title: "Not yet".to_string(),
        todo_desc: "Keep exploring".to_string(),
        done_title: "Done!".to_string(),
        done_desc: "You explored!".to_string(),
        verify_type: "count".to_string(),
    }
}

fn rec(achievement_id: &str, addr: &str) -> CompletionRecord {
    CompletionRecord { achievement_id: achievement_id.to_string(), addr: addr.to_string() }
}

fn zero_id() -> WalletId {
    WalletId::from_bytes(vec![0u8; 32])
}

// The canonical form of the field element with value 2748 (0x0ABC).
fn small_id() -> WalletId {
    let mut bytes = vec![0u8; 32];
    bytes[30] = 0x0A;
    bytes[31] = 0xBC;
    WalletId::from_bytes(bytes)
}

#[test]
fn scenario_not_completed_then_completed() {
    let cats = vec![cat("c1", "Explorer", "Explore the world")];
    let achs = vec![ach("a1", "c1", "First steps")];
    let recs: Vec<CompletionRecord> = Vec::new();
    let out = aggregate_progress(&cats, &achs, &recs, &"0xABC".to_string());
    assert_eq!(out.len(), 1);
    assert_eq!(out[0].category_name, "Explorer");
    assert_eq!(out[0].category_desc, "Explore the world");
    assert_eq!(out[0].achievements.len(), 1);
    let a = &out[0].achievements[0];
    assert_eq!(a.name, "First steps");
    assert_eq!(a.short_desc, "Visit 5 places");
    assert_eq!(a.title, "Not yet");
    assert_eq!(a.desc, "Keep exploring");
    assert!(!a.completed);
    assert_eq!(a.verify_type, "count");

    let recs = vec![rec("a1", "0xABC")];
    let out = aggregate_progress(&cats, &achs, &recs, &"0xABC".to_string());
    let a = &out[0].achievements[0];
    assert_eq!(a.title, "Done!");
    assert_eq!(a.desc, "You explored!");
    assert!(a.completed);
}

#[test]
fn duplicate_completion_records_count_once() {
    let cats = vec![cat("c1", "Explorer", "Explore the world")];
    let achs = vec![ach("a1", "c1", "First steps")];
    let once = vec![rec("a1", "u")];
    let twice = vec![rec("a1", "u"), rec("a1", "u")];
    let out1 = aggregate_progress(&cats, &achs, &once, &"u".to_string());
    let out2 = aggregate_progress(&cats, &achs, &twice, &"u".to_string());
    assert_eq!(out1.len(), out2.len());
    assert_eq!(out1[0].achievements.len(), out2[0].achievements.len());
    assert!(out1[0].achievements[0].completed);
    assert!(out2[0].achievements[0].completed);
    assert_eq!(out1[0].achievements[0].title, out2[0].achievements[0].title);
}

#[test]
fn record_for_other_user_or_achievement_does_not_count() {
    let cats = vec![cat("c1", "Explorer", "Explore the world")];
    let achs = vec![ach("a1", "c1", "First steps")];
    let recs = vec![rec("a1", "someone_else"), rec("a2", "u")];
    let out = aggregate_progress(&cats, &achs, &recs, &"u".to_string());
    assert!(!out[0].achievements[0].completed);
    assert_eq!(out[0].achievements[0].title, "Not yet");
}

#[test]
fn grouping_is_exhaustive_and_exact() {
    // Two categories with distinct ids but one (name, desc) pair fall into
    // one group; a category without achievements yields no group.
    let cats = vec![
        cat("c1", "Explorer", "Explore the world"),
        cat("c2", "Builder", "Build things"),
        cat("c3", "Explorer", "Explore the world"),
        cat("c4", "Empty", "No achievements here"),
    ];
    let achs = vec![
        ach("a1", "c1", "One"),
        ach("a2", "c2", "Two"),
        ach("a3", "c3", "Three"),
        ach("a4", "nowhere", "Dropped"),
    ];
    let recs: Vec<CompletionRecord> = Vec::new();
    let out = aggregate_progress(&cats, &achs, &recs, &"u".to_string());
    assert_eq!(out.len(), 2);
    assert_eq!(out[0].category_name, "Explorer");
    assert_eq!(out[1].category_name, "Builder");
    let names: Vec<&str> = out[0].achievements.iter().map(|a| a.name.as_str()).collect();
    assert_eq!(names, vec!["One", "Three"]);
    assert_eq!(out[1].achievements.len(), 1);
    assert_eq!(out[1].achievements[0].name, "Two");
    // No loss, no duplication: three joined achievements in all.
    let total: usize = out.iter().map(|g| g.achievements.len()).sum();
    assert_eq!(total, 3);
}

#[test]
fn empty_store_yields_empty_view() {
    let cats: Vec<Category> = Vec::new();
    let achs: Vec<Achievement> = Vec::new();
    let recs: Vec<CompletionRecord> = Vec::new();
    let out = aggregate_progress(&cats, &achs, &recs, &"u".to_string());
    assert!(out.is_empty());
}

#[test]
fn unset_identifier_is_rejected_without_a_store_call() {
    let id = zero_id();
    match get_progress_start(&id) {
        Err(ProgressError::Validation { message }) => {
            assert_eq!(message, "Please connect your wallet first");
        }
        _ => panic!("expected a validation error"),
    }
}

#[test]
fn unset_identifier_is_rejected_locally_too() {
    let id = zero_id();
    let cats = vec![cat("c1", "Explorer", "Explore the world")];
    let achs = vec![ach("a1", "c1", "First steps")];
    let recs: Vec<CompletionRecord> = Vec::new();
    assert!(matches!(
        get_progress_local(&id, &cats, &achs, &recs),
        Err(ProgressError::Validation { .. })
    ));
}

#[test]
fn query_plan_carries_canonical_decimal_addr_and_the_five_stages() {
    let id = small_id();
    let q = get_progress_start(&id).unwrap();
    assert_eq!(q.addr, "2748");
    assert_eq!(
        q.stages,
        vec![
            PipelineStage::ExpandAchievements,
            PipelineStage::CorrelateCompletions,
            PipelineStage::DeriveProgress,
            PipelineStage::GroupByCategory,
            PipelineStage::ProjectView,
        ]
    );
}

#[test]
fn local_read_matches_records_by_canonical_form() {
    let id = small_id();
    let cats = vec![cat("c1", "Explorer", "Explore the world")];
    let achs = vec![ach("a1", "c1", "First steps")];
    let recs = vec![rec("a1", "2748")];
    let out = get_progress_local(&id, &cats, &achs, &recs).unwrap();
    assert!(out[0].achievements[0].completed);
    let recs = vec![rec("a1", "2749")];
    let out = get_progress_local(&id, &cats, &achs, &recs).unwrap();
    assert!(!out[0].achievements[0].completed);
}

fn sample_group(name: &str) -> CategoryProgress {
    CategoryProgress {
        category_name: name.to_string(),
        category_desc: "d".to_string(),
        achievements: vec![AchievementProgress {
            name: "a".to_string(),
            short_desc: "s".to_string(),
            title: "t".to_string(),
            desc: "d".to_string(),
            completed: false,
            verify_type: "v".to_string(),
        }],
    }
}

#[test]
fn malformed_rows_are_skipped_not_fatal() {
    let rows = vec![Some(sample_group("g1")), None, Some(sample_group("g2"))];
    let out = get_progress_finish(StoreOutcome::Rows(rows)).unwrap();
    assert_eq!(out.len(), 2);
    assert_eq!(out[0].category_name, "g1");
    assert_eq!(out[1].category_name, "g2");
}

#[test]
fn store_failure_becomes_a_query_error() {
    match get_progress_finish(StoreOutcome::Failure("connection reset".to_string())) {
        Err(ProgressError::Query { message }) => {
            assert_eq!(message, "Error fetching user achievements: connection reset");
        }
        _ => panic!("expected a query error"),
    }
}

#[test]
fn unset_check_sees_any_nonzero_byte() {
    assert!(zero_id().is_unset());
    assert!(!small_id().is_unset());
    let mut bytes = vec![0u8; 32];
    bytes[0] = 1;
    assert!(!WalletId::from_bytes(bytes).is_unset());
}

#[test]
fn error_message_accessor_returns_the_carried_text() {
    let e = ProgressError::Validation { message: "m1".to_string() };
    assert_eq!(e.message().as_str(), "m1");
    let e = ProgressError::Query { message: "m2".to_string() };
    assert_eq!(e.message().as_str(), "m2");
}
