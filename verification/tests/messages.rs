use asap_core::messages::{
    possible_pairs, winner_id_of, AddComparisonRequest, ContentComparison, WinnerNotParticipant,
};

fn request(a: &str, b: &str, w: &str) -> AddComparisonRequest {
    AddComparisonRequest {
        task_a_content: a.to_string(),
        task_b_content: b.to_string(),
        winner_content: w.to_string(),
        list_id: "default".to_string(),
    }
}

#[test]
fn winner_must_be_a_participant() {
    assert!(request("write docs", "fix bug", "write docs").winner_is_participant());
    assert!(request("write docs", "fix bug", "fix bug").winner_is_participant());
    assert!(!request("write docs", "fix bug", "ship it").winner_is_participant());
}

#[test]
fn winner_id_follows_matching_content() {
    let a = "task a".to_string();
    let b = "task b".to_string();
    let id_a = "id-a".to_string();
    let id_b = "id-b".to_string();
    assert_eq!(
        winner_id_of(&a, &b, &a, id_a.clone(), id_b.clone()),
        Ok("id-a".to_string())
    );
    assert_eq!(
        winner_id_of(&a, &b, &b, id_a.clone(), id_b.clone()),
        Ok("id-b".to_string())
    );
    assert_eq!(
        winner_id_of(&a, &b, &"other".to_string(), id_a, id_b),
        Err(WinnerNotParticipant)
    );
}

#[test]
fn legacy_comparison_ids_follow_position_and_winner() {
    let comparison = ContentComparison {
        task_a_content: "alpha".to_string(),
        task_b_content: "beta".to_string(),
        winner_content: "beta".to_string(),
        timestamp: "2024-01-01T00:00:00Z".to_string(),
    };
    let legacy = comparison.to_legacy(4);
    assert_eq!(legacy.task_a_id, 5);
    assert_eq!(legacy.task_b_id, 6);
    assert_eq!(legacy.winner_id, 6);
    assert_eq!(legacy.timestamp, "2024-01-01T00:00:00Z");

    let won_by_a = ContentComparison {
        winner_content: "alpha".to_string(),
        ..comparison
    };
    assert_eq!(won_by_a.to_legacy(0).winner_id, 1);
}

#[test]
fn winner_of_selects_matching_content() {
    let comparison = ContentComparison {
        task_a_content: "alpha".to_string(),
        task_b_content: "beta".to_string(),
        winner_content: "alpha".to_string(),
        timestamp: String::new(),
    };
    assert_eq!(
        comparison.winner_of("alpha".to_string(), "beta".to_string()),
        "alpha"
    );
}

#[test]
fn possible_pairs_counts_unordered_pairs() {
    assert_eq!(possible_pairs(0), 0);
    assert_eq!(possible_pairs(1), 0);
    assert_eq!(possible_pairs(2), 1);
    assert_eq!(possible_pairs(5), 10);
}
