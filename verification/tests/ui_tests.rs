use rust_eze::ui::{lives_text, update_score, Score};

#[test]
fn score_starts_at_zero() {
    assert_eq!(Score::default().value, 0);
}

#[test]
fn update_score_adds_points() {
    let mut score = Score::default();
    update_score(&mut score, 7);
    update_score(&mut score, 0);
    update_score(&mut score, 5);
    assert_eq!(score.value, 12);
    let mut full = Score { value: u32::MAX - 1 };
    update_score(&mut full, 1);
    assert_eq!(full.value, u32::MAX);
}

#[test]
fn lives_text_shows_one_heart_per_life() {
    assert_eq!(lives_text(0), "");
    assert_eq!(lives_text(1), "\u{2764}\u{fe0f}");
    assert_eq!(lives_text(3), "\u{2764}\u{fe0f}".repeat(3));
    assert_eq!(lives_text(3).chars().count(), 6);
}
