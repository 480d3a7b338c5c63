use rust_eze::game::{
    check_collision, enemies_in_room, handle_game_over, CollisionOutcome, GameOverAction,
};
use rust_eze::lives::Lives;
use rust_eze::rooms::RoomId;
use rust_eze::ui::Score;

#[test]
fn no_enemy_touching_costs_nothing() {
    let mut lives = Lives::new(3);
    let enemies = vec![(RoomId::Central, false), (RoomId::Central, false)];
    assert!(matches!(check_collision(&mut lives, RoomId::Central, &enemies), CollisionOutcome::NoCollision));
    assert_eq!(lives.count(), 3);
    assert!(matches!(check_collision(&mut lives, RoomId::Central, &vec![]), CollisionOutcome::NoCollision));
}

#[test]
fn enemies_of_other_rooms_are_ignored() {
    let mut lives = Lives::new(3);
    let enemies = vec![(RoomId::Generated(0), true), (RoomId::Generated(1), true)];
    assert!(matches!(check_collision(&mut lives, RoomId::Central, &enemies), CollisionOutcome::NoCollision));
    assert_eq!(lives.count(), 3);
}

#[test]
fn touching_costs_exactly_one_life_and_replaces_the_room_enemies() {
    let mut lives = Lives::new(3);
    let enemies = vec![
        (RoomId::Generated(0), true),
        (RoomId::Central, true),
        (RoomId::Central, false),
        (RoomId::Central, true),
    ];
    match check_collision(&mut lives, RoomId::Central, &enemies) {
        CollisionOutcome::Respawn { replace } => assert_eq!(replace, vec![1, 2, 3]),
        other => panic!("expected a respawn, got {:?}", other),
    }
    assert_eq!(lives.count(), 2);
}

#[test]
fn touching_with_the_last_life_ends_the_game() {
    let mut lives = Lives::new(1);
    let enemies = vec![(RoomId::Central, true)];
    assert!(matches!(check_collision(&mut lives, RoomId::Central, &enemies), CollisionOutcome::GameOver));
    assert_eq!(lives.count(), 0);
    // with no life left the game stays over
    assert!(matches!(check_collision(&mut lives, RoomId::Central, &enemies), CollisionOutcome::GameOver));
    assert_eq!(lives.count(), 0);
}

#[test]
fn enemies_in_room_lists_positions_in_order() {
    let rooms = vec![
        RoomId::Central,
        RoomId::Generated(0),
        RoomId::Central,
        RoomId::Generated(0),
        RoomId::Central,
    ];
    assert_eq!(enemies_in_room(&rooms, RoomId::Central), vec![0, 2, 4]);
    assert_eq!(enemies_in_room(&rooms, RoomId::Generated(0)), vec![1, 3]);
    assert!(enemies_in_room(&rooms, RoomId::Generated(5)).is_empty());
    assert!(enemies_in_room(&vec![], RoomId::Central).is_empty());
}

#[test]
fn game_continues_while_lives_remain() {
    let mut lives = Lives::new(2);
    let mut score = Score { value: 40 };
    let rooms = vec![RoomId::Central];
    assert!(matches!(
        handle_game_over(&mut lives, &mut score, true, &rooms, RoomId::Central),
        GameOverAction::Continue
    ));
    assert_eq!(lives.count(), 2);
    assert_eq!(score.value, 40);
}

#[test]
fn game_over_waits_for_restart() {
    let mut lives = Lives::new(0);
    let mut score = Score { value: 40 };
    let rooms = vec![RoomId::Central];
    assert!(matches!(
        handle_game_over(&mut lives, &mut score, false, &rooms, RoomId::Central),
        GameOverAction::Wait
    ));
    assert_eq!(lives.count(), 0);
    assert_eq!(score.value, 40);
}

#[test]
fn restart_restores_lives_clears_score_and_renews_room_enemies() {
    let mut lives = Lives::new(0);
    let mut score = Score { value: 40 };
    let rooms = vec![RoomId::Generated(2), RoomId::Generated(0), RoomId::Generated(2)];
    match handle_game_over(&mut lives, &mut score, true, &rooms, RoomId::Generated(2)) {
        GameOverAction::Restart { despawn, spawn } => {
            assert_eq!(despawn, vec![0, 2]);
            assert_eq!(spawn, 3);
        }
        other => panic!("expected a restart, got {:?}", other),
    }
    assert_eq!(lives.count(), 3);
    assert_eq!(score.value, 0);
    // after a restart the game runs on
    assert!(matches!(
        handle_game_over(&mut lives, &mut score, false, &rooms, RoomId::Generated(2)),
        GameOverAction::Continue
    ));
}

#[test]
fn restarted_game_survives_its_first_touch() {
    let mut lives = Lives::new(0);
    let mut score = Score::default();
    assert!(matches!(
        handle_game_over(&mut lives, &mut score, true, &vec![], RoomId::Central),
        GameOverAction::Restart { .. }
    ));
    let enemies = vec![(RoomId::Central, true)];
    assert!(matches!(
        check_collision(&mut lives, RoomId::Central, &enemies),
        CollisionOutcome::Respawn { .. }
    ));
    assert_eq!(lives.count(), 2);
}
