use rust_eze::projectiles::{check_projectile_collision, select_shot, ProjectileKind, Shot};

#[test]
fn each_key_fires_its_projectile() {
    assert_eq!(
        select_shot(true, false, false, false, false),
        Some(Shot { kind: ProjectileKind::Standard, dx: 0, dy: 1 })
    );
    assert_eq!(
        select_shot(false, true, false, false, false),
        Some(Shot { kind: ProjectileKind::Fire, dx: 0, dy: -1 })
    );
    assert_eq!(
        select_shot(false, false, true, false, false),
        Some(Shot { kind: ProjectileKind::Ice, dx: -1, dy: 0 })
    );
    assert_eq!(
        select_shot(false, false, false, true, false),
        Some(Shot { kind: ProjectileKind::Electric, dx: 1, dy: 0 })
    );
    assert_eq!(
        select_shot(false, false, false, false, true),
        Some(Shot { kind: ProjectileKind::Explosive, dx: 1, dy: 0 })
    );
}

#[test]
fn no_key_fires_nothing() {
    assert_eq!(select_shot(false, false, false, false, false), None);
}

#[test]
fn earlier_keys_take_priority() {
    assert_eq!(select_shot(true, true, true, true, true).unwrap().kind, ProjectileKind::Standard);
    assert_eq!(select_shot(false, true, true, false, true).unwrap().kind, ProjectileKind::Fire);
    assert_eq!(select_shot(false, false, true, true, true).unwrap().kind, ProjectileKind::Ice);
    assert_eq!(select_shot(false, false, false, true, true).unwrap().kind, ProjectileKind::Electric);
}

#[test]
fn each_projectile_hits_its_first_enemy_in_reach() {
    let reaches = vec![
        vec![false, true, true],
        vec![false, false, false],
        vec![true, false, true],
        vec![],
        vec![false, true, false],
    ];
    assert_eq!(
        check_projectile_collision(&reaches),
        vec![Some(1), None, Some(0), None, Some(1)]
    );
    assert!(check_projectile_collision(&vec![]).is_empty());
}
