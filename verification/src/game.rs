//! What a collision with an enemy and the end of a game do to the lives,
//! the score, the enemies and the game's course.
use vstd::prelude::*;
use crate::config::GameConfig;
use crate::lives::{Lives, count_after_loss, STARTING_LIVES};
use crate::rooms::RoomId;
use crate::ui::Score;

verus! {

/// Whether `indices` lists, in increasing order, exactly the positions in
/// `rooms` that hold `current`.
pub open spec fn indices_of_room(rooms: Seq<RoomId>, current: RoomId, indices: Seq<usize>) -> bool {
    &&& forall|k: int| 0 <= k < indices.len() ==> #[trigger] indices[k] < rooms.len() && rooms[indices[k] as int] == current
    &&& forall|k1: int, k2: int| 0 <= k1 < k2 < indices.len() ==> indices[k1] < indices[k2]
    &&& forall|i: int| 0 <= i < rooms.len() && rooms[i] == current ==> indices.contains(i as usize)
}

/// The rooms of enemies given by their room and whether they touch the player.
pub open spec fn rooms_of(enemies: Seq<(RoomId, bool)>) -> Seq<RoomId> {
    enemies.map_values(|e: (RoomId, bool)| e.0)
}

/// What happened when the player was checked against the enemies.
#[derive(Debug)]
pub enum CollisionOutcome {
    /// No enemy of the current room touches the player.
    NoCollision,
    /// The player lost the last life: the game-over text is shown.
    GameOver,
    /// The player lost a life and lives on: the player goes back to the
    /// centre and the enemies at positions `replace`, those of the current
    /// room, are placed anew.
    Respawn { replace: Vec<usize> },
}

/// Whether some enemy of room `current` touches the player, where each
/// enemy is given by its room and whether it touches the player.
pub open spec fn touched_in_room(enemies: Seq<(RoomId, bool)>, current: RoomId) -> bool {
    exists|i: int| 0 <= i < enemies.len() && (#[trigger] enemies[i]).0 == current && enemies[i].1
}

/// The room of each enemy, in order.
fn enemy_rooms(enemies: &Vec<(RoomId, bool)>) -> (rooms: Vec<RoomId>)
    ensures
        rooms@ == rooms_of(enemies@),
{
    let mut rooms: Vec<RoomId> = Vec::new();
    let n = enemies.len();
    let mut i: usize = 0;
    while i < n
        invariant
            n == enemies@.len(),
            i <= n,
            rooms@ == rooms_of(enemies@.take(i as int)),
        decreases n - i,
    {
        rooms.push(enemies[i].0);
        assert(rooms_of(enemies@.take(i + 1)) =~= rooms_of(enemies@.take(i as int)).push(enemies@[i as int].0));
        i += 1;
    }
    assert(enemies@.take(n as int) =~= enemies@);
    rooms
}

/// Checks the player against the enemies, each given by its room and
/// whether it touches the player. Enemies of other rooms are ignored; the
/// first touching enemy of the current room costs one life, and no more
/// than one is lost per check. When the player lives on, every enemy of
/// the current room is to be placed anew.
pub fn check_collision(lives: &mut Lives, current_room: RoomId, enemies: &Vec<(RoomId, bool)>) -> (outcome:
    CollisionOutcome)
    ensures
        !touched_in_room(enemies@, current_room) ==> {
            &&& outcome is NoCollision
            &&& final(lives)@ == old(lives)@
        },
        touched_in_room(enemies@, current_room) ==> {
            &&& final(lives)@ == count_after_loss(old(lives)@)
            &&& (outcome is GameOver <==> final(lives)@ == 0)
            &&& (outcome is Respawn <==> final(lives)@ != 0)
        },
        outcome matches CollisionOutcome::Respawn { replace } ==> indices_of_room(
            rooms_of(enemies@),
            current_room,
            replace@,
        ),
{
    let n = enemies.len();
    let mut i: usize = 0;
    while i < n
        invariant
            n == enemies@.len(),
            i <= n,
            *lives == *old(lives),
            forall|k: int| 0 <= k < i ==> !((#[trigger] enemies@[k]).0 == current_room && enemies@[k].1),
        decreases n - i,
    {
        let (room, touching) = enemies[i];
        if room == current_room && touching {
            let game_over = lives.lose_life();
            if game_over {
                return CollisionOutcome::GameOver;
            } else {
                let rooms = enemy_rooms(enemies);
                let replace = enemies_in_room(&rooms, current_room);
                return CollisionOutcome::Respawn { replace };
            }
        }
        i += 1;
    }
    CollisionOutcome::NoCollision
}

/// The positions, in increasing order, of the enemies that are in room
/// `current`, given each enemy's room.
pub fn enemies_in_room(rooms: &Vec<RoomId>, current: RoomId) -> (indices: Vec<usize>)
    ensures
        indices_of_room(rooms@, current, indices@),
{
    let mut indices: Vec<usize> = Vec::new();
    let n = rooms.len();
    let mut i: usize = 0;
    while i < n
        invariant
            n == rooms@.len(),
            i <= n,
            forall|k: int| 0 <= k < indices@.len() ==> #[trigger] indices@[k] < i && rooms@[indices@[k] as int] == current,
            forall|k1: int, k2: int| 0 <= k1 < k2 < indices@.len() ==> indices@[k1] < indices@[k2],
            forall|j: int| 0 <= j < i && rooms@[j] == current ==> indices@.contains(j as usize),
        decreases n - i,
    {
        let ghost prev = indices@;
        if rooms[i] == current {
            indices.push(i);
            assert(indices@[indices@.len() - 1] == i);
        }
        assert forall|j: int| 0 <= j < i + 1 && rooms@[j] == current implies indices@.contains(j as usize) by {
            if j < i {
                let k = choose|k: int| 0 <= k < prev.len() && prev[k] == j as usize;
                assert(indices@[k] == j as usize);
            } else {
                assert(indices@[indices@.len() - 1] == i);
            }
        }
        i += 1;
    }
    indices
}

/// What the game does while it is over, or has just ended.
#[derive(Debug)]
pub enum GameOverAction {
    /// Lives remain: the game runs on.
    Continue,
    /// No life remains and no restart was asked: the game stays paused.
    Wait,
    /// No life remained and a restart was asked: the lives and the score
    /// have been reset; the player is replaced by a new one at the centre,
    /// the enemies at positions `despawn`, those of the current room, are
    /// removed, `spawn` new enemies are placed in the current room, and the
    /// game runs again.
    Restart { despawn: Vec<usize>, spawn: u32 },
}

/// Decides the game's course from the remaining lives and whether the
/// restart key was just pressed, given the room of each enemy and the
/// current room; on a restart, restores the starting lives, clears the
/// score, and names the enemies to remove and how many to place.
pub fn handle_game_over(
    lives: &mut Lives,
    score: &mut Score,
    restart_pressed: bool,
    enemy_rooms: &Vec<RoomId>,
    current_room: RoomId,
) -> (action: GameOverAction)
    ensures
        old(lives)@ > 0 ==> action is Continue,
        old(lives)@ == 0 && !restart_pressed ==> action is Wait,
        old(lives)@ == 0 && restart_pressed ==> action is Restart,
        action matches GameOverAction::Restart { despawn, spawn } ==> {
            &&& indices_of_room(enemy_rooms@, current_room, despawn@)
            &&& spawn == GameConfig::ENEMY_COUNT
            &&& final(lives)@ == STARTING_LIVES
            &&& final(score).value == 0
        },
        !(action is Restart) ==> final(lives)@ == old(lives)@ && final(score).value == old(score).value,
{
    if lives.count() > 0 {
        return GameOverAction::Continue;
    }
    if restart_pressed {
        lives.reset();
        score.value = 0;
        let despawn = enemies_in_room(enemy_rooms, current_room);
        GameOverAction::Restart { despawn, spawn: GameConfig::ENEMY_COUNT }
    } else {
        GameOverAction::Wait
    }
}

/// A restart always leads to a running game: after it lives remain, so
/// the next decision is to continue, and the first touch by an enemy
/// costs a life without ending the game.
pub proof fn lemma_restart_resumes()
    ensures
        STARTING_LIVES > 0,
        count_after_loss(STARTING_LIVES) > 0,
{
}

/// An enemy of the current room that touches the player counts as a
/// touch; enemies of other rooms, and enemies that do not touch, never do.
pub proof fn lemma_touch_needs_room_and_contact(enemies: Seq<(RoomId, bool)>, current: RoomId)
    ensures
        forall|i: int| 0 <= i < enemies.len() && (#[trigger] enemies[i]).0 == current && enemies[i].1 ==> touched_in_room(
            enemies,
            current,
        ),
        (forall|i: int| 0 <= i < enemies.len() ==> (#[trigger] enemies[i]).0 != current || !enemies[i].1) ==> !touched_in_room(
            enemies,
            current,
        ),
{
}

/// The enemies of a room are listed in exactly one way: two lists that both
/// hold exactly that room's positions in increasing order are equal.
pub proof fn lemma_room_indices_unique(rooms: Seq<RoomId>, current: RoomId, a: Seq<usize>, b: Seq<usize>)
    requires
        indices_of_room(rooms, current, a),
        indices_of_room(rooms, current, b),
    ensures
        a == b,
    decreases a.len() + b.len(),
{
    if a.len() > 0 && b.len() > 0 {
        let x = a.last();
        let y = b.last();
        // the last entries are the largest position of the room in both lists
        assert(b.contains(x));
        assert(a.contains(y));
        let kx = choose|k: int| 0 <= k < b.len() && b[k] == x;
        let ky = choose|k: int| 0 <= k < a.len() && a[k] == y;
        if x < y {
            assert(a[ky] <= x) by {
                if ky < a.len() - 1 {
                    assert(a[ky] < a[a.len() - 1]);
                }
            }
        } else if y < x {
            assert(b[kx] <= y) by {
                if kx < b.len() - 1 {
                    assert(b[kx] < b[b.len() - 1]);
                }
            }
        }
        assert(x == y);
        let a2 = a.drop_last();
        let b2 = b.drop_last();
        let rooms2 = rooms.take(x as int);
        assert(indices_of_room(rooms2, current, a2)) by {
            assert forall|i: int| 0 <= i < rooms2.len() && rooms2[i] == current implies a2.contains(i as usize) by {
                assert(rooms[i] == current);
                assert(a.contains(i as usize));
                let k = choose|k: int| 0 <= k < a.len() && a[k] == i as usize;
                assert(k != a.len() - 1);
                assert(a2[k] == i as usize);
            }
            assert forall|k: int| 0 <= k < a2.len() implies #[trigger] a2[k] < rooms2.len() && rooms2[a2[k] as int] == current by {
                assert(a[k] < a[a.len() - 1]);
            }
        }
        assert(indices_of_room(rooms2, current, b2)) by {
            assert forall|i: int| 0 <= i < rooms2.len() && rooms2[i] == current implies b2.contains(i as usize) by {
                assert(rooms[i] == current);
                assert(b.contains(i as usize));
                let k = choose|k: int| 0 <= k < b.len() && b[k] == i as usize;
                assert(k != b.len() - 1);
                assert(b2[k] == i as usize);
            }
            assert forall|k: int| 0 <= k < b2.len() implies #[trigger] b2[k] < rooms2.len() && rooms2[b2[k] as int] == current by {
                assert(b[k] < b[b.len() - 1]);
            }
        }
        lemma_room_indices_unique(rooms2, current, a2, b2);
        assert(a =~= a2.push(x));
        assert(b =~= b2.push(y));
    } else if a.len() > 0 {
        assert(b.contains(a[0]));
    } else if b.len() > 0 {
        assert(a.contains(b[0]));
    }
}

} // verus!
