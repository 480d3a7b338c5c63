//! Which projectile a key fires, and which enemy each projectile hits.
use vstd::prelude::*;

verus! {

/// The kinds of projectile, one per firing key.
#[derive(Clone, Copy, Debug, PartialEq, Eq, Structural)]
pub enum ProjectileKind {
    Standard,
    Fire,
    Ice,
    Electric,
    Explosive,
}

/// A shot to fire: its kind and the unit direction it travels in.
#[derive(Clone, Copy, Debug, PartialEq, Eq, Structural)]
pub struct Shot {
    pub kind: ProjectileKind,
    pub dx: i32,
    pub dy: i32,
}

/// The shot that the keys just pressed ask for. The keys are taken in the
/// order up, down, left, right, space, and the first one pressed decides:
/// up fires a standard projectile upwards, down a fire projectile
/// downwards, left an ice projectile to the left, right an electric
/// projectile to the right, and space an explosive projectile to the right.
pub open spec fn shot_for(up: bool, down: bool, left: bool, right: bool, space: bool) -> Option<Shot> {
    if up {
        Some(Shot { kind: ProjectileKind::Standard, dx: 0, dy: 1 })
    } else if down {
        Some(Shot { kind: ProjectileKind::Fire, dx: 0, dy: -1i32 })
    } else if left {
        Some(Shot { kind: ProjectileKind::Ice, dx: -1i32, dy: 0 })
    } else if right {
        Some(Shot { kind: ProjectileKind::Electric, dx: 1, dy: 0 })
    } else if space {
        Some(Shot { kind: ProjectileKind::Explosive, dx: 1, dy: 0 })
    } else {
        None
    }
}

/// Chooses the shot for the keys just pressed, if any.
pub fn select_shot(up: bool, down: bool, left: bool, right: bool, space: bool) -> (shot: Option<Shot>)
    ensures
        shot == shot_for(up, down, left, right, space),
{
    if up {
        Some(Shot { kind: ProjectileKind::Standard, dx: 0, dy: 1 })
    } else if down {
        Some(Shot { kind: ProjectileKind::Fire, dx: 0, dy: -1 })
    } else if left {
        Some(Shot { kind: ProjectileKind::Ice, dx: -1, dy: 0 })
    } else if right {
        Some(Shot { kind: ProjectileKind::Electric, dx: 1, dy: 0 })
    } else if space {
        Some(Shot { kind: ProjectileKind::Explosive, dx: 1, dy: 0 })
    } else {
        None
    }
}

/// A fired shot travels along one axis by one unit.
pub proof fn lemma_shot_is_unit_step(up: bool, down: bool, left: bool, right: bool, space: bool)
    ensures
        shot_for(up, down, left, right, space) matches Some(s) ==> (s.dx == 0 && (s.dy == 1 || s.dy == -1)) || (
        s.dy == 0 && (s.dx == 1 || s.dx == -1)),
        shot_for(up, down, left, right, space) is Some <==> (up || down || left || right || space),
{
}

/// Each key fires its own projectile in its own direction, and a key
/// counts only when no key before it in the order up, down, left, right,
/// space is pressed.
pub proof fn lemma_each_key_fires_its_shot(up: bool, down: bool, left: bool, right: bool, space: bool)
    ensures
        up ==> shot_for(up, down, left, right, space) == Some(
            Shot { kind: ProjectileKind::Standard, dx: 0, dy: 1 },
        ),
        !up && down ==> shot_for(up, down, left, right, space) == Some(
            Shot { kind: ProjectileKind::Fire, dx: 0, dy: -1i32 },
        ),
        !up && !down && left ==> shot_for(up, down, left, right, space) == Some(
            Shot { kind: ProjectileKind::Ice, dx: -1i32, dy: 0 },
        ),
        !up && !down && !left && right ==> shot_for(up, down, left, right, space) == Some(
            Shot { kind: ProjectileKind::Electric, dx: 1, dy: 0 },
        ),
        !up && !down && !left && !right && space ==> shot_for(up, down, left, right, space) == Some(
            Shot { kind: ProjectileKind::Explosive, dx: 1, dy: 0 },
        ),
        !up && !down && !left && !right && !space ==> shot_for(up, down, left, right, space) is None,
{
}

/// Whether `hit` names the first enemy that the projectile reaches, where
/// `reaches[j]` tells whether it reaches enemy `j`; `None` when it reaches
/// none.
pub open spec fn is_first_hit(reaches: Seq<bool>, hit: Option<usize>) -> bool {
    match hit {
        Some(j) => j < reaches.len() && reaches[j as int] && forall|k: int| 0 <= k < j ==> !#[trigger] reaches[k],
        None => forall|k: int| 0 <= k < reaches.len() ==> !#[trigger] reaches[k],
    }
}

/// For each projectile, the first enemy it reaches, if any: that
/// projectile and that enemy are removed. `reaches[i][j]` tells whether
/// projectile `i` reaches enemy `j`.
pub fn check_projectile_collision(reaches: &Vec<Vec<bool>>) -> (hits: Vec<Option<usize>>)
    ensures
        hits@.len() == reaches@.len(),
        forall|i: int| 0 <= i < reaches@.len() ==> is_first_hit(#[trigger] reaches@[i]@, hits@[i]),
{
    let mut hits: Vec<Option<usize>> = Vec::new();
    let n = reaches.len();
    let mut i: usize = 0;
    while i < n
        invariant
            n == reaches@.len(),
            i <= n,
            hits@.len() == i,
            forall|p: int| 0 <= p < i ==> is_first_hit(#[trigger] reaches@[p]@, hits@[p]),
        decreases n - i,
    {
        let row = &reaches[i];
        let m = row.len();
        let mut j: usize = 0;
        let mut hit: Option<usize> = None;
        while j < m
            invariant_except_break
                hit is None,
                forall|k: int| 0 <= k < j ==> !#[trigger] row@[k],
            invariant
                m == row@.len(),
                j <= m,
            ensures
                is_first_hit(row@, hit),
            decreases m - j,
        {
            if row[j] {
                hit = Some(j);
                break;
            }
            j += 1;
        }
        hits.push(hit);
        assert(hits@[i as int] == hit);
        i += 1;
    }
    hits
}

/// A projectile hits at most one enemy: there is exactly one first hit,
/// it names an enemy the projectile reaches, and no enemy before it is
/// reached.
pub proof fn lemma_first_hit_unique(reaches: Seq<bool>, h1: Option<usize>, h2: Option<usize>)
    requires
        is_first_hit(reaches, h1),
        is_first_hit(reaches, h2),
    ensures
        h1 == h2,
{
    match (h1, h2) {
        (Some(a), Some(b)) => {
            if a < b {
                assert(!reaches[a as int]);
            } else if b < a {
                assert(!reaches[b as int]);
            }
        },
        (Some(a), None) => {
            assert(!reaches[a as int]);
        },
        (None, Some(b)) => {
            assert(!reaches[b as int]);
        },
        (None, None) => {},
    }
}

/// A projectile that reaches some enemy has a hit no later than it.
pub proof fn lemma_reached_enemy_is_hit_or_later(reaches: Seq<bool>, hit: Option<usize>, k: int)
    requires
        is_first_hit(reaches, hit),
        0 <= k < reaches.len(),
        reaches[k],
    ensures
        hit matches Some(j) && j <= k,
{
}

} // verus!
