//! Sizes and speeds of the game's objects, in pixels and pixels per second.
use vstd::prelude::*;

verus! {

/// The game's fixed dimensions.
pub struct GameConfig;

impl GameConfig {
    /// Radius of the player.
    pub const PLAYER_SIZE: u32 = 25;

    /// Radius of an enemy.
    pub const ENEMY_SIZE: u32 = 20;

    /// Thickness of the walls.
    pub const WALL_THICKNESS: u32 = 20;

    /// Speed of the player.
    pub const PLAYER_SPEED: u32 = 300;

    /// Speed of an enemy.
    pub const ENEMY_SPEED: u32 = 200;

    /// Number of enemies placed in a room when a game starts or restarts.
    pub const ENEMY_COUNT: u32 = 3;

    /// Distance between the centres of the player and an enemy below which
    /// they touch.
    pub const COLLISION_DISTANCE: u32 = Self::PLAYER_SIZE + Self::ENEMY_SIZE;
}

/// The player and an enemy touch when their centres are closer than the sum
/// of their radii.
pub proof fn lemma_collision_distance_is_sum_of_radii()
    ensures
        GameConfig::COLLISION_DISTANCE == GameConfig::PLAYER_SIZE + GameConfig::ENEMY_SIZE,
{
}

} // verus!
