//! Game rules of a small top-down arena game: the player's lives, the
//! graph of rooms and how the player moves through it, collisions and
//! restarts, the score display and the choice of projectile for a key.
pub mod config;
pub mod lives;
pub mod rooms;
pub mod ui;
pub mod game;
pub mod projectiles;
