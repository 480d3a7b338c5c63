//! The player's remaining lives.
use vstd::prelude::*;

verus! {

/// Number of lives a fresh game starts with, and the number `reset` restores.
pub const STARTING_LIVES: u32 = 3;

/// The count of lives after losing one: one fewer, but never below zero.
pub open spec fn count_after_loss(n: u32) -> u32 {
    if n > 0 { (n - 1) as u32 } else { 0 }
}

/// The player's remaining lives.
pub struct Lives(u32);

impl View for Lives {
    type V = u32;

    closed spec fn view(&self) -> u32 {
        self.0
    }
}

impl Lives {
    /// Lives holding exactly `count`.
    pub fn new(count: u32) -> (lives: Self)
        ensures
            lives@ == count,
    {
        Lives(count)
    }

    /// Loses one life (none once the count is zero) and tells whether the
    /// count is now zero, that is whether the game is over.
    pub fn lose_life(&mut self) -> (game_over: bool)
        ensures
            final(self)@ == count_after_loss(old(self)@),
            game_over == (final(self)@ == 0),
    {
        if self.0 > 0 {
            self.0 -= 1;
        }
        self.0 == 0
    }

    /// Gains one life.
    pub fn add_life(&mut self)
        requires
            old(self)@ < u32::MAX,
        ensures
            final(self)@ == old(self)@ + 1,
    {
        self.0 += 1;
    }

    /// The number of remaining lives.
    pub fn count(&self) -> (n: u32)
        ensures
            n == self@,
    {
        self.0
    }

    /// Restores the starting number of lives.
    pub fn reset(&mut self)
        ensures
            final(self)@ == STARTING_LIVES,
    {
        self.0 = STARTING_LIVES;
    }
}

/// Gaining a life and then losing one gives back the count one started with.
pub proof fn lemma_gain_then_loss_restores(n: u32)
    requires
        n < u32::MAX,
    ensures
        count_after_loss((n + 1) as u32) == n,
{
}

/// Once no life is left, losing a life leaves none and still reports the
/// game as over.
pub proof fn lemma_game_over_persists()
    ensures
        count_after_loss(0) == 0,
{
}

/// Losing a life never raises the count, and lowers it by exactly one
/// while any life is left.
pub proof fn lemma_loss_lowers_by_one(n: u32)
    ensures
        count_after_loss(n) <= n,
        n > 0 ==> count_after_loss(n) == n - 1,
{
}

} // verus!
