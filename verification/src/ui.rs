//! What the on-screen texts show: the score and the remaining lives.
use vstd::prelude::*;
use vstd::string::StringExecFns;

verus! {

/// The player's score.
pub struct Score {
    pub value: u32,
}

impl Default for Score {
    fn default() -> (s: Self)
        ensures
            s.value == 0,
    {
        Score { value: 0 }
    }
}

/// Adds the points earned during a frame to the score.
pub fn update_score(score: &mut Score, points: u32)
    requires
        old(score).value + points <= u32::MAX,
    ensures
        final(score).value == old(score).value + points,
{
    score.value += points;
}

/// The heart shown for one life.
pub open spec fn heart() -> Seq<char> {
    "\u{2764}\u{fe0f}"@
}

/// `n` hearts in a row.
pub open spec fn hearts(n: nat) -> Seq<char>
    decreases n,
{
    if n == 0 {
        Seq::empty()
    } else {
        hearts((n - 1) as nat) + heart()
    }
}

/// The lives text: one heart per remaining life.
pub fn lives_text(count: u32) -> (text: String)
    ensures
        text@ == hearts(count as nat),
{
    let mut text = String::new();
    let mut i: u32 = 0;
    while i < count
        invariant
            i <= count,
            text@ == hearts(i as nat),
        decreases count - i,
    {
        text.append("\u{2764}\u{fe0f}");
        i += 1;
    }
    text
}

/// The lives text has two characters per life, alternating the heart
/// sign and the emoji presentation selector that follows it.
pub proof fn lemma_hearts_shape(n: nat)
    ensures
        hearts(n).len() == 2 * n,
        forall|j: int| 0 <= j < 2 * n ==> #[trigger] hearts(n)[j] == (if j % 2 == 0 {
            '\u{2764}'
        } else {
            '\u{fe0f}'
        }),
    decreases n,
{
    reveal_strlit("\u{2764}\u{fe0f}");
    if n > 0 {
        lemma_hearts_shape((n - 1) as nat);
        let prev = hearts((n - 1) as nat);
        assert(hearts(n) == prev + heart());
        assert forall|j: int| 0 <= j < 2 * n implies #[trigger] hearts(n)[j] == (if j % 2 == 0 {
            '\u{2764}'
        } else {
            '\u{fe0f}'
        }) by {
            if j < 2 * (n - 1) {
                assert(hearts(n)[j] == prev[j]);
            } else {
                assert(hearts(n)[j] == heart()[j - 2 * (n - 1)]);
            }
        }
    }
}

} // verus!
