//! The game state and its one mutating operation.

use vstd::pervasive::VecAdditionalExecFns;
use vstd::prelude::*;

verus! {

/// How a fresh guess compares with the secret.
#[derive(Clone, Copy, Debug, PartialEq, Eq, Structural)]
pub enum Comparison {
    Less,
    Greater,
    Equal,
}

/// What one call to [`GuessGame::play`] reports.
#[derive(Clone, Copy, Debug, PartialEq, Eq, Structural)]
pub enum PlayOutcome {
    /// The guess has no slot in the tried-table.
    OutOfRange,
    /// The guess's slot was already consumed by an earlier call.
    AlreadyTried,
    /// The guess was fresh; how it compares with the secret.
    Compared(Comparison),
}

/// Number of slots in the tried-table: guess `v` maps to slot `v`, so only
/// guesses in [0, 99] have a slot. The secret is drawn from [1, 100], so the
/// value 100 can never be marked tried nor win through the table lookup; that
/// boundary quirk is kept deliberately.
pub const SLOT_COUNT: usize = 100;

/// One game instance: a secret fixed at construction, a counter of attempts,
/// and a table of booleans marking which guesses were already tried.
pub struct GuessGame {
    pub secret: u32,
    pub number_of_tries: u32,
    pub tried: Vec<bool>,
}

/// The outcome one call of `play` reports, as a function of the tried-table,
/// the secret and the guess.
pub open spec fn spec_outcome(tried: Seq<bool>, secret: u32, guess: u32) -> PlayOutcome {
    if guess >= tried.len() {
        PlayOutcome::OutOfRange
    } else if tried[guess as int] {
        PlayOutcome::AlreadyTried
    } else if guess < secret {
        PlayOutcome::Compared(Comparison::Less)
    } else if guess > secret {
        PlayOutcome::Compared(Comparison::Greater)
    } else {
        PlayOutcome::Compared(Comparison::Equal)
    }
}

/// The tried-table after one call of `play`: a fresh in-range guess marks its
/// slot, every other call leaves the table unchanged.
pub open spec fn spec_tried_after(tried: Seq<bool>, guess: u32) -> Seq<bool> {
    if guess < tried.len() && !tried[guess as int] {
        tried.update(guess as int, true)
    } else {
        tried
    }
}

impl GuessGame {
    /// The structural invariant: one slot per guess in [0, 99] and a secret
    /// in [1, 100]. Constructors establish it and `play` preserves it.
    pub open spec fn wf(self) -> bool {
        &&& self.tried@.len() == SLOT_COUNT
        &&& 1 <= self.secret <= 100
    }

    /// Start a game whose secret the caller chooses; the attempt counter is
    /// zero and no value is marked tried.
    pub fn with_secret(secret: u32) -> (game: GuessGame)
        requires
            1 <= secret <= 100,
        ensures
            game.wf(),
            game.secret == secret,
            game.number_of_tries == 0,
            forall|i: int| 0 <= i < SLOT_COUNT ==> !game.tried@[i],
    {
        let mut tried: Vec<bool> = Vec::with_capacity(SLOT_COUNT);
        let mut i: usize = 0;
        while i < SLOT_COUNT
            invariant
                i <= SLOT_COUNT,
                tried@.len() == i,
                forall|j: int| 0 <= j < i ==> !tried@[j],
            decreases SLOT_COUNT - i,
        {
            tried.push(false);
            i = i + 1;
        }
        GuessGame { secret, number_of_tries: 0, tried }
    }

    /// Start a game with a freshly drawn secret.
    pub fn new() -> (game: GuessGame)
        ensures
            game.wf(),
            game.number_of_tries == 0,
            forall|i: int| 0 <= i < SLOT_COUNT ==> !game.tried@[i],
    {
        GuessGame::with_secret(crate::rng::random_secret())
    }

    /// Play one guess. The attempt counter goes up by exactly one on every
    /// call, whatever the outcome; the secret never changes; the tried-table
    /// changes only by marking a fresh in-range guess. The outcome is
    /// `spec_outcome` of the state before the call.
    pub fn play(&mut self, guess: u32) -> (outcome: PlayOutcome)
        requires
            old(self).wf(),
            old(self).number_of_tries < u32::MAX,
        ensures
            final(self).wf(),
            final(self).secret == old(self).secret,
            final(self).number_of_tries == old(self).number_of_tries + 1,
            final(self).tried@ == spec_tried_after(old(self).tried@, guess),
            outcome == spec_outcome(old(self).tried@, old(self).secret, guess),
    {
        self.number_of_tries = self.number_of_tries + 1;
        if guess >= SLOT_COUNT as u32 {
            PlayOutcome::OutOfRange
        } else {
            let slot = guess as usize;
            if self.tried[slot] {
                PlayOutcome::AlreadyTried
            } else {
                self.tried.set(slot, true);
                if guess < self.secret {
                    PlayOutcome::Compared(Comparison::Less)
                } else if guess > self.secret {
                    PlayOutcome::Compared(Comparison::Greater)
                } else {
                    PlayOutcome::Compared(Comparison::Equal)
                }
            }
        }
    }

    /// How many calls of `play` this instance has served.
    pub fn attempt_count(&self) -> (count: u32)
        ensures
            count == self.number_of_tries,
    {
        self.number_of_tries
    }
}

/// The state — tried-table and attempt counter — after a whole sequence of
/// guesses has been played in order, one call of `play` each.
pub open spec fn spec_state_after(tried: Seq<bool>, count: nat, guesses: Seq<u32>) -> (Seq<
    bool,
>, nat)
    decreases guesses.len(),
{
    if guesses.len() == 0 {
        (tried, count)
    } else {
        spec_state_after(spec_tried_after(tried, guesses[0]), count + 1, guesses.drop_first())
    }
}

/// Playing a fresh in-range guess reports a comparison and marks the slot;
/// the same guess on the next call of the same instance reports
/// `AlreadyTried`, and the slot stays marked.
pub proof fn lemma_repeat_guess(tried: Seq<bool>, secret: u32, guess: u32)
    requires
        (guess as int) < tried.len(),
        !tried[guess as int],
    ensures
        spec_outcome(tried, secret, guess) is Compared,
        spec_tried_after(tried, guess)[guess as int],
        spec_outcome(spec_tried_after(tried, guess), secret, guess) == PlayOutcome::AlreadyTried,
        spec_tried_after(spec_tried_after(tried, guess), guess) == spec_tried_after(tried, guess),
{
}

/// A guess with no slot in the tried-table reports `OutOfRange` and leaves
/// the table unchanged.
pub proof fn lemma_out_of_range(tried: Seq<bool>, secret: u32, guess: u32)
    requires
        guess >= tried.len(),
    ensures
        spec_outcome(tried, secret, guess) == PlayOutcome::OutOfRange,
        spec_tried_after(tried, guess) == tried,
{
}

/// A call wins exactly when its guess has a fresh in-range slot and equals
/// the secret; no other call reports `Compared(Equal)`.
pub proof fn lemma_win_iff_secret(tried: Seq<bool>, secret: u32, guess: u32)
    ensures
        spec_outcome(tried, secret, guess) == PlayOutcome::Compared(Comparison::Equal) <==> ((
        guess as int) < tried.len() && !tried[guess as int] && guess == secret),
{
}

/// A marked slot never reverts: whatever guess comes next, every slot that
/// was true before the call is still true after it.
pub proof fn lemma_tried_monotonic(tried: Seq<bool>, guess: u32)
    ensures
        spec_tried_after(tried, guess).len() == tried.len(),
        forall|i: int| 0 <= i < tried.len() && tried[i] ==> spec_tried_after(tried, guess)[i],
{
}

/// Serialization property: playing N distinct, in-range, never-before-tried
/// guesses in any serial order adds exactly N to the attempt counter and
/// marks exactly the guessed slots, leaving every other slot as it was.
pub proof fn lemma_distinct_fresh_guesses(tried: Seq<bool>, count: nat, guesses: Seq<u32>)
    requires
        tried.len() <= u32::MAX + 1,
        forall|j: int| 0 <= j < guesses.len() ==> (guesses[j] as int) < tried.len(),
        forall|j: int| 0 <= j < guesses.len() ==> !tried[guesses[j] as int],
        guesses.no_duplicates(),
    ensures
        spec_state_after(tried, count, guesses).1 == count + guesses.len(),
        spec_state_after(tried, count, guesses).0.len() == tried.len(),
        forall|i: int|
            0 <= i < tried.len() ==> (spec_state_after(tried, count, guesses).0[i] <==> (tried[i]
                || guesses.contains(i as u32))),
    decreases guesses.len(),
{
    if guesses.len() == 0 {
    } else {
        let g0 = guesses[0];
        let rest = guesses.drop_first();
        let tried1 = spec_tried_after(tried, g0);
        assert(tried1 == tried.update(g0 as int, true));
        assert forall|j: int| 0 <= j < rest.len() implies (rest[j] as int) < tried1.len()
            && !tried1[rest[j] as int] by {
            assert(rest[j] == guesses[j + 1]);
            assert(guesses[j + 1] != g0);
        }
        assert(rest.no_duplicates()) by {
            assert forall|p: int, q: int|
                0 <= p < rest.len() && 0 <= q < rest.len() && p != q implies rest[p] != rest[q] by {
                assert(rest[p] == guesses[p + 1]);
                assert(rest[q] == guesses[q + 1]);
            }
        }
        lemma_distinct_fresh_guesses(tried1, count + 1, rest);
        let after = spec_state_after(tried, count, guesses);
        let after1 = spec_state_after(tried1, count + 1, rest);
        assert(after == after1);
        assert forall|i: int|
            0 <= i < tried.len() implies (after.0[i] <==> (tried[i] || guesses.contains(
            i as u32,
        ))) by {
            assert(after1.0[i] <==> (tried1[i] || rest.contains(i as u32)));
            if after.0[i] && !tried[i] {
                if i == g0 as int {
                    assert(guesses[0] == i as u32);
                    assert(guesses.contains(i as u32));
                } else {
                    assert(!tried1[i]);
                    assert(rest.contains(i as u32));
                    let j = choose|j: int| 0 <= j < rest.len() && rest[j] == i as u32;
                    assert(guesses[j + 1] == i as u32);
                    assert(guesses.contains(i as u32));
                }
            }
            if guesses.contains(i as u32) {
                let j = choose|j: int| 0 <= j < guesses.len() && guesses[j] == i as u32;
                if j == 0 {
                    assert(i == g0 as int);
                    assert(tried1[i]);
                } else {
                    assert(rest[j - 1] == i as u32);
                    assert(rest.contains(i as u32));
                }
                assert(after1.0[i]);
            }
            if tried[i] {
                assert(tried1[i]);
                assert(after1.0[i]);
            }
        }
    }
}

/// On a fresh game no slot is marked, so N distinct in-range guesses leave
/// the counter at N and mark exactly the guessed slots: the set of marked
/// slots has exactly N elements.
pub proof fn lemma_fresh_game_distinct_guesses(tried: Seq<bool>, guesses: Seq<u32>)
    requires
        tried.len() <= u32::MAX + 1,
        forall|i: int| 0 <= i < tried.len() ==> !tried[i],
        forall|j: int| 0 <= j < guesses.len() ==> (guesses[j] as int) < tried.len(),
        guesses.no_duplicates(),
    ensures
        spec_state_after(tried, 0, guesses).1 == guesses.len(),
        forall|i: int|
            0 <= i < tried.len() ==> (spec_state_after(tried, 0, guesses).0[i]
                <==> guesses.contains(i as u32)),
        Set::new(
            |i: int| 0 <= i < tried.len() && spec_state_after(tried, 0, guesses).0[i],
        ).len() == guesses.len(),
{
    lemma_distinct_fresh_guesses(tried, 0, guesses);
    assert forall|i: int|
        0 <= i < tried.len() implies (spec_state_after(tried, 0, guesses).0[i]
        <==> guesses.contains(i as u32)) by {
        assert(!tried[i]);
    }
    let after = spec_state_after(tried, 0, guesses).0;
    let marked = Set::new(|i: int| 0 <= i < tried.len() && after[i]);
    let slots = guesses.map_values(|g: u32| g as int);
    assert(slots.no_duplicates()) by {
        assert forall|p: int, q: int|
            0 <= p < slots.len() && 0 <= q < slots.len() && p != q implies slots[p] != slots[q] by {
            assert(guesses[p] != guesses[q]);
        }
    }
    slots.unique_seq_to_set();
    assert(marked =~= slots.to_set()) by {
        assert forall|i: int| marked.contains(i) implies slots.to_set().contains(i) by {
            assert(guesses.contains(i as u32));
            let j = choose|j: int| 0 <= j < guesses.len() && guesses[j] == i as u32;
            assert(slots[j] == i);
            assert(slots.contains(i));
        }
        assert forall|i: int| slots.to_set().contains(i) implies marked.contains(i) by {
            assert(slots.contains(i));
            let j = choose|j: int| 0 <= j < slots.len() && slots[j] == i;
            assert(guesses[j] as int == i);
            assert(0 <= i < tried.len());
            assert(guesses.contains(i as u32));
            assert(after[i]);
        }
    }
}

} // verus!

