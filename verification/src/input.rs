//! The input loop's decision logic.
//!
//! The loop itself blocks on the terminal outside the library; what it
//! decides is here: which characters are recognized as moves, and which
//! sequence of state snapshots a sequence of keystrokes produces. Every
//! recognized keystroke applies its move and emits one snapshot of the
//! state just after it — also when the move was a no-op — and snapshots
//! are emitted in exactly the keystrokes' order; unrecognized keystrokes
//! emit nothing.

use vstd::prelude::*;
use crate::game::{GameState, GameView, Movement, inv, step};

verus! {

/// The recognized move vocabulary: `w` up, `a` left, `s` down, `d` right.
pub open spec fn char_to_movement(c: char) -> Option<Movement> {
    if c == 'w' {
        Some(Movement::UP)
    } else if c == 'a' {
        Some(Movement::LEFT)
    } else if c == 's' {
        Some(Movement::DOWN)
    } else if c == 'd' {
        Some(Movement::RIGHT)
    } else {
        None
    }
}

/// Maps one keystroke to its move; unrecognized characters map to nothing.
pub fn map_input(c: char) -> (r: Option<Movement>)
    ensures
        r == char_to_movement(c),
{
    match c {
        'w' => Some(Movement::UP),
        'a' => Some(Movement::LEFT),
        's' => Some(Movement::DOWN),
        'd' => Some(Movement::RIGHT),
        _ => None,
    }
}

/// The state after a keystroke sequence: each recognized key applies its
/// move, every other key changes nothing.
pub open spec fn run_state(g: GameView, keys: Seq<char>) -> GameView
    decreases keys.len(),
{
    if keys.len() == 0 {
        g
    } else {
        match char_to_movement(keys[0]) {
            Some(m) => run_state(step(g, m), keys.skip(1)),
            None => run_state(g, keys.skip(1)),
        }
    }
}

/// The snapshots a keystroke sequence emits: one per recognized key, in
/// the keys' order, each the state just after that key's move.
pub open spec fn run_snapshots(g: GameView, keys: Seq<char>) -> Seq<GameView>
    decreases keys.len(),
{
    if keys.len() == 0 {
        Seq::empty()
    } else {
        match char_to_movement(keys[0]) {
            Some(m) => seq![step(g, m)] + run_snapshots(step(g, m), keys.skip(1)),
            None => run_snapshots(g, keys.skip(1)),
        }
    }
}

/// Keystroke runs compose: feeding two sequences one after the other ends
/// in the same state, and emits the same snapshots in the same order, as
/// feeding their concatenation.
pub proof fn lemma_run_append(g: GameView, s: Seq<char>, t: Seq<char>)
    ensures
        run_state(g, s + t) == run_state(run_state(g, s), t),
        run_snapshots(g, s + t) == run_snapshots(g, s) + run_snapshots(run_state(g, s), t),
    decreases s.len(),
{
    if s.len() == 0 {
        assert(s + t =~= t);
        assert(run_snapshots(g, s) + run_snapshots(g, t) =~= run_snapshots(g, t));
    } else {
        assert((s + t)[0] == s[0]);
        assert((s + t).skip(1) =~= s.skip(1) + t);
        match char_to_movement(s[0]) {
            Some(m) => {
                lemma_run_append(step(g, m), s.skip(1), t);
                assert(seq![step(g, m)] + (run_snapshots(step(g, m), s.skip(1)) + run_snapshots(
                    run_state(step(g, m), s.skip(1)),
                    t,
                )) =~= (seq![step(g, m)] + run_snapshots(step(g, m), s.skip(1))) + run_snapshots(
                    run_state(g, s),
                    t,
                ));
            },
            None => {
                lemma_run_append(g, s.skip(1), t);
            },
        }
    }
}

/// How many keystrokes of a sequence are recognized moves.
pub open spec fn recognized_count(keys: Seq<char>) -> int
    decreases keys.len(),
{
    if keys.len() == 0 {
        0
    } else {
        (if char_to_movement(keys[0]) is Some {
            1int
        } else {
            0int
        }) + recognized_count(keys.skip(1))
    }
}

/// Exactly one snapshot is emitted per recognized keystroke — also for
/// keystrokes whose move was a no-op; unrecognized keystrokes emit none.
pub proof fn lemma_one_snapshot_per_key(g: GameView, keys: Seq<char>)
    ensures
        run_snapshots(g, keys).len() == recognized_count(keys),
    decreases keys.len(),
{
    if keys.len() > 0 {
        match char_to_movement(keys[0]) {
            Some(m) => {
                lemma_one_snapshot_per_key(step(g, m), keys.skip(1));
            },
            None => {
                lemma_one_snapshot_per_key(g, keys.skip(1));
            },
        }
    }
}

/// Well-formedness survives any keystroke sequence: after it, exactly one
/// cell still carries the player marker and the goal marker is intact
/// unless the player covers it.
pub proof fn lemma_run_preserves_inv(g: GameView, keys: Seq<char>)
    requires
        inv(g),
    ensures
        inv(run_state(g, keys)),
    decreases keys.len(),
{
    if keys.len() > 0 {
        match char_to_movement(keys[0]) {
            Some(m) => {
                crate::game::lemma_step_preserves_inv(g, m);
                lemma_run_preserves_inv(step(g, m), keys.skip(1));
            },
            None => {
                lemma_run_preserves_inv(g, keys.skip(1));
            },
        }
    }
}

/// Applies a keystroke sequence to the state and returns the emitted
/// snapshots: one independent copy of the state per recognized key, in
/// the keys' order; the state ends as `run_state` says.
pub fn process_keys(state: &mut GameState, keys: &Vec<char>) -> (r: Vec<GameState>)
    requires
        inv(old(state)@),
    ensures
        final(state)@ == run_state(old(state)@, keys@),
        inv(final(state)@),
        r@.map_values(|s: GameState| s@) == run_snapshots(old(state)@, keys@),
{
    let mut snapshots: Vec<GameState> = Vec::new();
    let mut i: usize = 0;
    proof {
        assert(keys@.take(0) =~= Seq::<char>::empty());
        assert(snapshots@.map_values(|s: GameState| s@) =~= Seq::<GameView>::empty());
    }
    while i < keys.len()
        invariant
            i <= keys@.len(),
            inv(state@),
            state@ == run_state(old(state)@, keys@.take(i as int)),
            snapshots@.map_values(|s: GameState| s@) == run_snapshots(
                old(state)@,
                keys@.take(i as int),
            ),
        decreases keys@.len() - i,
    {
        let ghost pre = keys@.take(i as int);
        let ghost one = seq![keys@[i as int]];
        proof {
            assert(keys@.take(i as int + 1) =~= pre + one);
            lemma_run_append(old(state)@, pre, one);
            assert(one.skip(1) =~= Seq::<char>::empty());
        }
        let c = keys[i];
        match map_input(c) {
            Some(m) => {
                let ghost before = state@;
                state.move_position(m);
                let snap = state.snapshot();
                let ghost snaps0 = snapshots@;
                snapshots.push(snap);
                proof {
                    assert(one[0] == c);
                    assert(run_state(step(before, m), one.skip(1)) == step(before, m));
                    assert(run_snapshots(step(before, m), one.skip(1)) =~= Seq::<GameView>::empty());
                    assert(run_snapshots(before, one) =~= seq![step(before, m)]);
                    assert(snapshots@.map_values(|s: GameState| s@) =~= snaps0.map_values(
                        |s: GameState| s@,
                    ).push(snap@));
                    assert(snapshots@.map_values(|s: GameState| s@) =~= run_snapshots(
                        old(state)@,
                        keys@.take(i as int + 1),
                    ));
                }
            },
            None => {
                proof {
                    assert(one[0] == c);
                    assert(run_state(state@, one.skip(1)) == state@);
                    assert(run_snapshots(state@, one.skip(1)) =~= Seq::<GameView>::empty());
                    assert(run_snapshots(state@, one) =~= Seq::<GameView>::empty());
                    assert(snapshots@.map_values(|s: GameState| s@) =~= run_snapshots(
                        old(state)@,
                        keys@.take(i as int + 1),
                    ));
                }
            },
        }
        i = i + 1;
    }
    proof {
        assert(keys@.take(keys@.len() as int) =~= keys@);
    }
    snapshots
}

} // verus!
