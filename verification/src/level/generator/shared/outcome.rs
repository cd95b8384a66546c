//! Outcomes of population steps: the quad and the generator state after a step, where
//! the quad determines every block the step reads, chained step after step.
use super::quad_chunk_buffer::QuadView;
use crate::rand::primitives::i32_draw;
use vstd::prelude::*;

verus! {

/// What a population step leaves: the quad and the generator state after it, or `None`
/// where the quad does not determine a block that the step reads.
pub type Outcome = Option<(QuadView, int)>;

/// A buffer view and a generator state that agree with `o`, where `o` is known.
pub open spec fn reached(o: Outcome, q: QuadView, s: int) -> bool {
    o matches Some((q1, s1)) ==> q == q1 && s == s1
}

/// Step `f` after the outcome `o`.
pub open spec fn and_then(o: Outcome, f: spec_fn(QuadView, int) -> Outcome) -> Outcome {
    match o {
        None => None,
        Some((q, s)) => f(q, s),
    }
}

/// Step `f` taken `n` times, one after another, after `o`.
pub open spec fn repeat(o: Outcome, f: spec_fn(QuadView, int) -> Outcome, n: nat) -> Outcome
    decreases n,
{
    if n == 0 {
        o
    } else {
        and_then(repeat(o, f, (n - 1) as nat), f)
    }
}

/// Repeating a step after a known outcome is repeating it from what that outcome holds;
/// after an unknown one, the result stays unknown.
pub proof fn lemma_repeat_from(o: Outcome, q: QuadView, s: int, f: spec_fn(QuadView, int) -> Outcome, n: nat)
    requires
        reached(o, q, s),
    ensures
        o is Some ==> repeat(o, f, n) == repeat(Some((q, s)), f, n),
        o is None ==> repeat(o, f, n) is None,
    decreases n,
{
    if n > 0 {
        lemma_repeat_from(o, q, s, f, (n - 1) as nat);
    }
}

/// After `o`, one draw in `[0, bound)`; step `f` follows where it drew `0`.
pub open spec fn on_chance(o: Outcome, bound: int, f: spec_fn(QuadView, int) -> Outcome) -> Outcome {
    and_then(
        o,
        |q: QuadView, s: int|
            {
                let d = i32_draw(s, Some(bound));
                if d.1 == 0 {
                    f(q, d.0)
                } else {
                    Some((q, d.0))
                }
            },
    )
}

} // verus!
