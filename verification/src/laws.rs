//! What holds of a schedule stack when the blinker is stepped repeatedly.
//!
//! One whole step toggles the pin once when a schedule is active, waits, and
//! then retires as [`retire`] says. [`run_steps`] and [`toggle_count`] iterate
//! that picture, and the proof functions here state the stack's behaviour over
//! any number of steps.
use vstd::prelude::*;

use crate::retire;
use crate::Schedule;

verus! {

/// The schedule stack after `m` whole steps.
pub open spec fn run_steps(stack: Seq<Schedule>, m: nat) -> Seq<Schedule>
    decreases m,
{
    if m == 0 {
        stack
    } else {
        run_steps(retire(stack), (m - 1) as nat)
    }
}

/// How many pin toggles `m` whole steps perform from the given stack: one for
/// every step that begins with a schedule active, none for a step that begins
/// on an empty stack.
pub open spec fn toggle_count(stack: Seq<Schedule>, m: nat) -> nat
    decreases m,
{
    if m == 0 {
        0
    } else {
        (if stack.len() > 0 {
            1 as nat
        } else {
            0 as nat
        }) + toggle_count(retire(stack), (m - 1) as nat)
    }
}

/// Retirement only ever touches the top of the stack: it pops at most that
/// one schedule, and every schedule below the top keeps its place and its
/// remaining count exactly as they were.
pub proof fn lemma_retire_touches_only_the_top(stack: Seq<Schedule>)
    ensures
        stack.len() - 1 <= retire(stack).len() <= stack.len(),
        forall|i: int| 0 <= i < stack.len() - 1 ==> retire(stack)[i] == stack[i],
{
}

/// Steps on an empty stack leave it empty and never touch the pin.
pub proof fn lemma_empty_stack_idle(m: nat)
    ensures
        run_steps(Seq::<Schedule>::empty(), m) == Seq::<Schedule>::empty(),
        toggle_count(Seq::<Schedule>::empty(), m) == 0,
    decreases m,
{
    if m > 0 {
        lemma_empty_stack_idle((m - 1) as nat);
    }
}

/// Running `a + b` steps is running `a` steps and then `b` more; the toggles
/// add up the same way.
pub proof fn lemma_run_steps_add(stack: Seq<Schedule>, a: nat, b: nat)
    ensures
        run_steps(stack, a + b) == run_steps(run_steps(stack, a), b),
        toggle_count(stack, a + b) == toggle_count(stack, a) + toggle_count(
            run_steps(stack, a),
            b,
        ),
    decreases a,
{
    if a > 0 {
        lemma_run_steps_add(retire(stack), (a - 1) as nat, b);
    }
}

/// A finite schedule layered on any base stack drives exactly its own count
/// of steps, one toggle per step, while the base stays untouched beneath it;
/// the step that consumes its last toggle pops it and restores the base stack
/// exactly.
pub proof fn lemma_finite_layer(base: Seq<Schedule>, k: u32, d: u64)
    requires
        k > 0,
    ensures
        forall|m: nat|
            m < k ==> run_steps(base.push(Schedule::Finite(k, d)), m) == base.push(
                Schedule::Finite((k - m) as u32, d),
            ),
        run_steps(base.push(Schedule::Finite(k, d)), k as nat) == base,
        forall|m: nat|
            m <= k ==> toggle_count(base.push(Schedule::Finite(k, d)), m) == m,
    decreases k,
{
    let s = base.push(Schedule::Finite(k, d));
    assert(s.drop_last() =~= base);
    if k == 1 {
        assert(retire(s) == base);
        assert(run_steps(s, 1) == run_steps(retire(s), 0));
        assert(run_steps(s, k as nat) == base);
        assert(forall|m: nat| m < k ==> run_steps(s, m) == base.push(
            Schedule::Finite((k - m) as u32, d),
        )) by {
            assert(s =~= base.push(Schedule::Finite((k - 0) as u32, d)));
        }
        assert forall|m: nat| m <= k implies toggle_count(s, m) == m by {
            if m == 1 {
                assert(toggle_count(s, 1) == 1 + toggle_count(base, 0));
            }
        }
    } else {
        lemma_finite_layer(base, (k - 1) as u32, d);
        let t = base.push(Schedule::Finite((k - 1) as u32, d));
        assert(retire(s) == t);
        assert forall|m: nat| m < k implies run_steps(s, m) == base.push(
            Schedule::Finite((k - m) as u32, d),
        ) by {
            if m == 0 {
                assert(run_steps(s, m) == s);
                assert(s =~= base.push(Schedule::Finite((k - m) as u32, d)));
            } else {
                assert(run_steps(s, m) == run_steps(t, (m - 1) as nat));
            }
        }
        assert(run_steps(s, k as nat) == run_steps(t, (k - 1) as nat));
        assert forall|m: nat| m <= k implies toggle_count(s, m) == m by {
            if m > 0 {
                assert(toggle_count(s, m) == 1 + toggle_count(t, (m - 1) as nat));
            }
        }
    }
}

/// An infinite schedule at the top keeps the whole stack exactly as it is,
/// however many steps run, and every one of those steps toggles the pin.
pub proof fn lemma_infinite_top_persists(stack: Seq<Schedule>, m: nat)
    requires
        stack.len() > 0,
        stack.last() is Infinite,
    ensures
        run_steps(stack, m) == stack,
        toggle_count(stack, m) == m,
    decreases m,
{
    if m > 0 {
        lemma_infinite_top_persists(stack, (m - 1) as nat);
    }
}

/// A finite schedule alone on the stack runs for exactly its own count of
/// steps — one toggle per step — and leaves the stack empty.
pub proof fn lemma_finite_runs_to_empty(k: u32, d: u64)
    requires
        k > 0,
    ensures
        run_steps(seq![Schedule::Finite(k, d)], k as nat) == Seq::<Schedule>::empty(),
        toggle_count(seq![Schedule::Finite(k, d)], k as nat) == k,
{
    assert(seq![Schedule::Finite(k, d)] =~= Seq::<Schedule>::empty().push(
        Schedule::Finite(k, d),
    ));
    lemma_finite_layer(Seq::<Schedule>::empty(), k, d);
}

/// An infinite schedule alone on the stack survives any number of steps: the
/// stack still holds exactly that schedule, and each step toggled the pin.
pub proof fn lemma_infinite_schedule_persists(d: u64, m: nat)
    ensures
        run_steps(seq![Schedule::Infinite(d)], m) == seq![Schedule::Infinite(d)],
        toggle_count(seq![Schedule::Infinite(d)], m) == m,
{
    lemma_infinite_top_persists(seq![Schedule::Infinite(d)], m);
}

/// Stack layering: with an infinite baseline below and a finite schedule
/// pushed over it, the finite schedule alone drives the next `k` steps while
/// the baseline sits untouched beneath it; the step that consumes its last
/// toggle pops it, and every later step runs the baseline, which is never
/// popped. Every step toggles the pin exactly once.
pub proof fn lemma_layered_override(d1: u64, k: u32, d2: u64)
    requires
        k > 0,
    ensures
        forall|m: nat|
            m < k ==> run_steps(seq![Schedule::Infinite(d1), Schedule::Finite(k, d2)], m)
                == seq![Schedule::Infinite(d1)].push(Schedule::Finite((k - m) as u32, d2)),
        forall|m: nat|
            m >= k ==> run_steps(seq![Schedule::Infinite(d1), Schedule::Finite(k, d2)], m)
                == seq![Schedule::Infinite(d1)],
        forall|m: nat|
            toggle_count(seq![Schedule::Infinite(d1), Schedule::Finite(k, d2)], m) == m,
{
    let base = seq![Schedule::Infinite(d1)];
    let s = seq![Schedule::Infinite(d1), Schedule::Finite(k, d2)];
    assert(s =~= base.push(Schedule::Finite(k, d2)));
    lemma_finite_layer(base, k, d2);
    assert forall|m: nat| m >= k implies run_steps(s, m) == base by {
        lemma_run_steps_add(s, k as nat, (m - k) as nat);
        lemma_infinite_top_persists(base, (m - k) as nat);
        assert(k as nat + (m - k) as nat == m);
    }
    assert forall|m: nat| toggle_count(s, m) == m by {
        if m > k {
            lemma_run_steps_add(s, k as nat, (m - k) as nat);
            lemma_infinite_top_persists(base, (m - k) as nat);
            assert(k as nat + (m - k) as nat == m);
        }
    }
}

} // verus!
