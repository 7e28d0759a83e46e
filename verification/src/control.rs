//! The verified core of the per-agent tracking control step.
//!
//! Each tick, every agent reads its own state vector and its cached
//! current-assignment snapshot, forms the error state `e = x0 - xTarget`
//! (with the zero vector as reference when it has never been assigned, so
//! the agent holds position), hands `-K e` and its dynamics to the external
//! integrator, and writes the integrator's final-time state back. The error
//! computation and the write-back are verified here; the gain and the
//! integration are outside numeric capabilities. Each step touches only the
//! invoking agent's own state, never another agent's.

use vstd::prelude::*;

verus! {

/// The reference the error state is measured against: the cached target
/// snapshot, or the zero vector of the agent's own dimension when no
/// assignment snapshot exists.
pub open spec fn reference_or_zero(reference: Option<Seq<i64>>, dim: nat) -> Seq<i64> {
    match reference {
        Some(r) => r,
        None => Seq::new(dim, |i: int| 0i64),
    }
}

/// The view of an optional borrowed state vector.
pub open spec fn opt_state_view(reference: Option<&Vec<i64>>) -> Option<Seq<i64>> {
    match reference {
        Some(r) => Some(r@),
        None => None,
    }
}

/// The error state `e = x0 - xTarget`, componentwise, against the cached
/// reference — or against the zero vector when there is none, in which case
/// the error equals the agent's own raw state. Returns `None` exactly when
/// the reference's dimension differs from the agent's, or a component
/// difference falls outside the fixed-point range.
pub fn error_state(x0: &Vec<i64>, reference: Option<&Vec<i64>>) -> (e: Option<Vec<i64>>)
    ensures
        match e {
            Some(ev) => {
                let r = reference_or_zero(opt_state_view(reference), x0@.len());
                &&& r.len() == x0@.len()
                &&& ev@.len() == x0@.len()
                &&& forall|i: int| 0 <= i < ev@.len() ==> ev@[i] == x0@[i] - r[i]
                &&& (reference is None ==> ev@ == x0@)
            },
            None => {
                let r = reference_or_zero(opt_state_view(reference), x0@.len());
                reference is Some && (r.len() != x0@.len() || exists|i: int|
                    0 <= i < x0@.len() && !(i64::MIN <= x0@[i] - (#[trigger] r[i]) <= i64::MAX))
            },
        },
        e is Some <==> {
            let r = reference_or_zero(opt_state_view(reference), x0@.len());
            r.len() == x0@.len() && forall|i: int|
                0 <= i < x0@.len() ==> i64::MIN <= x0@[i] - (#[trigger] r[i]) <= i64::MAX
        },
{
    match reference {
        Some(rv) => {
            if rv.len() != x0.len() {
                return None;
            }
            let n = x0.len();
            let mut ev: Vec<i64> = Vec::new();
            let mut i: usize = 0;
            while i < n
                invariant
                    reference == Some(rv),
                    0 <= i <= n,
                    n == x0@.len(),
                    n == rv@.len(),
                    ev@.len() == i,
                    forall|k: int| 0 <= k < i ==> ev@[k] == x0@[k] - rv@[k],
                    forall|k: int|
                        0 <= k < i ==> i64::MIN <= x0@[k] - (#[trigger] rv@[k]) <= i64::MAX,
                decreases n - i,
            {
                match x0[i].checked_sub(rv[i]) {
                    Some(d) => {
                        ev.push(d);
                    },
                    None => {
                        proof {
                            assert(reference == Some(rv));
                            let r = reference_or_zero(opt_state_view(reference), x0@.len());
                            assert(r == rv@);
                            assert(!(i64::MIN <= x0@[i as int] - r[i as int] <= i64::MAX));
                        }
                        return None;
                    },
                }
                i = i + 1;
            }
            Some(ev)
        },
        None => {
            let ev = x0.clone();
            proof {
                assert(ev@ =~= x0@);
                let r = reference_or_zero(opt_state_view(reference), x0@.len());
                assert(forall|i: int| 0 <= i < r.len() ==> r[i] == 0i64);
            }
            Some(ev)
        },
    }
}

/// Write an integration result back into an agent's own state vector. The
/// write happens only when the new state has the agent's own dimension, so
/// a control step can never change the dimension of a state vector; a
/// mismatched result leaves the state untouched and reports failure.
pub fn commit_state(state: &mut Vec<i64>, new_state: &Vec<i64>) -> (ok: bool)
    ensures
        final(state)@.len() == old(state)@.len(),
        ok <==> new_state@.len() == old(state)@.len(),
        ok ==> final(state)@ == new_state@,
        !ok ==> final(state)@ == old(state)@,
{
    if new_state.len() == state.len() {
        let c = new_state.clone();
        proof {
            assert(c@ =~= new_state@);
        }
        *state = c;
        true
    } else {
        false
    }
}

/// Apply one tick's per-agent integration results to the whole population.
/// Isolation: agent `i`'s new state is a function of its own previous state
/// and its own integration result alone — slot `i` of the result never
/// depends on, nor alters, any other agent's state — and every state keeps
/// its dimension, exactly as `commit_state` does for one agent.
pub fn commit_states(states: &mut Vec<Vec<i64>>, finals: &Vec<Vec<i64>>)
    requires
        finals@.len() == old(states)@.len(),
    ensures
        final(states)@.len() == old(states)@.len(),
        forall|i: int|
            0 <= i < final(states)@.len() ==> {
                &&& (#[trigger] final(states)@[i])@.len() == old(states)@[i]@.len()
                &&& (finals@[i]@.len() == old(states)@[i]@.len() ==> final(states)@[i]@
                    == finals@[i]@)
                &&& (finals@[i]@.len() != old(states)@[i]@.len() ==> final(states)@[i]@ == old(
                    states,
                )@[i]@)
            },
{
    let n = states.len();
    let mut out: Vec<Vec<i64>> = Vec::new();
    let mut i: usize = 0;
    while i < n
        invariant
            0 <= i <= n,
            n == states@.len(),
            n == finals@.len(),
            out@.len() == i,
            forall|k: int|
                0 <= k < i ==> {
                    &&& (#[trigger] out@[k])@.len() == states@[k]@.len()
                    &&& (finals@[k]@.len() == states@[k]@.len() ==> out@[k]@ == finals@[k]@)
                    &&& (finals@[k]@.len() != states@[k]@.len() ==> out@[k]@ == states@[k]@)
                },
        decreases n - i,
    {
        if finals[i].len() == states[i].len() {
            let c = finals[i].clone();
            proof {
                assert(c@ =~= finals@[i as int]@);
            }
            out.push(c);
        } else {
            let c = states[i].clone();
            proof {
                assert(c@ =~= states@[i as int]@);
            }
            out.push(c);
        }
        i = i + 1;
    }
    *states = out;
}

} // verus!
