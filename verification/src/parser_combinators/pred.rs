//! Specification models for caller-supplied predicate functions.
//!
//! A predicate-run matcher takes an executable predicate `Fn(&u8) -> bool`.
//! Its specification-level model is a `spec_fn(u8) -> bool` that the
//! executable predicate is known to follow: the predicate can be called on
//! any element, and every result it can return equals the model applied to
//! that element.

use vstd::prelude::*;

verus! {

/// The executable predicate `f` follows the mathematical predicate `gp`.
pub open spec fn pred_obeys<F: Fn(&u8) -> bool>(f: F, gp: spec_fn(u8) -> bool) -> bool {
    &&& forall|x: &u8| #[trigger] call_requires(f, (x,))
    &&& forall|x: &u8, b: bool| #[trigger] call_ensures(f, (x,), b) ==> b == gp(*x)
}

/// Some mathematical predicate models `f`.
pub open spec fn pred_wf<F: Fn(&u8) -> bool>(f: F) -> bool {
    exists|gp: spec_fn(u8) -> bool| pred_obeys(f, gp)
}

/// The mathematical predicate modelling `f`.
pub open spec fn pred_model<F: Fn(&u8) -> bool>(f: F) -> spec_fn(u8) -> bool {
    choose|gp: spec_fn(u8) -> bool| pred_obeys(f, gp)
}

/// Length of the greedy run of elements satisfying `gp` at the head of `s`.
pub open spec fn spec_run_len(gp: spec_fn(u8) -> bool, s: Seq<u8>) -> nat
    decreases s.len(),
{
    if s.len() == 0 || !gp(s[0]) {
        0
    } else {
        1 + spec_run_len(gp, s.skip(1))
    }
}

/// Length of the greedy run, never exceeding `bound`.
pub open spec fn spec_run_len_max(gp: spec_fn(u8) -> bool, s: Seq<u8>, bound: nat) -> nat
    decreases s.len(),
{
    if bound == 0 || s.len() == 0 || !gp(s[0]) {
        0
    } else {
        1 + spec_run_len_max(gp, s.skip(1), (bound - 1) as nat)
    }
}

/// The greedy run length is witnessed by a satisfying prefix that stops at
/// the first non-match or at the end of the input.
pub proof fn lemma_run_len_is(gp: spec_fn(u8) -> bool, s: Seq<u8>, c: nat)
    requires
        c <= s.len(),
        forall|j: int| 0 <= j < c ==> gp(s[j]),
        c == s.len() || !gp(s[c as int]),
    ensures
        spec_run_len(gp, s) == c,
    decreases c,
{
    if c == 0 {
    } else {
        assert(gp(s[0]));
        lemma_run_len_is(gp, s.skip(1), (c - 1) as nat);
    }
}

/// The bounded run length is witnessed by a satisfying prefix that stops
/// at the first non-match, at the end of the input, or at the bound.
pub proof fn lemma_run_len_max_is(gp: spec_fn(u8) -> bool, s: Seq<u8>, bound: nat, c: nat)
    requires
        c <= s.len(),
        c <= bound,
        forall|j: int| 0 <= j < c ==> gp(s[j]),
        c == bound || c == s.len() || !gp(s[c as int]),
    ensures
        spec_run_len_max(gp, s, bound) == c,
    decreases c,
{
    if c == 0 {
    } else {
        assert(gp(s[0]));
        lemma_run_len_max_is(gp, s.skip(1), (bound - 1) as nat, (c - 1) as nat);
    }
}

/// The run length never exceeds the input length.
pub proof fn lemma_run_len_le(gp: spec_fn(u8) -> bool, s: Seq<u8>)
    ensures
        spec_run_len(gp, s) <= s.len(),
    decreases s.len(),
{
    if s.len() == 0 || !gp(s[0]) {
    } else {
        lemma_run_len_le(gp, s.skip(1));
    }
}

/// The bounded run length never exceeds the input length nor the bound.
pub proof fn lemma_run_len_max_le(gp: spec_fn(u8) -> bool, s: Seq<u8>, bound: nat)
    ensures
        spec_run_len_max(gp, s, bound) <= s.len(),
        spec_run_len_max(gp, s, bound) <= bound,
    decreases s.len(),
{
    if bound == 0 || s.len() == 0 || !gp(s[0]) {
    } else {
        lemma_run_len_max_le(gp, s.skip(1), (bound - 1) as nat);
    }
}

/// The executable step function `f` of `seq_ext` follows the mathematical
/// step function `gs`: given the current remaining input, both report how
/// many leading elements to consume next (0 meaning stop).
pub open spec fn step_obeys<F: Fn(&[u8]) -> usize>(f: F, gs: spec_fn(Seq<u8>) -> usize) -> bool {
    &&& forall|s: &[u8]| #[trigger] call_requires(f, (s,))
    &&& forall|s: &[u8], l: usize| #[trigger] call_ensures(f, (s,), l) ==> l == gs(s@)
}

/// Some mathematical step function models `f`.
pub open spec fn step_wf<F: Fn(&[u8]) -> usize>(f: F) -> bool {
    exists|gs: spec_fn(Seq<u8>) -> usize| step_obeys(f, gs)
}

/// The mathematical step function modelling `f`.
pub open spec fn step_model<F: Fn(&[u8]) -> usize>(f: F) -> spec_fn(Seq<u8>) -> usize {
    choose|gs: spec_fn(Seq<u8>) -> usize| step_obeys(f, gs)
}

/// Total number of elements consumed by repeatedly applying the step
/// function `gs` until it returns 0 or asks for more than remains.
pub open spec fn spec_ext_len(gs: spec_fn(Seq<u8>) -> usize, s: Seq<u8>) -> nat
    decreases s.len(),
{
    let l = gs(s);
    if l < 1 || s.len() < l {
        0
    } else {
        (l + spec_ext_len(gs, s.skip(l as int))) as nat
    }
}

/// The extended run never reaches past the end of the input.
pub proof fn lemma_ext_len_le(gs: spec_fn(Seq<u8>) -> usize, s: Seq<u8>)
    ensures
        spec_ext_len(gs, s) <= s.len(),
    decreases s.len(),
{
    let l = gs(s);
    if l < 1 || s.len() < l {
    } else {
        lemma_ext_len_le(gs, s.skip(l as int));
    }
}

/// Scan the greedy run of `f` at the head of `input`.
pub fn scan_run<F: Fn(&u8) -> bool + Copy>(f: F, input: &[u8]) -> (c: usize)
    requires
        pred_wf(f),
    ensures
        c == spec_run_len(pred_model(f), input@),
        c <= input@.len(),
{
    let ghost gp = pred_model(f);
    proof {
        assert(pred_obeys(f, gp));
    }
    let mut c: usize = 0;
    loop
        invariant
            gp == pred_model(f),
            pred_obeys(f, gp),
            c <= input@.len(),
            forall|j: int| 0 <= j < c ==> gp(input@[j]),
        decreases input@.len() - c,
    {
        if c >= input.len() {
            proof {
                lemma_run_len_is(gp, input@, c as nat);
            }
            return c;
        }
        let x = vstd::slice::slice_index_get(input, c);
        let b = f(x);
        if !b {
            proof {
                lemma_run_len_is(gp, input@, c as nat);
            }
            return c;
        }
        c += 1;
    }
}

/// Scan the greedy run of `f`, stopping at `bound` elements.
pub fn scan_run_max<F: Fn(&u8) -> bool + Copy>(f: F, input: &[u8], bound: usize) -> (c: usize)
    requires
        pred_wf(f),
    ensures
        c == spec_run_len_max(pred_model(f), input@, bound as nat),
        c <= input@.len(),
        c <= bound,
{
    let ghost gp = pred_model(f);
    proof {
        assert(pred_obeys(f, gp));
    }
    let mut c: usize = 0;
    loop
        invariant
            gp == pred_model(f),
            pred_obeys(f, gp),
            c <= input@.len(),
            c <= bound,
            forall|j: int| 0 <= j < c ==> gp(input@[j]),
        decreases input@.len() - c,
    {
        if c >= bound || c >= input.len() {
            proof {
                lemma_run_len_max_is(gp, input@, bound as nat, c as nat);
            }
            return c;
        }
        let x = vstd::slice::slice_index_get(input, c);
        let b = f(x);
        if !b {
            proof {
                lemma_run_len_max_is(gp, input@, bound as nat, c as nat);
            }
            return c;
        }
        c += 1;
    }
}

} // verus!
