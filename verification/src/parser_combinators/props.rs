//! Laws of the combinator algebra, stated and proved over the
//! specification models.

use vstd::prelude::*;

use crate::parser_combinators::comb::{MsgErrP, OptionP};
use crate::parser_combinators::err::{fail_at, found, SpecResult};
use crate::parser_combinators::pred::{pred_model, spec_run_len, spec_run_len_max};
use crate::parser_combinators::permut::{permut_init2, permut_loop2, round2, Permut};
use crate::parser_combinators::prim::{SeqExact, SeqMin, StartsWith};
use crate::parser_combinators::rep::{spec_rep, More, MoreExact, MoreMax, MoreMin, RepSpec};
use crate::parser_combinators::traits::Parser;

verus! {

/// A bounded greedy run is the greedy run cut off at the bound.
pub proof fn lemma_run_len_max_is_min(gp: spec_fn(u8) -> bool, s: Seq<u8>, bound: nat)
    ensures
        spec_run_len_max(gp, s, bound) == if spec_run_len(gp, s) <= bound {
            spec_run_len(gp, s)
        } else {
            bound
        },
    decreases s.len(),
{
    if bound == 0 || s.len() == 0 || !gp(s[0]) {
    } else {
        lemma_run_len_max_is_min(gp, s.skip(1), (bound - 1) as nat);
    }
}

/// No false consumption: when the run of elements satisfying the
/// predicate at the head of the input is shorter than `seq_exact`
/// requires, the parse fails and the failure owns the original input
/// unchanged, with no context messages.
pub proof fn lemma_seq_exact_no_false_consumption<F: Fn(&u8) -> bool + Copy>(
    p: SeqExact<F>,
    input: Seq<u8>,
)
    requires
        spec_run_len(pred_model(p.f), input) < p.count_exact,
    ensures
        p.spec_parse(input) == fail_at::<Seq<u8>>(0),
{
    lemma_run_len_max_is_min(pred_model(p.f), input, p.count_exact as nat);
}

/// No false consumption: when the run of elements satisfying the
/// predicate at the head of the input is shorter than `seq_min`
/// requires, the parse fails and the failure owns the original input
/// unchanged, with no context messages.
pub proof fn lemma_seq_min_no_false_consumption<F: Fn(&u8) -> bool + Copy>(
    p: SeqMin<F>,
    input: Seq<u8>,
)
    requires
        spec_run_len(pred_model(p.f), input) < p.count_min,
    ensures
        p.spec_parse(input) == fail_at::<Seq<u8>>(0),
{
}

/// `option` never fails: on every input it succeeds, and when the
/// wrapped parser fails it consumes nothing and yields `None`, so the
/// remaining input is exactly the input it was given.
pub proof fn lemma_option_always_succeeds<'a, R: DeepView, P: Parser<'a, R>>(
    p: OptionP<P>,
    input: Seq<u8>,
)
    ensures
        p.spec_parse(input) matches SpecResult::Found { .. },
        p.p.spec_parse(input) matches SpecResult::Failed { .. } ==> p.spec_parse(input) == found::<
            Option<R::V>,
        >(0, None),
{
}

/// An unbounded repetition that collected nothing also consumed nothing.
proof fn lemma_rep_empty_used<'a, R: DeepView, P: Parser<'a, R>>(p: P, s: Seq<u8>)
    requires
        spec_rep(p, s, None).vals.len() == 0,
    ensures
        spec_rep(p, s, None).used == 0,
{
}

/// A repetition bounded at exactly the number of values the unbounded
/// repetition collects stops at the bound with the same values and the
/// same consumed length.
proof fn lemma_rep_bounded_matches<'a, R: DeepView, P: Parser<'a, R>>(p: P, s: Seq<u8>, k: nat)
    requires
        spec_rep(p, s, None).vals.len() == k,
        k >= 1,
    ensures
        spec_rep(p, s, Some(k)) == (RepSpec {
            vals: spec_rep(p, s, None).vals,
            used: spec_rep(p, s, None).used,
            fail: None::<crate::parser_combinators::rep::RepFail>,
        }),
    decreases s.len(),
{
    let m = spec_rep(p, s, None);
    match p.spec_parse(s) {
        SpecResult::Failed { .. } => {
            assert(false);
        },
        SpecResult::Found { used: u, val: v } => {
            if u == 0 || u > s.len() {
                assert(false);
            } else {
                let rest = spec_rep(p, s.skip(u as int), None);
                if k == 1 {
                    lemma_rep_empty_used(p, s.skip(u as int));
                    assert(seq![v] + rest.vals =~= seq![v]);
                    assert(spec_rep(p, s, Some(1nat)) == (RepSpec {
                        vals: seq![v],
                        used: u,
                        fail: None::<crate::parser_combinators::rep::RepFail>,
                    }));
                } else {
                    lemma_rep_bounded_matches(p, s.skip(u as int), (k - 1) as nat);
                }
            }
        },
    }
}

/// Repetition monotonicity: where `more` succeeds with `k` matches,
/// `more_min`, `more_max` and `more_exact` taken at `k` succeed on the
/// same input with the same `k`-element sequence and the same remaining
/// input.
pub proof fn lemma_more_monotonicity<'a, R: DeepView, P: Parser<'a, R>>(
    p: P,
    input: Seq<u8>,
    k: usize,
)
    requires
        ((More { p }).spec_parse(input) matches SpecResult::Found { used, val } && val.len() == k),
    ensures
        (MoreMin { p, count_min: k }).spec_parse(input) == (More { p }).spec_parse(input),
        (MoreMax { p, count_max: k }).spec_parse(input) == (More { p }).spec_parse(input),
        (MoreExact { p, count_exact: k }).spec_parse(input) == (More { p }).spec_parse(input),
{
    let m = spec_rep(p, input, None);
    assert(m.vals.len() == k && k >= 1);
    lemma_rep_bounded_matches(p, input, k as nat);
}

/// Context stack ordering: wrapping a failing parser with two nested
/// `msg_err` calls pushes the inner label first and the outer label
/// last, leaving the failure position and rendering mode untouched.
pub proof fn lemma_msg_err_context_order<'a, R: DeepView, P: Parser<'a, R>>(
    p: P,
    inner: &'a str,
    outer: &'a str,
    input: Seq<u8>,
)
    ensures
        (p.spec_parse(input) matches SpecResult::Failed { pos, msgs, to_str } ==> (MsgErrP {
            p: (MsgErrP { p, msg: inner }),
            msg: outer,
        }).spec_parse(input) == (SpecResult::<R::V>::Failed {
            pos,
            msgs: msgs.push(inner@).push(outer@),
            to_str,
        })),
{
}

/// Neither of two mutually non-prefix literals is a prefix of the
/// other's concatenation with anything.
proof fn lemma_no_prefix_of_concat(a: Seq<u8>, b: Seq<u8>, t: Seq<u8>)
    requires
        !a.is_prefix_of(b),
        !b.is_prefix_of(a),
    ensures
        !a.is_prefix_of(b + t),
{
    if a.is_prefix_of(b + t) {
        if a.len() <= b.len() {
            assert(a =~= b.subrange(0, a.len() as int)) by {
                assert forall|i: int| 0 <= i < a.len() implies a[i] == b.subrange(
                    0,
                    a.len() as int,
                )[i] by {
                    assert(a[i] == (b + t).subrange(0, a.len() as int)[i]);
                    assert((b + t)[i] == b[i]);
                }
            }
            assert(a.is_prefix_of(b));
        } else {
            assert(b =~= a.subrange(0, b.len() as int)) by {
                assert forall|i: int| 0 <= i < b.len() implies b[i] == a.subrange(
                    0,
                    b.len() as int,
                )[i] by {
                    assert(a[i] == (b + t).subrange(0, a.len() as int)[i]);
                    assert((b + t)[i] == b[i]);
                }
            }
            assert(b.is_prefix_of(a));
        }
    }
}

/// Permutation order independence: two slots matching literals that are
/// not prefixes of one another succeed identically whichever order the
/// two literals appear concatenated at the head of the input, consuming
/// both and yielding the same pair of values.
#[verifier::rlimit(50)]
pub proof fn lemma_permut_order_independent<'a>(a: &'a [u8], b: &'a [u8], t: Seq<u8>)
    requires
        !a@.is_prefix_of(b@),
        !b@.is_prefix_of(a@),
    ensures
        ((StartsWith { pattern: a }, StartsWith { pattern: b })).spec_permut(a@ + b@ + t)
            == found::<(Seq<u8>, Seq<u8>)>((a@.len() + b@.len()) as nat, (a@, b@)),
        ((StartsWith { pattern: a }, StartsWith { pattern: b })).spec_permut(b@ + a@ + t)
            == found::<(Seq<u8>, Seq<u8>)>((a@.len() + b@.len()) as nat, (a@, b@)),
{
    let pa = StartsWith { pattern: a };
    let pb = StartsWith { pattern: b };
    let s1 = a@ + b@ + t;
    let s2 = b@ + a@ + t;
    // literal order `a b`: the first sweep matches both slots in order
    assert(s1.skip(0) =~= s1);
    assert(s1.take(a@.len() as int) =~= a@);
    assert(a@.is_prefix_of(s1));
    assert(s1.skip(a@.len() as int) =~= b@ + t);
    assert((b@ + t).take(b@.len() as int) =~= b@);
    assert(b@.is_prefix_of(b@ + t));
    let st1 = round2(pa, pb, s1, permut_init2(s1));
    assert(st1.o0 == Some(a@) && st1.o1 == Some(b@) && st1.pos == a@.len() + b@.len());
    assert(round2(pa, pb, s1, st1) == st1);
    assert(permut_loop2(pa, pb, s1, st1) == st1);
    assert(permut_loop2(pa, pb, s1, permut_init2(s1)) == st1);
    // literal order `b a`: the first sweep matches only the second slot,
    // the next sweep matches the first
    assert(s2.skip(0) =~= s2);
    lemma_no_prefix_of_concat(a@, b@, a@ + t);
    assert(b@ + (a@ + t) =~= s2);
    assert(!a@.is_prefix_of(s2));
    assert(s2.take(b@.len() as int) =~= b@);
    assert(b@.is_prefix_of(s2));
    let st2 = round2(pa, pb, s2, permut_init2(s2));
    assert(s2.skip(b@.len() as int) =~= a@ + t);
    assert((a@ + t).take(a@.len() as int) =~= a@);
    assert(a@.is_prefix_of(a@ + t));
    assert(st2.o0 is None && st2.o1 == Some(b@) && st2.pos == b@.len());
    let st3 = round2(pa, pb, s2, st2);
    assert(st3.o0 == Some(a@) && st3.o1 == Some(b@) && st3.pos == b@.len() + a@.len());
    assert(round2(pa, pb, s2, st3) == st3);
    assert(permut_loop2(pa, pb, s2, st3) == st3);
    assert(permut_loop2(pa, pb, s2, st2) == st3);
    assert(permut_loop2(pa, pb, s2, permut_init2(s2)) == st3);
}

} // verus!
