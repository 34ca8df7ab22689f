//! Primitive matchers: stateless parsers that inspect the head of the
//! input and report how many leading elements they consume.

use vstd::prelude::*;
use vstd::slice::{slice_index_get, slice_subrange};

use crate::parser_combinators::err::{fail_at, found, PErr, ParseResult, SpecResult};
use crate::parser_combinators::pred::{
    lemma_ext_len_le, lemma_run_len_le, lemma_run_len_max_le, pred_model, pred_wf, scan_run,
    scan_run_max, spec_ext_len, spec_run_len, spec_run_len_max, step_model, step_obeys, step_wf,
};
use crate::parser_combinators::traits::Parser;

verus! {

broadcast use crate::parser_combinators::err::bytes_deep_view;

/// Whether `pat` is a prefix of `s`, element by element.
pub fn is_prefix(pat: &[u8], s: &[u8]) -> (r: bool)
    ensures
        r == pat@.is_prefix_of(s@),
{
    if pat.len() > s.len() {
        return false;
    }
    let r = crate::parser_combinators::err::eq_bytes(slice_subrange(s, 0, pat.len()), pat);
    proof {
        assert(pat@.is_prefix_of(s@) == (pat@ =~= s@.subrange(0, pat@.len() as int)));
    }
    r
}

/// Whether `b` occurs in `pat`.
pub fn contains_byte(pat: &[u8], b: u8) -> (r: bool)
    ensures
        r == pat@.contains(b),
{
    let mut i: usize = 0;
    while i < pat.len()
        invariant
            i <= pat@.len(),
            forall|j: int| 0 <= j < i ==> pat@[j] != b,
        decreases pat@.len() - i,
    {
        if *slice_index_get(pat, i) == b {
            return true;
        }
        i += 1;
    }
    false
}

/// Split `input` after `count` elements, returning `(rest, taken)`.
pub fn split_at_revers<'a, T>(input: &'a [T], count: usize) -> (r: (&'a [T], &'a [T]))
    requires
        count <= input@.len(),
    ensures
        r.0@ == input@.skip(count as int),
        r.1@ == input@.take(count as int),
{
    let rest = slice_subrange(input, count, input.len());
    let taken = slice_subrange(input, 0, count);
    proof {
        assert(rest@ =~= input@.skip(count as int));
        assert(taken@ =~= input@.take(count as int));
    }
    (rest, taken)
}

/// Read a record of exactly `l` elements, or fail with the whole input.
pub fn take_record<'a>(b: &'a [u8], l: usize) -> (r: ParseResult<'a, &'a [u8]>)
    ensures
        l <= b@.len() ==> (r matches Ok((rem, v)) && rem@ == b@.skip(l as int) && v@ == b@.take(
            l as int,
        )),
        l > b@.len() ==> (r matches Err(e) && e@.input == b@ && e@.msgs == Seq::<Seq<char>>::empty()
            && e@.to_str == false),
{
    if b.len() < l {
        return Err(PErr::new(b));
    }
    Ok(split_at_revers(b, l))
}

/// Parser `take`: consume exactly `count` elements iff that many remain.
#[derive(Debug, Clone, Copy)]
pub struct Take {
    pub count: usize,
}

impl<'a> Parser<'a, &'a [u8]> for Take {
    open spec fn wf(&self) -> bool {
        true
    }

    open spec fn spec_parse(&self, input: Seq<u8>) -> SpecResult<Seq<u8>> {
        if self.count <= input.len() {
            found(self.count as nat, input.take(self.count as int))
        } else {
            fail_at(0)
        }
    }

    fn parse(&self, input: &'a [u8]) -> (r: ParseResult<'a, &'a [u8]>) {
        proof {
            assert(input@.skip(0) =~= input@);
        }
        take_record(input, self.count)
    }
}

/// Build a `take` parser.
pub fn take(count: usize) -> (p: Take)
    ensures
        p.count == count,
{
    Take { count }
}

/// Parser `data end`: succeeds, consuming nothing, iff the input is empty.
pub fn data_end<'a>(a: &'a [u8]) -> (r: ParseResult<'a, &'a [u8]>)
    ensures
        a@.len() == 0 ==> (r matches Ok((rem, v)) && rem@ == a@ && v@ == a@),
        a@.len() > 0 ==> (r matches Err(e) && e@.input == a@ && e@.msgs == Seq::<
            Seq<char>,
        >::empty() && e@.to_str == false),
{
    if !a.is_empty() {
        Err(PErr::new(a))
    } else {
        Ok((a, a))
    }
}

/// Parser `any`: consume exactly one element iff the head element occurs
/// in the given set.
#[derive(Debug, Clone, Copy)]
pub struct AnyOf<'a> {
    pub pattern: &'a [u8],
}

impl<'a> Parser<'a, &'a [u8]> for AnyOf<'a> {
    open spec fn wf(&self) -> bool {
        true
    }

    open spec fn spec_parse(&self, input: Seq<u8>) -> SpecResult<Seq<u8>> {
        if input.len() > 0 && self.pattern@.contains(input[0]) {
            found(1, input.take(1))
        } else {
            fail_at(0)
        }
    }

    fn parse(&self, input: &'a [u8]) -> (r: ParseResult<'a, &'a [u8]>) {
        proof {
            assert(input@.skip(0) =~= input@);
        }
        if check_starts_with_any_element(self.pattern, input) {
            Ok(split_at_revers(input, 1))
        } else {
            Err(PErr::new(input))
        }
    }
}

/// Build an `any` parser over the given element set.
pub fn any<'a>(pattern: &'a [u8]) -> (p: AnyOf<'a>)
    ensures
        p.pattern == pattern,
{
    AnyOf { pattern }
}

/// Parser `starts_with`: consume exactly the literal iff the input begins
/// with it.
#[derive(Debug, Clone, Copy)]
pub struct StartsWith<'a> {
    pub pattern: &'a [u8],
}

impl<'a> Parser<'a, &'a [u8]> for StartsWith<'a> {
    open spec fn wf(&self) -> bool {
        true
    }

    open spec fn spec_parse(&self, input: Seq<u8>) -> SpecResult<Seq<u8>> {
        if self.pattern@.is_prefix_of(input) {
            found(self.pattern@.len(), input.take(self.pattern@.len() as int))
        } else {
            fail_at(0)
        }
    }

    fn parse(&self, input: &'a [u8]) -> (r: ParseResult<'a, &'a [u8]>) {
        proof {
            assert(input@.skip(0) =~= input@);
        }
        if is_prefix(self.pattern, input) {
            return Ok(split_at_revers(input, self.pattern.len()));
        }
        Err(PErr::new(input))
    }
}

/// Build a `starts_with` parser for the given literal.
pub fn starts_with<'a>(pattern: &'a [u8]) -> (p: StartsWith<'a>)
    ensures
        p.pattern == pattern,
{
    StartsWith { pattern }
}

/// The length of the first literal in `pats` (in order) that is a prefix
/// of `s`; 0 when none is. A zero-length literal stops the search with 0.
pub open spec fn spec_first_prefix_len(pats: Seq<&[u8]>, s: Seq<u8>) -> nat
    decreases pats.len(),
{
    if pats.len() == 0 {
        0
    } else if pats[0]@.is_prefix_of(s) {
        pats[0]@.len()
    } else {
        spec_first_prefix_len(pats.skip(1), s)
    }
}

/// If none of the first `i` literals is a prefix, the search outcome is
/// that of the remaining literals.
proof fn lemma_first_prefix_skip(pats: Seq<&[u8]>, s: Seq<u8>, i: nat)
    requires
        i <= pats.len(),
        forall|j: int| 0 <= j < i ==> !(#[trigger] pats[j]@).is_prefix_of(s),
    ensures
        spec_first_prefix_len(pats, s) == spec_first_prefix_len(pats.skip(i as int), s),
    decreases i,
{
    if i == 0 {
        assert(pats.skip(0) =~= pats);
    } else {
        lemma_first_prefix_skip(pats, s, (i - 1) as nat);
        assert(pats.skip(i as int - 1).skip(1) =~= pats.skip(i as int));
        assert(pats.skip(i as int - 1)[0] == pats[i as int - 1]);
        assert(!pats[i as int - 1]@.is_prefix_of(s));
        assert(spec_first_prefix_len(pats.skip(i as int - 1), s) == spec_first_prefix_len(
            pats.skip(i as int - 1).skip(1),
            s,
        ));
    }
}

/// Function for `seq_ext`: the length of the first literal in `patterns`
/// that is a prefix of `input`, or 0.
pub fn check_starts_with_any_part<'a>(patterns: &'a [&'a [u8]], input: &'a [u8]) -> (l: usize)
    ensures
        l == spec_first_prefix_len(patterns@, input@),
{
    let mut i: usize = 0;
    while i < patterns.len()
        invariant
            i <= patterns@.len(),
            forall|j: int| 0 <= j < i ==> !(#[trigger] patterns@[j]@).is_prefix_of(input@),
        decreases patterns@.len() - i,
    {
        let p: &[u8] = *slice_index_get(patterns, i);
        if is_prefix(p, input) {
            proof {
                lemma_first_prefix_skip(patterns@, input@, i as nat);
                assert(patterns@.skip(i as int)[0] == patterns@[i as int]);
            }
            return p.len();
        }
        i += 1;
    }
    proof {
        lemma_first_prefix_skip(patterns@, input@, i as nat);
    }
    0
}

/// Function for `seq_ext`: whether the input is non-empty and its head
/// element occurs in `patterns`.
pub fn check_starts_with_any_element<'a>(patterns: &'a [u8], input: &'a [u8]) -> (r: bool)
    ensures
        r == (input@.len() > 0 && patterns@.contains(input@[0])),
{
    if input.is_empty() {
        return false;
    }
    contains_byte(patterns, *slice_index_get(input, 0))
}

/// Parser `starts_with_any`: consume the first matching literal of a set,
/// checked in set order.
#[derive(Debug, Clone, Copy)]
pub struct StartsWithAny<'a> {
    pub patterns: &'a [&'a [u8]],
}

impl<'a> Parser<'a, &'a [u8]> for StartsWithAny<'a> {
    open spec fn wf(&self) -> bool {
        true
    }

    open spec fn spec_parse(&self, input: Seq<u8>) -> SpecResult<Seq<u8>> {
        let l = spec_first_prefix_len(self.patterns@, input);
        if l > 0 {
            found(l, input.take(l as int))
        } else {
            fail_at(0)
        }
    }

    fn parse(&self, input: &'a [u8]) -> (r: ParseResult<'a, &'a [u8]>) {
        proof {
            assert(input@.skip(0) =~= input@);
            lemma_first_prefix_le(self.patterns@, input@);
        }
        let l = check_starts_with_any_part(self.patterns, input);
        if l > 0 {
            return Ok(split_at_revers(input, l));
        }
        Err(PErr::new(input))
    }
}

/// A matching literal never reaches past the end of the input.
proof fn lemma_first_prefix_le(pats: Seq<&[u8]>, s: Seq<u8>)
    ensures
        spec_first_prefix_len(pats, s) <= s.len(),
    decreases pats.len(),
{
    if pats.len() > 0 && !pats[0]@.is_prefix_of(s) {
        lemma_first_prefix_le(pats.skip(1), s);
    }
}

/// Build a `starts_with_any` parser over the given set of literals.
pub fn starts_with_any<'a>(patterns: &'a [&'a [u8]]) -> (p: StartsWithAny<'a>)
    ensures
        p.patterns == patterns,
{
    StartsWithAny { patterns }
}

/// A predicate that accepts every element.
pub fn is_any<T>(_x: &T) -> (b: bool)
    ensures
        b,
{
    true
}

/// `notp`: the pointwise negation of a predicate, for use as a `seq`
/// parameter.
pub fn notp<F: Fn(&u8) -> bool + Copy>(f: F) -> (g: impl Fn(&u8) -> bool + Copy)
    ensures
        forall|x: &u8| call_requires(f, (x,)) ==> #[trigger] call_requires(g, (x,)),
        forall|x: &u8, b: bool| #[trigger]
            call_ensures(g, (x,), b) ==> exists|b0: bool|
                call_ensures(f, (x,), b0) && b == !b0,
{
    move |x: &u8| -> (b: bool)
        requires
            call_requires(f, (x,)),
        ensures
            exists|b0: bool| call_ensures(f, (x,), b0) && b == !b0,
        {
            let b0 = f(x);
            !b0
        }
}

/// The contents of a list of spans, span by span.
pub open spec fn spans_of<T>(v: Seq<&[T]>) -> Seq<Seq<T>> {
    Seq::new(v.len(), |i: int| v[i]@)
}

/// Concatenate a list of spans into one owned vector.
pub fn fflaten<T: Copy>(v: Vec<&[T]>) -> (r: Vec<T>)
    ensures
        r@ == spans_of(v@).flatten(),
{
    let ghost dv = spans_of(v@);
    proof {
        assert(Seq::<Seq<T>>::empty().flatten() == Seq::<T>::empty());
    }
    let mut r: Vec<T> = Vec::new();
    let mut i: usize = 0;
    while i < v.len()
        invariant
            i <= v@.len(),
            dv == spans_of(v@),
            r@ == dv.take(i as int).flatten(),
        decreases v@.len() - i,
    {
        let s: &[T] = v[i];
        let ghost r0 = r@;
        let mut j: usize = 0;
        while j < s.len()
            invariant
                j <= s@.len(),
                r@ == r0 + s@.take(j as int),
            decreases s@.len() - j,
        {
            r.push(*slice_index_get(s, j));
            proof {
                assert(r@ =~= r0 + s@.take(j + 1));
            }
            j += 1;
        }
        proof {
            assert(s@.take(s@.len() as int) =~= s@);
            dv.take(i as int).lemma_flatten_push(s@);
            assert(dv.take(i + 1) =~= dv.take(i as int).push(s@));
        }
        i += 1;
    }
    proof {
        assert(dv.take(dv.len() as int) =~= dv);
    }
    r
}

/// Parser `sequence`: the greedy run of elements satisfying the
/// predicate; succeeds iff the run is non-empty.
#[derive(Clone, Copy)]
pub struct SeqRun<F> {
    pub f: F,
}

impl<'a, F: Fn(&u8) -> bool + Copy> Parser<'a, &'a [u8]> for SeqRun<F> {
    open spec fn wf(&self) -> bool {
        pred_wf(self.f)
    }

    open spec fn spec_parse(&self, input: Seq<u8>) -> SpecResult<Seq<u8>> {
        let c = spec_run_len(pred_model(self.f), input);
        if c >= 1 {
            found(c, input.take(c as int))
        } else {
            fail_at(0)
        }
    }

    fn parse(&self, input: &'a [u8]) -> (r: ParseResult<'a, &'a [u8]>) {
        proof {
            assert(input@.skip(0) =~= input@);
            lemma_run_len_le(pred_model(self.f), input@);
        }
        let c = scan_run(self.f, input);
        if c < 1 {
            Err(PErr::new(input))
        } else {
            Ok(split_at_revers(input, c))
        }
    }
}

/// Parser `sequence minimum`: the greedy run; succeeds iff it has at
/// least `count_min` elements.
#[derive(Clone, Copy)]
pub struct SeqMin<F> {
    pub f: F,
    pub count_min: usize,
}

impl<'a, F: Fn(&u8) -> bool + Copy> Parser<'a, &'a [u8]> for SeqMin<F> {
    open spec fn wf(&self) -> bool {
        pred_wf(self.f)
    }

    open spec fn spec_parse(&self, input: Seq<u8>) -> SpecResult<Seq<u8>> {
        let c = spec_run_len(pred_model(self.f), input);
        if c >= self.count_min {
            found(c, input.take(c as int))
        } else {
            fail_at(0)
        }
    }

    fn parse(&self, input: &'a [u8]) -> (r: ParseResult<'a, &'a [u8]>) {
        proof {
            assert(input@.skip(0) =~= input@);
            lemma_run_len_le(pred_model(self.f), input@);
        }
        let c = scan_run(self.f, input);
        if c < self.count_min {
            Err(PErr::new(input))
        } else {
            Ok(split_at_revers(input, c))
        }
    }
}

/// Build a `sequence minimum` parser.
pub fn seq_min<F: Fn(&u8) -> bool + Copy>(p: F, count_min: usize) -> (r: SeqMin<F>)
    ensures
        r.f == p,
        r.count_min == count_min,
{
    SeqMin { f: p, count_min }
}

/// Parser `sequence maximum`: the greedy run, never scanning more than
/// `count_max` elements; succeeds iff it is non-empty.
#[derive(Clone, Copy)]
pub struct SeqMax<F> {
    pub f: F,
    pub count_max: usize,
}

impl<'a, F: Fn(&u8) -> bool + Copy> Parser<'a, &'a [u8]> for SeqMax<F> {
    open spec fn wf(&self) -> bool {
        pred_wf(self.f)
    }

    open spec fn spec_parse(&self, input: Seq<u8>) -> SpecResult<Seq<u8>> {
        let c = spec_run_len_max(pred_model(self.f), input, self.count_max as nat);
        if c >= 1 {
            found(c, input.take(c as int))
        } else {
            fail_at(0)
        }
    }

    fn parse(&self, input: &'a [u8]) -> (r: ParseResult<'a, &'a [u8]>) {
        proof {
            assert(input@.skip(0) =~= input@);
            lemma_run_len_max_le(pred_model(self.f), input@, self.count_max as nat);
        }
        let c = scan_run_max(self.f, input, self.count_max);
        if c < 1 {
            Err(PErr::new(input))
        } else {
            Ok(split_at_revers(input, c))
        }
    }
}

/// Build a `sequence maximum` parser.
pub fn seq_max<F: Fn(&u8) -> bool + Copy>(p: F, count_max: usize) -> (r: SeqMax<F>)
    ensures
        r.f == p,
        r.count_max == count_max,
{
    SeqMax { f: p, count_max }
}

/// Parser `sequence exact`: a run of exactly `count_exact` elements
/// satisfying the predicate; never scans further.
#[derive(Clone, Copy)]
pub struct SeqExact<F> {
    pub f: F,
    pub count_exact: usize,
}

impl<'a, F: Fn(&u8) -> bool + Copy> Parser<'a, &'a [u8]> for SeqExact<F> {
    open spec fn wf(&self) -> bool {
        pred_wf(self.f)
    }

    open spec fn spec_parse(&self, input: Seq<u8>) -> SpecResult<Seq<u8>> {
        let c = spec_run_len_max(pred_model(self.f), input, self.count_exact as nat);
        if c >= self.count_exact {
            found(c, input.take(c as int))
        } else {
            fail_at(0)
        }
    }

    fn parse(&self, input: &'a [u8]) -> (r: ParseResult<'a, &'a [u8]>) {
        proof {
            assert(input@.skip(0) =~= input@);
            lemma_run_len_max_le(pred_model(self.f), input@, self.count_exact as nat);
        }
        let c = scan_run_max(self.f, input, self.count_exact);
        if c < self.count_exact {
            Err(PErr::new(input))
        } else {
            Ok(split_at_revers(input, c))
        }
    }
}

/// Build a `sequence exact` parser.
pub fn seq_exact<F: Fn(&u8) -> bool + Copy>(p: F, count_exact: usize) -> (r: SeqExact<F>)
    ensures
        r.f == p,
        r.count_exact == count_exact,
{
    SeqExact { f: p, count_exact }
}

/// Parser `sequence range`: the greedy run, never scanning more than
/// `range.1` elements; succeeds iff it has at least `range.0` elements.
#[derive(Clone, Copy)]
pub struct SeqRange<F> {
    pub f: F,
    pub lo: usize,
    pub hi: usize,
}

impl<'a, F: Fn(&u8) -> bool + Copy> Parser<'a, &'a [u8]> for SeqRange<F> {
    open spec fn wf(&self) -> bool {
        pred_wf(self.f)
    }

    open spec fn spec_parse(&self, input: Seq<u8>) -> SpecResult<Seq<u8>> {
        let c = spec_run_len_max(pred_model(self.f), input, self.hi as nat);
        if c >= self.lo {
            found(c, input.take(c as int))
        } else {
            fail_at(0)
        }
    }

    fn parse(&self, input: &'a [u8]) -> (r: ParseResult<'a, &'a [u8]>) {
        proof {
            assert(input@.skip(0) =~= input@);
            lemma_run_len_max_le(pred_model(self.f), input@, self.hi as nat);
        }
        let c = scan_run_max(self.f, input, self.hi);
        if c < self.lo {
            Err(PErr::new(input))
        } else {
            Ok(split_at_revers(input, c))
        }
    }
}

/// Build a `sequence range` parser.
pub fn seq_range<F: Fn(&u8) -> bool + Copy>(p: F, range: (usize, usize)) -> (r: SeqRange<F>)
    ensures
        r.f == p,
        r.lo == range.0,
        r.hi == range.1,
{
    SeqRange { f: p, lo: range.0, hi: range.1 }
}

/// Parser `sequence extended`: repeatedly apply a variable-width step
/// function that, given the current remaining input, returns how many
/// leading elements to consume next (0 meaning stop); succeeds iff the
/// total consumed is positive.
#[derive(Clone, Copy)]
pub struct SeqExt<F> {
    pub f: F,
}

impl<'a, F: Fn(&[u8]) -> usize + Copy> Parser<'a, &'a [u8]> for SeqExt<F> {
    open spec fn wf(&self) -> bool {
        step_wf(self.f)
    }

    open spec fn spec_parse(&self, input: Seq<u8>) -> SpecResult<Seq<u8>> {
        let c = spec_ext_len(step_model(self.f), input);
        if c > 0 {
            found(c, input.take(c as int))
        } else {
            fail_at(0)
        }
    }

    fn parse(&self, input: &'a [u8]) -> (r: ParseResult<'a, &'a [u8]>) {
        let ghost gs = step_model(self.f);
        proof {
            assert(step_obeys(self.f, gs));
            assert(input@.skip(0) =~= input@);
            lemma_ext_len_le(gs, input@);
        }
        let mut new_input: &[u8] = input;
        loop
            invariant
                gs == step_model(self.f),
                step_obeys(self.f, gs),
                new_input@.len() <= input@.len(),
                new_input@ == input@.skip(input@.len() - new_input@.len()),
                spec_ext_len(gs, input@) == input@.len() - new_input@.len() + spec_ext_len(
                    gs,
                    new_input@,
                ),
            decreases new_input@.len(),
        {
            let l = (self.f)(new_input);
            if l < 1 || new_input.len() < l {
                proof {
                    assert(spec_ext_len(gs, new_input@) == 0);
                    assert(input@.skip(0) =~= input@);
                }
                let c = input.len() - new_input.len();
                if c == 0 {
                    return Err(PErr::new(input));
                }
                return Ok(split_at_revers(input, c));
            }
            proof {
                assert(new_input@.skip(l as int) =~= input@.skip(
                    input@.len() - (new_input@.len() - l),
                ));
            }
            let (rest, _taken) = split_at_revers(new_input, l);
            new_input = rest;
        }
    }
}

/// Build a `sequence extended` parser from a step function.
pub fn seq_ext<F: Fn(&[u8]) -> usize + Copy>(p: F) -> (r: SeqExt<F>)
    ensures
        r.f == p,
{
    SeqExt { f: p }
}

} // verus!
