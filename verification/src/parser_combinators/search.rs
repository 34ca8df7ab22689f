//! Search and separated-list parsing.
//!
//! `find` repeatedly attempts the target parser at increasing offsets,
//! advancing by one element between attempts, until it succeeds or the
//! input is exhausted. `find_stop` additionally fails early when a
//! designated stop parser matches first. `sep_list` parses
//! `elem (sep elem)* (sep last_elem)?` with a distinct parser for the
//! final element.

use core::marker::PhantomData;
use vstd::prelude::*;

use crate::parser_combinators::comb::Left;
use crate::parser_combinators::err::{fail_at, lemma_skip_skip, lift_res, PErr, ParseResult, SpecResult};
use crate::parser_combinators::rep::spec_rep;
use crate::parser_combinators::traits::Parser;
use vstd::slice::slice_subrange;

verus! {

/// The outcome of attempting `p` at increasing offsets of `s`: the first
/// success, or a bare failure at the end of the input.
pub open spec fn spec_find<'a, R: DeepView, P: Parser<'a, R>>(p: P, s: Seq<u8>) -> SpecResult<R::V>
    decreases s.len(),
{
    match p.spec_parse(s) {
        SpecResult::Found { used, val } => SpecResult::Found { used, val },
        SpecResult::Failed { .. } => {
            if s.len() == 0 {
                fail_at(0)
            } else {
                lift_res(spec_find(p, s.skip(1)), 1)
            }
        },
    }
}

/// Combinator `find`: search for the first offset where the target
/// parser succeeds; fail at the end of the input when it never does.
#[derive(Clone, Copy)]
pub struct FindP<P> {
    pub p: P,
}

impl<'a, R: DeepView, P: Parser<'a, R>> Parser<'a, R> for FindP<P> {
    open spec fn wf(&self) -> bool {
        self.p.wf()
    }

    open spec fn spec_parse(&self, input: Seq<u8>) -> SpecResult<R::V> {
        spec_find(self.p, input)
    }

    fn parse(&self, input: &'a [u8]) -> (r: ParseResult<'a, R>) {
        let mut cur: &'a [u8] = input;
        proof {
            assert(input@.skip(0) =~= input@);
        }
        loop
            invariant
                self.p.wf(),
                cur@.len() <= input@.len(),
                cur@ == input@.skip(input@.len() - cur@.len()),
                spec_find(self.p, input@) == lift_res(
                    spec_find(self.p, cur@),
                    (input@.len() - cur@.len()) as nat,
                ),
            decreases cur@.len(),
        {
            let ghost done = (input@.len() - cur@.len()) as nat;
            match self.p.parse(cur) {
                Ok((rem, v)) => {
                    proof {
                        if let SpecResult::Found { used: u, .. } = self.p.spec_parse(cur@) {
                            lemma_skip_skip(input@, done as int, u as int);
                        }
                    }
                    return Ok((rem, v));
                },
                _ => {
                    if cur.len() < 1 {
                        return Err(PErr::new(cur));
                    }
                    proof {
                        lemma_skip_skip(input@, done as int, 1);
                    }
                    cur = slice_subrange(cur, 1, cur.len());
                },
            }
        }
    }
}

/// Build a `find` combinator.
pub fn find<'a, R: DeepView, P: Parser<'a, R>>(p: P) -> (r: FindP<P>)
    ensures
        r.p == p,
{
    FindP { p }
}

/// The outcome of attempting `p` at increasing offsets of `s`, giving up
/// with a bare failure where `stop` matches first or at the end of the
/// input.
pub open spec fn spec_find_stop<'a, R1, R2, P1, P2>(p: P1, stop: P2, s: Seq<u8>) -> SpecResult<
    R1::V,
> where R1: DeepView, R2: DeepView, P1: Parser<'a, R1>, P2: Parser<'a, R2>
    decreases s.len(),
{
    match p.spec_parse(s) {
        SpecResult::Found { used, val } => SpecResult::Found { used, val },
        SpecResult::Failed { .. } => {
            if stop.spec_parse(s) matches SpecResult::Found { .. } {
                fail_at(0)
            } else if s.len() == 0 {
                fail_at(0)
            } else {
                lift_res(spec_find_stop(p, stop, s.skip(1)), 1)
            }
        },
    }
}

/// Combinator `find_stop`: like `find`, but fail early, without
/// consuming further, where the stop parser matches before the target.
pub struct FindStop<P1, P2, R2> {
    pub p: P1,
    pub stop: P2,
    pub _marker: PhantomData<R2>,
}

impl<P1, P2, R2> Clone for FindStop<P1, P2, R2> where P1: Copy, P2: Copy {
    fn clone(&self) -> (r: Self)
        ensures
            r == *self,
    {
        *self
    }
}

impl<P1, P2, R2> Copy for FindStop<P1, P2, R2> where P1: Copy, P2: Copy {

}

impl<'a, R1, R2, P1, P2> Parser<'a, R1> for FindStop<P1, P2, R2> where
    R1: DeepView,
    R2: DeepView,
    P1: Parser<'a, R1>,
    P2: Parser<'a, R2>,
 {
    open spec fn wf(&self) -> bool {
        self.p.wf() && self.stop.wf()
    }

    open spec fn spec_parse(&self, input: Seq<u8>) -> SpecResult<R1::V> {
        spec_find_stop(self.p, self.stop, input)
    }

    fn parse(&self, input: &'a [u8]) -> (r: ParseResult<'a, R1>) {
        let mut cur: &'a [u8] = input;
        proof {
            assert(input@.skip(0) =~= input@);
        }
        loop
            invariant
                self.p.wf(),
                self.stop.wf(),
                cur@.len() <= input@.len(),
                cur@ == input@.skip(input@.len() - cur@.len()),
                spec_find_stop(self.p, self.stop, input@) == lift_res(
                    spec_find_stop(self.p, self.stop, cur@),
                    (input@.len() - cur@.len()) as nat,
                ),
            decreases cur@.len(),
        {
            let ghost done = (input@.len() - cur@.len()) as nat;
            match self.p.parse(cur) {
                Ok((rem, v)) => {
                    proof {
                        if let SpecResult::Found { used: u, .. } = self.p.spec_parse(cur@) {
                            lemma_skip_skip(input@, done as int, u as int);
                        }
                    }
                    return Ok((rem, v));
                },
                _ => {
                    match self.stop.parse(cur) {
                        Ok(_) => {
                            return Err(PErr::new(cur));
                        },
                        _ => {},
                    }
                    if cur.len() < 1 {
                        return Err(PErr::new(cur));
                    }
                    proof {
                        lemma_skip_skip(input@, done as int, 1);
                    }
                    cur = slice_subrange(cur, 1, cur.len());
                },
            }
        }
    }
}

/// Build a `find_stop` combinator.
pub fn find_stop<'a, R1, R2, P1, P2>(p: P1, stop: P2) -> (r: FindStop<P1, P2, R2>) where
    R1: DeepView,
    R2: DeepView,
    P1: Parser<'a, R1>,
    P2: Parser<'a, R2>,

    ensures
        r.p == p,
        r.stop == stop,
{
    FindStop { p, stop, _marker: PhantomData }
}

/// Combinator `sep_list`: parse `elem (sep elem)* (sep last_elem)?`,
/// where the final element may use a distinct parser. Phase one greedily
/// collects elements each followed by a mandatory separator; phase two
/// attempts one more element without a trailing separator; the results
/// are combined, and the whole parse fails only when both phases
/// produced nothing, with phase two's failure.
pub struct SepList<Pe, Ps, Ple, RS> {
    pub elem: Pe,
    pub sep: Ps,
    pub last_elem: Ple,
    pub _marker: PhantomData<RS>,
}

impl<Pe, Ps, Ple, RS> Clone for SepList<Pe, Ps, Ple, RS> where
    Pe: Copy,
    Ps: Copy,
    Ple: Copy,
 {
    fn clone(&self) -> (r: Self)
        ensures
            r == *self,
    {
        *self
    }
}

impl<Pe, Ps, Ple, RS> Copy for SepList<Pe, Ps, Ple, RS> where Pe: Copy, Ps: Copy, Ple: Copy {

}

impl<'a, Re, RS, Pe, Ps, Ple> Parser<'a, Vec<Re>> for SepList<Pe, Ps, Ple, RS> where
    Re: DeepView,
    RS: DeepView,
    Pe: Parser<'a, Re>,
    Ps: Parser<'a, RS>,
    Ple: Parser<'a, Re>,
 {
    open spec fn wf(&self) -> bool {
        self.elem.wf() && self.sep.wf() && self.last_elem.wf()
    }

    open spec fn spec_parse(&self, input: Seq<u8>) -> SpecResult<Seq<Re::V>> {
        let unit = Left { p1: self.elem, p2: self.sep, _marker: PhantomData };
        let m = spec_rep(unit, input, None);
        if m.vals.len() >= 1 {
            match self.last_elem.spec_parse(input.skip(m.used as int)) {
                SpecResult::Found { used: ub, val: b } => SpecResult::Found {
                    used: (m.used + ub) as nat,
                    val: m.vals.push(b),
                },
                SpecResult::Failed { .. } => SpecResult::Found { used: m.used, val: m.vals },
            }
        } else {
            match self.last_elem.spec_parse(input) {
                SpecResult::Found { used: ub, val: b } => SpecResult::Found {
                    used: ub,
                    val: seq![b],
                },
                SpecResult::Failed { pos, msgs, to_str } => SpecResult::Failed {
                    pos,
                    msgs,
                    to_str,
                },
            }
        }
    }

    fn parse(&self, input: &'a [u8]) -> (r: ParseResult<'a, Vec<Re>>) {
        let unit = Left { p1: self.elem, p2: self.sep, _marker: PhantomData };
        let (mut vals, rem, _e) = crate::parser_combinators::rep::rep_run_unbounded(unit, input);
        if vals.len() >= 1 {
            let ghost m = spec_rep(unit, input@, None);
            let r2 = self.last_elem.parse(rem);
            proof {
                if let SpecResult::Found { used: ub, .. } = self.last_elem.spec_parse(rem@) {
                    lemma_skip_skip(input@, m.used as int, ub as int);
                }
            }
            match r2 {
                Ok((rem2, b)) => {
                    let ghost dv0 = vals.deep_view();
                    let ghost bv = b.deep_view();
                    vals.push(b);
                    proof {
                        assert(vals.deep_view() =~= dv0.push(bv));
                    }
                    Ok((rem2, vals))
                },
                _ => Ok((rem, vals)),
            }
        } else {
            proof {
                assert(input@.skip(0) =~= input@);
            }
            match self.last_elem.parse(input) {
                Ok((rem2, b)) => {
                    let ghost bv = b.deep_view();
                    let mut v: Vec<Re> = Vec::new();
                    v.push(b);
                    proof {
                        assert(v.deep_view() =~= seq![bv]);
                    }
                    Ok((rem2, v))
                },
                Err(e) => Err(e),
            }
        }
    }
}

/// Build a `sep_list` combinator.
pub fn sep_list<'a, Re, RS, Pe, Ps, Ple>(elem: Pe, sep: Ps, last_elem: Ple) -> (r: SepList<
    Pe,
    Ps,
    Ple,
    RS,
>) where
    Re: DeepView,
    RS: DeepView,
    Pe: Parser<'a, Re>,
    Ps: Parser<'a, RS>,
    Ple: Parser<'a, Re>,

    ensures
        r.elem == elem,
        r.sep == sep,
        r.last_elem == last_elem,
{
    SepList { elem, sep, last_elem, _marker: PhantomData }
}

} // verus!
