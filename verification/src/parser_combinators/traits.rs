//! The parser abstraction.
//!
//! A parser is a pure function from an input suffix to a parse result.
//! Every implementation carries a specification-level model `spec_parse`,
//! and `parse` is proved to realize that model exactly (`res_matches`).

use core::marker::PhantomData;
use vstd::prelude::*;

use crate::parser_combinators::comb::{MsgErrP, NotP, OptionP, StrErrP};
use crate::parser_combinators::err::{res_matches, ParseResult, SpecResult};
use crate::parser_combinators::rep::{More, MoreExact, MoreMax, MoreMin, MoreRange};

verus! {

/// Main parser definition. `wf` is the well-formedness condition under
/// which `parse` is known to realize `spec_parse`; it is `true` for every
/// combinator whose sub-parsers are well formed.
pub trait Parser<'a, O: DeepView>: Copy + Sized {
    spec fn wf(&self) -> bool;

    spec fn spec_parse(&self, input: Seq<u8>) -> SpecResult<O::V>;

    fn parse(&self, input: &'a [u8]) -> (r: ParseResult<'a, O>)
        requires
            self.wf(),
        ensures
            res_matches::<O>(input@, self.spec_parse(input@), r),
    ;

    fn option(self) -> (r: OptionP<Self>)
        ensures
            r.p == self,
    {
        OptionP { p: self }
    }

    fn more_max(self, c: usize) -> (r: MoreMax<Self>)
        ensures
            r.p == self,
            r.count_max == c,
    {
        MoreMax { p: self, count_max: c }
    }

    fn more_min(self, c: usize) -> (r: MoreMin<Self>)
        ensures
            r.p == self,
            r.count_min == c,
    {
        MoreMin { p: self, count_min: c }
    }

    fn more_exact(self, c: usize) -> (r: MoreExact<Self>)
        ensures
            r.p == self,
            r.count_exact == c,
    {
        MoreExact { p: self, count_exact: c }
    }

    fn more_range(self, c: (usize, usize)) -> (r: MoreRange<Self>)
        ensures
            r.p == self,
            r.lo == c.0,
            r.hi == c.1,
    {
        MoreRange { p: self, lo: c.0, hi: c.1 }
    }

    fn more(self) -> (r: More<Self>)
        ensures
            r.p == self,
    {
        More { p: self }
    }

    fn not(self) -> (r: NotP<Self, O>)
        ensures
            r.p == self,
    {
        NotP { p: self, _marker: PhantomData }
    }

    fn msg_err(self, msg: &'a str) -> (r: MsgErrP<'a, Self>)
        ensures
            r.p == self,
            r.msg == msg,
    {
        MsgErrP { p: self, msg }
    }

    fn strerr(self) -> (r: StrErrP<Self>)
        ensures
            r.p == self,
    {
        StrErrP { p: self }
    }
}

/// The parser function `f` follows the mathematical model `m`: it can be
/// called on any input, and every result it can return realizes `m`.
pub open spec fn parser_fn_obeys<'a, O, F>(f: F, m: spec_fn(Seq<u8>) -> SpecResult<O::V>) -> bool
    where O: DeepView, F: Fn(&'a [u8]) -> ParseResult<'a, O> {
    &&& forall|i: &'a [u8]| #[trigger] call_requires(f, (i,))
    &&& forall|i: &'a [u8], r: ParseResult<'a, O>| #[trigger]
        call_ensures(f, (i,), r) ==> res_matches::<O>(i@, m(i@), r)
}

/// Some mathematical model describes `f`.
pub open spec fn parser_fn_wf<'a, O, F>(f: F) -> bool where
    O: DeepView,
    F: Fn(&'a [u8]) -> ParseResult<'a, O>,
 {
    exists|m: spec_fn(Seq<u8>) -> SpecResult<O::V>| parser_fn_obeys(f, m)
}

/// The mathematical model describing `f`.
pub open spec fn parser_fn_model<'a, O, F>(f: F) -> spec_fn(Seq<u8>) -> SpecResult<O::V> where
    O: DeepView,
    F: Fn(&'a [u8]) -> ParseResult<'a, O>,
 {
    choose|m: spec_fn(Seq<u8>) -> SpecResult<O::V>| parser_fn_obeys(f, m)
}

/// Any function from an input suffix to a parse result is a parser.
impl<'a, O, F> Parser<'a, O> for F where
    O: DeepView,
    F: Fn(&'a [u8]) -> ParseResult<'a, O> + Copy,
 {
    open spec fn wf(&self) -> bool {
        parser_fn_wf::<O, F>(*self)
    }

    open spec fn spec_parse(&self, input: Seq<u8>) -> SpecResult<O::V> {
        parser_fn_model::<O, F>(*self)(input)
    }

    fn parse(&self, input: &'a [u8]) -> (r: ParseResult<'a, O>) {
        proof {
            assert(parser_fn_obeys(*self, parser_fn_model::<O, F>(*self)));
        }
        (*self)(input)
    }
}

} // verus!
