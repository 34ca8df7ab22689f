//! Ordered choice over a fixed tuple of alternative parsers.
//!
//! `alt` tries the alternatives left to right against the same starting
//! input and returns the first success, or the last failure when all
//! fail. It is implemented for tuples of two, three and four parsers
//! sharing one output type.

use vstd::prelude::*;

use crate::parser_combinators::err::{res_matches, ParseResult, SpecResult};
use crate::parser_combinators::traits::Parser;

verus! {

/// Alt trait combinator, implemented for tuples of parsers with a common
/// output type.
pub trait Alt<'a, O: DeepView>: Sized {
    spec fn alt_wf(&self) -> bool;

    spec fn spec_choice(&self, input: Seq<u8>) -> SpecResult<O::V>;

    fn choice(&self, input: &'a [u8]) -> (r: ParseResult<'a, O>)
        requires
            self.alt_wf(),
        ensures
            res_matches::<O>(input@, self.spec_choice(input@), r),
    ;

    fn alt(self) -> (r: AltP<Self>)
        ensures
            r.t == self,
    {
        AltP { t: self }
    }
}

/// The parser form of an ordered choice.
#[derive(Clone, Copy)]
pub struct AltP<T> {
    pub t: T,
}

impl<'a, O: DeepView, T: Alt<'a, O> + Copy> Parser<'a, O> for AltP<T> {
    open spec fn wf(&self) -> bool {
        self.t.alt_wf()
    }

    open spec fn spec_parse(&self, input: Seq<u8>) -> SpecResult<O::V> {
        self.t.spec_choice(input)
    }

    fn parse(&self, input: &'a [u8]) -> (r: ParseResult<'a, O>) {
        self.t.choice(input)
    }
}

/// Build an `alt` combinator from a tuple of alternatives.
pub fn alt<'a, O: DeepView, T: Alt<'a, O>>(input: T) -> (r: AltP<T>)
    ensures
        r.t == input,
{
    AltP { t: input }
}

impl<'a, O, P1, P2> Alt<'a, O> for (P1, P2) where
    O: DeepView,
    P1: Parser<'a, O>,
    P2: Parser<'a, O>,
 {
    open spec fn alt_wf(&self) -> bool {
        self.0.wf() && self.1.wf()
    }

    open spec fn spec_choice(&self, input: Seq<u8>) -> SpecResult<O::V> {
        match self.0.spec_parse(input) {
            SpecResult::Found { used, val } => SpecResult::Found { used, val },
            SpecResult::Failed { .. } => self.1.spec_parse(input),
        }
    }

    fn choice(&self, input: &'a [u8]) -> (r: ParseResult<'a, O>) {
        match self.0.parse(input) {
            Ok(t) => Ok(t),
            _ => self.1.parse(input),
        }
    }
}

impl<'a, O, P1, P2, P3> Alt<'a, O> for (P1, P2, P3) where
    O: DeepView,
    P1: Parser<'a, O>,
    P2: Parser<'a, O>,
    P3: Parser<'a, O>,
 {
    open spec fn alt_wf(&self) -> bool {
        self.0.wf() && self.1.wf() && self.2.wf()
    }

    open spec fn spec_choice(&self, input: Seq<u8>) -> SpecResult<O::V> {
        match self.0.spec_parse(input) {
            SpecResult::Found { used, val } => SpecResult::Found { used, val },
            SpecResult::Failed { .. } => match self.1.spec_parse(input) {
                SpecResult::Found { used, val } => SpecResult::Found { used, val },
                SpecResult::Failed { .. } => self.2.spec_parse(input),
            },
        }
    }

    fn choice(&self, input: &'a [u8]) -> (r: ParseResult<'a, O>) {
        match self.0.parse(input) {
            Ok(t) => Ok(t),
            _ => match self.1.parse(input) {
                Ok(t) => Ok(t),
                _ => self.2.parse(input),
            },
        }
    }
}

impl<'a, O, P1, P2, P3, P4> Alt<'a, O> for (P1, P2, P3, P4) where
    O: DeepView,
    P1: Parser<'a, O>,
    P2: Parser<'a, O>,
    P3: Parser<'a, O>,
    P4: Parser<'a, O>,
 {
    open spec fn alt_wf(&self) -> bool {
        self.0.wf() && self.1.wf() && self.2.wf() && self.3.wf()
    }

    open spec fn spec_choice(&self, input: Seq<u8>) -> SpecResult<O::V> {
        match self.0.spec_parse(input) {
            SpecResult::Found { used, val } => SpecResult::Found { used, val },
            SpecResult::Failed { .. } => match self.1.spec_parse(input) {
                SpecResult::Found { used, val } => SpecResult::Found { used, val },
                SpecResult::Failed { .. } => match self.2.spec_parse(input) {
                    SpecResult::Found { used, val } => SpecResult::Found { used, val },
                    SpecResult::Failed { .. } => self.3.spec_parse(input),
                },
            },
        }
    }

    fn choice(&self, input: &'a [u8]) -> (r: ParseResult<'a, O>) {
        match self.0.parse(input) {
            Ok(t) => Ok(t),
            _ => match self.1.parse(input) {
                Ok(t) => Ok(t),
                _ => match self.2.parse(input) {
                    Ok(t) => Ok(t),
                    _ => self.3.parse(input),
                },
            },
        }
    }
}

} // verus!
