//! Composition combinators: transformation, sequencing, optionality and
//! context tagging. Each one is a thin, local decision: it passes a
//! sub-parser's success through (possibly transformed) or returns its
//! failure unchanged or with one more context message pushed.

use core::marker::PhantomData;
use vstd::prelude::*;

use crate::parser_combinators::err::{
    fail_at, found, lemma_skip_skip, Msg, PErr, ParseResult, SpecResult,
};
use crate::parser_combinators::traits::Parser;

verus! {

/// The executable transform `f` follows the mathematical map `gm` on the
/// views of its argument and result.
pub open spec fn map_obeys<R1: DeepView, R2: DeepView, F: Fn(R1) -> R2>(
    f: F,
    gm: spec_fn(R1::V) -> R2::V,
) -> bool {
    &&& forall|v: R1| #[trigger] call_requires(f, (v,))
    &&& forall|v: R1, w: R2| #[trigger]
        call_ensures(f, (v,), w) ==> w.deep_view() == gm(v.deep_view())
}

/// Some mathematical map models `f`.
pub open spec fn map_wf<R1: DeepView, R2: DeepView, F: Fn(R1) -> R2>(f: F) -> bool {
    exists|gm: spec_fn(R1::V) -> R2::V| map_obeys(f, gm)
}

/// The mathematical map modelling `f`.
pub open spec fn map_model<R1: DeepView, R2: DeepView, F: Fn(R1) -> R2>(f: F) -> spec_fn(
    R1::V,
) -> R2::V {
    choose|gm: spec_fn(R1::V) -> R2::V| map_obeys(f, gm)
}

/// Combinator `not`: negative lookahead. Succeeds, consuming nothing,
/// iff the wrapped parser fails; fails iff it succeeds.
pub struct NotP<P, R> {
    pub p: P,
    pub _marker: PhantomData<R>,
}

impl<'a, R: DeepView, P: Parser<'a, R>> Parser<'a, ()> for NotP<P, R> {
    open spec fn wf(&self) -> bool {
        self.p.wf()
    }

    open spec fn spec_parse(&self, input: Seq<u8>) -> SpecResult<()> {
        match self.p.spec_parse(input) {
            SpecResult::Found { .. } => fail_at(0),
            SpecResult::Failed { .. } => found(0, ()),
        }
    }

    fn parse(&self, input: &'a [u8]) -> (r: ParseResult<'a, ()>) {
        proof {
            assert(input@.skip(0) =~= input@);
        }
        match self.p.parse(input) {
            Ok(_) => Err(PErr::new(input)),
            _ => Ok((input, ())),
        }
    }
}

/// Build a `not` combinator.
pub fn not<'a, R: DeepView, P: Parser<'a, R>>(parser: P) -> (r: NotP<P, R>)
    ensures
        r.p == parser,
{
    NotP { p: parser, _marker: PhantomData }
}

/// Combinator `fmap`: transform a successful value without affecting
/// failure.
pub struct FMap<P, F, R1> {
    pub p: P,
    pub f: F,
    pub _marker: PhantomData<R1>,
}

impl<'a, R1, R2, P, F> Parser<'a, R2> for FMap<P, F, R1> where
    R1: DeepView,
    R2: DeepView,
    P: Parser<'a, R1>,
    F: Fn(R1) -> R2 + Copy,
 {
    open spec fn wf(&self) -> bool {
        self.p.wf() && map_wf::<R1, R2, F>(self.f)
    }

    open spec fn spec_parse(&self, input: Seq<u8>) -> SpecResult<R2::V> {
        match self.p.spec_parse(input) {
            SpecResult::Failed { pos, msgs, to_str } => SpecResult::Failed { pos, msgs, to_str },
            SpecResult::Found { used, val } => SpecResult::Found {
                used,
                val: map_model::<R1, R2, F>(self.f)(val),
            },
        }
    }

    fn parse(&self, input: &'a [u8]) -> (r: ParseResult<'a, R2>) {
        match self.p.parse(input) {
            Err(e) => Err(e),
            Ok((rem, v)) => {
                proof {
                    assert(map_obeys(self.f, map_model::<R1, R2, F>(self.f)));
                }
                let w = (self.f)(v);
                Ok((rem, w))
            },
        }
    }
}

/// Build an `fmap` combinator.
pub fn fmap<'a, R1, R2, P, F>(parser: P, map_fn: F) -> (r: FMap<P, F, R1>) where
    R1: DeepView,
    R2: DeepView,
    P: Parser<'a, R1>,
    F: Fn(R1) -> R2 + Copy,

    ensures
        r.p == parser,
        r.f == map_fn,
{
    FMap { p: parser, f: map_fn, _marker: PhantomData }
}

/// The fallible transform `f` follows the mathematical partial map `gm`.
pub open spec fn frmap_obeys<R1: DeepView, R2: DeepView, F: Fn(R1) -> Result<R2, String>>(
    f: F,
    gm: spec_fn(R1::V) -> Result<R2::V, Seq<char>>,
) -> bool {
    &&& forall|v: R1| #[trigger] call_requires(f, (v,))
    &&& forall|v: R1, w: Result<R2, String>| #[trigger]
        call_ensures(f, (v,), w) ==> match (w, gm(v.deep_view())) {
            (Result::Ok(w2), Result::Ok(s2)) => w2.deep_view() == s2,
            (Result::Err(e2), Result::Err(se)) => e2@ == se,
            _ => false,
        }
}

/// Some mathematical partial map models `f`.
pub open spec fn frmap_wf<R1: DeepView, R2: DeepView, F: Fn(R1) -> Result<R2, String>>(
    f: F,
) -> bool {
    exists|gm: spec_fn(R1::V) -> Result<R2::V, Seq<char>>| frmap_obeys(f, gm)
}

/// The mathematical partial map modelling `f`.
pub open spec fn frmap_model<R1: DeepView, R2: DeepView, F: Fn(R1) -> Result<R2, String>>(
    f: F,
) -> spec_fn(R1::V) -> Result<R2::V, Seq<char>> {
    choose|gm: spec_fn(R1::V) -> Result<R2::V, Seq<char>>| frmap_obeys(f, gm)
}

/// The fixed context message a failed `frmap` transform pushes first.
pub open spec fn spec_frmap_msg() -> Seq<char> {
    "Error frmap applying function to parsing result"@
}

/// Combinator `frmap` (fallible map): transform a successful value
/// through a function that may itself fail; on transform failure, the
/// result is a failure at the *remaining* input after the parse, carrying
/// the transform's error text, in text-rendering mode.
pub struct FrMap<P, F, R1> {
    pub p: P,
    pub f: F,
    pub _marker: PhantomData<R1>,
}

impl<'a, R1, R2, P, F> Parser<'a, R2> for FrMap<P, F, R1> where
    R1: DeepView,
    R2: DeepView,
    P: Parser<'a, R1>,
    F: Fn(R1) -> Result<R2, String> + Copy,
 {
    open spec fn wf(&self) -> bool {
        self.p.wf() && frmap_wf::<R1, R2, F>(self.f)
    }

    open spec fn spec_parse(&self, input: Seq<u8>) -> SpecResult<R2::V> {
        match self.p.spec_parse(input) {
            SpecResult::Failed { pos, msgs, to_str } => SpecResult::Failed { pos, msgs, to_str },
            SpecResult::Found { used, val } => match frmap_model::<R1, R2, F>(self.f)(val) {
                Result::Ok(w) => SpecResult::Found { used, val: w },
                Result::Err(es) => SpecResult::Failed {
                    pos: used,
                    msgs: seq![spec_frmap_msg(), es],
                    to_str: true,
                },
            },
        }
    }

    fn parse(&self, input: &'a [u8]) -> (r: ParseResult<'a, R2>) {
        match self.p.parse(input) {
            Err(e) => Err(e),
            Ok((rem, v)) => {
                proof {
                    assert(frmap_obeys(self.f, frmap_model::<R1, R2, F>(self.f)));
                }
                match (self.f)(v) {
                    Ok(w) => Ok((rem, w)),
                    Err(e) => {
                        let ghost ev = e@;
                        let ne = PErr::new(rem).user_msg_push(
                            Msg::Str("Error frmap applying function to parsing result"),
                        ).user_msg_push(Msg::Owned(e)).fmt_str();
                        proof {
                            assert(ne@.msgs =~= seq![spec_frmap_msg(), ev]);
                        }
                        Err(ne)
                    },
                }
            },
        }
    }
}

/// Build an `frmap` combinator.
pub fn frmap<'a, R1, R2, P, F>(parser: P, map_fn: F) -> (r: FrMap<P, F, R1>) where
    R1: DeepView,
    R2: DeepView,
    P: Parser<'a, R1>,
    F: Fn(R1) -> Result<R2, String> + Copy,

    ensures
        r.p == parser,
        r.f == map_fn,
{
    FrMap { p: parser, f: map_fn, _marker: PhantomData }
}

/// The executable result transform `f` of `map` follows the mathematical
/// transform `gm`: applied to the remaining input and value of a success,
/// it produces a full parse result over that remaining input.
pub open spec fn rmap_obeys<'a, R1, R2, F>(
    f: F,
    gm: spec_fn(Seq<u8>, R1::V) -> SpecResult<R2::V>,
) -> bool where
    R1: DeepView,
    R2: DeepView,
    F: Fn((&'a [u8], R1)) -> ParseResult<'a, R2>,
 {
    &&& forall|x: (&'a [u8], R1)| #[trigger] call_requires(f, (x,))
    &&& forall|x: (&'a [u8], R1), r: ParseResult<'a, R2>| #[trigger]
        call_ensures(f, (x,), r) ==> crate::parser_combinators::err::res_matches::<R2>(
            x.0@,
            gm(x.0@, x.1.deep_view()),
            r,
        )
}

/// Some mathematical transform models `f`.
pub open spec fn rmap_wf<'a, R1, R2, F>(f: F) -> bool where
    R1: DeepView,
    R2: DeepView,
    F: Fn((&'a [u8], R1)) -> ParseResult<'a, R2>,
 {
    exists|gm: spec_fn(Seq<u8>, R1::V) -> SpecResult<R2::V>| rmap_obeys(f, gm)
}

/// The mathematical transform modelling `f`.
pub open spec fn rmap_model<'a, R1, R2, F>(f: F) -> spec_fn(Seq<u8>, R1::V) -> SpecResult<
    R2::V,
> where R1: DeepView, R2: DeepView, F: Fn((&'a [u8], R1)) -> ParseResult<'a, R2> {
    choose|gm: spec_fn(Seq<u8>, R1::V) -> SpecResult<R2::V>| rmap_obeys(f, gm)
}

/// Combinator `map`: transform the full `(remaining, value)` pair of a
/// success through a function that may itself parse further and fail.
pub struct MapP<P, F, R1> {
    pub p: P,
    pub f: F,
    pub _marker: PhantomData<R1>,
}

impl<'a, R1, R2, P, F> Parser<'a, R2> for MapP<P, F, R1> where
    R1: DeepView,
    R2: DeepView,
    P: Parser<'a, R1>,
    F: Fn((&'a [u8], R1)) -> ParseResult<'a, R2> + Copy,
 {
    open spec fn wf(&self) -> bool {
        self.p.wf() && rmap_wf::<R1, R2, F>(self.f)
    }

    open spec fn spec_parse(&self, input: Seq<u8>) -> SpecResult<R2::V> {
        match self.p.spec_parse(input) {
            SpecResult::Failed { pos, msgs, to_str } => SpecResult::Failed { pos, msgs, to_str },
            SpecResult::Found { used, val } => crate::parser_combinators::err::lift_res(
                rmap_model::<R1, R2, F>(self.f)(input.skip(used as int), val),
                used,
            ),
        }
    }

    fn parse(&self, input: &'a [u8]) -> (r: ParseResult<'a, R2>) {
        match self.p.parse(input) {
            Err(e) => Err(e),
            Ok((rem, v)) => {
                proof {
                    assert(rmap_obeys(self.f, rmap_model::<R1, R2, F>(self.f)));
                }
                let ghost vv = v.deep_view();
                let ghost rv = rem@;
                let r2 = (self.f)((rem, v));
                proof {
                    if let SpecResult::Found { used: u1, .. } = self.p.spec_parse(input@) {
                        let s2 = rmap_model::<R1, R2, F>(self.f)(rv, vv);
                        match s2 {
                            SpecResult::Found { used: u2, .. } => {
                                lemma_skip_skip(input@, u1 as int, u2 as int);
                            },
                            SpecResult::Failed { pos, .. } => {
                                lemma_skip_skip(input@, u1 as int, pos as int);
                            },
                        }
                    }
                }
                r2
            },
        }
    }
}

/// Combinator `msg_err`: push one context message onto any failure of the
/// wrapped parser, leaving its input span untouched.
#[derive(Clone, Copy)]
pub struct MsgErrP<'a, P> {
    pub p: P,
    pub msg: &'a str,
}

impl<'a, R: DeepView, P: Parser<'a, R>> Parser<'a, R> for MsgErrP<'a, P> {
    open spec fn wf(&self) -> bool {
        self.p.wf()
    }

    open spec fn spec_parse(&self, input: Seq<u8>) -> SpecResult<R::V> {
        match self.p.spec_parse(input) {
            SpecResult::Found { used, val } => SpecResult::Found { used, val },
            SpecResult::Failed { pos, msgs, to_str } => SpecResult::Failed {
                pos,
                msgs: msgs.push(self.msg@),
                to_str,
            },
        }
    }

    fn parse(&self, input: &'a [u8]) -> (r: ParseResult<'a, R>) {
        match self.p.parse(input) {
            Ok(t) => Ok(t),
            Err(e) => Err(e.user_msg_push(Msg::Str(self.msg))),
        }
    }
}

/// Build a `msg_err` combinator.
pub fn msg_err<'a, R: DeepView, P: Parser<'a, R>>(parser: P, msg: &'a str) -> (r: MsgErrP<'a, P>)
    ensures
        r.p == parser,
        r.msg == msg,
{
    MsgErrP { p: parser, msg }
}

/// Combinator `strerr`: select text rendering for any failure of the
/// wrapped parser.
#[derive(Clone, Copy)]
pub struct StrErrP<P> {
    pub p: P,
}

impl<'a, R: DeepView, P: Parser<'a, R>> Parser<'a, R> for StrErrP<P> {
    open spec fn wf(&self) -> bool {
        self.p.wf()
    }

    open spec fn spec_parse(&self, input: Seq<u8>) -> SpecResult<R::V> {
        match self.p.spec_parse(input) {
            SpecResult::Found { used, val } => SpecResult::Found { used, val },
            SpecResult::Failed { pos, msgs, to_str: _ } => SpecResult::Failed {
                pos,
                msgs,
                to_str: true,
            },
        }
    }

    fn parse(&self, input: &'a [u8]) -> (r: ParseResult<'a, R>) {
        match self.p.parse(input) {
            Ok(t) => Ok(t),
            Err(e) => Err(e.fmt_str()),
        }
    }
}

/// Build a `strerr` combinator.
pub fn strerr<'a, R: DeepView, P: Parser<'a, R>>(parser: P) -> (r: StrErrP<P>)
    ensures
        r.p == parser,
{
    StrErrP { p: parser }
}

/// Combinator `option`: always succeeds. `Some(value)` on sub-success;
/// `None` with the original input unchanged on sub-failure.
#[derive(Clone, Copy)]
pub struct OptionP<P> {
    pub p: P,
}

impl<'a, R: DeepView, P: Parser<'a, R>> Parser<'a, Option<R>> for OptionP<P> {
    open spec fn wf(&self) -> bool {
        self.p.wf()
    }

    open spec fn spec_parse(&self, input: Seq<u8>) -> SpecResult<Option<R::V>> {
        match self.p.spec_parse(input) {
            SpecResult::Found { used, val } => SpecResult::Found { used, val: Some(val) },
            SpecResult::Failed { .. } => SpecResult::Found { used: 0, val: None },
        }
    }

    fn parse(&self, input: &'a [u8]) -> (r: ParseResult<'a, Option<R>>) {
        proof {
            assert(input@.skip(0) =~= input@);
        }
        match self.p.parse(input) {
            Ok((rem, v)) => Ok((rem, Some(v))),
            _ => Ok((input, None)),
        }
    }
}

/// Build an `option` combinator.
pub fn option<'a, R: DeepView, P: Parser<'a, R>>(parser: P) -> (r: OptionP<P>)
    ensures
        r.p == parser,
{
    OptionP { p: parser }
}

/// Combinator `pair`: sequence two parsers, keeping both values; the
/// first failure is propagated unchanged.
#[derive(Clone, Copy)]
pub struct Pair<P1, P2> {
    pub p1: P1,
    pub p2: P2,
}

impl<'a, R1, R2, P1, P2> Parser<'a, (R1, R2)> for Pair<P1, P2> where
    R1: DeepView,
    R2: DeepView,
    P1: Parser<'a, R1>,
    P2: Parser<'a, R2>,
 {
    open spec fn wf(&self) -> bool {
        self.p1.wf() && self.p2.wf()
    }

    open spec fn spec_parse(&self, input: Seq<u8>) -> SpecResult<(R1::V, R2::V)> {
        match self.p1.spec_parse(input) {
            SpecResult::Failed { pos, msgs, to_str } => SpecResult::Failed { pos, msgs, to_str },
            SpecResult::Found { used: u1, val: v1 } => match self.p2.spec_parse(
                input.skip(u1 as int),
            ) {
                SpecResult::Failed { pos, msgs, to_str } => SpecResult::Failed {
                    pos: (pos + u1) as nat,
                    msgs,
                    to_str,
                },
                SpecResult::Found { used: u2, val: v2 } => SpecResult::Found {
                    used: (u1 + u2) as nat,
                    val: (v1, v2),
                },
            },
        }
    }

    fn parse(&self, input: &'a [u8]) -> (r: ParseResult<'a, (R1, R2)>) {
        match self.p1.parse(input) {
            Err(e) => Err(e),
            Ok((rem1, v1)) => {
                let r2 = self.p2.parse(rem1);
                proof {
                    if let SpecResult::Found { used: u1, .. } = self.p1.spec_parse(input@) {
                        match self.p2.spec_parse(rem1@) {
                            SpecResult::Found { used: u2, .. } => {
                                lemma_skip_skip(input@, u1 as int, u2 as int);
                            },
                            SpecResult::Failed { pos, .. } => {
                                lemma_skip_skip(input@, u1 as int, pos as int);
                            },
                        }
                    }
                }
                match r2 {
                    Err(e2) => Err(e2),
                    Ok((rem2, v2)) => Ok((rem2, (v1, v2))),
                }
            },
        }
    }
}

/// Build a `pair` combinator.
pub fn pair<'a, R1, R2, P1, P2>(p1: P1, p2: P2) -> (r: Pair<P1, P2>) where
    R1: DeepView,
    R2: DeepView,
    P1: Parser<'a, R1>,
    P2: Parser<'a, R2>,

    ensures
        r.p1 == p1,
        r.p2 == p2,
{
    Pair { p1, p2 }
}

/// Combinator `or`: run both parsers; the second starts from wherever the
/// first left off if it succeeded, otherwise from the original input.
/// Fails only if both fail, with the second failure.
#[derive(Clone, Copy)]
pub struct Or<P1, P2> {
    pub p1: P1,
    pub p2: P2,
}

impl<'a, R1, R2, P1, P2> Parser<'a, (Option<R1>, Option<R2>)> for Or<P1, P2> where
    R1: DeepView,
    R2: DeepView,
    P1: Parser<'a, R1>,
    P2: Parser<'a, R2>,
 {
    open spec fn wf(&self) -> bool {
        self.p1.wf() && self.p2.wf()
    }

    open spec fn spec_parse(&self, input: Seq<u8>) -> SpecResult<(Option<R1::V>, Option<R2::V>)> {
        match self.p1.spec_parse(input) {
            SpecResult::Found { used: u1, val: v1 } => match self.p2.spec_parse(
                input.skip(u1 as int),
            ) {
                SpecResult::Found { used: u2, val: v2 } => SpecResult::Found {
                    used: (u1 + u2) as nat,
                    val: (Some(v1), Some(v2)),
                },
                SpecResult::Failed { .. } => SpecResult::Found {
                    used: u1,
                    val: (Some(v1), None),
                },
            },
            SpecResult::Failed { .. } => match self.p2.spec_parse(input) {
                SpecResult::Found { used: u2, val: v2 } => SpecResult::Found {
                    used: u2,
                    val: (None, Some(v2)),
                },
                SpecResult::Failed { pos, msgs, to_str } => SpecResult::Failed {
                    pos,
                    msgs,
                    to_str,
                },
            },
        }
    }

    fn parse(&self, input: &'a [u8]) -> (r: ParseResult<'a, (Option<R1>, Option<R2>)>) {
        match self.p1.parse(input) {
            Ok((rem1, v1)) => {
                let r2 = self.p2.parse(rem1);
                proof {
                    if let SpecResult::Found { used: u1, .. } = self.p1.spec_parse(input@) {
                        if let SpecResult::Found { used: u2, .. } = self.p2.spec_parse(rem1@) {
                            lemma_skip_skip(input@, u1 as int, u2 as int);
                        }
                    }
                }
                match r2 {
                    Ok((rem2, v2)) => Ok((rem2, (Some(v1), Some(v2)))),
                    _ => Ok((rem1, (Some(v1), None))),
                }
            },
            _ => {
                match self.p2.parse(input) {
                    Ok((rem2, v2)) => Ok((rem2, (None, Some(v2)))),
                    Err(e) => Err(e),
                }
            },
        }
    }
}

/// Build an `or` combinator.
pub fn or<'a, R1, R2, P1, P2>(p1: P1, p2: P2) -> (r: Or<P1, P2>) where
    R1: DeepView,
    R2: DeepView,
    P1: Parser<'a, R1>,
    P2: Parser<'a, R2>,

    ensures
        r.p1 == p1,
        r.p2 == p2,
{
    Or { p1, p2 }
}

/// Combinator `left`: sequence two parsers, keeping only the first value.
pub struct Left<P1, P2, R2> {
    pub p1: P1,
    pub p2: P2,
    pub _marker: PhantomData<R2>,
}

impl<'a, R1, R2, P1, P2> Parser<'a, R1> for Left<P1, P2, R2> where
    R1: DeepView,
    R2: DeepView,
    P1: Parser<'a, R1>,
    P2: Parser<'a, R2>,
 {
    open spec fn wf(&self) -> bool {
        self.p1.wf() && self.p2.wf()
    }

    open spec fn spec_parse(&self, input: Seq<u8>) -> SpecResult<R1::V> {
        match self.p1.spec_parse(input) {
            SpecResult::Failed { pos, msgs, to_str } => SpecResult::Failed { pos, msgs, to_str },
            SpecResult::Found { used: u1, val: v1 } => match self.p2.spec_parse(
                input.skip(u1 as int),
            ) {
                SpecResult::Failed { pos, msgs, to_str } => SpecResult::Failed {
                    pos: (pos + u1) as nat,
                    msgs,
                    to_str,
                },
                SpecResult::Found { used: u2, .. } => SpecResult::Found {
                    used: (u1 + u2) as nat,
                    val: v1,
                },
            },
        }
    }

    fn parse(&self, input: &'a [u8]) -> (r: ParseResult<'a, R1>) {
        match self.p1.parse(input) {
            Err(e) => Err(e),
            Ok((rem1, v1)) => {
                let r2 = self.p2.parse(rem1);
                proof {
                    if let SpecResult::Found { used: u1, .. } = self.p1.spec_parse(input@) {
                        match self.p2.spec_parse(rem1@) {
                            SpecResult::Found { used: u2, .. } => {
                                lemma_skip_skip(input@, u1 as int, u2 as int);
                            },
                            SpecResult::Failed { pos, .. } => {
                                lemma_skip_skip(input@, u1 as int, pos as int);
                            },
                        }
                    }
                }
                match r2 {
                    Err(e2) => Err(e2),
                    Ok((rem2, _)) => Ok((rem2, v1)),
                }
            },
        }
    }
}

/// Build a `left` combinator.
pub fn left<'a, R1, R2, P1, P2>(p1: P1, p2: P2) -> (r: Left<P1, P2, R2>) where
    R1: DeepView,
    R2: DeepView,
    P1: Parser<'a, R1>,
    P2: Parser<'a, R2>,

    ensures
        r.p1 == p1,
        r.p2 == p2,
{
    Left { p1, p2, _marker: PhantomData }
}

/// Combinator `right`: sequence two parsers, keeping only the second
/// value.
pub struct Right<P1, P2, R1> {
    pub p1: P1,
    pub p2: P2,
    pub _marker: PhantomData<R1>,
}

impl<'a, R1, R2, P1, P2> Parser<'a, R2> for Right<P1, P2, R1> where
    R1: DeepView,
    R2: DeepView,
    P1: Parser<'a, R1>,
    P2: Parser<'a, R2>,
 {
    open spec fn wf(&self) -> bool {
        self.p1.wf() && self.p2.wf()
    }

    open spec fn spec_parse(&self, input: Seq<u8>) -> SpecResult<R2::V> {
        match self.p1.spec_parse(input) {
            SpecResult::Failed { pos, msgs, to_str } => SpecResult::Failed { pos, msgs, to_str },
            SpecResult::Found { used: u1, .. } => match self.p2.spec_parse(input.skip(u1 as int)) {
                SpecResult::Failed { pos, msgs, to_str } => SpecResult::Failed {
                    pos: (pos + u1) as nat,
                    msgs,
                    to_str,
                },
                SpecResult::Found { used: u2, val: v2 } => SpecResult::Found {
                    used: (u1 + u2) as nat,
                    val: v2,
                },
            },
        }
    }

    fn parse(&self, input: &'a [u8]) -> (r: ParseResult<'a, R2>) {
        match self.p1.parse(input) {
            Err(e) => Err(e),
            Ok((rem1, _)) => {
                let r2 = self.p2.parse(rem1);
                proof {
                    if let SpecResult::Found { used: u1, .. } = self.p1.spec_parse(input@) {
                        match self.p2.spec_parse(rem1@) {
                            SpecResult::Found { used: u2, .. } => {
                                lemma_skip_skip(input@, u1 as int, u2 as int);
                            },
                            SpecResult::Failed { pos, .. } => {
                                lemma_skip_skip(input@, u1 as int, pos as int);
                            },
                        }
                    }
                }
                r2
            },
        }
    }
}

/// Build a `right` combinator.
pub fn right<'a, R1, R2, P1, P2>(p1: P1, p2: P2) -> (r: Right<P1, P2, R1>) where
    R1: DeepView,
    R2: DeepView,
    P1: Parser<'a, R1>,
    P2: Parser<'a, R2>,

    ensures
        r.p1 == p1,
        r.p2 == p2,
{
    Right { p1, p2, _marker: PhantomData }
}

/// Combinator `right_opt`: like `right`, but the discarded left side is
/// optional; its failure is swallowed and the input is not advanced past
/// it.
pub struct RightOpt<P1, P2, R1> {
    pub p1: P1,
    pub p2: P2,
    pub _marker: PhantomData<R1>,
}

impl<'a, R1, R2, P1, P2> Parser<'a, R2> for RightOpt<P1, P2, R1> where
    R1: DeepView,
    R2: DeepView,
    P1: Parser<'a, R1>,
    P2: Parser<'a, R2>,
 {
    open spec fn wf(&self) -> bool {
        self.p1.wf() && self.p2.wf()
    }

    open spec fn spec_parse(&self, input: Seq<u8>) -> SpecResult<R2::V> {
        let off = match self.p1.spec_parse(input) {
            SpecResult::Found { used: u1, .. } => u1,
            SpecResult::Failed { .. } => 0,
        };
        match self.p2.spec_parse(input.skip(off as int)) {
            SpecResult::Failed { pos, msgs, to_str } => SpecResult::Failed {
                pos: (pos + off) as nat,
                msgs,
                to_str,
            },
            SpecResult::Found { used: u2, val: v2 } => SpecResult::Found {
                used: (off + u2) as nat,
                val: v2,
            },
        }
    }

    fn parse(&self, input: &'a [u8]) -> (r: ParseResult<'a, R2>) {
        proof {
            assert(input@.skip(0) =~= input@);
        }
        match self.p1.parse(input) {
            Ok((rem1, _)) => {
                let r2 = self.p2.parse(rem1);
                proof {
                    if let SpecResult::Found { used: u1, .. } = self.p1.spec_parse(input@) {
                        match self.p2.spec_parse(rem1@) {
                            SpecResult::Found { used: u2, .. } => {
                                lemma_skip_skip(input@, u1 as int, u2 as int);
                            },
                            SpecResult::Failed { pos, .. } => {
                                lemma_skip_skip(input@, u1 as int, pos as int);
                            },
                        }
                    }
                }
                r2
            },
            _ => self.p2.parse(input),
        }
    }
}

/// Build a `right_opt` combinator.
pub fn right_opt<'a, R1, R2, P1, P2>(p1: P1, p2: P2) -> (r: RightOpt<P1, P2, R1>) where
    R1: DeepView,
    R2: DeepView,
    P1: Parser<'a, R1>,
    P2: Parser<'a, R2>,

    ensures
        r.p1 == p1,
        r.p2 == p2,
{
    RightOpt { p1, p2, _marker: PhantomData }
}

/// Combinator `left_opt`: like `left`, but the discarded right side is
/// optional; its failure is swallowed and the input is not advanced past
/// it.
pub struct LeftOpt<P1, P2, R2> {
    pub p1: P1,
    pub p2: P2,
    pub _marker: PhantomData<R2>,
}

impl<'a, R1, R2, P1, P2> Parser<'a, R1> for LeftOpt<P1, P2, R2> where
    R1: DeepView,
    R2: DeepView,
    P1: Parser<'a, R1>,
    P2: Parser<'a, R2>,
 {
    open spec fn wf(&self) -> bool {
        self.p1.wf() && self.p2.wf()
    }

    open spec fn spec_parse(&self, input: Seq<u8>) -> SpecResult<R1::V> {
        match self.p1.spec_parse(input) {
            SpecResult::Failed { pos, msgs, to_str } => SpecResult::Failed { pos, msgs, to_str },
            SpecResult::Found { used: u1, val: v1 } => match self.p2.spec_parse(
                input.skip(u1 as int),
            ) {
                SpecResult::Found { used: u2, .. } => SpecResult::Found {
                    used: (u1 + u2) as nat,
                    val: v1,
                },
                SpecResult::Failed { .. } => SpecResult::Found { used: u1, val: v1 },
            },
        }
    }

    fn parse(&self, input: &'a [u8]) -> (r: ParseResult<'a, R1>) {
        match self.p1.parse(input) {
            Err(e) => Err(e),
            Ok((rem1, v1)) => {
                let r2 = self.p2.parse(rem1);
                proof {
                    if let SpecResult::Found { used: u1, .. } = self.p1.spec_parse(input@) {
                        if let SpecResult::Found { used: u2, .. } = self.p2.spec_parse(rem1@) {
                            lemma_skip_skip(input@, u1 as int, u2 as int);
                        }
                    }
                }
                match r2 {
                    Ok((rem2, _)) => Ok((rem2, v1)),
                    _ => Ok((rem1, v1)),
                }
            },
        }
    }
}

/// Build a `left_opt` combinator.
pub fn left_opt<'a, R1, R2, P1, P2>(p1: P1, p2: P2) -> (r: LeftOpt<P1, P2, R2>) where
    R1: DeepView,
    R2: DeepView,
    P1: Parser<'a, R1>,
    P2: Parser<'a, R2>,

    ensures
        r.p1 == p1,
        r.p2 == p2,
{
    LeftOpt { p1, p2, _marker: PhantomData }
}

/// Combinator `sep_pair`: two parsers separated by a mandatory separator
/// whose value is discarded.
pub fn sep_pair<'a, R1, RS, R2, P1, PS, P2>(p1: P1, sep: PS, p2: P2) -> (r: Pair<
    Left<P1, PS, RS>,
    P2,
>) where
    R1: DeepView,
    RS: DeepView,
    R2: DeepView,
    P1: Parser<'a, R1>,
    PS: Parser<'a, RS>,
    P2: Parser<'a, R2>,

    ensures
        r.p1.p1 == p1,
        r.p1.p2 == sep,
        r.p2 == p2,
{
    pair(left(p1, sep), p2)
}

/// Combinator `sep_pair_opt`: like `sep_pair`, but the separator is
/// optional.
pub fn sep_pair_opt<'a, R1, RS, R2, P1, PS, P2>(p1: P1, sep: PS, p2: P2) -> (r: Pair<
    LeftOpt<P1, PS, RS>,
    P2,
>) where
    R1: DeepView,
    RS: DeepView,
    R2: DeepView,
    P1: Parser<'a, R1>,
    PS: Parser<'a, RS>,
    P2: Parser<'a, R2>,

    ensures
        r.p1.p1 == p1,
        r.p1.p2 == sep,
        r.p2 == p2,
{
    pair(left_opt(p1, sep), p2)
}

/// Combinator `between`: parse `open_p, body, close_p`, keeping only the
/// body's value.
pub fn between<'a, R1, R, R2, P1, P, P2>(p1: P1, p: P, p2: P2) -> (r: Left<
    Right<P1, P, R1>,
    P2,
    R2,
>) where
    R1: DeepView,
    R: DeepView,
    R2: DeepView,
    P1: Parser<'a, R1>,
    P: Parser<'a, R>,
    P2: Parser<'a, R2>,

    ensures
        r.p1.p1 == p1,
        r.p1.p2 == p,
        r.p2 == p2,
{
    left(right(p1, p), p2)
}

/// Combinator `between_opt`: like `between`, but the surrounding parsers
/// are individually optional.
pub fn between_opt<'a, R1, R, R2, P1, P, P2>(p1: P1, p: P, p2: P2) -> (r: LeftOpt<
    RightOpt<P1, P, R1>,
    P2,
    R2,
>) where
    R1: DeepView,
    R: DeepView,
    R2: DeepView,
    P1: Parser<'a, R1>,
    P: Parser<'a, R>,
    P2: Parser<'a, R2>,

    ensures
        r.p1.p1 == p1,
        r.p1.p2 == p,
        r.p2 == p2,
{
    left_opt(right_opt(p1, p), p2)
}

/// Combinator `and_then`: sequence two parsers and fold the pair of
/// values through a combining function.
pub fn and_then<'a, R1, R2, R3, P1, P2, F>(p1: P1, p2: P2, f: F) -> (r: FMap<
    Pair<P1, P2>,
    F,
    (R1, R2),
>) where
    R1: DeepView,
    R2: DeepView,
    R3: DeepView,
    P1: Parser<'a, R1>,
    P2: Parser<'a, R2>,
    F: Fn((R1, R2)) -> R3 + Copy,

    ensures
        r.p.p1 == p1,
        r.p.p2 == p2,
        r.f == f,
{
    fmap(pair(p1, p2), f)
}

/// Combinator `or_then`: run `or` and fold its `(Option, Option)` outcome
/// through a combining function.
pub fn or_then<'a, R1, R2, R3, P1, P2, F>(p1: P1, p2: P2, f: F) -> (r: FMap<
    Or<P1, P2>,
    F,
    (Option<R1>, Option<R2>),
>) where
    R1: DeepView,
    R2: DeepView,
    R3: DeepView,
    P1: Parser<'a, R1>,
    P2: Parser<'a, R2>,
    F: Fn((Option<R1>, Option<R2>)) -> R3 + Copy,

    ensures
        r.p.p1 == p1,
        r.p.p2 == p2,
        r.f == f,
{
    fmap(or(p1, p2), f)
}



impl<P, R> Clone for NotP<P, R> where P: Copy {
    fn clone(&self) -> (r: Self)
        ensures
            r == *self,
    {
        *self
    }
}

impl<P, R> Copy for NotP<P, R> where P: Copy {

}

impl<P, F, R1> Clone for FMap<P, F, R1> where P: Copy, F: Copy {
    fn clone(&self) -> (r: Self)
        ensures
            r == *self,
    {
        *self
    }
}

impl<P, F, R1> Copy for FMap<P, F, R1> where P: Copy, F: Copy {

}

impl<P, F, R1> Clone for FrMap<P, F, R1> where P: Copy, F: Copy {
    fn clone(&self) -> (r: Self)
        ensures
            r == *self,
    {
        *self
    }
}

impl<P, F, R1> Copy for FrMap<P, F, R1> where P: Copy, F: Copy {

}

impl<P, F, R1> Clone for MapP<P, F, R1> where P: Copy, F: Copy {
    fn clone(&self) -> (r: Self)
        ensures
            r == *self,
    {
        *self
    }
}

impl<P, F, R1> Copy for MapP<P, F, R1> where P: Copy, F: Copy {

}

impl<P1, P2, R2> Clone for Left<P1, P2, R2> where P1: Copy, P2: Copy {
    fn clone(&self) -> (r: Self)
        ensures
            r == *self,
    {
        *self
    }
}

impl<P1, P2, R2> Copy for Left<P1, P2, R2> where P1: Copy, P2: Copy {

}

impl<P1, P2, R1> Clone for Right<P1, P2, R1> where P1: Copy, P2: Copy {
    fn clone(&self) -> (r: Self)
        ensures
            r == *self,
    {
        *self
    }
}

impl<P1, P2, R1> Copy for Right<P1, P2, R1> where P1: Copy, P2: Copy {

}

impl<P1, P2, R1> Clone for RightOpt<P1, P2, R1> where P1: Copy, P2: Copy {
    fn clone(&self) -> (r: Self)
        ensures
            r == *self,
    {
        *self
    }
}

impl<P1, P2, R1> Copy for RightOpt<P1, P2, R1> where P1: Copy, P2: Copy {

}

impl<P1, P2, R2> Clone for LeftOpt<P1, P2, R2> where P1: Copy, P2: Copy {
    fn clone(&self) -> (r: Self)
        ensures
            r == *self,
    {
        *self
    }
}

impl<P1, P2, R2> Copy for LeftOpt<P1, P2, R2> where P1: Copy, P2: Copy {

}

} // verus!
