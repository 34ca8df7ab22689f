//! Permutation parsing over a fixed tuple of distinct sub-parsers.
//!
//! The engine repeatedly sweeps all not-yet-matched slots in order,
//! attempting each slot's parser against the current remaining input and
//! advancing on success, until a full sweep makes no new progress
//! (fixpoint). Slots may therefore appear in any relative order in the
//! input. `permut` requires every slot to succeed eventually; a sweep's
//! last failure is reported otherwise. `permut_part` tolerates a partial
//! match, failing only when no slot matched at all.

use core::marker::PhantomData;
use vstd::prelude::*;

use crate::parser_combinators::err::{lemma_skip_skip, res_matches, PErr, ParseResult, SpecResult};
use crate::parser_combinators::rep::RepFail;
use crate::parser_combinators::traits::Parser;

verus! {

/// The sweep state for two slots: the matched values, the current
/// position, and the last failure seen.
pub struct PermSt2<V0, V1> {
    pub o0: Option<V0>,
    pub o1: Option<V1>,
    pub pos: nat,
    pub er: RepFail,
}

/// How many of the two slots have matched.
pub open spec fn count2<V0, V1>(st: PermSt2<V0, V1>) -> int {
    (if st.o0 is Some {
        1int
    } else {
        0int
    }) + (if st.o1 is Some {
        1int
    } else {
        0int
    })
}

/// The state before the first sweep: nothing matched, at position zero,
/// with a bare failure at the end of the input (never reported, since a
/// failure is only reported after some slot's parser has failed).
pub open spec fn permut_init2<V0, V1>(s: Seq<u8>) -> PermSt2<V0, V1> {
    PermSt2 {
        o0: None,
        o1: None,
        pos: 0,
        er: RepFail { pos: s.len(), msgs: Seq::empty(), to_str: false },
    }
}

/// One sweep over the two slots, in order.
pub open spec fn round2<'a, R0, R1, P0, P1>(
    p0: P0,
    p1: P1,
    s: Seq<u8>,
    st: PermSt2<R0::V, R1::V>,
) -> PermSt2<R0::V, R1::V> where
    R0: DeepView,
    R1: DeepView,
    P0: Parser<'a, R0>,
    P1: Parser<'a, R1>,
 {
    let st = if st.o0 is None {
        match p0.spec_parse(s.skip(st.pos as int)) {
            SpecResult::Found { used, val } => PermSt2 {
                o0: Some(val),
                pos: (st.pos + used) as nat,
                ..st
            },
            SpecResult::Failed { pos, msgs, to_str } => PermSt2 {
                er: RepFail { pos: (st.pos + pos) as nat, msgs, to_str },
                ..st
            },
        }
    } else {
        st
    };
    if st.o1 is None {
        match p1.spec_parse(s.skip(st.pos as int)) {
            SpecResult::Found { used, val } => PermSt2 {
                o1: Some(val),
                pos: (st.pos + used) as nat,
                ..st
            },
            SpecResult::Failed { pos, msgs, to_str } => PermSt2 {
                er: RepFail { pos: (st.pos + pos) as nat, msgs, to_str },
                ..st
            },
        }
    } else {
        st
    }
}

/// A sweep never unmatches a slot.
pub proof fn lemma_round2_monotone<'a, R0, R1, P0, P1>(
    p0: P0,
    p1: P1,
    s: Seq<u8>,
    st: PermSt2<R0::V, R1::V>,
) where R0: DeepView, R1: DeepView, P0: Parser<'a, R0>, P1: Parser<'a, R1>
    ensures
        count2(round2(p0, p1, s, st)) >= count2(st),
        st.o0 is Some ==> round2(p0, p1, s, st).o0 == st.o0,
        st.o1 is Some ==> round2(p0, p1, s, st).o1 == st.o1,
{
}

/// Sweeps repeated to the fixpoint: stop as soon as a sweep makes no new
/// progress.
pub open spec fn permut_loop2<'a, R0, R1, P0, P1>(
    p0: P0,
    p1: P1,
    s: Seq<u8>,
    st: PermSt2<R0::V, R1::V>,
) -> PermSt2<R0::V, R1::V> where
    R0: DeepView,
    R1: DeepView,
    P0: Parser<'a, R0>,
    P1: Parser<'a, R1>,

    decreases 2 - count2(st),
    when count2(st) >= 0
{
    let st2 = round2(p0, p1, s, st);
    if count2(st2) == count2(st) {
        st2
    } else {
        permut_loop2(p0, p1, s, st2)
    }
}

/// The shared sweep loop for two slots.
fn permut_run2<'a, R0, R1, P0, P1>(p0: P0, p1: P1, input: &'a [u8]) -> (r: (
    Option<R0>,
    Option<R1>,
    &'a [u8],
    PErr<'a>,
)) where R0: DeepView, R1: DeepView, P0: Parser<'a, R0>, P1: Parser<'a, R1>
    requires
        p0.wf(),
        p1.wf(),
    ensures
        ({
            let fin = permut_loop2(p0, p1, input@, permut_init2(input@));
            &&& r.0.deep_view() == fin.o0
            &&& r.1.deep_view() == fin.o1
            &&& fin.pos <= input@.len()
            &&& r.2@ == input@.skip(fin.pos as int)
            &&& fin.er.pos <= input@.len()
            &&& r.3@.input == input@.skip(fin.er.pos as int)
            &&& r.3@.msgs == fin.er.msgs
            &&& r.3@.to_str == fin.er.to_str
        }),
{
    let mut o0: Option<R0> = None;
    let mut o1: Option<R1> = None;
    let mut cur: &'a [u8] = input;
    let mut er: PErr<'a> = Default::default();
    let ghost mut st = permut_init2::<R0::V, R1::V>(input@);
    proof {
        assert(input@.skip(0) =~= input@);
        assert(input@.skip(input@.len() as int) =~= Seq::<u8>::empty());
    }
    loop
        invariant
            p0.wf(),
            p1.wf(),
            0 <= count2(st) <= 2,
            permut_loop2(p0, p1, input@, st) == permut_loop2(
                p0,
                p1,
                input@,
                permut_init2(input@),
            ),
            o0.deep_view() == st.o0,
            o1.deep_view() == st.o1,
            st.pos <= input@.len(),
            cur@ == input@.skip(st.pos as int),
            st.er.pos <= input@.len(),
            er@.input == input@.skip(st.er.pos as int),
            er@.msgs == st.er.msgs,
            er@.to_str == st.er.to_str,
        decreases 2 - count2(st),
    {
        let ghost st0 = st;
        let mut progress = false;
        if o0.is_none() {
            match p0.parse(cur) {
                Ok((rem, v)) => {
                    proof {
                        if let SpecResult::Found { used, .. } = p0.spec_parse(cur@) {
                            lemma_skip_skip(input@, st.pos as int, used as int);
                            st = PermSt2 { o0: Some(v.deep_view()), pos: (st.pos + used) as nat, ..st };
                        }
                    }
                    o0 = Some(v);
                    cur = rem;
                    progress = true;
                },
                Err(e) => {
                    proof {
                        if let SpecResult::Failed { pos, msgs, to_str } = p0.spec_parse(cur@) {
                            lemma_skip_skip(input@, st.pos as int, pos as int);
                            st = PermSt2 {
                                er: RepFail { pos: (st.pos + pos) as nat, msgs, to_str },
                                ..st
                            };
                        }
                    }
                    er = e;
                },
            }
        }
        if o1.is_none() {
            match p1.parse(cur) {
                Ok((rem, v)) => {
                    proof {
                        if let SpecResult::Found { used, .. } = p1.spec_parse(cur@) {
                            lemma_skip_skip(input@, st.pos as int, used as int);
                            st = PermSt2 { o1: Some(v.deep_view()), pos: (st.pos + used) as nat, ..st };
                        }
                    }
                    o1 = Some(v);
                    cur = rem;
                    progress = true;
                },
                Err(e) => {
                    proof {
                        if let SpecResult::Failed { pos, msgs, to_str } = p1.spec_parse(cur@) {
                            lemma_skip_skip(input@, st.pos as int, pos as int);
                            st = PermSt2 {
                                er: RepFail { pos: (st.pos + pos) as nat, msgs, to_str },
                                ..st
                            };
                        }
                    }
                    er = e;
                },
            }
        }
        proof {
            assert(st == round2(p0, p1, input@, st0));
            lemma_round2_monotone(p0, p1, input@, st0);
        }
        if !progress {
            proof {
                assert(count2(st) == count2(st0));
                assert(permut_loop2(p0, p1, input@, st0) == st);
            }
            return (o0, o1, cur, er);
        }
        proof {
            assert(count2(st) > count2(st0));
        }
    }
}

/// Permut trait combinator, implemented for tuples of distinct parsers.
/// `O` is the partial-match output `(bool, tuple of options)`; `Oo` is
/// the all-matched tuple output.
pub trait Permut<'a, O: DeepView, Oo: DeepView>: Sized {
    spec fn permut_wf(&self) -> bool;

    spec fn spec_permut_part(&self, input: Seq<u8>) -> SpecResult<O::V>;

    spec fn spec_permut(&self, input: Seq<u8>) -> SpecResult<Oo::V>;

    fn permutation_part(&self, input: &'a [u8]) -> (r: ParseResult<'a, O>)
        requires
            self.permut_wf(),
        ensures
            res_matches::<O>(input@, self.spec_permut_part(input@), r),
    ;

    fn permutation(&self, input: &'a [u8]) -> (r: ParseResult<'a, Oo>)
        requires
            self.permut_wf(),
        ensures
            res_matches::<Oo>(input@, self.spec_permut(input@), r),
    ;

    /// `(P1,P2).permut_part()` succeeds whenever at least one slot
    /// matched; the `bool` element is `true` iff every slot matched.
    fn permut_part(self) -> (r: PermutPartP<Self, Oo>)
        ensures
            r.t == self,
    {
        PermutPartP { t: self, _marker: PhantomData }
    }

    /// `(P1,P2).permut()` succeeds iff every slot matched.
    fn permut(self) -> (r: PermutP<Self, O>)
        ensures
            r.t == self,
    {
        PermutP { t: self, _marker: PhantomData }
    }
}

/// The parser form of a full permutation match.
pub struct PermutP<T, O> {
    pub t: T,
    pub _marker: PhantomData<O>,
}

impl<T: Copy, O> Clone for PermutP<T, O> {
    fn clone(&self) -> (r: Self)
        ensures
            r == *self,
    {
        *self
    }
}

impl<T: Copy, O> Copy for PermutP<T, O> {

}

impl<'a, O, Oo, T> Parser<'a, Oo> for PermutP<T, O> where
    O: DeepView,
    Oo: DeepView,
    T: Permut<'a, O, Oo> + Copy,
 {
    open spec fn wf(&self) -> bool {
        self.t.permut_wf()
    }

    open spec fn spec_parse(&self, input: Seq<u8>) -> SpecResult<Oo::V> {
        self.t.spec_permut(input)
    }

    fn parse(&self, input: &'a [u8]) -> (r: ParseResult<'a, Oo>) {
        self.t.permutation(input)
    }
}

/// The parser form of a partial permutation match.
pub struct PermutPartP<T, Oo> {
    pub t: T,
    pub _marker: PhantomData<Oo>,
}

impl<T: Copy, Oo> Clone for PermutPartP<T, Oo> {
    fn clone(&self) -> (r: Self)
        ensures
            r == *self,
    {
        *self
    }
}

impl<T: Copy, Oo> Copy for PermutPartP<T, Oo> {

}

impl<'a, O, Oo, T> Parser<'a, O> for PermutPartP<T, Oo> where
    O: DeepView,
    Oo: DeepView,
    T: Permut<'a, O, Oo> + Copy,
 {
    open spec fn wf(&self) -> bool {
        self.t.permut_wf()
    }

    open spec fn spec_parse(&self, input: Seq<u8>) -> SpecResult<O::V> {
        self.t.spec_permut_part(input)
    }

    fn parse(&self, input: &'a [u8]) -> (r: ParseResult<'a, O>) {
        self.t.permutation_part(input)
    }
}

/// Build a `permut` combinator from a tuple of distinct parsers.
pub fn permut<'a, O, Oo, T>(input: T) -> (r: PermutP<T, O>) where
    O: DeepView,
    Oo: DeepView,
    T: Permut<'a, O, Oo> + Copy,

    ensures
        r.t == input,
{
    PermutP { t: input, _marker: PhantomData }
}

/// Build a `permut_part` combinator from a tuple of distinct parsers.
pub fn permut_part<'a, O, Oo, T>(input: T) -> (r: PermutPartP<T, Oo>) where
    O: DeepView,
    Oo: DeepView,
    T: Permut<'a, O, Oo> + Copy,

    ensures
        r.t == input,
{
    PermutPartP { t: input, _marker: PhantomData }
}

impl<'a, O0, O1, P0, P1> Permut<'a, (bool, (Option<O0>, Option<O1>)), (O0, O1)> for (P0, P1) where
    O0: DeepView,
    O1: DeepView,
    P0: Parser<'a, O0>,
    P1: Parser<'a, O1>,
 {
    open spec fn permut_wf(&self) -> bool {
        self.0.wf() && self.1.wf()
    }

    open spec fn spec_permut_part(&self, input: Seq<u8>) -> SpecResult<
        (bool, (Option<O0::V>, Option<O1::V>)),
    > {
        let fin = permut_loop2(self.0, self.1, input, permut_init2(input));
        if count2(fin) == 2 {
            SpecResult::Found { used: fin.pos, val: (true, (fin.o0, fin.o1)) }
        } else if count2(fin) > 0 {
            SpecResult::Found { used: fin.pos, val: (false, (fin.o0, fin.o1)) }
        } else {
            SpecResult::Failed { pos: fin.er.pos, msgs: fin.er.msgs, to_str: fin.er.to_str }
        }
    }

    open spec fn spec_permut(&self, input: Seq<u8>) -> SpecResult<(O0::V, O1::V)> {
        let fin = permut_loop2(self.0, self.1, input, permut_init2(input));
        match (fin.o0, fin.o1) {
            (Some(a), Some(b)) => SpecResult::Found { used: fin.pos, val: (a, b) },
            _ => SpecResult::Failed { pos: fin.er.pos, msgs: fin.er.msgs, to_str: fin.er.to_str },
        }
    }

    fn permutation_part(&self, input: &'a [u8]) -> (r: ParseResult<
        'a,
        (bool, (Option<O0>, Option<O1>)),
    >) {
        let (o0, o1, rem, er) = permut_run2(self.0, self.1, input);
        let all = o0.is_some() && o1.is_some();
        if all {
            Ok((rem, (true, (o0, o1))))
        } else if o0.is_some() || o1.is_some() {
            Ok((rem, (false, (o0, o1))))
        } else {
            Err(er)
        }
    }

    fn permutation(&self, input: &'a [u8]) -> (r: ParseResult<'a, (O0, O1)>) {
        let (o0, o1, rem, er) = permut_run2(self.0, self.1, input);
        match (o0, o1) {
            (Some(a), Some(b)) => Ok((rem, (a, b))),
            _ => Err(er),
        }
    }
}

/// The sweep state for three slots.
pub struct PermSt3<V0, V1, V2> {
    pub o0: Option<V0>,
    pub o1: Option<V1>,
    pub o2: Option<V2>,
    pub pos: nat,
    pub er: RepFail,
}

/// How many of the three slots have matched.
pub open spec fn count3<V0, V1, V2>(st: PermSt3<V0, V1, V2>) -> int {
    (if st.o0 is Some {
        1int
    } else {
        0int
    }) + (if st.o1 is Some {
        1int
    } else {
        0int
    }) + (if st.o2 is Some {
        1int
    } else {
        0int
    })
}

/// The state before the first sweep over three slots.
pub open spec fn permut_init3<V0, V1, V2>(s: Seq<u8>) -> PermSt3<V0, V1, V2> {
    PermSt3 {
        o0: None,
        o1: None,
        o2: None,
        pos: 0,
        er: RepFail { pos: s.len(), msgs: Seq::empty(), to_str: false },
    }
}

/// One sweep over the three slots, in order.
pub open spec fn round3<'a, R0, R1, R2, P0, P1, P2>(
    p0: P0,
    p1: P1,
    p2: P2,
    s: Seq<u8>,
    st: PermSt3<R0::V, R1::V, R2::V>,
) -> PermSt3<R0::V, R1::V, R2::V> where
    R0: DeepView,
    R1: DeepView,
    R2: DeepView,
    P0: Parser<'a, R0>,
    P1: Parser<'a, R1>,
    P2: Parser<'a, R2>,
 {
    let st = if st.o0 is None {
        match p0.spec_parse(s.skip(st.pos as int)) {
            SpecResult::Found { used, val } => PermSt3 {
                o0: Some(val),
                pos: (st.pos + used) as nat,
                ..st
            },
            SpecResult::Failed { pos, msgs, to_str } => PermSt3 {
                er: RepFail { pos: (st.pos + pos) as nat, msgs, to_str },
                ..st
            },
        }
    } else {
        st
    };
    let st = if st.o1 is None {
        match p1.spec_parse(s.skip(st.pos as int)) {
            SpecResult::Found { used, val } => PermSt3 {
                o1: Some(val),
                pos: (st.pos + used) as nat,
                ..st
            },
            SpecResult::Failed { pos, msgs, to_str } => PermSt3 {
                er: RepFail { pos: (st.pos + pos) as nat, msgs, to_str },
                ..st
            },
        }
    } else {
        st
    };
    if st.o2 is None {
        match p2.spec_parse(s.skip(st.pos as int)) {
            SpecResult::Found { used, val } => PermSt3 {
                o2: Some(val),
                pos: (st.pos + used) as nat,
                ..st
            },
            SpecResult::Failed { pos, msgs, to_str } => PermSt3 {
                er: RepFail { pos: (st.pos + pos) as nat, msgs, to_str },
                ..st
            },
        }
    } else {
        st
    }
}

/// A sweep never unmatches a slot.
pub proof fn lemma_round3_monotone<'a, R0, R1, R2, P0, P1, P2>(
    p0: P0,
    p1: P1,
    p2: P2,
    s: Seq<u8>,
    st: PermSt3<R0::V, R1::V, R2::V>,
) where
    R0: DeepView,
    R1: DeepView,
    R2: DeepView,
    P0: Parser<'a, R0>,
    P1: Parser<'a, R1>,
    P2: Parser<'a, R2>,

    ensures
        count3(round3(p0, p1, p2, s, st)) >= count3(st),
{
}

/// Sweeps over three slots repeated to the fixpoint.
pub open spec fn permut_loop3<'a, R0, R1, R2, P0, P1, P2>(
    p0: P0,
    p1: P1,
    p2: P2,
    s: Seq<u8>,
    st: PermSt3<R0::V, R1::V, R2::V>,
) -> PermSt3<R0::V, R1::V, R2::V> where
    R0: DeepView,
    R1: DeepView,
    R2: DeepView,
    P0: Parser<'a, R0>,
    P1: Parser<'a, R1>,
    P2: Parser<'a, R2>,

    decreases 3 - count3(st),
    when count3(st) >= 0
{
    let st2 = round3(p0, p1, p2, s, st);
    if count3(st2) == count3(st) {
        st2
    } else {
        permut_loop3(p0, p1, p2, s, st2)
    }
}

/// The shared sweep loop for three slots.
fn permut_run3<'a, R0, R1, R2, P0, P1, P2>(p0: P0, p1: P1, p2: P2, input: &'a [u8]) -> (r: (
    (Option<R0>, Option<R1>, Option<R2>),
    &'a [u8],
    PErr<'a>,
)) where
    R0: DeepView,
    R1: DeepView,
    R2: DeepView,
    P0: Parser<'a, R0>,
    P1: Parser<'a, R1>,
    P2: Parser<'a, R2>,

    requires
        p0.wf(),
        p1.wf(),
        p2.wf(),
    ensures
        ({
            let fin = permut_loop3(p0, p1, p2, input@, permut_init3(input@));
            &&& r.0.0.deep_view() == fin.o0
            &&& r.0.1.deep_view() == fin.o1
            &&& r.0.2.deep_view() == fin.o2
            &&& fin.pos <= input@.len()
            &&& r.1@ == input@.skip(fin.pos as int)
            &&& fin.er.pos <= input@.len()
            &&& r.2@.input == input@.skip(fin.er.pos as int)
            &&& r.2@.msgs == fin.er.msgs
            &&& r.2@.to_str == fin.er.to_str
        }),
{
    let mut o0: Option<R0> = None;
    let mut o1: Option<R1> = None;
    let mut o2: Option<R2> = None;
    let mut cur: &'a [u8] = input;
    let mut er: PErr<'a> = Default::default();
    let ghost mut st = permut_init3::<R0::V, R1::V, R2::V>(input@);
    proof {
        assert(input@.skip(0) =~= input@);
        assert(input@.skip(input@.len() as int) =~= Seq::<u8>::empty());
    }
    loop
        invariant
            p0.wf(),
            p1.wf(),
            p2.wf(),
            0 <= count3(st) <= 3,
            permut_loop3(p0, p1, p2, input@, st) == permut_loop3(
                p0,
                p1,
                p2,
                input@,
                permut_init3(input@),
            ),
            o0.deep_view() == st.o0,
            o1.deep_view() == st.o1,
            o2.deep_view() == st.o2,
            st.pos <= input@.len(),
            cur@ == input@.skip(st.pos as int),
            st.er.pos <= input@.len(),
            er@.input == input@.skip(st.er.pos as int),
            er@.msgs == st.er.msgs,
            er@.to_str == st.er.to_str,
        decreases 3 - count3(st),
    {
        let ghost st0 = st;
        let mut progress = false;
        if o0.is_none() {
            match p0.parse(cur) {
                Ok((rem, v)) => {
                    proof {
                        if let SpecResult::Found { used, .. } = p0.spec_parse(cur@) {
                            lemma_skip_skip(input@, st.pos as int, used as int);
                            st = PermSt3 { o0: Some(v.deep_view()), pos: (st.pos + used) as nat, ..st };
                        }
                    }
                    o0 = Some(v);
                    cur = rem;
                    progress = true;
                },
                Err(e) => {
                    proof {
                        if let SpecResult::Failed { pos, msgs, to_str } = p0.spec_parse(cur@) {
                            lemma_skip_skip(input@, st.pos as int, pos as int);
                            st = PermSt3 {
                                er: RepFail { pos: (st.pos + pos) as nat, msgs, to_str },
                                ..st
                            };
                        }
                    }
                    er = e;
                },
            }
        }
        if o1.is_none() {
            match p1.parse(cur) {
                Ok((rem, v)) => {
                    proof {
                        if let SpecResult::Found { used, .. } = p1.spec_parse(cur@) {
                            lemma_skip_skip(input@, st.pos as int, used as int);
                            st = PermSt3 { o1: Some(v.deep_view()), pos: (st.pos + used) as nat, ..st };
                        }
                    }
                    o1 = Some(v);
                    cur = rem;
                    progress = true;
                },
                Err(e) => {
                    proof {
                        if let SpecResult::Failed { pos, msgs, to_str } = p1.spec_parse(cur@) {
                            lemma_skip_skip(input@, st.pos as int, pos as int);
                            st = PermSt3 {
                                er: RepFail { pos: (st.pos + pos) as nat, msgs, to_str },
                                ..st
                            };
                        }
                    }
                    er = e;
                },
            }
        }
        if o2.is_none() {
            match p2.parse(cur) {
                Ok((rem, v)) => {
                    proof {
                        if let SpecResult::Found { used, .. } = p2.spec_parse(cur@) {
                            lemma_skip_skip(input@, st.pos as int, used as int);
                            st = PermSt3 { o2: Some(v.deep_view()), pos: (st.pos + used) as nat, ..st };
                        }
                    }
                    o2 = Some(v);
                    cur = rem;
                    progress = true;
                },
                Err(e) => {
                    proof {
                        if let SpecResult::Failed { pos, msgs, to_str } = p2.spec_parse(cur@) {
                            lemma_skip_skip(input@, st.pos as int, pos as int);
                            st = PermSt3 {
                                er: RepFail { pos: (st.pos + pos) as nat, msgs, to_str },
                                ..st
                            };
                        }
                    }
                    er = e;
                },
            }
        }
        proof {
            assert(st == round3(p0, p1, p2, input@, st0));
            lemma_round3_monotone(p0, p1, p2, input@, st0);
        }
        if !progress {
            proof {
                assert(count3(st) == count3(st0));
                assert(permut_loop3(p0, p1, p2, input@, st0) == st);
            }
            return ((o0, o1, o2), cur, er);
        }
        proof {
            assert(count3(st) > count3(st0));
        }
    }
}

impl<'a, O0, O1, O2, P0, P1, P2> Permut<
    'a,
    (bool, (Option<O0>, Option<O1>, Option<O2>)),
    (O0, O1, O2),
> for (P0, P1, P2) where
    O0: DeepView,
    O1: DeepView,
    O2: DeepView,
    P0: Parser<'a, O0>,
    P1: Parser<'a, O1>,
    P2: Parser<'a, O2>,
 {
    open spec fn permut_wf(&self) -> bool {
        self.0.wf() && self.1.wf() && self.2.wf()
    }

    open spec fn spec_permut_part(&self, input: Seq<u8>) -> SpecResult<
        (bool, (Option<O0::V>, Option<O1::V>, Option<O2::V>)),
    > {
        let fin = permut_loop3(self.0, self.1, self.2, input, permut_init3(input));
        if count3(fin) == 3 {
            SpecResult::Found { used: fin.pos, val: (true, (fin.o0, fin.o1, fin.o2)) }
        } else if count3(fin) > 0 {
            SpecResult::Found { used: fin.pos, val: (false, (fin.o0, fin.o1, fin.o2)) }
        } else {
            SpecResult::Failed { pos: fin.er.pos, msgs: fin.er.msgs, to_str: fin.er.to_str }
        }
    }

    open spec fn spec_permut(&self, input: Seq<u8>) -> SpecResult<(O0::V, O1::V, O2::V)> {
        let fin = permut_loop3(self.0, self.1, self.2, input, permut_init3(input));
        match (fin.o0, fin.o1, fin.o2) {
            (Some(a), Some(b), Some(c)) => SpecResult::Found { used: fin.pos, val: (a, b, c) },
            _ => SpecResult::Failed { pos: fin.er.pos, msgs: fin.er.msgs, to_str: fin.er.to_str },
        }
    }

    fn permutation_part(&self, input: &'a [u8]) -> (r: ParseResult<
        'a,
        (bool, (Option<O0>, Option<O1>, Option<O2>)),
    >) {
        let ((o0, o1, o2), rem, er) = permut_run3(self.0, self.1, self.2, input);
        let all = o0.is_some() && o1.is_some() && o2.is_some();
        if all {
            Ok((rem, (true, (o0, o1, o2))))
        } else if o0.is_some() || o1.is_some() || o2.is_some() {
            Ok((rem, (false, (o0, o1, o2))))
        } else {
            Err(er)
        }
    }

    fn permutation(&self, input: &'a [u8]) -> (r: ParseResult<'a, (O0, O1, O2)>) {
        let ((o0, o1, o2), rem, er) = permut_run3(self.0, self.1, self.2, input);
        match (o0, o1, o2) {
            (Some(a), Some(b), Some(c)) => Ok((rem, (a, b, c))),
            _ => Err(er),
        }
    }
}

/// The sweep state for four slots.
pub struct PermSt4<V0, V1, V2, V3> {
    pub o0: Option<V0>,
    pub o1: Option<V1>,
    pub o2: Option<V2>,
    pub o3: Option<V3>,
    pub pos: nat,
    pub er: RepFail,
}

/// How many of the four slots have matched.
pub open spec fn count4<V0, V1, V2, V3>(st: PermSt4<V0, V1, V2, V3>) -> int {
    (if st.o0 is Some {
        1int
    } else {
        0int
    }) + (if st.o1 is Some {
        1int
    } else {
        0int
    }) + (if st.o2 is Some {
        1int
    } else {
        0int
    }) + (if st.o3 is Some {
        1int
    } else {
        0int
    })
}

/// The state before the first sweep over four slots.
pub open spec fn permut_init4<V0, V1, V2, V3>(s: Seq<u8>) -> PermSt4<V0, V1, V2, V3> {
    PermSt4 {
        o0: None,
        o1: None,
        o2: None,
        o3: None,
        pos: 0,
        er: RepFail { pos: s.len(), msgs: Seq::empty(), to_str: false },
    }
}

/// One sweep over the four slots, in order.
pub open spec fn round4<'a, R0, R1, R2, R3, P0, P1, P2, P3>(
    p0: P0, p1: P1, p2: P2, p3: P3,
    s: Seq<u8>,
    st: PermSt4<R0::V, R1::V, R2::V, R3::V>,
) -> PermSt4<R0::V, R1::V, R2::V, R3::V> where
    R0: DeepView,
    R1: DeepView,
    R2: DeepView,
    R3: DeepView,
    P0: Parser<'a, R0>,
    P1: Parser<'a, R1>,
    P2: Parser<'a, R2>,
    P3: Parser<'a, R3>,
 {
    let st = if st.o0 is None {
        match p0.spec_parse(s.skip(st.pos as int)) {
            SpecResult::Found { used, val } => PermSt4 {
                o0: Some(val),
                pos: (st.pos + used) as nat,
                ..st
            },
            SpecResult::Failed { pos, msgs, to_str } => PermSt4 {
                er: RepFail { pos: (st.pos + pos) as nat, msgs, to_str },
                ..st
            },
        }
    } else {
        st
    };
    let st = if st.o1 is None {
        match p1.spec_parse(s.skip(st.pos as int)) {
            SpecResult::Found { used, val } => PermSt4 {
                o1: Some(val),
                pos: (st.pos + used) as nat,
                ..st
            },
            SpecResult::Failed { pos, msgs, to_str } => PermSt4 {
                er: RepFail { pos: (st.pos + pos) as nat, msgs, to_str },
                ..st
            },
        }
    } else {
        st
    };
    let st = if st.o2 is None {
        match p2.spec_parse(s.skip(st.pos as int)) {
            SpecResult::Found { used, val } => PermSt4 {
                o2: Some(val),
                pos: (st.pos + used) as nat,
                ..st
            },
            SpecResult::Failed { pos, msgs, to_str } => PermSt4 {
                er: RepFail { pos: (st.pos + pos) as nat, msgs, to_str },
                ..st
            },
        }
    } else {
        st
    };
    if st.o3 is None {
        match p3.spec_parse(s.skip(st.pos as int)) {
            SpecResult::Found { used, val } => PermSt4 {
                o3: Some(val),
                pos: (st.pos + used) as nat,
                ..st
            },
            SpecResult::Failed { pos, msgs, to_str } => PermSt4 {
                er: RepFail { pos: (st.pos + pos) as nat, msgs, to_str },
                ..st
            },
        }
    } else {
        st
    }
}

/// A sweep never unmatches a slot.
pub proof fn lemma_round4_monotone<'a, R0, R1, R2, R3, P0, P1, P2, P3>(
    p0: P0, p1: P1, p2: P2, p3: P3,
    s: Seq<u8>,
    st: PermSt4<R0::V, R1::V, R2::V, R3::V>,
) where
    R0: DeepView,
    R1: DeepView,
    R2: DeepView,
    R3: DeepView,
    P0: Parser<'a, R0>,
    P1: Parser<'a, R1>,
    P2: Parser<'a, R2>,
    P3: Parser<'a, R3>,

    ensures
        count4(round4(p0, p1, p2, p3, s, st)) >= count4(st),
{
}

/// Sweeps over four slots repeated to the fixpoint.
pub open spec fn permut_loop4<'a, R0, R1, R2, R3, P0, P1, P2, P3>(
    p0: P0, p1: P1, p2: P2, p3: P3,
    s: Seq<u8>,
    st: PermSt4<R0::V, R1::V, R2::V, R3::V>,
) -> PermSt4<R0::V, R1::V, R2::V, R3::V> where
    R0: DeepView,
    R1: DeepView,
    R2: DeepView,
    R3: DeepView,
    P0: Parser<'a, R0>,
    P1: Parser<'a, R1>,
    P2: Parser<'a, R2>,
    P3: Parser<'a, R3>,

    decreases 4 - count4(st),
    when count4(st) >= 0
{
    let st2 = round4(p0, p1, p2, p3, s, st);
    if count4(st2) == count4(st) {
        st2
    } else {
        permut_loop4(p0, p1, p2, p3, s, st2)
    }
}

/// The shared sweep loop for four slots.
#[verifier::rlimit(100)]
#[verifier::spinoff_prover]
fn permut_run4<'a, R0, R1, R2, R3, P0, P1, P2, P3>(p0: P0, p1: P1, p2: P2, p3: P3, input: &'a [u8]) -> (r: (
    (Option<R0>, Option<R1>, Option<R2>, Option<R3>),
    &'a [u8],
    PErr<'a>,
)) where
    R0: DeepView,
    R1: DeepView,
    R2: DeepView,
    R3: DeepView,
    P0: Parser<'a, R0>,
    P1: Parser<'a, R1>,
    P2: Parser<'a, R2>,
    P3: Parser<'a, R3>,

    requires
        p0.wf(), p1.wf(), p2.wf(), p3.wf(),
    ensures
        ({
            let fin = permut_loop4(p0, p1, p2, p3, input@, permut_init4(input@));
            &&& r.0.0.deep_view() == fin.o0
            &&& r.0.1.deep_view() == fin.o1
            &&& r.0.2.deep_view() == fin.o2
            &&& r.0.3.deep_view() == fin.o3
            &&& fin.pos <= input@.len()
            &&& r.1@ == input@.skip(fin.pos as int)
            &&& fin.er.pos <= input@.len()
            &&& r.2@.input == input@.skip(fin.er.pos as int)
            &&& r.2@.msgs == fin.er.msgs
            &&& r.2@.to_str == fin.er.to_str
        }),
{
    let mut o0: Option<R0> = None;
    let mut o1: Option<R1> = None;
    let mut o2: Option<R2> = None;
    let mut o3: Option<R3> = None;
    let mut cur: &'a [u8] = input;
    let mut er: PErr<'a> = Default::default();
    let ghost mut st = permut_init4::<R0::V, R1::V, R2::V, R3::V>(input@);
    proof {
        assert(input@.skip(0) =~= input@);
        assert(input@.skip(input@.len() as int) =~= Seq::<u8>::empty());
    }
    loop
        invariant
            p0.wf(), p1.wf(), p2.wf(), p3.wf(),
            0 <= count4(st) <= 4,
            permut_loop4(p0, p1, p2, p3, input@, st) == permut_loop4(
                p0, p1, p2, p3,
                input@,
                permut_init4(input@),
            ),
            o0.deep_view() == st.o0,
            o1.deep_view() == st.o1,
            o2.deep_view() == st.o2,
            o3.deep_view() == st.o3,
            st.pos <= input@.len(),
            cur@ == input@.skip(st.pos as int),
            st.er.pos <= input@.len(),
            er@.input == input@.skip(st.er.pos as int),
            er@.msgs == st.er.msgs,
            er@.to_str == st.er.to_str,
        decreases 4 - count4(st),
    {
        let ghost st0 = st;
        let mut progress = false;
        if o0.is_none() {
            match p0.parse(cur) {
                Ok((rem, v)) => {
                    proof {
                        if let SpecResult::Found { used, .. } = p0.spec_parse(cur@) {
                            lemma_skip_skip(input@, st.pos as int, used as int);
                            st = PermSt4 { o0: Some(v.deep_view()), pos: (st.pos + used) as nat, ..st };
                        }
                    }
                    o0 = Some(v);
                    cur = rem;
                    progress = true;
                },
                Err(e) => {
                    proof {
                        if let SpecResult::Failed { pos, msgs, to_str } = p0.spec_parse(cur@) {
                            lemma_skip_skip(input@, st.pos as int, pos as int);
                            st = PermSt4 {
                                er: RepFail { pos: (st.pos + pos) as nat, msgs, to_str },
                                ..st
                            };
                        }
                    }
                    er = e;
                },
            }
        }
        if o1.is_none() {
            match p1.parse(cur) {
                Ok((rem, v)) => {
                    proof {
                        if let SpecResult::Found { used, .. } = p1.spec_parse(cur@) {
                            lemma_skip_skip(input@, st.pos as int, used as int);
                            st = PermSt4 { o1: Some(v.deep_view()), pos: (st.pos + used) as nat, ..st };
                        }
                    }
                    o1 = Some(v);
                    cur = rem;
                    progress = true;
                },
                Err(e) => {
                    proof {
                        if let SpecResult::Failed { pos, msgs, to_str } = p1.spec_parse(cur@) {
                            lemma_skip_skip(input@, st.pos as int, pos as int);
                            st = PermSt4 {
                                er: RepFail { pos: (st.pos + pos) as nat, msgs, to_str },
                                ..st
                            };
                        }
                    }
                    er = e;
                },
            }
        }
        if o2.is_none() {
            match p2.parse(cur) {
                Ok((rem, v)) => {
                    proof {
                        if let SpecResult::Found { used, .. } = p2.spec_parse(cur@) {
                            lemma_skip_skip(input@, st.pos as int, used as int);
                            st = PermSt4 { o2: Some(v.deep_view()), pos: (st.pos + used) as nat, ..st };
                        }
                    }
                    o2 = Some(v);
                    cur = rem;
                    progress = true;
                },
                Err(e) => {
                    proof {
                        if let SpecResult::Failed { pos, msgs, to_str } = p2.spec_parse(cur@) {
                            lemma_skip_skip(input@, st.pos as int, pos as int);
                            st = PermSt4 {
                                er: RepFail { pos: (st.pos + pos) as nat, msgs, to_str },
                                ..st
                            };
                        }
                    }
                    er = e;
                },
            }
        }
        if o3.is_none() {
            match p3.parse(cur) {
                Ok((rem, v)) => {
                    proof {
                        if let SpecResult::Found { used, .. } = p3.spec_parse(cur@) {
                            lemma_skip_skip(input@, st.pos as int, used as int);
                            st = PermSt4 { o3: Some(v.deep_view()), pos: (st.pos + used) as nat, ..st };
                        }
                    }
                    o3 = Some(v);
                    cur = rem;
                    progress = true;
                },
                Err(e) => {
                    proof {
                        if let SpecResult::Failed { pos, msgs, to_str } = p3.spec_parse(cur@) {
                            lemma_skip_skip(input@, st.pos as int, pos as int);
                            st = PermSt4 {
                                er: RepFail { pos: (st.pos + pos) as nat, msgs, to_str },
                                ..st
                            };
                        }
                    }
                    er = e;
                },
            }
        }
        proof {
            assert(st == round4(p0, p1, p2, p3, input@, st0));
            lemma_round4_monotone(p0, p1, p2, p3, input@, st0);
        }
        if !progress {
            proof {
                assert(count4(st) == count4(st0));
                assert(permut_loop4(p0, p1, p2, p3, input@, st0) == st);
            }
            return ((o0, o1, o2, o3), cur, er);
        }
        proof {
            assert(count4(st) > count4(st0));
        }
    }
}

impl<'a, O0, O1, O2, O3, P0, P1, P2, P3> Permut<
    'a,
    (bool, (Option<O0>, Option<O1>, Option<O2>, Option<O3>)),
    (O0, O1, O2, O3),
> for (P0, P1, P2, P3) where
    O0: DeepView,
    O1: DeepView,
    O2: DeepView,
    O3: DeepView,
    P0: Parser<'a, O0>,
    P1: Parser<'a, O1>,
    P2: Parser<'a, O2>,
    P3: Parser<'a, O3>,
 {
    open spec fn permut_wf(&self) -> bool {
        self.0.wf() && self.1.wf() && self.2.wf() && self.3.wf()
    }

    open spec fn spec_permut_part(&self, input: Seq<u8>) -> SpecResult<
        (bool, (Option<O0::V>, Option<O1::V>, Option<O2::V>, Option<O3::V>)),
    > {
        let fin = permut_loop4(self.0, self.1, self.2, self.3, input, permut_init4(input));
        if count4(fin) == 4 {
            SpecResult::Found { used: fin.pos, val: (true, (fin.o0, fin.o1, fin.o2, fin.o3)) }
        } else if count4(fin) > 0 {
            SpecResult::Found { used: fin.pos, val: (false, (fin.o0, fin.o1, fin.o2, fin.o3)) }
        } else {
            SpecResult::Failed { pos: fin.er.pos, msgs: fin.er.msgs, to_str: fin.er.to_str }
        }
    }

    open spec fn spec_permut(&self, input: Seq<u8>) -> SpecResult<(O0::V, O1::V, O2::V, O3::V)> {
        let fin = permut_loop4(self.0, self.1, self.2, self.3, input, permut_init4(input));
        match (fin.o0, fin.o1, fin.o2, fin.o3) {
            (Some(v0), Some(v1), Some(v2), Some(v3)) => SpecResult::Found { used: fin.pos, val: (v0, v1, v2, v3) },
            _ => SpecResult::Failed { pos: fin.er.pos, msgs: fin.er.msgs, to_str: fin.er.to_str },
        }
    }

    fn permutation_part(&self, input: &'a [u8]) -> (r: ParseResult<
        'a,
        (bool, (Option<O0>, Option<O1>, Option<O2>, Option<O3>)),
    >) {
        let ((o0, o1, o2, o3), rem, er) = permut_run4(self.0, self.1, self.2, self.3, input);
        let all = o0.is_some() && o1.is_some() && o2.is_some() && o3.is_some();
        if all {
            Ok((rem, (true, (o0, o1, o2, o3))))
        } else if o0.is_some() || o1.is_some() || o2.is_some() || o3.is_some() {
            Ok((rem, (false, (o0, o1, o2, o3))))
        } else {
            Err(er)
        }
    }

    fn permutation(&self, input: &'a [u8]) -> (r: ParseResult<'a, (O0, O1, O2, O3)>) {
        let ((o0, o1, o2, o3), rem, er) = permut_run4(self.0, self.1, self.2, self.3, input);
        match (o0, o1, o2, o3) {
            (Some(v0), Some(v1), Some(v2), Some(v3)) => Ok((rem, (v0, v1, v2, v3))),
            _ => Err(er),
        }
    }
}

} // verus!
