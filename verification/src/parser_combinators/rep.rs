//! Quantified repetition.
//!
//! All variants share one core loop: repeatedly invoke the sub-parser
//! against the current remaining input, collecting successes, until it
//! fails or an upper bound is reached. The acceptance policy differs only
//! in the post-loop count check. A sub-parser success that consumes
//! nothing would loop forever in an unbounded repetition; the loop stops
//! there instead, reporting a bare failure at the stalled position.

use vstd::prelude::*;

use crate::parser_combinators::err::{lemma_skip_skip, PErr, ParseResult, SpecResult};
use crate::parser_combinators::traits::Parser;

verus! {

/// The failure data of a repetition's last, failed attempt: the failure
/// position (absolute within the repetition's input) and its context.
pub struct RepFail {
    pub pos: nat,
    pub msgs: Seq<Seq<char>>,
    pub to_str: bool,
}

/// The outcome of the shared repetition loop: the collected values, the
/// total consumed length, and how it stopped (`None`: the collection
/// bound was reached).
pub struct RepSpec<V> {
    pub vals: Seq<V>,
    pub used: nat,
    pub fail: Option<RepFail>,
}

/// One less remaining capacity.
pub open spec fn dec_bound(b: Option<nat>) -> Option<nat> {
    match b {
        Some(n) => Some((n - 1) as nat),
        None => None,
    }
}

/// The outcome of repeatedly applying `p` at the head of `s`, collecting
/// at most `bound` values (`None`: no bound). A success consuming nothing
/// stops an unbounded repetition with a bare failure at that position; a
/// bounded repetition keeps collecting that same value up to its bound,
/// as the executable loop does.
pub open spec fn spec_rep<'a, R: DeepView, P: Parser<'a, R>>(
    p: P,
    s: Seq<u8>,
    bound: Option<nat>,
) -> RepSpec<R::V>
    decreases s.len(),
{
    match p.spec_parse(s) {
        SpecResult::Failed { pos, msgs, to_str } => RepSpec {
            vals: Seq::empty(),
            used: 0,
            fail: Some(RepFail { pos, msgs, to_str }),
        },
        SpecResult::Found { used: u, val: v } => {
            if u == 0 || u > s.len() {
                match bound {
                    Some(b) => RepSpec { vals: Seq::new(b, |i| v), used: 0, fail: None },
                    None => RepSpec {
                        vals: Seq::empty(),
                        used: 0,
                        fail: Some(RepFail { pos: 0, msgs: Seq::empty(), to_str: false }),
                    },
                }
            } else if bound == Some(1nat) {
                RepSpec { vals: seq![v], used: u, fail: None }
            } else {
                let rest = spec_rep(p, s.skip(u as int), dec_bound(bound));
                RepSpec {
                    vals: seq![v] + rest.vals,
                    used: (u + rest.used) as nat,
                    fail: match rest.fail {
                        Some(ff) => Some(
                            RepFail { pos: (u + ff.pos) as nat, msgs: ff.msgs, to_str: ff.to_str },
                        ),
                        None => None,
                    },
                }
            }
        },
    }
}

/// A repetition outcome seen from an outer input: `vals0` values and
/// `off` elements were already taken before it started.
pub open spec fn rep_extend<V>(vals0: Seq<V>, off: nat, rest: RepSpec<V>) -> RepSpec<V> {
    RepSpec {
        vals: vals0 + rest.vals,
        used: (off + rest.used) as nat,
        fail: match rest.fail {
            Some(ff) => Some(
                RepFail { pos: (off + ff.pos) as nat, msgs: ff.msgs, to_str: ff.to_str },
            ),
            None => None,
        },
    }
}

/// The shared repetition loop, unbounded: runs until the sub-parser
/// fails (or stalls), and hands back the collected values, the remaining
/// input and the stopping failure.
pub(crate) fn rep_run_unbounded<'a, R: DeepView, P: Parser<'a, R>>(p: P, input: &'a [u8]) -> (r: (
    Vec<R>,
    &'a [u8],
    PErr<'a>,
))
    requires
        p.wf(),
    ensures
        ({
            let m = spec_rep(p, input@, None);
            &&& r.0.deep_view() == m.vals
            &&& m.used <= input@.len()
            &&& r.1@ == input@.skip(m.used as int)
            &&& m.fail matches Some(ff) && ff.pos <= input@.len() && r.2@.input == input@.skip(
                ff.pos as int,
            ) && r.2@.msgs == ff.msgs && r.2@.to_str == ff.to_str
        }),
{
    let ghost m = spec_rep(p, input@, None);
    let mut result: Vec<R> = Vec::new();
    let mut cur: &'a [u8] = input;
    proof {
        assert(input@.skip(0) =~= input@);
        assert(result.deep_view() =~= Seq::<R::V>::empty());
        assert(Seq::<R::V>::empty() + spec_rep(p, cur@, None).vals =~= spec_rep(
            p,
            cur@,
            None,
        ).vals);
    }
    loop
        invariant
            p.wf(),
            m == spec_rep(p, input@, None),
            cur@.len() <= input@.len(),
            cur@ == input@.skip(input@.len() - cur@.len()),
            m == rep_extend(
                result.deep_view(),
                (input@.len() - cur@.len()) as nat,
                spec_rep(p, cur@, None),
            ),
        decreases cur@.len(),
    {
        let ghost done = (input@.len() - cur@.len()) as nat;
        let ghost rest = spec_rep(p, cur@, None);
        match p.parse(cur) {
            Err(e) => {
                proof {
                    if let SpecResult::Failed { pos, .. } = p.spec_parse(cur@) {
                        lemma_skip_skip(input@, done as int, pos as int);
                    }
                }
                return (result, cur, e);
            },
            Ok((rem, v)) => {
                if rem.len() == cur.len() {
                    // the sub-parser consumed nothing: stop, reporting a
                    // bare failure at the stalled position
                    let e = PErr::new(cur);
                    return (result, cur, e);
                }
                let ghost u = (cur@.len() - rem@.len()) as nat;
                let ghost vv = v.deep_view();
                let ghost rest2 = spec_rep(p, rem@, None);
                let ghost dv0 = result.deep_view();
                result.push(v);
                proof {
                    assert(result.deep_view() =~= dv0.push(vv));
                    lemma_skip_skip(input@, done as int, u as int);
                    assert(rest.vals == seq![vv] + rest2.vals);
                    assert(dv0.push(vv) + rest2.vals =~= dv0 + (seq![vv] + rest2.vals));
                }
                cur = rem;
            },
        }
    }
}

/// The shared repetition loop, bounded: runs until the sub-parser fails
/// or `bound` values were collected (`None` failure then).
pub(crate) fn rep_run_bounded<'a, R: DeepView, P: Parser<'a, R>>(p: P, input: &'a [u8], bound: usize) -> (r: (
    Vec<R>,
    &'a [u8],
    Option<PErr<'a>>,
))
    requires
        p.wf(),
        bound >= 1,
    ensures
        ({
            let m = spec_rep(p, input@, Some(bound as nat));
            &&& r.0.deep_view() == m.vals
            &&& m.used <= input@.len()
            &&& r.1@ == input@.skip(m.used as int)
            &&& match (r.2, m.fail) {
                (Some(e), Some(ff)) => ff.pos <= input@.len() && e@.input == input@.skip(
                    ff.pos as int,
                ) && e@.msgs == ff.msgs && e@.to_str == ff.to_str,
                (None, None) => true,
                _ => false,
            }
        }),
{
    let ghost m = spec_rep(p, input@, Some(bound as nat));
    let mut result: Vec<R> = Vec::new();
    let mut cur: &'a [u8] = input;
    proof {
        assert(input@.skip(0) =~= input@);
        assert(result.deep_view() =~= Seq::<R::V>::empty());
        assert(Seq::<R::V>::empty() + spec_rep(p, cur@, Some(bound as nat)).vals =~= spec_rep(
            p,
            cur@,
            Some(bound as nat),
        ).vals);
    }
    loop
        invariant
            p.wf(),
            bound >= 1,
            result.len() < bound,
            m == spec_rep(p, input@, Some(bound as nat)),
            cur@.len() <= input@.len(),
            cur@ == input@.skip(input@.len() - cur@.len()),
            m == rep_extend(
                result.deep_view(),
                (input@.len() - cur@.len()) as nat,
                spec_rep(p, cur@, Some((bound - result.len()) as nat)),
            ),
        decreases bound - result.len(),
    {
        let ghost done = (input@.len() - cur@.len()) as nat;
        let ghost brem = (bound - result.len()) as nat;
        let ghost rest = spec_rep(p, cur@, Some(brem));
        match p.parse(cur) {
            Err(e) => {
                proof {
                    if let SpecResult::Failed { pos, .. } = p.spec_parse(cur@) {
                        lemma_skip_skip(input@, done as int, pos as int);
                    }
                }
                return (result, cur, Some(e));
            },
            Ok((rem, v)) => {
                let ghost u = (cur@.len() - rem@.len()) as nat;
                let ghost vv = v.deep_view();
                let ghost dv0 = result.deep_view();
                result.push(v);
                proof {
                    assert(result.deep_view() =~= dv0.push(vv));
                }
                if result.len() == bound {
                    proof {
                        lemma_skip_skip(input@, done as int, u as int);
                        if u == 0 {
                            assert(rest.vals =~= seq![vv]);
                            assert(rem@ == cur@);
                        }
                        assert(dv0.push(vv) =~= dv0 + seq![vv]);
                    }
                    return (result, rem, None);
                }
                if rem.len() == cur.len() {
                    // the sub-parser consumed nothing: keep collecting
                    // the same value until the bound is reached
                    proof {
                        assert(cur@.skip(0) =~= cur@);
                        assert(rem@ == cur@);
                        let rest2 = spec_rep(p, rem@, Some((brem - 1) as nat));
                        assert(rest.vals =~= Seq::new(brem, |i: int| vv));
                        assert(rest2.vals =~= Seq::new((brem - 1) as nat, |i: int| vv));
                        assert(dv0.push(vv) + rest2.vals =~= dv0 + rest.vals);
                    }
                    cur = rem;
                } else {
                    proof {
                        let rest2 = spec_rep(p, rem@, Some((brem - 1) as nat));
                        lemma_skip_skip(input@, done as int, u as int);
                        assert(rest.vals == seq![vv] + rest2.vals);
                        assert(dv0.push(vv) + rest2.vals =~= dv0 + (seq![vv] + rest2.vals));
                    }
                    cur = rem;
                }
            },
        }
    }
}

/// Combinator `more`: one or more repetitions; fails with the stopping
/// failure when the sub-parser cannot match even once.
#[derive(Clone, Copy)]
pub struct More<P> {
    pub p: P,
}

impl<'a, R: DeepView, P: Parser<'a, R>> Parser<'a, Vec<R>> for More<P> {
    open spec fn wf(&self) -> bool {
        self.p.wf()
    }

    open spec fn spec_parse(&self, input: Seq<u8>) -> SpecResult<Seq<R::V>> {
        let m = spec_rep(self.p, input, None);
        match m.fail {
            Some(ff) => if m.vals.len() >= 1 {
                SpecResult::Found { used: m.used, val: m.vals }
            } else {
                SpecResult::Failed { pos: ff.pos, msgs: ff.msgs, to_str: ff.to_str }
            },
            None => SpecResult::Found { used: m.used, val: m.vals },
        }
    }

    fn parse(&self, input: &'a [u8]) -> (r: ParseResult<'a, Vec<R>>) {
        let (vals, rem, e) = rep_run_unbounded(self.p, input);
        if vals.len() >= 1 {
            Ok((rem, vals))
        } else {
            Err(e)
        }
    }
}

/// Build a `more` combinator.
pub fn more<'a, R: DeepView, P: Parser<'a, R>>(p: P) -> (r: More<P>)
    ensures
        r.p == p,
{
    More { p }
}

/// Combinator `more minimum`: zero or more repetitions, accepted iff at
/// least `count_min` matched; fails with the stopping failure otherwise.
#[derive(Clone, Copy)]
pub struct MoreMin<P> {
    pub p: P,
    pub count_min: usize,
}

impl<'a, R: DeepView, P: Parser<'a, R>> Parser<'a, Vec<R>> for MoreMin<P> {
    open spec fn wf(&self) -> bool {
        self.p.wf()
    }

    open spec fn spec_parse(&self, input: Seq<u8>) -> SpecResult<Seq<R::V>> {
        let m = spec_rep(self.p, input, None);
        match m.fail {
            Some(ff) => if m.vals.len() >= self.count_min {
                SpecResult::Found { used: m.used, val: m.vals }
            } else {
                SpecResult::Failed { pos: ff.pos, msgs: ff.msgs, to_str: ff.to_str }
            },
            None => SpecResult::Found { used: m.used, val: m.vals },
        }
    }

    fn parse(&self, input: &'a [u8]) -> (r: ParseResult<'a, Vec<R>>) {
        let (vals, rem, e) = rep_run_unbounded(self.p, input);
        if vals.len() >= self.count_min {
            Ok((rem, vals))
        } else {
            Err(e)
        }
    }
}

/// Build a `more minimum` combinator.
pub fn more_min<'a, R: DeepView, P: Parser<'a, R>>(p: P, count_min: usize) -> (r: MoreMin<P>)
    ensures
        r.p == p,
        r.count_min == count_min,
{
    MoreMin { p, count_min }
}

/// Combinator `more maximum`: one or more repetitions, stopping once
/// `count_max` matched (0: no bound).
#[derive(Clone, Copy)]
pub struct MoreMax<P> {
    pub p: P,
    pub count_max: usize,
}

impl<'a, R: DeepView, P: Parser<'a, R>> Parser<'a, Vec<R>> for MoreMax<P> {
    open spec fn wf(&self) -> bool {
        self.p.wf()
    }

    open spec fn spec_parse(&self, input: Seq<u8>) -> SpecResult<Seq<R::V>> {
        let m = spec_rep(
            self.p,
            input,
            if self.count_max == 0 {
                None
            } else {
                Some(self.count_max as nat)
            },
        );
        match m.fail {
            Some(ff) => if m.vals.len() >= 1 {
                SpecResult::Found { used: m.used, val: m.vals }
            } else {
                SpecResult::Failed { pos: ff.pos, msgs: ff.msgs, to_str: ff.to_str }
            },
            None => SpecResult::Found { used: m.used, val: m.vals },
        }
    }

    fn parse(&self, input: &'a [u8]) -> (r: ParseResult<'a, Vec<R>>) {
        if self.count_max == 0 {
            let (vals, rem, e) = rep_run_unbounded(self.p, input);
            if vals.len() >= 1 {
                Ok((rem, vals))
            } else {
                Err(e)
            }
        } else {
            let (vals, rem, e) = rep_run_bounded(self.p, input, self.count_max);
            match e {
                None => Ok((rem, vals)),
                Some(e) => if vals.len() >= 1 {
                    Ok((rem, vals))
                } else {
                    Err(e)
                },
            }
        }
    }
}

/// Build a `more maximum` combinator.
pub fn more_max<'a, R: DeepView, P: Parser<'a, R>>(p: P, count_max: usize) -> (r: MoreMax<P>)
    ensures
        r.p == p,
        r.count_max == count_max,
{
    MoreMax { p, count_max }
}

/// Combinator `more exact`: exactly `count_exact` repetitions; any
/// earlier failure of the sub-parser is propagated (0: never satisfied
/// before the sub-parser fails, so that failure is propagated).
#[derive(Clone, Copy)]
pub struct MoreExact<P> {
    pub p: P,
    pub count_exact: usize,
}

impl<'a, R: DeepView, P: Parser<'a, R>> Parser<'a, Vec<R>> for MoreExact<P> {
    open spec fn wf(&self) -> bool {
        self.p.wf()
    }

    open spec fn spec_parse(&self, input: Seq<u8>) -> SpecResult<Seq<R::V>> {
        let m = spec_rep(
            self.p,
            input,
            if self.count_exact == 0 {
                None
            } else {
                Some(self.count_exact as nat)
            },
        );
        match m.fail {
            Some(ff) => SpecResult::Failed { pos: ff.pos, msgs: ff.msgs, to_str: ff.to_str },
            None => SpecResult::Found { used: m.used, val: m.vals },
        }
    }

    fn parse(&self, input: &'a [u8]) -> (r: ParseResult<'a, Vec<R>>) {
        if self.count_exact == 0 {
            let (_vals, _rem, e) = rep_run_unbounded(self.p, input);
            Err(e)
        } else {
            let (vals, rem, e) = rep_run_bounded(self.p, input, self.count_exact);
            match e {
                None => Ok((rem, vals)),
                Some(e) => Err(e),
            }
        }
    }
}

/// Build a `more exact` combinator.
pub fn more_exact<'a, R: DeepView, P: Parser<'a, R>>(p: P, count_exact: usize) -> (r: MoreExact<P>)
    ensures
        r.p == p,
        r.count_exact == count_exact,
{
    MoreExact { p, count_exact }
}

/// Combinator `more range`: repetitions stopping at `hi` matched (0: no
/// bound); accepted iff the bound was reached or at least `lo` matched.
#[derive(Clone, Copy)]
pub struct MoreRange<P> {
    pub p: P,
    pub lo: usize,
    pub hi: usize,
}

impl<'a, R: DeepView, P: Parser<'a, R>> Parser<'a, Vec<R>> for MoreRange<P> {
    open spec fn wf(&self) -> bool {
        self.p.wf()
    }

    open spec fn spec_parse(&self, input: Seq<u8>) -> SpecResult<Seq<R::V>> {
        let m = spec_rep(
            self.p,
            input,
            if self.hi == 0 {
                None
            } else {
                Some(self.hi as nat)
            },
        );
        match m.fail {
            Some(ff) => if m.vals.len() >= self.lo {
                SpecResult::Found { used: m.used, val: m.vals }
            } else {
                SpecResult::Failed { pos: ff.pos, msgs: ff.msgs, to_str: ff.to_str }
            },
            None => SpecResult::Found { used: m.used, val: m.vals },
        }
    }

    fn parse(&self, input: &'a [u8]) -> (r: ParseResult<'a, Vec<R>>) {
        if self.hi == 0 {
            let (vals, rem, e) = rep_run_unbounded(self.p, input);
            if vals.len() >= self.lo {
                Ok((rem, vals))
            } else {
                Err(e)
            }
        } else {
            let (vals, rem, e) = rep_run_bounded(self.p, input, self.hi);
            match e {
                None => Ok((rem, vals)),
                Some(e) => if vals.len() >= self.lo {
                    Ok((rem, vals))
                } else {
                    Err(e)
                },
            }
        }
    }
}

/// Build a `more range` combinator.
pub fn more_range<'a, R: DeepView, P: Parser<'a, R>>(p: P, range: (usize, usize)) -> (r: MoreRange<
    P,
>)
    ensures
        r.p == p,
        r.lo == range.0,
        r.hi == range.1,
{
    MoreRange { p, lo: range.0, hi: range.1 }
}

} // verus!
