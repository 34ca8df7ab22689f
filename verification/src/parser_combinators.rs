//! The combinator engine: the parser abstraction, the primitive matchers,
//! the composition combinators and the error model.

pub mod err;
pub mod traits;
pub mod pred;
pub mod comb;
pub mod rep;
pub mod search;
pub mod alt;
pub mod permut;
pub mod class;
pub mod props;
pub mod prim;

pub use self::err::{Msg, PErr, PErrView, ParseResult, SpecResult};
pub use self::prim::{
    any, check_starts_with_any_element, check_starts_with_any_part, contains_byte, data_end,
    fflaten, is_any, is_prefix, notp, seq_exact, seq_ext, seq_max, seq_min, seq_range,
    spec_first_prefix_len,
    split_at_revers, starts_with, starts_with_any, take, take_record, AnyOf, SeqExact, SeqExt,
    SeqMax, SeqMin, SeqRange, SeqRun, StartsWith, StartsWithAny, Take,
};
pub use self::comb::{
    and_then, between, between_opt, fmap, frmap, left, left_opt, msg_err, not, option, or,
    or_then, pair, right, right_opt, sep_pair, sep_pair_opt, strerr, FMap, FrMap, Left, LeftOpt,
    MapP, MsgErrP, NotP, OptionP, Or, Pair, Right, RightOpt, StrErrP,
};
pub use self::rep::{
    more, more_exact, more_max, more_min, more_range, More, MoreExact, MoreMax, MoreMin,
    MoreRange, RepFail, RepSpec,
};
pub use self::search::{find, find_stop, sep_list, FindP, FindStop, SepList};
pub use self::alt::{alt, Alt, AltP};
pub use self::permut::{permut, permut_part, Permut, PermutP, PermutPartP};
pub use self::class::{ClassModel, ClassOfSymbols, ClassStep, StaticClassOfSymbols};
pub use self::props::{
    lemma_more_monotonicity, lemma_msg_err_context_order, lemma_option_always_succeeds,
    lemma_permut_order_independent, lemma_run_len_max_is_min,
    lemma_seq_exact_no_false_consumption,
    lemma_seq_min_no_false_consumption,
};
pub use self::traits::Parser;

use vstd::prelude::*;

verus! {

/// Build a `sequence` parser from a predicate: the greedy run of elements
/// satisfying it, non-empty.
pub fn seq<F: Fn(&u8) -> bool + Copy>(p: F) -> (r: SeqRun<F>)
    ensures
        r.f == p,
{
    SeqRun { f: p }
}

/// Build a `map` combinator: transform the full `(remaining, value)`
/// pair of a success through a function that may itself parse and fail.
pub fn map<'a, R1, R2, P, F>(parser: P, map_fn: F) -> (r: MapP<P, F, R1>) where
    R1: DeepView,
    R2: DeepView,
    P: Parser<'a, R1>,
    F: Fn((&'a [u8], R1)) -> ParseResult<'a, R2> + Copy,

    ensures
        r.p == parser,
        r.f == map_fn,
{
    MapP { p: parser, f: map_fn, _marker: core::marker::PhantomData }
}

} // verus!
