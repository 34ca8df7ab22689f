//! Byte-oriented readers with a plain error type: like the readers in
//! `u8`, but a failure hands back the untouched input slice itself
//! instead of a structured error value. None of these functions panics.

use vstd::prelude::*;
use vstd::slice::slice_index_get;

use crate::parser_combinators::alt::{alt, AltP};
use crate::parser_combinators::comb::{between_opt, left, right_opt, Left, LeftOpt, RightOpt};
use crate::parser_combinators::prim::split_at_revers;
use crate::parser_combinators::search::{sep_list, SepList};
use crate::parser_combinators::traits::Parser;
use crate::u8::{be_value, DataEndP, SpaceRun};

verus! {

/// Read a one-byte big-endian length; fail when the input is empty.
pub fn take_len_be_u8<'a>(b: &'a [u8]) -> (r: Result<(&'a [u8], usize), &'a [u8]>)
    ensures
        b@.len() >= 1 ==> (r matches Ok((rem, l)) && rem@ == b@.skip(1) && l == b@[0]),
        b@.len() < 1 ==> (r matches Err(e) && e@ == b@),
{
    if b.is_empty() {
        return Err(b);
    }
    let l = *slice_index_get(b, 0);
    let (rem, _first) = split_at_revers(b, 1);
    Ok((rem, l as usize))
}

/// Read a two-byte big-endian length; fail when fewer bytes remain.
pub fn take_len_be_u16<'a>(b: &'a [u8]) -> (r: Result<(&'a [u8], usize), &'a [u8]>)
    ensures
        b@.len() >= 2 ==> (r matches Ok((rem, l)) && rem@ == b@.skip(2) && l == be_value(
            b@.take(2),
        ) as usize),
        b@.len() < 2 ==> (r matches Err(e) && e@ == b@),
{
    match crate::u8::take_len_be_u16(b) {
        Ok(t) => Ok(t),
        Err(_) => Err(b),
    }
}

/// Read a three-byte big-endian length; fail when fewer bytes remain.
pub fn take_len_be_u24<'a>(b: &'a [u8]) -> (r: Result<(&'a [u8], usize), &'a [u8]>)
    ensures
        b@.len() >= 3 ==> (r matches Ok((rem, l)) && rem@ == b@.skip(3) && l == be_value(
            b@.take(3),
        ) as usize),
        b@.len() < 3 ==> (r matches Err(e) && e@ == b@),
{
    match crate::u8::take_len_be_u24(b) {
        Ok(t) => Ok(t),
        Err(_) => Err(b),
    }
}

/// Read a four-byte big-endian length; fail when fewer bytes remain.
pub fn take_len_be_u32<'a>(b: &'a [u8]) -> (r: Result<(&'a [u8], usize), &'a [u8]>)
    ensures
        b@.len() >= 4 ==> (r matches Ok((rem, l)) && rem@ == b@.skip(4) && l == be_value(
            b@.take(4),
        ) as usize),
        b@.len() < 4 ==> (r matches Err(e) && e@ == b@),
{
    match crate::u8::take_len_be_u32(b) {
        Ok(t) => Ok(t),
        Err(_) => Err(b),
    }
}

/// Read a six-byte big-endian length; fail when fewer bytes remain.
pub fn take_len_be_u48<'a>(b: &'a [u8]) -> (r: Result<(&'a [u8], usize), &'a [u8]>)
    ensures
        b@.len() >= 6 ==> (r matches Ok((rem, l)) && rem@ == b@.skip(6) && l == be_value(
            b@.take(6),
        ) as usize),
        b@.len() < 6 ==> (r matches Err(e) && e@ == b@),
{
    match crate::u8::take_len_be_u48(b) {
        Ok(t) => Ok(t),
        Err(_) => Err(b),
    }
}

/// Read an eight-byte big-endian length; fail when fewer bytes remain.
pub fn take_len_be_u64<'a>(b: &'a [u8]) -> (r: Result<(&'a [u8], usize), &'a [u8]>)
    ensures
        b@.len() >= 8 ==> (r matches Ok((rem, l)) && rem@ == b@.skip(8) && l == be_value(
            b@.take(8),
        ) as usize),
        b@.len() < 8 ==> (r matches Err(e) && e@ == b@),
{
    match crate::u8::take_len_be_u64(b) {
        Ok(t) => Ok(t),
        Err(_) => Err(b),
    }
}

/// Read a record of exactly `l` bytes, or fail with the whole input.
pub fn take_record<'a>(b: &'a [u8], l: usize) -> (r: Result<(&'a [u8], &'a [u8]), &'a [u8]>)
    ensures
        l <= b@.len() ==> (r matches Ok((rem, rec)) && rem@ == b@.skip(l as int) && rec@
            == b@.take(l as int)),
        l > b@.len() ==> (r matches Err(e) && e@ == b@),
{
    if b.len() < l {
        return Err(b);
    }
    Ok(split_at_revers(b, l))
}

/// Read a record prefixed by its one-byte length. The input must hold at
/// least two bytes and then the whole record.
pub fn take_record_be_u8<'a>(b: &'a [u8]) -> (r: Result<(&'a [u8], &'a [u8]), &'a [u8]>)
    ensures
        ({
            let l = b@[0] as int;
            &&& (b@.len() >= 2 && b@.len() - 1 >= l) ==> (r matches Ok((rem, rec)) && rem@
                == b@.skip(1).skip(l) && rec@ == b@.skip(1).take(l))
            &&& !(b@.len() >= 2 && b@.len() - 1 >= l) ==> (r matches Err(e) && e@ == b@)
        }),
{
    match crate::u8::take_record_be_u8(b) {
        Ok(t) => Ok(t),
        Err(_) => Err(b),
    }
}

/// Read a record prefixed by its two-byte big-endian length.
pub fn take_record_be_u16<'a>(b: &'a [u8]) -> (r: Result<(&'a [u8], &'a [u8]), &'a [u8]>)
    ensures
        ({
            let l = be_value(b@.take(2)) as usize;
            &&& b@.len() < 2 ==> (r matches Err(e) && e@ == b@)
            &&& (b@.len() >= 2 && b@.len() - 2 < l) ==> (r matches Err(e) && e@ == b@.skip(2))
            &&& (b@.len() >= 2 && b@.len() - 2 >= l) ==> (r matches Ok((rem, rec)) && rem@
                == b@.skip(2).skip(l as int) && rec@ == b@.skip(2).take(l as int))
        }),
{
    match take_len_be_u16(b) {
        Err(e) => Err(e),
        Ok((new_b, l)) => take_record(new_b, l),
    }
}

/// Read a record prefixed by its three-byte big-endian length.
pub fn take_record_be_u24<'a>(b: &'a [u8]) -> (r: Result<(&'a [u8], &'a [u8]), &'a [u8]>)
    ensures
        ({
            let l = be_value(b@.take(3)) as usize;
            &&& b@.len() < 3 ==> (r matches Err(e) && e@ == b@)
            &&& (b@.len() >= 3 && b@.len() - 3 < l) ==> (r matches Err(e) && e@ == b@.skip(3))
            &&& (b@.len() >= 3 && b@.len() - 3 >= l) ==> (r matches Ok((rem, rec)) && rem@
                == b@.skip(3).skip(l as int) && rec@ == b@.skip(3).take(l as int))
        }),
{
    match take_len_be_u24(b) {
        Err(e) => Err(e),
        Ok((new_b, l)) => take_record(new_b, l),
    }
}

/// Read a record prefixed by its four-byte big-endian length.
pub fn take_record_be_u32<'a>(b: &'a [u8]) -> (r: Result<(&'a [u8], &'a [u8]), &'a [u8]>)
    ensures
        ({
            let l = be_value(b@.take(4)) as usize;
            &&& b@.len() < 4 ==> (r matches Err(e) && e@ == b@)
            &&& (b@.len() >= 4 && b@.len() - 4 < l) ==> (r matches Err(e) && e@ == b@.skip(4))
            &&& (b@.len() >= 4 && b@.len() - 4 >= l) ==> (r matches Ok((rem, rec)) && rem@
                == b@.skip(4).skip(l as int) && rec@ == b@.skip(4).take(l as int))
        }),
{
    match take_len_be_u32(b) {
        Err(e) => Err(e),
        Ok((new_b, l)) => take_record(new_b, l),
    }
}

/// Read a record prefixed by its six-byte big-endian length.
pub fn take_record_be_u48<'a>(b: &'a [u8]) -> (r: Result<(&'a [u8], &'a [u8]), &'a [u8]>)
    ensures
        ({
            let l = be_value(b@.take(6)) as usize;
            &&& b@.len() < 6 ==> (r matches Err(e) && e@ == b@)
            &&& (b@.len() >= 6 && b@.len() - 6 < l) ==> (r matches Err(e) && e@ == b@.skip(6))
            &&& (b@.len() >= 6 && b@.len() - 6 >= l) ==> (r matches Ok((rem, rec)) && rem@
                == b@.skip(6).skip(l as int) && rec@ == b@.skip(6).take(l as int))
        }),
{
    match take_len_be_u48(b) {
        Err(e) => Err(e),
        Ok((new_b, l)) => take_record(new_b, l),
    }
}

/// Read a record prefixed by its eight-byte big-endian length.
pub fn take_record_be_u64<'a>(b: &'a [u8]) -> (r: Result<(&'a [u8], &'a [u8]), &'a [u8]>)
    ensures
        ({
            let l = be_value(b@.take(8)) as usize;
            &&& b@.len() < 8 ==> (r matches Err(e) && e@ == b@)
            &&& (b@.len() >= 8 && b@.len() - 8 < l) ==> (r matches Err(e) && e@ == b@.skip(8))
            &&& (b@.len() >= 8 && b@.len() - 8 >= l) ==> (r matches Ok((rem, rec)) && rem@
                == b@.skip(8).skip(l as int) && rec@ == b@.skip(8).take(l as int))
        }),
{
    match take_len_be_u64(b) {
        Err(e) => Err(e),
        Ok((new_b, l)) => take_record(new_b, l),
    }
}

/// The most common shape of a separated list over bytes: elements and
/// separators may be surrounded by space, and the final element is
/// accepted when followed by space or the end of the data.
pub fn sep_list_common<'a, Re, Rs, Pe, Ps>(elem: Pe, sep: Ps) -> (r: SepList<
    LeftOpt<RightOpt<SpaceRun, Pe, &'a [u8]>, SpaceRun, &'a [u8]>,
    Ps,
    Left<RightOpt<SpaceRun, Pe, &'a [u8]>, AltP<(SpaceRun, DataEndP)>, &'a [u8]>,
    Rs,
>) where Re: DeepView, Rs: DeepView, Pe: Parser<'a, Re>, Ps: Parser<'a, Rs>
    ensures
        r.elem.p1.p2 == elem,
        r.sep == sep,
        r.last_elem.p1.p2 == elem,
{
    let space = SpaceRun;
    sep_list(
        between_opt(space, elem, space),
        sep,
        left(right_opt(space, elem), alt((space, DataEndP))),
    )
}

} // verus!
