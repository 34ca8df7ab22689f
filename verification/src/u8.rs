//! Byte-oriented helpers: ASCII classification predicates, fixed-width
//! big-endian length and record readers, and the common separated-list
//! shape over byte input. None of these functions panics.

use vstd::prelude::*;
use vstd::slice::slice_index_get;

use crate::parser_combinators::err::{fail_at, found, PErr, ParseResult, SpecResult};
use crate::parser_combinators::pred::{lemma_run_len_is, spec_run_len};
use crate::parser_combinators::prim::{data_end, split_at_revers};
use crate::parser_combinators::comb::{between_opt, left, right_opt, Left, LeftOpt, RightOpt};
use crate::parser_combinators::alt::{alt, AltP};
use crate::parser_combinators::search::{sep_list, SepList};
use crate::parser_combinators::traits::Parser;

verus! {

broadcast use crate::parser_combinators::err::bytes_deep_view;

pub const SPACE: (u8, u8) = (0, 32);

pub const NO_SPACE: (u8, u8) = (33, 255);

pub const ALPHA_UPPER: (u8, u8) = (65, 90);

pub const ALPHA_LOWER: (u8, u8) = (97, 122);

pub const DEC_DIGIT: (u8, u8) = (48, 57);

pub const OCT_DIGIT: (u8, u8) = (48, 55);

pub const HEX_DIGIT: [(u8, u8); 3] = [DEC_DIGIT, (65, 70), (97, 102)];

pub const ALPHA_NUM: [(u8, u8); 3] = [DEC_DIGIT, ALPHA_UPPER, ALPHA_LOWER];

pub const EOL: u8 = 10;

pub const EOL2: [u8; 2] = [13, 10];

/// An end-of-line byte: carriage return or line feed.
pub fn is_eol(i: &u8) -> (b: bool)
    ensures
        b == (*i == 13 || *i == 10),
{
    *i == 13 || *i == 10
}

/// Not an end-of-line byte.
pub fn is_no_eol(i: &u8) -> (b: bool)
    ensures
        b == !(*i == 13 || *i == 10),
{
    !(*i == 13 || *i == 10)
}

/// A space byte: any control byte or the blank itself.
pub fn is_space(i: &u8) -> (b: bool)
    ensures
        b == (*i < 33),
{
    *i < 33
}

/// The horizontal tab byte.
pub fn is_tab(i: &u8) -> (b: bool)
    ensures
        b == (*i == 9),
{
    *i == 9
}

/// A space byte that is not an end of line.
pub fn is_space_noeol(i: &u8) -> (b: bool)
    ensures
        b == (!(*i == 13 || *i == 10) && *i < 33),
{
    !(*i == 13 || *i == 10) && *i < 33
}

/// An ASCII letter.
pub fn is_alpha(i: &u8) -> (b: bool)
    ensures
        b == ((*i >= 0x41 && *i <= 0x5A) || (*i >= 0x61 && *i <= 0x7A)),
{
    (*i >= 0x41 && *i <= 0x5A) || (*i >= 0x61 && *i <= 0x7A)
}

/// An ASCII upper-case letter.
pub fn is_alpha_upper(i: &u8) -> (b: bool)
    ensures
        b == (*i >= 65 && *i <= 90),
{
    *i >= 65 && *i <= 90
}

/// An ASCII lower-case letter.
pub fn is_alpha_lower(i: &u8) -> (b: bool)
    ensures
        b == (*i >= 97 && *i <= 122),
{
    *i >= 97 && *i <= 122
}

/// An ASCII letter or decimal digit.
pub fn is_alphanum(i: &u8) -> (b: bool)
    ensures
        b == ((*i >= 0x41 && *i <= 0x5A) || (*i >= 0x61 && *i <= 0x7A) || (*i >= 48 && *i <= 57)),
{
    is_alpha(i) || is_dec_digit(i)
}

/// A decimal digit.
pub fn is_dec_digit(i: &u8) -> (b: bool)
    ensures
        b == (*i >= 48 && *i <= 57),
{
    *i >= 48 && *i <= 57
}

/// A hexadecimal digit.
pub fn is_hex_digit(i: &u8) -> (b: bool)
    ensures
        b == ((*i >= 0x30 && *i <= 0x39) || (*i >= 0x41 && *i <= 0x46) || (*i >= 0x61 && *i
            <= 0x66)),
{
    (*i >= 0x30 && *i <= 0x39) || (*i >= 0x41 && *i <= 0x46) || (*i >= 0x61 && *i <= 0x66)
}

/// An octal digit.
pub fn is_oct_digit(i: &u8) -> (b: bool)
    ensures
        b == (*i >= 0x30 && *i <= 0x37),
{
    *i >= 0x30 && *i <= 0x37
}

/// Turn an upper-case ASCII letter into lower case; leave everything
/// else unchanged.
pub fn to_lowercase(a: u8) -> (r: u8)
    ensures
        r == if 65 <= a <= 90 {
            (a + 32) as u8
        } else {
            a
        },
{
    if a >= 65 && a <= 90 {
        proof {
            assert(65 <= a <= 90 ==> (a | 0b010_0000) == a + 32) by (bit_vector);
        }
        a | 0b010_0000
    } else {
        a
    }
}

/// Turn a lower-case ASCII letter into upper case; leave everything
/// else unchanged.
pub fn to_upperrcase(a: u8) -> (r: u8)
    ensures
        r == if 97 <= a <= 122 {
            (a - 32) as u8
        } else {
            a
        },
{
    if a >= 97 && a <= 122 {
        a - 32
    } else {
        a
    }
}

/// The big-endian value of a byte string.
pub open spec fn be_value(s: Seq<u8>) -> nat
    decreases s.len(),
{
    if s.len() == 0 {
        0
    } else {
        (be_value(s.drop_last()) * 256 + s.last()) as nat
    }
}

/// Powers of 256.
pub open spec fn pow256(n: nat) -> nat
    decreases n,
{
    if n == 0 {
        1
    } else {
        256 * pow256((n - 1) as nat)
    }
}

/// A big-endian value fits below the power of 256 of its width.
proof fn lemma_be_value_bound(s: Seq<u8>)
    ensures
        be_value(s) < pow256(s.len()),
    decreases s.len(),
{
    if s.len() > 0 {
        lemma_be_value_bound(s.drop_last());
    }
}

/// Powers of 256 grow with the exponent.
proof fn lemma_pow256_le(a: nat, b: nat)
    requires
        a <= b,
    ensures
        pow256(a) <= pow256(b),
    decreases b,
{
    if a < b {
        lemma_pow256_le(a, (b - 1) as nat);
        assert(pow256(b) == 256 * pow256((b - 1) as nat));
    }
}

/// Read the first `n` bytes of `b` as a big-endian integer.
fn read_be(b: &[u8], n: usize) -> (l: usize)
    requires
        n <= 8,
        n <= b@.len(),
    ensures
        l == be_value(b@.take(n as int)) as usize,
{
    let mut acc: u64 = 0;
    let mut i: usize = 0;
    proof {
        assert(b@.take(0) =~= Seq::<u8>::empty());
        assert(pow256(0) == 1);
        assert(pow256(1) == 256);
        assert(pow256(2) == 0x1_0000);
        assert(pow256(3) == 0x100_0000);
        assert(pow256(4) == 0x1_0000_0000);
        assert(pow256(5) == 0x100_0000_0000);
        assert(pow256(6) == 0x1_0000_0000_0000);
        assert(pow256(7) == 0x100_0000_0000_0000);
        assert(pow256(8) == 0x1_0000_0000_0000_0000);
    }
    while i < n
        invariant
            i <= n,
            n <= 8,
            n <= b@.len(),
            acc == be_value(b@.take(i as int)),
            pow256(8) == 0x1_0000_0000_0000_0000,
            acc < pow256(i as nat),
        decreases n - i,
    {
        proof {
            lemma_be_value_bound(b@.take(i as int));
            lemma_pow256_le((i + 1) as nat, 8);
            assert(pow256((i + 1) as nat) == 256 * pow256(i as nat));
            assert(b@.take(i + 1).drop_last() =~= b@.take(i as int));
            assert(b@.take(i + 1).last() == b@[i as int]);
        }
        let x = *slice_index_get(b, i);
        acc = acc * 256 + (x as u64);
        i += 1;
    }
    acc as usize
}

/// Read a one-byte big-endian length; fail when the input is empty.
pub fn take_len_be_u8<'a>(b: &'a [u8]) -> (r: Result<(&'a [u8], usize), PErr<'a>>)
    ensures
        b@.len() >= 1 ==> (r matches Ok((rem, l)) && rem@ == b@.skip(1) && l == b@[0]),
        b@.len() < 1 ==> (r matches Err(e) && e@.input == b@ && e@.msgs == Seq::<
            Seq<char>,
        >::empty() && e@.to_str == false),
{
    if b.is_empty() {
        return Err(PErr::new(b));
    }
    let l = *slice_index_get(b, 0);
    let (rem, _first) = split_at_revers(b, 1);
    Ok((rem, l as usize))
}

/// Read a two-byte big-endian length; fail when fewer bytes remain.
pub fn take_len_be_u16<'a>(b: &'a [u8]) -> (r: Result<(&'a [u8], usize), PErr<'a>>)
    ensures
        b@.len() >= 2 ==> (r matches Ok((rem, l)) && rem@ == b@.skip(2) && l == be_value(
            b@.take(2),
        ) as usize),
        b@.len() < 2 ==> (r matches Err(e) && e@.input == b@ && e@.msgs == Seq::<
            Seq<char>,
        >::empty() && e@.to_str == false),
{
    if b.len() < 2 {
        return Err(PErr::new(b));
    }
    let l = read_be(b, 2);
    let (rem, _first) = split_at_revers(b, 2);
    Ok((rem, l))
}

/// Read a three-byte big-endian length; fail when fewer bytes remain.
pub fn take_len_be_u24<'a>(b: &'a [u8]) -> (r: Result<(&'a [u8], usize), PErr<'a>>)
    ensures
        b@.len() >= 3 ==> (r matches Ok((rem, l)) && rem@ == b@.skip(3) && l == be_value(
            b@.take(3),
        ) as usize),
        b@.len() < 3 ==> (r matches Err(e) && e@.input == b@ && e@.msgs == Seq::<
            Seq<char>,
        >::empty() && e@.to_str == false),
{
    if b.len() < 3 {
        return Err(PErr::new(b));
    }
    let l = read_be(b, 3);
    let (rem, _first) = split_at_revers(b, 3);
    Ok((rem, l))
}

/// Read a four-byte big-endian length; fail when fewer bytes remain.
pub fn take_len_be_u32<'a>(b: &'a [u8]) -> (r: Result<(&'a [u8], usize), PErr<'a>>)
    ensures
        b@.len() >= 4 ==> (r matches Ok((rem, l)) && rem@ == b@.skip(4) && l == be_value(
            b@.take(4),
        ) as usize),
        b@.len() < 4 ==> (r matches Err(e) && e@.input == b@ && e@.msgs == Seq::<
            Seq<char>,
        >::empty() && e@.to_str == false),
{
    if b.len() < 4 {
        return Err(PErr::new(b));
    }
    let l = read_be(b, 4);
    let (rem, _first) = split_at_revers(b, 4);
    Ok((rem, l))
}

/// Read a six-byte big-endian length; fail when fewer bytes remain.
pub fn take_len_be_u48<'a>(b: &'a [u8]) -> (r: Result<(&'a [u8], usize), PErr<'a>>)
    ensures
        b@.len() >= 6 ==> (r matches Ok((rem, l)) && rem@ == b@.skip(6) && l == be_value(
            b@.take(6),
        ) as usize),
        b@.len() < 6 ==> (r matches Err(e) && e@.input == b@ && e@.msgs == Seq::<
            Seq<char>,
        >::empty() && e@.to_str == false),
{
    if b.len() < 6 {
        return Err(PErr::new(b));
    }
    let l = read_be(b, 6);
    let (rem, _first) = split_at_revers(b, 6);
    Ok((rem, l))
}

/// Read an eight-byte big-endian length; fail when fewer bytes remain.
pub fn take_len_be_u64<'a>(b: &'a [u8]) -> (r: Result<(&'a [u8], usize), PErr<'a>>)
    ensures
        b@.len() >= 8 ==> (r matches Ok((rem, l)) && rem@ == b@.skip(8) && l == be_value(
            b@.take(8),
        ) as usize),
        b@.len() < 8 ==> (r matches Err(e) && e@.input == b@ && e@.msgs == Seq::<
            Seq<char>,
        >::empty() && e@.to_str == false),
{
    if b.len() < 8 {
        return Err(PErr::new(b));
    }
    let l = read_be(b, 8);
    let (rem, _first) = split_at_revers(b, 8);
    Ok((rem, l))
}

/// Read a record prefixed by its one-byte length. The input must hold at
/// least two bytes and then the whole record.
pub fn take_record_be_u8<'a>(b: &'a [u8]) -> (r: Result<(&'a [u8], &'a [u8]), PErr<'a>>)
    ensures
        ({
            let l = b@[0] as int;
            &&& (b@.len() >= 2 && b@.len() - 1 >= l) ==> (r matches Ok((rem, rec)) && rem@
                == b@.skip(1).skip(l) && rec@ == b@.skip(1).take(l))
            &&& !(b@.len() >= 2 && b@.len() - 1 >= l) ==> (r matches Err(e) && e@.input == b@
                && e@.msgs == Seq::<Seq<char>>::empty() && e@.to_str == false)
        }),
{
    if b.len() < 2 {
        return Err(PErr::new(b));
    }
    let l = *slice_index_get(b, 0) as usize;
    if b.len() - 1 < l {
        return Err(PErr::new(b));
    }
    let (tail, _first) = split_at_revers(b, 1);
    Ok(split_at_revers(tail, l))
}

/// Read a record prefixed by its two-byte big-endian length.
pub fn take_record_be_u16<'a>(b: &'a [u8]) -> (r: Result<(&'a [u8], &'a [u8]), PErr<'a>>)
    ensures
        ({
            let l = be_value(b@.take(2)) as usize;
            &&& b@.len() < 2 ==> (r matches Err(e) && e@.input == b@ && e@.msgs == Seq::<
                Seq<char>,
            >::empty() && e@.to_str == false)
            &&& (b@.len() >= 2 && b@.len() - 2 < l) ==> (r matches Err(e) && e@.input == b@.skip(2)
                && e@.msgs == Seq::<Seq<char>>::empty() && e@.to_str == false)
            &&& (b@.len() >= 2 && b@.len() - 2 >= l) ==> (r matches Ok((rem, rec)) && rem@
                == b@.skip(2).skip(l as int) && rec@ == b@.skip(2).take(l as int))
        }),
{
    match take_len_be_u16(b) {
        Err(e) => Err(e),
        Ok((new_b, l)) => crate::parser_combinators::take_record(new_b, l),
    }
}

/// Read a record prefixed by its three-byte big-endian length.
pub fn take_record_be_u24<'a>(b: &'a [u8]) -> (r: Result<(&'a [u8], &'a [u8]), PErr<'a>>)
    ensures
        ({
            let l = be_value(b@.take(3)) as usize;
            &&& b@.len() < 3 ==> (r matches Err(e) && e@.input == b@ && e@.msgs == Seq::<
                Seq<char>,
            >::empty() && e@.to_str == false)
            &&& (b@.len() >= 3 && b@.len() - 3 < l) ==> (r matches Err(e) && e@.input == b@.skip(3)
                && e@.msgs == Seq::<Seq<char>>::empty() && e@.to_str == false)
            &&& (b@.len() >= 3 && b@.len() - 3 >= l) ==> (r matches Ok((rem, rec)) && rem@
                == b@.skip(3).skip(l as int) && rec@ == b@.skip(3).take(l as int))
        }),
{
    match take_len_be_u24(b) {
        Err(e) => Err(e),
        Ok((new_b, l)) => crate::parser_combinators::take_record(new_b, l),
    }
}

/// Read a record prefixed by its four-byte big-endian length.
pub fn take_record_be_u32<'a>(b: &'a [u8]) -> (r: Result<(&'a [u8], &'a [u8]), PErr<'a>>)
    ensures
        ({
            let l = be_value(b@.take(4)) as usize;
            &&& b@.len() < 4 ==> (r matches Err(e) && e@.input == b@ && e@.msgs == Seq::<
                Seq<char>,
            >::empty() && e@.to_str == false)
            &&& (b@.len() >= 4 && b@.len() - 4 < l) ==> (r matches Err(e) && e@.input == b@.skip(4)
                && e@.msgs == Seq::<Seq<char>>::empty() && e@.to_str == false)
            &&& (b@.len() >= 4 && b@.len() - 4 >= l) ==> (r matches Ok((rem, rec)) && rem@
                == b@.skip(4).skip(l as int) && rec@ == b@.skip(4).take(l as int))
        }),
{
    match take_len_be_u32(b) {
        Err(e) => Err(e),
        Ok((new_b, l)) => crate::parser_combinators::take_record(new_b, l),
    }
}

/// Read a record prefixed by its six-byte big-endian length.
pub fn take_record_be_u48<'a>(b: &'a [u8]) -> (r: Result<(&'a [u8], &'a [u8]), PErr<'a>>)
    ensures
        ({
            let l = be_value(b@.take(6)) as usize;
            &&& b@.len() < 6 ==> (r matches Err(e) && e@.input == b@ && e@.msgs == Seq::<
                Seq<char>,
            >::empty() && e@.to_str == false)
            &&& (b@.len() >= 6 && b@.len() - 6 < l) ==> (r matches Err(e) && e@.input == b@.skip(6)
                && e@.msgs == Seq::<Seq<char>>::empty() && e@.to_str == false)
            &&& (b@.len() >= 6 && b@.len() - 6 >= l) ==> (r matches Ok((rem, rec)) && rem@
                == b@.skip(6).skip(l as int) && rec@ == b@.skip(6).take(l as int))
        }),
{
    match take_len_be_u48(b) {
        Err(e) => Err(e),
        Ok((new_b, l)) => crate::parser_combinators::take_record(new_b, l),
    }
}

/// Read a record prefixed by its eight-byte big-endian length.
pub fn take_record_be_u64<'a>(b: &'a [u8]) -> (r: Result<(&'a [u8], &'a [u8]), PErr<'a>>)
    ensures
        ({
            let l = be_value(b@.take(8)) as usize;
            &&& b@.len() < 8 ==> (r matches Err(e) && e@.input == b@ && e@.msgs == Seq::<
                Seq<char>,
            >::empty() && e@.to_str == false)
            &&& (b@.len() >= 8 && b@.len() - 8 < l) ==> (r matches Err(e) && e@.input == b@.skip(8)
                && e@.msgs == Seq::<Seq<char>>::empty() && e@.to_str == false)
            &&& (b@.len() >= 8 && b@.len() - 8 >= l) ==> (r matches Ok((rem, rec)) && rem@
                == b@.skip(8).skip(l as int) && rec@ == b@.skip(8).take(l as int))
        }),
{
    match take_len_be_u64(b) {
        Err(e) => Err(e),
        Ok((new_b, l)) => crate::parser_combinators::take_record(new_b, l),
    }
}

/// A parser for the greedy non-empty run of space bytes.
#[derive(Clone, Copy)]
pub struct SpaceRun;

/// The space predicate as a mathematical predicate.
pub open spec fn spec_is_space(x: u8) -> bool {
    x < 33
}

impl<'a> Parser<'a, &'a [u8]> for SpaceRun {
    open spec fn wf(&self) -> bool {
        true
    }

    open spec fn spec_parse(&self, input: Seq<u8>) -> SpecResult<Seq<u8>> {
        let c = spec_run_len(|x: u8| spec_is_space(x), input);
        if c >= 1 {
            found(c, input.take(c as int))
        } else {
            fail_at(0)
        }
    }

    fn parse(&self, input: &'a [u8]) -> (r: ParseResult<'a, &'a [u8]>) {
        let ghost gp = |x: u8| spec_is_space(x);
        proof {
            assert(input@.skip(0) =~= input@);
        }
        let mut c: usize = 0;
        loop
            invariant
                gp == (|x: u8| spec_is_space(x)),
                c <= input@.len(),
                forall|j: int| 0 <= j < c ==> gp(input@[j]),
            decreases input@.len() - c,
        {
            if c >= input.len() || !is_space(slice_index_get(input, c)) {
                proof {
                    lemma_run_len_is(gp, input@, c as nat);
                    assert(input@.skip(0) =~= input@);
                }
                if c < 1 {
                    return Err(PErr::new(input));
                }
                return Ok(split_at_revers(input, c));
            }
            c += 1;
        }
    }
}

/// The end-of-data check as a parser value.
#[derive(Clone, Copy)]
pub struct DataEndP;

impl<'a> Parser<'a, &'a [u8]> for DataEndP {
    open spec fn wf(&self) -> bool {
        true
    }

    open spec fn spec_parse(&self, input: Seq<u8>) -> SpecResult<Seq<u8>> {
        if input.len() == 0 {
            found(0, input)
        } else {
            fail_at(0)
        }
    }

    fn parse(&self, input: &'a [u8]) -> (r: ParseResult<'a, &'a [u8]>) {
        proof {
            assert(input@.skip(0) =~= input@);
        }
        data_end(input)
    }
}

/// The most common shape of a separated list over bytes: elements and
/// separators may be surrounded by space, and the final element is
/// accepted when followed by space or the end of the data.
pub fn sep_list_common<'a, Re, Rs, Pe, Ps>(elem: Pe, sep: Ps) -> (r: SepList<
    LeftOpt<RightOpt<SpaceRun, Pe, &'a [u8]>, SpaceRun, &'a [u8]>,
    Ps,
    Left<RightOpt<SpaceRun, Pe, &'a [u8]>, AltP<(SpaceRun, DataEndP)>, &'a [u8]>,
    Rs,
>) where Re: DeepView, Rs: DeepView, Pe: Parser<'a, Re>, Ps: Parser<'a, Rs>
    ensures
        r.elem.p1.p2 == elem,
        r.sep == sep,
        r.last_elem.p1.p2 == elem,
{
    let space = SpaceRun;
    sep_list(
        between_opt(space, elem, space),
        sep,
        left(right_opt(space, elem), alt((space, DataEndP))),
    )
}

} // verus!
