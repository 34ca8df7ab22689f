use atoi::{FromRadix10, FromRadix16};
use parcelona::parser_combinators as pc;
use parcelona::parser_combinators::{
    any, between_opt, data_end, find, fmap, is_any, left, left_opt, more, option, pair, right,
    right_opt, sep_list, sep_pair, starts_with, take, Alt, ClassOfSymbols, Parser, ParseResult,
    Permut,
};
use parcelona::u8::{
    is_alpha, is_alpha_upper, is_dec_digit, is_hex_digit, is_space, ALPHA_LOWER, ALPHA_UPPER,
    DEC_DIGIT,
};
use byteorder::{ByteOrder, BE};
use parcelona::parser_combinators::{
    check_starts_with_any_element, check_starts_with_any_part, Msg, PErr, StaticClassOfSymbols,
};
use parcelona::u8::{
    is_alpha_lower, is_alphanum, is_eol, is_no_eol, is_oct_digit, is_space_noeol, is_tab,
    take_len_be_u16, take_len_be_u24, take_len_be_u32, take_len_be_u8, take_record_be_u16,
    take_record_be_u8, to_lowercase, to_upperrcase,
};

#[test]
fn t1() {
    let d = (
        " CONNECT linkedin.com 1/2/4".as_bytes(),
        (
            "".as_bytes(),
            "CONNECT".as_bytes(),
            "linledin".as_bytes(),
            "com".as_bytes(),
            (1, 2, 4),
        ),
    );

    let p1 = right_opt(pc::seq(is_space), pc::seq(is_alpha_upper));
    let r1 = p1.parse(d.0);
    assert_eq!(r1, Ok((&d.0[8..], &d.0[1..8])));
}

#[test]
fn t2() {
    let p = left_opt(pc::seq_exact(is_alpha_upper, 3), pc::seq(is_space));
    let r = p.parse(b"GET HTTttp");
    assert_eq!(Ok(("HTTttp".as_bytes(), "GET".as_bytes())), r);
}

#[test]
fn t3() {
    let p = pc::seq(is_alpha_upper).option();
    let r = p.parse(b"GET HTTttp");
    assert_eq!(Ok((" HTTttp".as_bytes(), Some("GET".as_bytes()))), r);
}

#[test]
fn t_find() {
    let data = "mnb mnbmb bmnm jkmn CONNECT: 1 mnbnm mnmn/r/n nbn".as_bytes();
    let parser = find(starts_with(b"CONNECT"));
    let result = parser.parse(data);
    assert_eq!(
        Ok((": 1 mnbnm mnmn/r/n nbn".as_bytes(), "CONNECT".as_bytes())),
        result
    );
}

#[test]
fn t_find_sep_pair() {
    let data = "mnb mnbmb bmnm jkmn CONNECT: 1 mnbnm mnmn/r/n nbn".as_bytes();

    let space = pc::seq(is_space);
    let parser = find(sep_pair(
        starts_with(b"CONNECT"),
        right_opt(space, any(b":")),
        right_opt(space, pc::seq(is_dec_digit)),
    ));

    let result = parser.parse(data);
    assert_eq!(
        Ok((
            " mnbnm mnmn/r/n nbn".as_bytes(),
            ("CONNECT".as_bytes(), "1".as_bytes())
        )),
        result
    );
}

#[test]
fn t_more() {
    let data = "b:12 b:2 jkmn CONNECT: 1 mnbnm mnmn/r/n nbn".as_bytes();
    let search_it = find(pc::seq(is_dec_digit));
    let p = search_it.more().parse(data);

    assert_eq!(
        Ok((
            " mnbnm mnmn/r/n nbn".as_bytes(),
            Vec::from(["12".as_bytes(), "2".as_bytes(), "1".as_bytes()])
        )),
        p
    );
}

#[test]
fn t_find1() {
    let data = "b:12 b:2 jkmn CONNECT: 1 mnbnm mnmn/r/n nbn".as_bytes();
    let search_it = find(pc::seq(is_dec_digit));
    let p = search_it.more().parse(data);

    assert_eq!(
        Ok((
            " mnbnm mnmn/r/n nbn".as_bytes(),
            Vec::from(["12".as_bytes(), "2".as_bytes(), "1".as_bytes()])
        )),
        p
    );
}

#[test]
fn t_alt() {
    let data = "b:12 b:2 jkmn CONNECT: 1 mnbnm mnmn/r/n nbn".as_bytes();

    let s1 = pc::seq_exact(is_any, 1);
    let s2 = pc::seq_exact(is_any, 2);
    let (_i, r) = (s2, s1).choice(data).unwrap();
    assert_eq!(r, b"b:");
}

#[derive(Debug, PartialEq)]
pub struct Color {
    pub red: u8,
    pub green: u8,
    pub blue: u8,
}

#[test]
fn t_color() {
    let input = "#2F14DF".as_bytes();

    let hex_color = fmap(pc::seq_exact(is_hex_digit, 2), |x| {
        let (r, _) = u8::from_radix_16(x);
        r
    });
    let (_input, c) = right(starts_with(b"#"), hex_color.more_exact(3))
        .parse(input)
        .unwrap();
    let color = Color {
        red: c[0],
        green: c[1],
        blue: c[2],
    };

    assert_eq!(
        Color {
            red: 47,
            green: 20,
            blue: 223
        },
        color
    );
}

#[test]
fn t_exact() {
    let data = "bb".as_bytes();
    let p = pc::seq_exact(is_any, 3).parse(data).ok();
    assert_eq!(None, p);
}

#[test]
fn t_exact1() {
    let data = [4, 7];
    let p = fmap(pc::seq_exact(is_any, 3), |x| BE::read_u24(x) as usize);
    assert_eq!(None, p.parse(&data).ok());
}

#[test]
fn t_u8ext() {
    let data: &[u8] = &[0, 2, 8, 9, 0, 2, 7, 8];
    let p = pair(
        parcelona::u8::take_record_be_u16,
        parcelona::u8::take_record_be_u16,
    );
    assert_eq!(
        Some(([].as_slice(), ([8_u8, 9].as_slice(), [7_u8, 8].as_slice()))),
        p.parse(&data).ok()
    );
}

#[test]
fn t_sep_list() {
    let space = pc::seq(is_space);
    let element = pc::seq_exact(is_alpha, 1);
    let separ = starts_with(b",");
    let list = sep_list(
        between_opt(space, element, space),
        separ,
        left(right_opt(space, element), (space, data_end).alt()),
    );

    let data: &[u8] = b"h , h , h , h hh";
    let (_i, r) = list.parse(&data).unwrap();
    let r: Vec<u8> = pc::fflaten(r);
    assert_eq!(b"hhhh".to_vec(), r);

    let data: &[u8] = b"h , h , h , hhh";
    let (_i, r) = list.parse(&data).unwrap();
    let r: Vec<u8> = pc::fflaten(r);
    assert_eq!(b"hhh".to_vec(), r);

    let data: &[u8] = b"h , h , h h hh";
    let (_i, r) = list.parse(&data).unwrap();
    let r: Vec<u8> = pc::fflaten(r);
    assert_eq!(b"hhh".to_vec(), r);

    let data: &[u8] = b"h , h , h";
    let (_i, r) = list.parse(&data).unwrap();
    let r: Vec<u8> = pc::fflaten(r);
    assert_eq!(b"hhh".to_vec(), r);

    let data: &[u8] = b"h , h , h ,";
    let (_i, r) = list.parse(&data).unwrap();
    let r: Vec<u8> = pc::fflaten(r);
    assert_eq!(b"hhh".to_vec(), r);

    let data: &[u8] = b" h ";
    let (_i, r) = list.parse(&data).unwrap();
    let r: Vec<u8> = pc::fflaten(r);
    assert_eq!(b"h".to_vec(), r);

    let data: &[u8] = b" h , ";
    let (_i, r) = list.parse(&data).unwrap();
    let r: Vec<u8> = pc::fflaten(r);
    assert_eq!(b"h".to_vec(), r);

    let data: &[u8] = b" 1 2";
    let r = list.parse(&data);
    assert_eq!(true, r.is_err());
}

#[test]
fn t_t_f() {
    let data: &[u8] = b"true|false truefalse";
    let p_true = fmap(starts_with(b"true"), |_| true);
    let p_false = fmap(starts_with(b"false"), |_| false);
    let (_input, result) = find((p_false, p_true).alt()).more().parse(data).unwrap();
    assert_eq!(vec![true, false, true, false], result);
}

#[test]
fn t_simple() {
    let data: &[u8] = b"true";
    let c: usize = 2;
    let t1 = take(c);
    let t2 = take(c);
    let (data, r1) = t1.parse(data).unwrap();
    let (_data, r2) = t2.parse(data).unwrap();

    assert_eq!(b"tr", r1);
    assert_eq!(b"ue", r2);
}

#[test]
fn t_permut() {
    let data: &[u8] = b"truefalse12";
    let t1 = starts_with(b"true");
    let t2 = starts_with(b"false");
    let t3 = fmap(pc::seq(is_dec_digit), |x| {
        let (r, _) = u8::from_radix_10(x);
        r
    });
    let (_data, (r1, r2, r3)) = (t3, t1, t2).permut().parse(data).unwrap();

    assert_eq!(12, r1);
    assert_eq!(b"true".as_slice(), r2);
    assert_eq!(b"false".as_slice(), r3);
}

#[test]
fn t_permut_part1() {
    let data: &[u8] = b"truefalse12";
    let t1 = starts_with(b"true");
    let t2 = starts_with(b"false");
    let t3 = fmap(pc::seq(is_dec_digit), |x| {
        let (r, _) = u8::from_radix_10(x);
        r
    });
    let (_data, (true, r)) = (t3, t1, t2).permut_part().parse(data).unwrap() else {
        assert_eq!(true, false);
        return;
    };

    assert_eq!(12, r.0.unwrap());
    assert_eq!(b"true".as_slice(), r.1.unwrap());
    assert_eq!(b"false".as_slice(), r.2.unwrap());
}

#[test]
fn t_permut_part1_1() {
    let data: &[u8] = b"truefalse12";
    let t1 = starts_with(b"true");
    let t2 = starts_with(b"false");
    let t3 = fmap(pc::seq(is_dec_digit), |x| {
        let (r, _) = u8::from_radix_10(x);
        r
    });
    let (_data, (true, r)) = pc::permut_part((t3, t1, t2)).parse(data).unwrap() else {
        assert_eq!(true, false);
        return;
    };

    assert_eq!(12, r.0.unwrap());
    assert_eq!(b"true".as_slice(), r.1.unwrap());
    assert_eq!(b"false".as_slice(), r.2.unwrap());
}

#[test]
fn t_permut_part2() {
    let data: &[u8] = b"truefalse12";
    let t1 = starts_with(b"true");
    let t2 = starts_with(b"false");
    let t3 = fmap(pc::seq(is_dec_digit), |x| {
        let (r, _) = u8::from_radix_10(x);
        r
    });
    match (t3, t1, t2).permut_part().parse(data).unwrap() {
        (_data, (true, r)) => {
            assert_eq!(true, r.0.is_some());
            assert_eq!(true, r.1.is_some());
            assert_eq!(true, r.2.is_some());
        }
        (_data, (false, r)) => {
            if r.0.is_none() {}
            if r.1.is_none() {}
            if r.2.is_none() {}
        }
    };
}

#[test]
fn t_permut_part3() {
    let data: &[u8] = b"truefalse";
    let t1 = starts_with(b"true");
    let t2 = starts_with(b"false");
    let t3 = fmap(pc::seq(is_dec_digit), |x| {
        let (r, _) = u8::from_radix_10(x);
        r
    });
    match (t3, t1, t2).permut_part().parse(data).unwrap() {
        (_data, (true, r)) => {
            assert_eq!(true, r.0.is_some());
            assert_eq!(true, r.1.is_some());
            assert_eq!(true, r.2.is_some());
        }
        (_data, (false, r)) => {
            assert_eq!(true, r.0.is_none());
            assert_eq!(true, r.1.is_some());
            assert_eq!(true, r.2.is_some());
        }
    };
}

#[test]
fn t_classo() {
    let input: &[u8] = b"true\"false";
    let mut name: ClassOfSymbols<u8> = Default::default();
    name.range_enable_push(&[ALPHA_LOWER, ALPHA_UPPER, DEC_DIGIT]);
    name.one_enable_push(&[45, 46, 95]); // - . _
    name.default_enable_one(false);

    let r = name.msg_err("text parse error").parse(input).unwrap();
    assert_eq!((b"\"false".as_slice(), b"true".as_slice()), r);
}

#[test]
fn t_classo1() {
    let input: &[u8] = b"true\"false";
    let mut name: ClassOfSymbols<u8> = Default::default();
    name.range_enable_push(&[ALPHA_LOWER, ALPHA_UPPER, DEC_DIGIT]);
    name.one_enable_push(&[45, 46, 95]); // - . _
    name.default_enable_one(false);

    let p = pair(&name, starts_with(b"\""));
    let r = p.parse(input).unwrap();
    assert_eq!(
        (b"false".as_slice(), (b"true".as_slice(), b"\"".as_slice())),
        r
    );
}

fn ft(input: &[u8]) -> ParseResult<&[u8]> {
    Ok((input, b"test"))
}

#[test]
fn t_ffun() {
    let input: &[u8] = b"truefalse";

    let p = pair(ft, starts_with(b"true"));
    let r = p.parse(input).unwrap();
    assert_eq!(
        (b"false".as_slice(), (b"test".as_slice(), b"true".as_slice())),
        r
    );
}

#[test]
fn t_ffun_alt() {
    let input: &[u8] = b"truefalse";

    let p = (ft, starts_with(b"true")).alt();
    let r = p.parse(input).unwrap();
    assert_eq!((b"truefalse".as_slice(), b"test".as_slice()), r);
}

// `option` always succeeds; on sub-failure the input comes back unchanged.
#[test]
fn t_option_backtracks() {
    let p = option(starts_with(b"zz"));
    let data: &[u8] = b"abc";
    assert_eq!(Ok((b"abc".as_slice(), None)), p.parse(data));
    let (rem, v) = p.parse(data).unwrap();
    assert_eq!(rem.as_ptr(), data.as_ptr());
    assert_eq!(None, v);
}

// A too-short predicate run fails without consuming anything.
#[test]
fn t_seq_no_false_consumption() {
    let data: &[u8] = b"12a45";
    let r = pc::seq_exact(is_dec_digit, 4).parse(data);
    assert_eq!(Err(PErr::new(data)), r);
    let r = pc::seq_min(is_dec_digit, 3).parse(data);
    assert_eq!(Err(PErr::new(data)), r);
}

// Where `more` finds k matches, the counted variants at k agree with it.
#[test]
fn t_more_monotone() {
    let data: &[u8] = b"aaab";
    let p = pc::seq_exact(is_alpha, 1);
    let base = more(p).parse(data).unwrap();
    assert_eq!(4, base.1.len());
    assert_eq!(base, pc::more_min(p, 4).parse(data).unwrap());
    assert_eq!(base, pc::more_max(p, 4).parse(data).unwrap());
    assert_eq!(base, pc::more_exact(p, 4).parse(data).unwrap());
}

// The three-slot permutation yields the same tuple for either input order.
#[test]
fn t_permut_order_independent() {
    let t1 = starts_with(b"true");
    let t2 = starts_with(b"false");
    let t3 = fmap(pc::seq(is_dec_digit), |x| {
        let (r, _) = u8::from_radix_10(x);
        r
    });
    let a = (t3, t1, t2).permut().parse(b"truefalse12").unwrap().1;
    let b = (t3, t1, t2).permut().parse(b"12falsetrue").unwrap().1;
    assert_eq!(a, (12, b"true".as_slice(), b"false".as_slice()));
    assert_eq!(a, b);
}

// Character-class escape handling: a class enabling default-one,
// disabling `<`, `>`, `\`, but enabling the escaped fragments, scans
// through the escapes and stops before the first bare delimiter.
#[test]
fn t_class_escapes() {
    let mut text: ClassOfSymbols<u8> = Default::default();
    text.one_disable_push(br"<>\");
    text.parts_enable_push(&[br"\\", br"\<", br"\>"]);
    text.default_enable_one(true);

    let input: &[u8] = br"a\<b>c";
    let (rem, v) = (&text).parse(input).unwrap();
    assert_eq!(br"a\<b".as_slice(), v);
    assert_eq!(b">c".as_slice(), rem);
}

// Context stack ordering: labels read in push order, innermost first.
#[test]
fn t_msg_err_stack() {
    let p = starts_with(b"x").msg_err("inner").msg_err("outer");
    let e = p.parse(b"yyy").unwrap_err();
    assert_eq!(2, e.user_msg.len());
    assert!(matches!(e.user_msg[0], Msg::Str("inner")));
    assert!(matches!(e.user_msg[1], Msg::Str("outer")));
    assert_eq!(false, e.to_srt);
}

// `strerr` selects text rendering on the failure it wraps.
#[test]
fn t_strerr_flag() {
    let p = starts_with(b"x").strerr();
    let e = p.parse(b"yyy").unwrap_err();
    assert_eq!(true, e.to_srt);
}

// `not` succeeds without consuming iff the wrapped parser fails.
#[test]
fn t_not() {
    let p = pc::not(starts_with(b"ab"));
    assert_eq!(Ok((b"xy".as_slice(), ())), p.parse(b"xy"));
    assert!(p.parse(b"abc").is_err());
}

// `notp` negates a predicate for use in a run matcher.
#[test]
fn t_notp() {
    let p = pc::seq(pc::notp(is_space));
    assert_eq!(
        Ok((b" tail".as_slice(), b"word".as_slice())),
        p.parse(b"word tail")
    );
}

// `frmap` distinguishes transform failures from parse failures.
#[test]
fn t_frmap() {
    let good = pc::frmap(pc::seq(is_dec_digit), |x: &[u8]| {
        Ok::<usize, String>(x.len())
    });
    assert_eq!(Ok((b"x".as_slice(), 3usize)), good.parse(b"123x"));

    let bad = pc::frmap(pc::seq(is_dec_digit), |_x: &[u8]| {
        Err::<usize, String>(String::from("no use"))
    });
    let e = bad.parse(b"123x").unwrap_err();
    assert_eq!(b"x".as_slice(), e.input);
    assert_eq!(2, e.user_msg.len());
    assert_eq!(true, e.to_srt);
}

// `or` reports which side matched, in order.
#[test]
fn t_or() {
    let p = pc::or(starts_with(b"ab"), starts_with(b"cd"));
    assert_eq!(
        Ok((b"x".as_slice(), (Some(b"ab".as_slice()), Some(b"cd".as_slice())))),
        p.parse(b"abcdx")
    );
    assert_eq!(
        Ok((b"x".as_slice(), (Some(b"ab".as_slice()), None))),
        p.parse(b"abx")
    );
    assert_eq!(
        Ok((b"x".as_slice(), (None, Some(b"cd".as_slice())))),
        p.parse(b"cdx")
    );
    assert!(p.parse(b"x").is_err());
}

// `or_then` folds the outcome of `or` through a combining function.
#[test]
fn t_or_then() {
    let p = pc::or_then(starts_with(b"a"), starts_with(b"b"), |(x, y)| {
        (x.is_some(), y.is_some())
    });
    assert_eq!(Ok((b"".as_slice(), (true, true))), p.parse(b"ab"));
    assert_eq!(Ok((b"c".as_slice(), (false, true))), p.parse(b"bc"));
}

// `and_then` folds a pair of values.
#[test]
fn t_and_then() {
    let p = pc::and_then(pc::seq(is_alpha), pc::seq(is_dec_digit), |(a, d)| {
        (a.len(), d.len())
    });
    assert_eq!(Ok((b"!".as_slice(), (2usize, 3usize))), p.parse(b"ab123!"));
}

// `between` keeps only the body.
#[test]
fn t_between() {
    let p = pc::between(starts_with(b"("), pc::seq(is_alpha), starts_with(b")"));
    assert_eq!(Ok((b"".as_slice(), b"abc".as_slice())), p.parse(b"(abc)"));
    assert!(p.parse(b"(abc").is_err());
}

// `sep_pair_opt` tolerates a missing separator.
#[test]
fn t_sep_pair_opt() {
    let p = pc::sep_pair_opt(pc::seq(is_alpha), starts_with(b":"), pc::seq(is_dec_digit));
    assert_eq!(
        Ok((b"".as_slice(), (b"ab".as_slice(), b"12".as_slice()))),
        p.parse(b"ab:12")
    );
    assert_eq!(
        Ok((b"".as_slice(), (b"ab".as_slice(), b"12".as_slice()))),
        p.parse(b"ab12")
    );
}

// `find_stop` gives up where the stop parser matches first.
#[test]
fn t_find_stop() {
    let p = pc::find_stop(starts_with(b"end"), starts_with(b";"));
    assert_eq!(
        Ok((b"!".as_slice(), b"end".as_slice())),
        p.parse(b"xxend!")
    );
    assert!(p.parse(b"xx;yyend").is_err());
    assert!(p.parse(b"xxyy").is_err());
}

// `seq_ext` advances by a variable width: two bytes over an escape pair,
// one byte otherwise, stopping at a bare backslash-less delimiter.
#[test]
fn t_seq_ext() {
    let step = |s: &[u8]| -> usize {
        if s.len() >= 2 && s[0] == b'\\' {
            2
        } else if !s.is_empty() && s[0] != b'<' {
            1
        } else {
            0
        }
    };
    let p = pc::seq_ext(step);
    assert_eq!(
        Ok((b"<end".as_slice(), br"ab\<cd".as_slice())),
        p.parse(br"ab\<cd<end")
    );
    assert!(p.parse(b"<x").is_err());
}

// `seq_range` obeys both bounds.
#[test]
fn t_seq_range() {
    let p = pc::seq_range(is_dec_digit, (2, 4));
    assert!(p.parse(b"1x").is_err());
    assert_eq!(Ok((b"x".as_slice(), b"12".as_slice())), p.parse(b"12x"));
    assert_eq!(
        Ok((b"56x".as_slice(), b"1234".as_slice())),
        p.parse(b"123456x")
    );
}

// `seq_max` never scans past its bound.
#[test]
fn t_seq_max() {
    let p = pc::seq_max(is_dec_digit, 2);
    assert_eq!(Ok((b"34".as_slice(), b"12".as_slice())), p.parse(b"1234"));
    assert!(p.parse(b"x1").is_err());
}

// `more_range` stops collecting at the upper bound.
#[test]
fn t_more_range() {
    let p = pc::more_range(pc::seq_exact(is_dec_digit, 1), (1, 2));
    assert_eq!(
        Ok((b"3".as_slice(), vec![b"1".as_slice(), b"2".as_slice()])),
        p.parse(b"123")
    );
    assert!(p.parse(b"x").is_err());
}

// Big-endian length readers: exact values.
#[test]
fn t_take_len_be() {
    assert_eq!(Ok((b"x".as_slice(), 7usize)), take_len_be_u8(&[7, b'x']));
    assert_eq!(Ok((b"".as_slice(), 258usize)), take_len_be_u16(&[1, 2]));
    assert_eq!(
        Ok((b"".as_slice(), 0x010203usize)),
        take_len_be_u24(&[1, 2, 3])
    );
    assert_eq!(
        Ok((b"".as_slice(), 0x01020304usize)),
        take_len_be_u32(&[1, 2, 3, 4])
    );
    assert!(take_len_be_u16(&[1]).is_err());
}

// Record readers check that the whole record is present.
#[test]
fn t_take_record_be() {
    assert_eq!(
        Ok((b"".as_slice(), [9u8, 8].as_slice())),
        take_record_be_u8(&[2, 9, 8])
    );
    assert!(take_record_be_u8(&[3, 9, 8]).is_err());
    assert!(take_record_be_u16(&[0, 3, 1, 2]).is_err());
}

// The plain-error readers mirror the structured ones.
#[test]
fn t_u8ext_len() {
    assert_eq!(
        Ok((b"".as_slice(), 258usize)),
        parcelona::u8ext::take_len_be_u16(&[1, 2])
    );
    assert_eq!(
        Err([1u8].as_slice()),
        parcelona::u8ext::take_len_be_u16(&[1])
    );
    assert_eq!(
        Ok((b"c".as_slice(), b"ab".as_slice())),
        parcelona::u8ext::take_record(b"abc", 2)
    );
    assert_eq!(
        Ok((b"".as_slice(), [7u8, 8].as_slice())),
        parcelona::u8ext::take_record_be_u16(&[0, 2, 7, 8])
    );
}

// The common separated list over bytes, from both helper modules.
#[test]
fn t_sep_list_common() {
    let element = pc::seq_exact(is_alpha, 1);
    let list = parcelona::u8::sep_list_common(element, starts_with(b","));
    let (_i, r) = list.parse(b"h , h , h , h hh").unwrap();
    assert_eq!(b"hhhh".to_vec(), pc::fflaten(r));

    let list2 = parcelona::u8ext::sep_list_common(element, starts_with(b","));
    let (_i, r2) = list2.parse(b" h ").unwrap();
    assert_eq!(b"h".to_vec(), pc::fflaten(r2));
    assert!(list2.parse(b" 1 2").is_err());
}

// The statically configured class matches like the owned one.
#[test]
fn t_static_class() {
    let name: StaticClassOfSymbols<u8> = StaticClassOfSymbols::new()
        .range_enable_set(&[ALPHA_LOWER, ALPHA_UPPER, DEC_DIGIT])
        .one_enable_set(&[45, 46, 95]);
    let r = (&name).parse(b"true\"false").unwrap();
    assert_eq!((b"\"false".as_slice(), b"true".as_slice()), r);
    assert!((&name).parse(b"\"x").is_err());
}

// Case mapping touches only the ASCII letter ranges.
#[test]
fn t_case_mapping() {
    assert_eq!(b'a', to_lowercase(b'A'));
    assert_eq!(b'z', to_lowercase(b'Z'));
    assert_eq!(b'@', to_lowercase(b'@'));
    assert_eq!(b'0', to_lowercase(b'0'));
    assert_eq!(b'A', to_upperrcase(b'a'));
    assert_eq!(b'{', to_upperrcase(b'{'));
}

// The classification predicates at their boundaries.
#[test]
fn t_predicates() {
    assert!(is_eol(&10) && is_eol(&13) && !is_eol(&32));
    assert!(is_no_eol(&32) && !is_no_eol(&10));
    assert!(is_tab(&9) && !is_tab(&10));
    assert!(is_space_noeol(&9) && !is_space_noeol(&10) && !is_space_noeol(&65));
    assert!(is_alpha_lower(&b'a') && !is_alpha_lower(&b'A'));
    assert!(is_alphanum(&b'7') && is_alphanum(&b'g') && !is_alphanum(&b'!'));
    assert!(is_oct_digit(&b'7') && !is_oct_digit(&b'8'));
}

// `take` fails on short input with the original input attached.
#[test]
fn t_take_short() {
    let data: &[u8] = b"ab";
    assert_eq!(Err(PErr::new(data)), take(3).parse(data));
    assert_eq!(Err(PErr::new(data)), pc::take_record(data, 5));
}

// `starts_with_any` takes the first matching literal, in set order.
#[test]
fn t_starts_with_any() {
    let pats: &[&[u8]] = &[b"ab", b"a"];
    let p = pc::starts_with_any(pats);
    assert_eq!(Ok((b"c".as_slice(), b"ab".as_slice())), p.parse(b"abc"));
    assert_eq!(Ok((b"xc".as_slice(), b"a".as_slice())), p.parse(b"axc"));
    assert!(p.parse(b"zz").is_err());
}

// `check_starts_with_any_part` and `check_starts_with_any_element`.
#[test]
fn t_check_fns() {
    let pats: &[&[u8]] = &[b"xy", b"ab"];
    assert_eq!(2, check_starts_with_any_part(pats, b"abz"));
    assert_eq!(0, check_starts_with_any_part(pats, b"zz"));
    assert!(check_starts_with_any_element(b"ax", b"abc"));
    assert!(!check_starts_with_any_element(b"ax", b"bc"));
    assert!(!check_starts_with_any_element(b"ax", b""));
}

// A four-slot permutation accepts its slots in any order.
#[test]
fn t_permut4() {
    let pa = starts_with(b"aa");
    let pb = starts_with(b"bb");
    let pc4 = starts_with(b"cc");
    let pd = starts_with(b"dd");
    let (rem, r) = (pa, pb, pc4, pd).permut().parse(b"ccbbddaa!").unwrap();
    assert_eq!(b"!".as_slice(), rem);
    assert_eq!(
        (
            b"aa".as_slice(),
            b"bb".as_slice(),
            b"cc".as_slice(),
            b"dd".as_slice()
        ),
        r
    );
    assert!((pa, pb, pc4, pd).permut().parse(b"ccbbdd!").is_err());
}

// Ordered choice over three and four alternatives takes the first match.
#[test]
fn t_alt34() {
    let p3 = (starts_with(b"a"), starts_with(b"b"), starts_with(b"c")).alt();
    assert_eq!(Ok((b"".as_slice(), b"c".as_slice())), p3.parse(b"c"));
    assert!(p3.parse(b"z").is_err());
    let p4 = (
        starts_with(b"a"),
        starts_with(b"b"),
        starts_with(b"c"),
        starts_with(b"d"),
    )
        .alt();
    assert_eq!(Ok((b"".as_slice(), b"d".as_slice())), p4.parse(b"d"));
    assert!(p4.parse(b"z").is_err());
}

// Empty input: runs fail, zero-length takes succeed, the end-of-data
// check holds.
#[test]
fn t_empty_input() {
    let e: &[u8] = b"";
    assert!(pc::seq(is_alpha).parse(e).is_err());
    assert_eq!(Ok((e, e)), take(0).parse(e));
    assert!(more(starts_with(b"a")).parse(e).is_err());
    assert_eq!(Ok((e, b"".as_slice())), data_end(e));
    let cls: ClassOfSymbols<u8> = Default::default();
    assert!((&cls).parse(e).is_err());
}

// A zero minimum accepts an empty collection.
#[test]
fn t_more_zero_min() {
    let p = pc::more_min(starts_with(b"a"), 0);
    assert_eq!(Ok((b"b".as_slice(), Vec::<&[u8]>::new())), p.parse(b"b"));
    assert_eq!(
        Ok((b"".as_slice(), vec![b"a".as_slice(), b"a".as_slice()])),
        p.parse(b"aa")
    );
}
