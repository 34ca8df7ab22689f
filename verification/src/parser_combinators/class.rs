//! The character-class engine: a declarative set of acceptance rules over
//! elements, used as a universal parser.
//!
//! A class is configured by enabled/disabled single elements, inclusive
//! ranges and multi-element literal fragments, plus a default policy for
//! elements matching no explicit rule. Matching proceeds position by
//! position: enabled fragments are tested first (consuming the whole
//! fragment), then disabled fragments (stopping the scan), then enabled
//! and disabled ranges, then the single-element sets, and finally the
//! default policy. Disables take precedence over enables of the same
//! category. The scan stops at the first position where no rule consumes,
//! and the parse succeeds iff at least one element was consumed.

use vstd::prelude::*;
use vstd::slice::{slice_index_get, slice_subrange, slice_to_vec};

use crate::parser_combinators::err::{fail_at, found, PErr, ParseResult, SpecResult};
use crate::parser_combinators::prim::{contains_byte, is_prefix, split_at_revers};
use crate::parser_combinators::traits::Parser;

verus! {

broadcast use crate::parser_combinators::err::bytes_deep_view;

/// The mathematical content of a class configuration.
pub struct ClassModel {
    pub one_en: Seq<u8>,
    pub one_dis: Seq<u8>,
    pub parts_en: Seq<Seq<u8>>,
    pub parts_dis: Seq<Seq<u8>>,
    pub rng_en: Seq<(u8, u8)>,
    pub rng_dis: Seq<(u8, u8)>,
    pub dflt: bool,
}

/// The length of the first non-empty fragment in `pats` (in order) that
/// is a prefix of `s`; 0 when none is.
pub open spec fn first_en_part_len(pats: Seq<Seq<u8>>, s: Seq<u8>) -> nat
    decreases pats.len(),
{
    if pats.len() == 0 {
        0
    } else if pats[0].len() >= 1 && pats[0].is_prefix_of(s) {
        pats[0].len()
    } else {
        first_en_part_len(pats.skip(1), s)
    }
}

/// If none of the first `i` fragments matches, the search outcome is
/// that of the remaining fragments.
proof fn lemma_first_en_part_skip(pats: Seq<Seq<u8>>, s: Seq<u8>, i: nat)
    requires
        i <= pats.len(),
        forall|j: int|
            0 <= j < i ==> !((#[trigger] pats[j]).len() >= 1 && pats[j].is_prefix_of(s)),
    ensures
        first_en_part_len(pats, s) == first_en_part_len(pats.skip(i as int), s),
    decreases i,
{
    if i == 0 {
        assert(pats.skip(0) =~= pats);
    } else {
        lemma_first_en_part_skip(pats, s, (i - 1) as nat);
        assert(pats.skip(i as int - 1).skip(1) =~= pats.skip(i as int));
        assert(pats.skip(i as int - 1)[0] == pats[i as int - 1]);
        assert(first_en_part_len(pats.skip(i as int - 1), s) == first_en_part_len(
            pats.skip(i as int - 1).skip(1),
            s,
        ));
    }
}

/// A matching fragment never reaches past the end of the input.
proof fn lemma_first_en_part_le(pats: Seq<Seq<u8>>, s: Seq<u8>)
    ensures
        first_en_part_len(pats, s) <= s.len(),
    decreases pats.len(),
{
    if pats.len() > 0 && !(pats[0].len() >= 1 && pats[0].is_prefix_of(s)) {
        lemma_first_en_part_le(pats.skip(1), s);
    }
}

/// Whether some fragment in `pats` is a prefix of `s`.
pub open spec fn any_part_prefix(pats: Seq<Seq<u8>>, s: Seq<u8>) -> bool {
    exists|i: int| 0 <= i < pats.len() && (#[trigger] pats[i]).is_prefix_of(s)
}

/// Whether `b` lies in some inclusive range of `rs`.
pub open spec fn in_ranges(rs: Seq<(u8, u8)>, b: u8) -> bool {
    exists|i: int| 0 <= i < rs.len() && (#[trigger] rs[i]).0 <= b && b <= rs[i].1
}

/// The decision the class takes at one position: consume `k` leading
/// elements, or stop the scan here.
pub enum ClassStep {
    Advance(nat),
    Stop,
}

/// The decision at the head of `s`: enabled fragments first, then
/// disabled fragments, enabled ranges, disabled ranges, the enabled and
/// disabled single-element sets, and finally the default policy.
pub open spec fn class_step(m: ClassModel, s: Seq<u8>) -> ClassStep {
    if s.len() == 0 {
        ClassStep::Stop
    } else if first_en_part_len(m.parts_en, s) >= 1 {
        ClassStep::Advance(first_en_part_len(m.parts_en, s))
    } else if any_part_prefix(m.parts_dis, s) {
        ClassStep::Stop
    } else if in_ranges(m.rng_en, s[0]) {
        ClassStep::Advance(1)
    } else if in_ranges(m.rng_dis, s[0]) {
        ClassStep::Stop
    } else if m.one_en.contains(s[0]) {
        ClassStep::Advance(1)
    } else if m.one_dis.contains(s[0]) {
        ClassStep::Stop
    } else if m.dflt {
        ClassStep::Advance(1)
    } else {
        ClassStep::Stop
    }
}

/// The total number of elements the class consumes from `s`.
pub open spec fn spec_class_len(m: ClassModel, s: Seq<u8>) -> nat
    decreases s.len(),
{
    match class_step(m, s) {
        ClassStep::Advance(k) => if 1 <= k <= s.len() {
            (k + spec_class_len(m, s.skip(k as int))) as nat
        } else {
            0
        },
        ClassStep::Stop => 0,
    }
}

/// The class never consumes past the end of the input.
pub proof fn lemma_class_len_le(m: ClassModel, s: Seq<u8>)
    ensures
        spec_class_len(m, s) <= s.len(),
    decreases s.len(),
{
    match class_step(m, s) {
        ClassStep::Advance(k) => {
            if 1 <= k <= s.len() {
                lemma_class_len_le(m, s.skip(k as int));
            }
        },
        ClassStep::Stop => {},
    }
}

/// The first matching non-empty fragment among borrowed fragments.
fn first_part_slices(pats: &[&[u8]], s: &[u8]) -> (k: usize)
    ensures
        k == first_en_part_len(pats.deep_view(), s@),
{
    let mut i: usize = 0;
    while i < pats.len()
        invariant
            i <= pats@.len(),
            forall|j: int|
                0 <= j < i ==> !((#[trigger] pats@[j]@).len() >= 1 && pats@[j]@.is_prefix_of(s@)),
        decreases pats@.len() - i,
    {
        let p: &[u8] = *slice_index_get(pats, i);
        if p.len() >= 1 && is_prefix(p, s) {
            proof {
                lemma_first_en_part_skip(pats.deep_view(), s@, i as nat);
                assert(pats.deep_view().skip(i as int)[0] == pats.deep_view()[i as int]);
                assert(pats.deep_view() =~= Seq::new(pats@.len(), |j: int| pats@[j]@));
            }
            return p.len();
        }
        proof {
            assert(pats.deep_view() =~= Seq::new(pats@.len(), |j: int| pats@[j]@));
        }
        i += 1;
    }
    proof {
        assert(pats.deep_view() =~= Seq::new(pats@.len(), |j: int| pats@[j]@));
        lemma_first_en_part_skip(pats.deep_view(), s@, i as nat);
    }
    0
}

/// The first matching non-empty fragment among owned fragments.
fn first_part_vecs(pats: &Vec<Vec<u8>>, s: &[u8]) -> (k: usize)
    ensures
        k == first_en_part_len(pats.deep_view(), s@),
{
    let mut i: usize = 0;
    while i < pats.len()
        invariant
            i <= pats@.len(),
            forall|j: int|
                0 <= j < i ==> !((#[trigger] pats@[j]@).len() >= 1 && pats@[j]@.is_prefix_of(s@)),
        decreases pats@.len() - i,
    {
        let p: &[u8] = pats[i].as_slice();
        if p.len() >= 1 && is_prefix(p, s) {
            proof {
                lemma_first_en_part_skip(pats.deep_view(), s@, i as nat);
                assert(pats.deep_view().skip(i as int)[0] == pats.deep_view()[i as int]);
                assert(pats.deep_view() =~~= Seq::new(pats@.len(), |j: int| pats@[j]@));
            }
            return p.len();
        }
        proof {
            assert(pats.deep_view() =~~= Seq::new(pats@.len(), |j: int| pats@[j]@));
        }
        i += 1;
    }
    proof {
        assert(pats.deep_view() =~~= Seq::new(pats@.len(), |j: int| pats@[j]@));
        lemma_first_en_part_skip(pats.deep_view(), s@, i as nat);
    }
    0
}

/// Whether some borrowed fragment is a prefix of `s`.
fn any_prefix_slices(pats: &[&[u8]], s: &[u8]) -> (r: bool)
    ensures
        r == any_part_prefix(pats.deep_view(), s@),
{
    let mut i: usize = 0;
    proof {
        assert(pats.deep_view() =~~= Seq::new(pats@.len(), |j: int| pats@[j]@));
    }
    while i < pats.len()
        invariant
            i <= pats@.len(),
            pats.deep_view() =~~= Seq::new(pats@.len(), |j: int| pats@[j]@),
            forall|j: int| 0 <= j < i ==> !(#[trigger] pats@[j]@).is_prefix_of(s@),
        decreases pats@.len() - i,
    {
        let p: &[u8] = *slice_index_get(pats, i);
        if is_prefix(p, s) {
            proof {
                assert(pats.deep_view()[i as int].is_prefix_of(s@));
            }
            return true;
        }
        i += 1;
    }
    proof {
        assert(forall|j: int|
            0 <= j < pats.deep_view().len() ==> !(#[trigger] pats.deep_view()[j]).is_prefix_of(
                s@,
            ));
    }
    false
}

/// Whether some owned fragment is a prefix of `s`.
fn any_prefix_vecs(pats: &Vec<Vec<u8>>, s: &[u8]) -> (r: bool)
    ensures
        r == any_part_prefix(pats.deep_view(), s@),
{
    let mut i: usize = 0;
    proof {
        assert(pats.deep_view() =~~= Seq::new(pats@.len(), |j: int| pats@[j]@));
    }
    while i < pats.len()
        invariant
            i <= pats@.len(),
            pats.deep_view() =~~= Seq::new(pats@.len(), |j: int| pats@[j]@),
            forall|j: int| 0 <= j < i ==> !(#[trigger] pats@[j]@).is_prefix_of(s@),
        decreases pats@.len() - i,
    {
        let p: &[u8] = pats[i].as_slice();
        if is_prefix(p, s) {
            proof {
                assert(pats.deep_view()[i as int].is_prefix_of(s@));
            }
            return true;
        }
        i += 1;
    }
    proof {
        assert(forall|j: int|
            0 <= j < pats.deep_view().len() ==> !(#[trigger] pats.deep_view()[j]).is_prefix_of(
                s@,
            ));
    }
    false
}

/// `ClassOfSymbols` is a universal parser, an alternative to `seq_ext`
/// for a declarative programming style: its rule sets are pushed at run
/// time and owned by the value.
pub struct ClassOfSymbols<I> {
    pub one_enable: Vec<I>,
    pub one_disable: Vec<I>,
    pub parts_enable: Vec<Vec<I>>,
    pub parts_disable: Vec<Vec<I>>,
    pub range_enable: Vec<(I, I)>,
    pub range_disable: Vec<(I, I)>,
    pub default_enable_one: bool,
}

impl<I> Default for ClassOfSymbols<I> {
    fn default() -> (r: Self)
        ensures
            r.one_enable@ == Seq::<I>::empty(),
            r.one_disable@ == Seq::<I>::empty(),
            r.parts_enable@ == Seq::<Vec<I>>::empty(),
            r.parts_disable@ == Seq::<Vec<I>>::empty(),
            r.range_enable@ == Seq::<(I, I)>::empty(),
            r.range_disable@ == Seq::<(I, I)>::empty(),
            r.default_enable_one == false,
    {
        ClassOfSymbols {
            one_enable: Vec::new(),
            one_disable: Vec::new(),
            parts_enable: Vec::new(),
            parts_disable: Vec::new(),
            range_enable: Vec::new(),
            range_disable: Vec::new(),
            default_enable_one: false,
        }
    }
}

/// Copy the given fragments into owned vectors.
fn copy_parts<I: Copy + DeepView>(p: &[&[I]]) -> (r: Vec<Vec<I>>)
    ensures
        r.deep_view() == p.deep_view(),
{
    let mut r: Vec<Vec<I>> = Vec::new();
    let mut i: usize = 0;
    while i < p.len()
        invariant
            i <= p@.len(),
            r@.len() == i,
            forall|j: int| 0 <= j < i ==> (#[trigger] r@[j])@ == p@[j]@,
        decreases p@.len() - i,
    {
        r.push(slice_to_vec(*slice_index_get(p, i)));
        i += 1;
    }
    proof {
        assert(r.deep_view() =~~= p.deep_view());
    }
    r
}

impl<I: Copy + DeepView> ClassOfSymbols<I> {
    /// Prepend enabled single elements.
    pub fn one_enable_push(&mut self, p: &[I])
        ensures
            final(self).one_enable@ == p@ + old(self).one_enable@,
            final(self).one_disable == old(self).one_disable,
            final(self).parts_enable == old(self).parts_enable,
            final(self).parts_disable == old(self).parts_disable,
            final(self).range_enable == old(self).range_enable,
            final(self).range_disable == old(self).range_disable,
            final(self).default_enable_one == old(self).default_enable_one,
    {
        let mut nv = slice_to_vec(p);
        nv.append(&mut self.one_enable);
        self.one_enable = nv;
    }

    /// Prepend disabled single elements.
    pub fn one_disable_push(&mut self, p: &[I])
        ensures
            final(self).one_disable@ == p@ + old(self).one_disable@,
            final(self).one_enable == old(self).one_enable,
            final(self).parts_enable == old(self).parts_enable,
            final(self).parts_disable == old(self).parts_disable,
            final(self).range_enable == old(self).range_enable,
            final(self).range_disable == old(self).range_disable,
            final(self).default_enable_one == old(self).default_enable_one,
    {
        let mut nv = slice_to_vec(p);
        nv.append(&mut self.one_disable);
        self.one_disable = nv;
    }

    /// Prepend enabled inclusive ranges.
    pub fn range_enable_push(&mut self, p: &[(I, I)])
        ensures
            final(self).range_enable@ == p@ + old(self).range_enable@,
            final(self).one_enable == old(self).one_enable,
            final(self).one_disable == old(self).one_disable,
            final(self).parts_enable == old(self).parts_enable,
            final(self).parts_disable == old(self).parts_disable,
            final(self).range_disable == old(self).range_disable,
            final(self).default_enable_one == old(self).default_enable_one,
    {
        let mut nv = slice_to_vec(p);
        nv.append(&mut self.range_enable);
        self.range_enable = nv;
    }

    /// Prepend disabled inclusive ranges.
    pub fn range_disable_push(&mut self, p: &[(I, I)])
        ensures
            final(self).range_disable@ == p@ + old(self).range_disable@,
            final(self).one_enable == old(self).one_enable,
            final(self).one_disable == old(self).one_disable,
            final(self).parts_enable == old(self).parts_enable,
            final(self).parts_disable == old(self).parts_disable,
            final(self).range_enable == old(self).range_enable,
            final(self).default_enable_one == old(self).default_enable_one,
    {
        let mut nv = slice_to_vec(p);
        nv.append(&mut self.range_disable);
        self.range_disable = nv;
    }

    /// Prepend enabled multi-element fragments.
    pub fn parts_enable_push(&mut self, p: &[&[I]])
        ensures
            final(self).parts_enable.deep_view() == p.deep_view() + old(
                self,
            ).parts_enable.deep_view(),
            final(self).one_enable == old(self).one_enable,
            final(self).one_disable == old(self).one_disable,
            final(self).parts_disable == old(self).parts_disable,
            final(self).range_enable == old(self).range_enable,
            final(self).range_disable == old(self).range_disable,
            final(self).default_enable_one == old(self).default_enable_one,
    {
        let ghost old_dv = self.parts_enable.deep_view();
        let mut nv = copy_parts(p);
        let ghost nv_dv = nv.deep_view();
        nv.append(&mut self.parts_enable);
        proof {
            assert(nv.deep_view() =~~= nv_dv + old_dv);
        }
        self.parts_enable = nv;
    }

    /// Prepend disabled multi-element fragments.
    pub fn parts_disable_push(&mut self, p: &[&[I]])
        ensures
            final(self).parts_disable.deep_view() == p.deep_view() + old(
                self,
            ).parts_disable.deep_view(),
            final(self).one_enable == old(self).one_enable,
            final(self).one_disable == old(self).one_disable,
            final(self).parts_enable == old(self).parts_enable,
            final(self).range_enable == old(self).range_enable,
            final(self).range_disable == old(self).range_disable,
            final(self).default_enable_one == old(self).default_enable_one,
    {
        let ghost old_dv = self.parts_disable.deep_view();
        let mut nv = copy_parts(p);
        let ghost nv_dv = nv.deep_view();
        nv.append(&mut self.parts_disable);
        proof {
            assert(nv.deep_view() =~~= nv_dv + old_dv);
        }
        self.parts_disable = nv;
    }

    /// Set the default policy for elements matching no explicit rule.
    pub fn default_enable_one(&mut self, b: bool)
        ensures
            final(self).default_enable_one == b,
            final(self).one_enable == old(self).one_enable,
            final(self).one_disable == old(self).one_disable,
            final(self).parts_enable == old(self).parts_enable,
            final(self).parts_disable == old(self).parts_disable,
            final(self).range_enable == old(self).range_enable,
            final(self).range_disable == old(self).range_disable,
    {
        self.default_enable_one = b;
    }
}

impl ClassOfSymbols<u8> {
    /// The mathematical content of this configuration.
    pub open spec fn model(&self) -> ClassModel {
        ClassModel {
            one_en: self.one_enable@,
            one_dis: self.one_disable@,
            parts_en: self.parts_enable.deep_view(),
            parts_dis: self.parts_disable.deep_view(),
            rng_en: self.range_enable@,
            rng_dis: self.range_disable@,
            dflt: self.default_enable_one,
        }
    }

    /// The decision at the head of `s`.
    fn step(&self, s: &[u8]) -> (k: usize)
        ensures
            match class_step(self.model(), s@) {
                ClassStep::Advance(kk) => k == kk && 1 <= kk <= s@.len(),
                ClassStep::Stop => k == 0,
            },
    {
        proof {
            lemma_first_en_part_le(self.model().parts_en, s@);
        }
        if s.len() == 0 {
            return 0;
        }
        let k = first_part_vecs(&self.parts_enable, s);
        if k >= 1 {
            return k;
        }
        if any_prefix_vecs(&self.parts_disable, s) {
            return 0;
        }
        let b = *slice_index_get(s, 0);
        if in_ranges_exec(self.range_enable.as_slice(), b) {
            return 1;
        }
        if in_ranges_exec(self.range_disable.as_slice(), b) {
            return 0;
        }
        if contains_byte(self.one_enable.as_slice(), b) {
            return 1;
        }
        if contains_byte(self.one_disable.as_slice(), b) {
            return 0;
        }
        if self.default_enable_one {
            1
        } else {
            0
        }
    }
}

impl<'a, 'b> Parser<'a, &'a [u8]> for &'b ClassOfSymbols<u8> {
    open spec fn wf(&self) -> bool {
        true
    }

    open spec fn spec_parse(&self, input: Seq<u8>) -> SpecResult<Seq<u8>> {
        let c = spec_class_len((*self).model(), input);
        if c > 0 {
            found(c, input.take(c as int))
        } else {
            fail_at(0)
        }
    }

    fn parse(&self, input: &'a [u8]) -> (r: ParseResult<'a, &'a [u8]>) {
        let ghost m = (*self).model();
        proof {
            assert(input@.skip(0) =~= input@);
            lemma_class_len_le(m, input@);
        }
        let mut new_input: &[u8] = input;
        loop
            invariant
                m == (*self).model(),
                new_input@.len() <= input@.len(),
                new_input@ == input@.skip(input@.len() - new_input@.len()),
                spec_class_len(m, input@) == input@.len() - new_input@.len() + spec_class_len(
                    m,
                    new_input@,
                ),
            decreases new_input@.len(),
        {
            let k = self.step(new_input);
            if k == 0 {
                proof {
                    assert(spec_class_len(m, new_input@) == 0);
                    assert(input@.skip(0) =~= input@);
                }
                let c = input.len() - new_input.len();
                if c == 0 {
                    return Err(PErr::new(input));
                }
                return Ok(split_at_revers(input, c));
            }
            proof {
                assert(new_input@.skip(k as int) =~= input@.skip(
                    input@.len() - (new_input@.len() - k),
                ));
            }
            new_input = slice_subrange(new_input, k, new_input.len());
        }
    }
}

/// `StaticClassOfSymbols`: the same universal parser with rule sets
/// borrowed for the whole program, so a configured class can live in a
/// constant context.
#[derive(Clone, Copy)]
pub struct StaticClassOfSymbols<I: 'static> {
    pub one_enable: &'static [I],
    pub one_disable: &'static [I],
    pub parts_enable: &'static [&'static [I]],
    pub parts_disable: &'static [&'static [I]],
    pub range_enable: &'static [(I, I)],
    pub range_disable: &'static [(I, I)],
    pub default_enable_one: bool,
}

impl<I: Copy + 'static> StaticClassOfSymbols<I> {
    /// An empty configuration: nothing enabled, nothing disabled.
    pub fn new() -> (r: Self)
        ensures
            r.one_enable@ == Seq::<I>::empty(),
            r.one_disable@ == Seq::<I>::empty(),
            r.parts_enable@ == Seq::<&'static [I]>::empty(),
            r.parts_disable@ == Seq::<&'static [I]>::empty(),
            r.range_enable@ == Seq::<(I, I)>::empty(),
            r.range_disable@ == Seq::<(I, I)>::empty(),
            r.default_enable_one == false,
    {
        let a: &'static [I; 0] = &[];
        let b: &'static [&'static [I]; 0] = &[];
        let c: &'static [(I, I); 0] = &[];
        let ones: &'static [I] = a.as_slice();
        let parts: &'static [&'static [I]] = b.as_slice();
        let ranges: &'static [(I, I)] = c.as_slice();
        proof {
            assert(ones@ =~= Seq::<I>::empty());
            assert(parts@ =~= Seq::<&'static [I]>::empty());
            assert(ranges@ =~= Seq::<(I, I)>::empty());
        }
        StaticClassOfSymbols {
            one_enable: ones,
            one_disable: ones,
            parts_enable: parts,
            parts_disable: parts,
            range_enable: ranges,
            range_disable: ranges,
            default_enable_one: false,
        }
    }

    /// Replace the enabled single elements.
    pub fn one_enable_set(self, p: &'static [I]) -> (r: Self)
        ensures
            r == (StaticClassOfSymbols { one_enable: p, ..self }),
    {
        StaticClassOfSymbols { one_enable: p, ..self }
    }

    /// Replace the disabled single elements.
    pub fn one_disable_set(self, p: &'static [I]) -> (r: Self)
        ensures
            r == (StaticClassOfSymbols { one_disable: p, ..self }),
    {
        StaticClassOfSymbols { one_disable: p, ..self }
    }

    /// Replace the enabled multi-element fragments.
    pub fn parts_enable_set(self, p: &'static [&'static [I]]) -> (r: Self)
        ensures
            r == (StaticClassOfSymbols { parts_enable: p, ..self }),
    {
        StaticClassOfSymbols { parts_enable: p, ..self }
    }

    /// Replace the disabled multi-element fragments.
    pub fn parts_disable_set(self, p: &'static [&'static [I]]) -> (r: Self)
        ensures
            r == (StaticClassOfSymbols { parts_disable: p, ..self }),
    {
        StaticClassOfSymbols { parts_disable: p, ..self }
    }

    /// Replace the enabled inclusive ranges.
    pub fn range_enable_set(self, p: &'static [(I, I)]) -> (r: Self)
        ensures
            r == (StaticClassOfSymbols { range_enable: p, ..self }),
    {
        StaticClassOfSymbols { range_enable: p, ..self }
    }

    /// Replace the disabled inclusive ranges.
    pub fn range_disable_set(self, p: &'static [(I, I)]) -> (r: Self)
        ensures
            r == (StaticClassOfSymbols { range_disable: p, ..self }),
    {
        StaticClassOfSymbols { range_disable: p, ..self }
    }

    /// Set the default policy for elements matching no explicit rule.
    pub fn default_enable_one(self, p: bool) -> (r: Self)
        ensures
            r == (StaticClassOfSymbols { default_enable_one: p, ..self }),
    {
        StaticClassOfSymbols { default_enable_one: p, ..self }
    }
}

impl StaticClassOfSymbols<u8> {
    /// The mathematical content of this configuration.
    pub open spec fn model(&self) -> ClassModel {
        ClassModel {
            one_en: self.one_enable@,
            one_dis: self.one_disable@,
            parts_en: self.parts_enable.deep_view(),
            parts_dis: self.parts_disable.deep_view(),
            rng_en: self.range_enable@,
            rng_dis: self.range_disable@,
            dflt: self.default_enable_one,
        }
    }

    /// The decision at the head of `s`.
    fn step(&self, s: &[u8]) -> (k: usize)
        ensures
            match class_step(self.model(), s@) {
                ClassStep::Advance(kk) => k == kk && 1 <= kk <= s@.len(),
                ClassStep::Stop => k == 0,
            },
    {
        proof {
            lemma_first_en_part_le(self.model().parts_en, s@);
        }
        if s.len() == 0 {
            return 0;
        }
        let k = first_part_slices(self.parts_enable, s);
        if k >= 1 {
            return k;
        }
        if any_prefix_slices(self.parts_disable, s) {
            return 0;
        }
        let b = *slice_index_get(s, 0);
        if in_ranges_exec(self.range_enable, b) {
            return 1;
        }
        if in_ranges_exec(self.range_disable, b) {
            return 0;
        }
        if contains_byte(self.one_enable, b) {
            return 1;
        }
        if contains_byte(self.one_disable, b) {
            return 0;
        }
        if self.default_enable_one {
            1
        } else {
            0
        }
    }
}

impl<'a, 'b> Parser<'a, &'a [u8]> for &'b StaticClassOfSymbols<u8> {
    open spec fn wf(&self) -> bool {
        true
    }

    open spec fn spec_parse(&self, input: Seq<u8>) -> SpecResult<Seq<u8>> {
        let c = spec_class_len((*self).model(), input);
        if c > 0 {
            found(c, input.take(c as int))
        } else {
            fail_at(0)
        }
    }

    fn parse(&self, input: &'a [u8]) -> (r: ParseResult<'a, &'a [u8]>) {
        let ghost m = (*self).model();
        proof {
            assert(input@.skip(0) =~= input@);
            lemma_class_len_le(m, input@);
        }
        let mut new_input: &[u8] = input;
        loop
            invariant
                m == (*self).model(),
                new_input@.len() <= input@.len(),
                new_input@ == input@.skip(input@.len() - new_input@.len()),
                spec_class_len(m, input@) == input@.len() - new_input@.len() + spec_class_len(
                    m,
                    new_input@,
                ),
            decreases new_input@.len(),
        {
            let k = self.step(new_input);
            if k == 0 {
                proof {
                    assert(spec_class_len(m, new_input@) == 0);
                    assert(input@.skip(0) =~= input@);
                }
                let c = input.len() - new_input.len();
                if c == 0 {
                    return Err(PErr::new(input));
                }
                return Ok(split_at_revers(input, c));
            }
            proof {
                assert(new_input@.skip(k as int) =~= input@.skip(
                    input@.len() - (new_input@.len() - k),
                ));
            }
            new_input = slice_subrange(new_input, k, new_input.len());
        }
    }
}

/// Whether `b` lies in some range of `rs`.
fn in_ranges_exec(rs: &[(u8, u8)], b: u8) -> (r: bool)
    ensures
        r == in_ranges(rs@, b),
{
    let mut i: usize = 0;
    while i < rs.len()
        invariant
            i <= rs@.len(),
            forall|j: int| 0 <= j < i ==> !((#[trigger] rs@[j]).0 <= b && b <= rs@[j].1),
        decreases rs@.len() - i,
    {
        let p: (u8, u8) = *slice_index_get(rs, i);
        if p.0 <= b && b <= p.1 {
            proof {
                assert(rs@[i as int].0 <= b && b <= rs@[i as int].1);
            }
            return true;
        }
        i += 1;
    }
    false
}

} // verus!
