//! The error and result model.
//!
//! A failure owns the unconsumed input slice at the point of failure, an
//! ordered stack of context messages (outermost pushed last), and a flag
//! selecting text rendering. `SpecResult` is the specification-level
//! counterpart of a parse result: it records how many elements a parse
//! consumed and the produced value, or the failure position and context.

use vstd::prelude::*;

verus! {

/// A context message attached to a parse failure.
#[derive(Debug, Clone)]
pub enum Msg<'a> {
    Str(&'a str),
    Owned(String),
}

impl<'a> DeepView for Msg<'a> {
    type V = Seq<char>;

    open spec fn deep_view(&self) -> Seq<char> {
        match self {
            Msg::Str(s) => s@,
            Msg::Owned(s) => s@,
        }
    }
}

/// Error type for parsers: the unconsumed input, the context-message
/// stack, and the rendering-mode flag set by `strerr`.
#[derive(Debug, Clone)]
pub struct PErr<'a> {
    pub input: &'a [u8],
    pub user_msg: Vec<Msg<'a>>,
    pub to_srt: bool,
}

/// The specification-level view of a `PErr`.
pub struct PErrView {
    pub input: Seq<u8>,
    pub msgs: Seq<Seq<char>>,
    pub to_str: bool,
}

impl<'a> View for PErr<'a> {
    type V = PErrView;

    open spec fn view(&self) -> PErrView {
        PErrView { input: self.input@, msgs: self.user_msg.deep_view(), to_str: self.to_srt }
    }
}

impl<'a> PErr<'a> {
    /// Constructor: a bare failure at `input`, with no context messages.
    pub fn new(input: &'a [u8]) -> (e: Self)
        ensures
            e@ == (PErrView { input: input@, msgs: Seq::<Seq<char>>::empty(), to_str: false }),
    {
        let e = PErr { input, user_msg: Vec::new(), to_srt: false };
        proof {
            assert(e.user_msg.deep_view() =~= Seq::<Seq<char>>::empty());
        }
        e
    }

    /// Select text rendering for this failure.
    pub fn fmt_str(self) -> (e: Self)
        ensures
            e@ == (PErrView { input: self@.input, msgs: self@.msgs, to_str: true }),
    {
        let mut e = self;
        e.to_srt = true;
        e
    }

    /// Push one context message onto the stack (outermost last).
    pub fn user_msg_push(self, m: Msg<'a>) -> (e: Self)
        ensures
            e@ == (PErrView {
                input: self@.input,
                msgs: self@.msgs.push(m.deep_view()),
                to_str: self@.to_str,
            }),
    {
        let ghost msgs0 = self.user_msg.deep_view();
        let ghost mv = m.deep_view();
        let mut e = self;
        e.user_msg.push(m);
        proof {
            assert(e.user_msg.deep_view() =~= msgs0.push(mv));
        }
        e
    }
}

impl<'a> Default for PErr<'a> {
    fn default() -> (e: Self)
        ensures
            e@ == (PErrView { input: Seq::<u8>::empty(), msgs: Seq::<Seq<char>>::empty(), to_str: false }),
    {
        let a: &[u8; 0] = &[];
        let e = PErr { input: a.as_slice(), user_msg: Vec::new(), to_srt: false };
        proof {
            assert(e.input@ =~= Seq::<u8>::empty());
            assert(e.user_msg.deep_view() =~= Seq::<Seq<char>>::empty());
        }
        e
    }
}

/// Equality on errors compares only the unconsumed input.
impl<'a> PartialEq for PErr<'a> {
    fn eq(&self, other: &Self) -> (r: bool) {
        eq_bytes(self.input, other.input)
    }
}

impl<'a> vstd::std_specs::cmp::PartialEqSpecImpl for PErr<'a> {
    open spec fn obeys_eq_spec() -> bool {
        true
    }

    open spec fn eq_spec(&self, other: &Self) -> bool {
        self.input@ == other.input@
    }
}

/// Byte-slice equality, element by element.
pub fn eq_bytes(a: &[u8], b: &[u8]) -> (r: bool)
    ensures
        r == (a@ == b@),
{
    if a.len() != b.len() {
        proof {
            assert(a@.len() != b@.len());
        }
        return false;
    }
    let mut i: usize = 0;
    while i < a.len()
        invariant
            i <= a.len(),
            a@.len() == b@.len(),
            forall|j: int| 0 <= j < i ==> a@[j] == b@[j],
        decreases a.len() - i,
    {
        if a[i] != b[i] {
            return false;
        }
        i += 1;
    }
    proof {
        assert(a@ =~= b@);
    }
    true
}

/// The result of a parse: the remaining input suffix and the produced
/// value, or a failure.
pub type ParseResult<'a, O> = Result<(&'a [u8], O), PErr<'a>>;

/// The specification-level outcome of a parse over a given input.
pub enum SpecResult<V> {
    Found { used: nat, val: V },
    Failed { pos: nat, msgs: Seq<Seq<char>>, to_str: bool },
}

/// A success consuming `used` elements.
pub open spec fn found<V>(used: nat, val: V) -> SpecResult<V> {
    SpecResult::Found { used, val }
}

/// A bare failure at offset `pos`, with no context messages.
pub open spec fn fail_at<V>(pos: nat) -> SpecResult<V> {
    SpecResult::Failed { pos, msgs: Seq::empty(), to_str: false }
}

/// How an executable parse result realizes a specification-level outcome
/// over the input it was run on: on success the remaining input is the
/// suffix of `input` past the consumed prefix and the value matches; on
/// failure the error owns the suffix at the failure position and carries
/// exactly the specified context stack and rendering flag.
pub open spec fn res_matches<'a, O: DeepView>(
    input: Seq<u8>,
    s: SpecResult<O::V>,
    r: ParseResult<'a, O>,
) -> bool {
    match r {
        Result::Ok((rem, v)) => {
            &&& s matches SpecResult::Found { used, val } && used <= input.len()
                && rem@ == input.skip(used as int) && v.deep_view() == val
        },
        Result::Err(e) => {
            &&& s matches SpecResult::Failed { pos, msgs, to_str } && pos <= input.len()
                && e@.input == input.skip(pos as int) && e@.msgs == msgs && e@.to_str == to_str
        },
    }
}

/// A specification-level outcome shifted forward by `off` positions: the
/// outcome of running a parser on `input.skip(off)`, seen from `input`.
pub open spec fn lift_res<V>(s: SpecResult<V>, off: nat) -> SpecResult<V> {
    match s {
        SpecResult::Found { used, val } => SpecResult::Found { used: (used + off) as nat, val },
        SpecResult::Failed { pos, msgs, to_str } => SpecResult::Failed {
            pos: (pos + off) as nat,
            msgs,
            to_str,
        },
    }
}

/// Dropping `a` elements and then `b` more drops `a + b`.
pub proof fn lemma_skip_skip(s: Seq<u8>, a: int, b: int)
    requires
        0 <= a,
        0 <= b,
        a + b <= s.len(),
    ensures
        s.skip(a).skip(b) == s.skip(a + b),
{
    assert(s.skip(a).skip(b) =~= s.skip(a + b));
}

/// The deep view of a byte slice is its plain view.
pub broadcast proof fn bytes_deep_view(s: &[u8])
    ensures
        #[trigger] s.deep_view() == s@,
{
    assert(s.deep_view() =~= s@);
}

} // verus!
