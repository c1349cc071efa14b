//! The streaming scanner: bytes in, one classified token at a time out.
//!
//! The scanner does no reading of its own. Whoever owns the byte source hands
//! it one [`Input`] at a time through [`ParseFloatIterator::feed`] and gets a
//! [`Step`] back: either the scanner needs another input, or it has an element
//! of the output sequence, or the sequence is over for good.

use arrayvec::ArrayVec;
use vstd::prelude::*;
use vstd::utf8::{decode_utf8, valid_utf8};

use crate::literal::{is_float_literal, is_float_literal_bytes};

verus! {

/// How many bytes of one token are kept for conversion: twice the number of
/// decimal digits that a 64-bit float holds exactly (15). A longer token is
/// refused rather than stored, so that megabytes of digits with no
/// whitespace cost no memory.
pub const PARSE_CAPACITY: usize = 30;

/// `arrayvec::ArrayVec`, the fixed-capacity token buffer. Opaque here: what
/// it holds is `buffered`, as the wrappers below state.
#[verifier::external_type_specification]
#[verifier::external_body]
#[verifier::reject_recursive_types(T)]
pub struct ExArrayVec<T, const CAP: usize>(ArrayVec<T, CAP>);

/// The bytes held by a token buffer, in order.
pub uninterp spec fn buffered(b: ArrayVec<u8, PARSE_CAPACITY>) -> Seq<u8>;

/// Relies on `ArrayVec::new`: a new vector holds nothing.
#[verifier::external_body]
fn empty_buffer() -> (r: ArrayVec<u8, PARSE_CAPACITY>)
    ensures
        buffered(r) == Seq::<u8>::empty(),
{
    ArrayVec::new()
}

/// Relies on `ArrayVec::len`: the number of bytes held.
#[verifier::external_body]
fn buffer_len(b: &ArrayVec<u8, PARSE_CAPACITY>) -> (r: usize)
    ensures
        r == buffered(*b).len(),
{
    b.len()
}

/// Relies on `ArrayVec::try_push`: below capacity the byte is appended and
/// `Ok` returned; at capacity nothing changes and `Err` is returned.
#[verifier::external_body]
fn buffer_try_push(b: &mut ArrayVec<u8, PARSE_CAPACITY>, x: u8) -> (r: bool)
    ensures
        buffered(*old(b)).len() < PARSE_CAPACITY ==> r && buffered(*final(b)) == buffered(*old(b)).push(x),
        buffered(*old(b)).len() >= PARSE_CAPACITY ==> !r && buffered(*final(b)) == buffered(*old(b)),
{
    b.try_push(x).is_ok()
}

/// Relies on `ArrayVec::as_slice`: the bytes held, in order.
#[verifier::external_body]
fn buffer_bytes(b: &ArrayVec<u8, PARSE_CAPACITY>) -> (r: Vec<u8>)
    ensures
        r@ == buffered(*b),
{
    b.as_slice().to_vec()
}

/// Relies on `std::str::from_utf8`: it succeeds exactly on valid UTF-8, and
/// the text then holds the characters that the bytes encode.
#[verifier::external_body]
fn decode<'a>(b: &'a [u8]) -> (r: Option<&'a str>)
    ensures
        r is Some <==> valid_utf8(b@),
        r is Some ==> r->Some_0@ == decode_utf8(b@),
{
    std::str::from_utf8(b).ok()
}

/// What the byte source hands the scanner.
#[derive(Debug)]
pub enum Input {
    /// The next byte.
    Byte(u8),
    /// Reading failed; the text describes the failure.
    Failed(String),
    /// The source is exhausted.
    End,
}

/// Why a token, or the read that should have produced it, failed.
#[derive(Debug)]
pub enum ParseFloatIteratorError {
    /// Reading the source failed.
    Io(String),
    /// The token ran past [`PARSE_CAPACITY`] bytes; `input` holds the bytes
    /// collected before that.
    TooBig { input: Vec<u8> },
    /// The token's bytes, which are not UTF-8.
    NotUtf8 { bytes: Vec<u8> },
    /// The token is text but not a decimal floating-point literal.
    ParseFloat { text: String },
}

/// The scanner's answer to one input.
#[derive(Debug)]
pub enum Step {
    /// No element yet: hand over the next input.
    Pending,
    /// The next element: the text of a literal, or an error.
    Item(Result<String, ParseFloatIteratorError>),
    /// The sequence is over, now and for every later input.
    Finished,
}

/// An element of the output sequence, as a value.
pub enum Outcome {
    Number(Seq<char>),
    Io(Seq<char>),
    TooBig(Seq<u8>),
    NotUtf8(Seq<u8>),
    Invalid(Seq<char>),
}

/// A [`Step`], as a value.
pub enum Event {
    Pending,
    Item(Outcome),
    Finished,
}

/// The scanner's state, as a value: the bytes of the token in progress, and
/// whether the sequence has ended.
pub struct ScanState {
    pub pending: Seq<u8>,
    pub done: bool,
}

pub open spec fn outcome_of(e: Result<String, ParseFloatIteratorError>) -> Outcome {
    match e {
        Ok(s) => Outcome::Number(s@),
        Err(ParseFloatIteratorError::Io(m)) => Outcome::Io(m@),
        Err(ParseFloatIteratorError::TooBig { input }) => Outcome::TooBig(input@),
        Err(ParseFloatIteratorError::NotUtf8 { bytes }) => Outcome::NotUtf8(bytes@),
        Err(ParseFloatIteratorError::ParseFloat { text }) => Outcome::Invalid(text@),
    }
}

impl View for Step {
    type V = Event;

    open spec fn view(&self) -> Event {
        match self {
            Step::Pending => Event::Pending,
            Step::Item(e) => Event::Item(outcome_of(*e)),
            Step::Finished => Event::Finished,
        }
    }
}

/// ASCII whitespace: space, tab, line feed, form feed, carriage return.
pub open spec fn is_space(b: u8) -> bool {
    b == 0x20 || b == 0x09 || b == 0x0a || b == 0x0c || b == 0x0d
}

/// Whether `b` is ASCII whitespace.
pub fn is_ascii_space(b: u8) -> (r: bool)
    ensures
        r == is_space(b),
{
    b == 0x20 || b == 0x09 || b == 0x0a || b == 0x0c || b == 0x0d
}

/// The element that a complete token yields.
pub open spec fn token_outcome(t: Seq<u8>) -> Outcome {
    if !valid_utf8(t) {
        Outcome::NotUtf8(t)
    } else if is_float_literal(t) {
        Outcome::Number(decode_utf8(t))
    } else {
        Outcome::Invalid(decode_utf8(t))
    }
}

/// The state with no token in progress.
pub open spec fn cleared(st: ScanState) -> ScanState {
    ScanState { pending: Seq::empty(), ..st }
}

/// One move of the scanner: the state after `input`, and what it answers.
pub open spec fn step(st: ScanState, input: Input) -> (ScanState, Event) {
    if st.done {
        (st, Event::Finished)
    } else {
        match input {
            Input::Byte(b) => if is_space(b) {
                if st.pending.len() == 0 {
                    (st, Event::Pending)
                } else {
                    (cleared(st), Event::Item(token_outcome(st.pending)))
                }
            } else if st.pending.len() < PARSE_CAPACITY {
                (ScanState { pending: st.pending.push(b), ..st }, Event::Pending)
            } else {
                (cleared(st), Event::Item(Outcome::TooBig(st.pending)))
            },
            Input::Failed(m) => (cleared(st), Event::Item(Outcome::Io(m@))),
            Input::End => if st.pending.len() == 0 {
                (ScanState { done: true, ..st }, Event::Finished)
            } else {
                (cleared(st), Event::Item(token_outcome(st.pending)))
            },
        }
    }
}

/// The element for a complete token: its text if it is a decimal
/// floating-point literal, otherwise the reason it is not.
pub fn classify(token: Vec<u8>) -> (r: Result<String, ParseFloatIteratorError>)
    ensures
        outcome_of(r) == token_outcome(token@),
{
    match decode(token.as_slice()) {
        None => Err(ParseFloatIteratorError::NotUtf8 { bytes: token }),
        Some(text) => {
            let text = text.to_owned();
            if is_float_literal_bytes(token.as_slice()) {
                Ok(text)
            } else {
                Err(ParseFloatIteratorError::ParseFloat { text })
            }
        },
    }
}

/// Turns a byte stream into a sequence of decimal literals, one
/// whitespace-separated token at a time.
pub struct ParseFloatIterator {
    buffer: ArrayVec<u8, PARSE_CAPACITY>,
    done: bool,
}

impl View for ParseFloatIterator {
    type V = ScanState;

    closed spec fn view(&self) -> ScanState {
        ScanState { pending: buffered(self.buffer), done: self.done }
    }
}

impl ParseFloatIterator {
    /// The token in progress fits the buffer and holds no whitespace, and an
    /// ended sequence has no token in progress.
    pub open spec fn wf(&self) -> bool {
        &&& self@.pending.len() <= PARSE_CAPACITY
        &&& forall|i: int| 0 <= i < self@.pending.len() ==> !is_space(#[trigger] self@.pending[i])
        &&& self@.done ==> self@.pending.len() == 0
    }

    /// A scanner at the start of a stream.
    pub fn new() -> (r: Self)
        ensures
            r.wf(),
            r@ == (ScanState { pending: Seq::empty(), done: false }),
    {
        ParseFloatIterator { buffer: empty_buffer(), done: false }
    }

    /// Ends the token in progress and classifies it.
    fn finish_token(&mut self) -> (r: Result<String, ParseFloatIteratorError>)
        ensures
            final(self)@ == cleared(old(self)@),
            outcome_of(r) == token_outcome(old(self)@.pending),
    {
        let token = buffer_bytes(&self.buffer);
        self.buffer = empty_buffer();
        classify(token)
    }

    /// Hands the scanner one input and returns its answer.
    pub fn feed(&mut self, input: Input) -> (r: Step)
        requires
            old(self).wf(),
        ensures
            final(self).wf(),
            (final(self)@, r@) == step(old(self)@, input),
    {
        if self.done {
            return Step::Finished;
        }
        match input {
            Input::Byte(b) => {
                if is_ascii_space(b) {
                    if buffer_len(&self.buffer) == 0 {
                        Step::Pending
                    } else {
                        Step::Item(self.finish_token())
                    }
                } else if buffer_try_push(&mut self.buffer, b) {
                    Step::Pending
                } else {
                    let input = buffer_bytes(&self.buffer);
                    self.buffer = empty_buffer();
                    Step::Item(Err(ParseFloatIteratorError::TooBig { input }))
                }
            },
            Input::Failed(message) => {
                self.buffer = empty_buffer();
                Step::Item(Err(ParseFloatIteratorError::Io(message)))
            },
            Input::End => {
                if buffer_len(&self.buffer) == 0 {
                    self.done = true;
                    Step::Finished
                } else {
                    Step::Item(self.finish_token())
                }
            },
        }
    }
}

} // verus!
