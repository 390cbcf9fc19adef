//! Values that remember where in the source they were read.

use crate::input::Input;
use crate::text::byte_len;
use vstd::prelude::*;
use vstd::std_specs::cmp::{PartialEqSpec, PartialEqSpecImpl};
use vstd::string::*;

verus! {

broadcast use {vstd::string::group_string_axioms, vstd::slice::group_slice_axioms};

/// The first and the last byte offset of a piece of the source.
#[derive(Copy, Clone, PartialEq, Eq, Debug, Structural)]
pub struct Span {
    pub start: usize,
    pub end: usize,
}

impl Span {
    /// The span of a single byte offset.
    pub fn at(offset: usize) -> (span: Span)
        ensures
            span.start == offset,
            span.end == offset,
    {
        Span { start: offset, end: offset }
    }

    /// The span of the `size` bytes that end just before the offset `after`.
    /// Where fewer than `size` bytes lie before `after`, it begins at 0.
    pub fn ending_before(after: usize, size: usize) -> (span: Span)
        ensures
            span.start == (if after >= size {
                after - size
            } else {
                0
            }),
            span.end == (if after >= 1 {
                after - 1
            } else {
                0
            }),
    {
        Span {
            start: if after >= size {
                after - size
            } else {
                0
            },
            end: if after >= 1 {
                after - 1
            } else {
                0
            },
        }
    }
}

/// What a `Located` stands for: the value as a mathematical one, the byte
/// offset at which its text begins, and the offset just past its text.
pub struct Loc<V> {
    pub value: V,
    pub start: nat,
    pub end: nat,
}

impl<V> Loc<V> {
    /// The first and the last byte offset of the text. A value without text
    /// has the offset at which it was read for both.
    pub open spec fn span(self) -> (nat, nat) {
        if self.end > self.start {
            (self.start, (self.end - 1) as nat)
        } else {
            (self.start, self.start)
        }
    }
}

/// A value together with the byte offsets between which it was read.
#[derive(Copy, Clone, Debug)]
pub struct Located<T> {
    pub value: T,
    pub start: usize,
    pub end: usize,
}

impl<T: View> View for Located<T> {
    type V = Loc<T::V>;

    open spec fn view(&self) -> Loc<T::V> {
        Loc { value: self.value@, start: self.start as nat, end: self.end as nat }
    }
}

impl<T> Located<T> {
    /// The value itself.
    pub fn get(&self) -> (value: &T)
        ensures
            *value == self.value,
    {
        &self.value
    }

    /// The byte offset at which the value's text begins.
    pub fn offset(&self) -> (offset: usize)
        ensures
            offset == self.start,
    {
        self.start
    }

    /// The byte offset just past the value's text.
    pub fn end_offset(&self) -> (offset: usize)
        ensures
            offset == self.end,
    {
        self.end
    }

    /// The first and the last byte offset of the value's text. A value
    /// without text has the offset at which it was read for both.
    pub fn span(&self) -> (span: (usize, usize))
        ensures
            span.0 == self.start,
            span.1 == (if self.end > self.start {
                self.end - 1
            } else {
                self.start as int
            }),
    {
        if self.end > self.start {
            (self.start, self.end - 1)
        } else {
            (self.start, self.start)
        }
    }
}

impl<T: PartialEq> PartialEq for Located<T> {
    /// Two located values are equal when the values and both offsets are.
    fn eq(&self, other: &Located<T>) -> (equal: bool) {
        self.start == other.start && self.end == other.end && self.value == other.value
    }
}

impl<T: PartialEq> PartialEqSpecImpl for Located<T> {
    open spec fn obeys_eq_spec() -> bool {
        T::obeys_eq_spec()
    }

    open spec fn eq_spec(&self, other: &Located<T>) -> bool {
        self.start == other.start && self.end == other.end && self.value.eq_spec(&other.value)
    }
}

impl<T: PartialEq> PartialEq<T> for Located<T> {
    /// A located value equals a bare one when the values are equal, wherever
    /// it was read.
    fn eq(&self, other: &T) -> (equal: bool) {
        self.value == *other
    }
}

impl<T: PartialEq> PartialEqSpecImpl<T> for Located<T> {
    open spec fn obeys_eq_spec() -> bool {
        T::obeys_eq_spec()
    }

    open spec fn eq_spec(&self, other: &T) -> bool {
        self.value.eq_spec(other)
    }
}

/// Values that know how many bytes their text takes up.
pub trait CharsLen {
    /// The number of bytes of the value's text.
    spec fn text_len(&self) -> nat;

    /// The number of bytes of the value's text.
    fn chars_len(&self) -> (len: usize)
        ensures
            len == self.text_len(),
    ;
}

impl CharsLen for &str {
    open spec fn text_len(&self) -> nat {
        byte_len(self@)
    }

    fn chars_len(&self) -> (len: usize) {
        self.as_bytes().len()
    }
}

/// Runs the rule `f` at `input` and notes between which byte offsets it read.
/// Where `f` fails, so does this, with the failure of `f`.
pub fn locate<'s, O, E, F: FnOnce(Input<'s>) -> Result<(Input<'s>, O), E>>(
    f: F,
    input: Input<'s>,
) -> (r: Result<(Input<'s>, Located<O>), E>)
    requires
        f.requires((input,)),
    ensures
        match r {
            Ok((rest, located)) => f.ensures((input,), Ok((rest, located.value)))
                && located.start == input@.offset && located.end == rest@.offset,
            Err(e) => f.ensures((input,), Err(e)),
        },
{
    let start: usize = input.location_offset();
    match f(input) {
        Err(e) => Err(e),
        Ok((rest, value)) => {
            let end: usize = rest.location_offset();
            Ok((rest, Located { value, start, end }))
        },
    }
}

/// The rule `f` may read, from `input` on, a piece of the source that spells
/// `text`, and end at `rest`.
pub open spec fn reads_text<'s, E, F: FnOnce(Input<'s>) -> Result<(Input<'s>, Input<'s>), E>>(
    f: F,
    input: Input<'s>,
    rest: Input<'s>,
    text: Seq<char>,
) -> bool {
    exists|piece: Input<'s>|
        #![trigger f.ensures((input,), Ok((rest, piece)))]
        f.ensures((input,), Ok((rest, piece))) && piece@.rest == text
}

/// Runs the rule `f`, which hands back the piece of the source that it read,
/// and gives that piece as a string slice.
pub fn get_str<'s, E, F: FnOnce(Input<'s>) -> Result<(Input<'s>, Input<'s>), E>>(
    f: F,
    input: Input<'s>,
) -> (r: Result<(Input<'s>, &'s str), E>)
    requires
        f.requires((input,)),
    ensures
        r matches Ok(done) ==> reads_text(f, input, done.0, done.1@),
        r matches Err(e) ==> f.ensures((input,), Err(e)),
{
    let outcome = f(input);
    match outcome {
        Err(e) => Err(e),
        Ok((rest, piece)) => {
            let text: &'s str = piece.into_fragment();
            assert(f.ensures((input,), Ok((rest, piece))) && piece@.rest == text@);
            Ok((rest, text))
        },
    }
}

} // verus!
