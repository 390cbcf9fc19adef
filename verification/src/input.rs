//! The cursor that the grammar rules move over the source text.

use crate::text::{
    byte_len, lemma_byte_len_split, lemma_byte_len_step, lemma_prefix_is_boundary,
    lemma_same_bytes, run_len, utf8_width, CharClass,
};
use std::str::Chars;
use vstd::prelude::*;
use vstd::std_specs::iter::IteratorSpec;
use vstd::string::*;
use vstd::utf8::*;

verus! {

broadcast use {vstd::string::group_string_axioms, vstd::slice::group_slice_axioms};

/// What an `Input` stands for: the text that is still to be read, and the
/// byte offset of its first character in the whole source.
pub struct Cursor {
    pub rest: Seq<char>,
    pub offset: nat,
}

impl Cursor {
    /// The cursor at the start of the source `s`.
    pub open spec fn start(s: Seq<char>) -> Cursor {
        Cursor { rest: s, offset: 0 }
    }

    /// The cursor after `k` more characters were read.
    pub open spec fn advance(self, k: nat) -> Cursor {
        Cursor {
            rest: self.rest.skip(k as int),
            offset: self.offset + byte_len(self.rest.take(k as int)),
        }
    }

    /// Whether the text ahead begins with `text`.
    pub open spec fn begins_with(self, text: Seq<char>) -> bool {
        text.is_prefix_of(self.rest)
    }
}

/// A position in a source text: the part of the text that lies ahead,
/// borrowed from the source, and the byte offset at which it begins.
#[derive(Clone, Copy, Debug)]
pub struct Input<'s> {
    fragment: &'s str,
    offset: usize,
}

impl<'s> View for Input<'s> {
    type V = Cursor;

    closed spec fn view(&self) -> Cursor {
        Cursor { rest: self.fragment@, offset: self.offset as nat }
    }
}

impl<'s> Input<'s> {
    #[verifier::type_invariant]
    spec fn end_fits(self) -> bool {
        self.offset + byte_len(self.fragment@) <= usize::MAX
    }

    /// The cursor at the start of `source`.
    pub fn new(source: &'s str) -> (input: Input<'s>)
        ensures
            input@ == Cursor::start(source@),
    {
        // the length of the bytes is a `usize`, so the end of the text fits
        let bytes = source.as_bytes();
        let _len: usize = bytes.len();
        Input { fragment: source, offset: 0 }
    }

    /// The text that lies ahead.
    pub fn into_fragment(self) -> (fragment: &'s str)
        ensures
            fragment@ == self@.rest,
    {
        self.fragment
    }

    /// The byte offset in the source at which the text ahead begins.
    pub fn location_offset(&self) -> (offset: usize)
        ensures
            offset == self@.offset,
    {
        self.offset
    }

    /// Whether the whole source was read.
    pub fn at_end(&self) -> (b: bool)
        ensures
            b == (self@.rest.len() == 0),
    {
        self.fragment.is_empty()
    }

    /// Cuts the text ahead after `n` bytes, which are its first `k` characters.
    fn cut(self, n: usize, Ghost(k): Ghost<nat>) -> (r: (&'s str, Input<'s>))
        requires
            k <= self@.rest.len(),
            n == byte_len(self@.rest.take(k as int)),
        ensures
            r.0@ == self@.rest.take(k as int),
            r.1@ == self@.advance(k),
    {
        let ghost s = self.fragment@;
        proof {
            use_type_invariant(&self);
            lemma_prefix_is_boundary(s, k as int);
            lemma_byte_len_split(s, k as int);
        }
        let (head, tail) = self.fragment.split_at(n);
        proof {
            let bytes = encode_utf8(s);
            assert(bytes.subrange(0, n as int) =~= encode_utf8(s.take(k as int)));
            assert(bytes.subrange(n as int, bytes.len() as int) =~= encode_utf8(s.skip(k as int)));
            lemma_same_bytes(head@, s.take(k as int));
            lemma_same_bytes(tail@, s.skip(k as int));
        }
        (head, Input { fragment: tail, offset: self.offset + n })
    }

    /// Reads the longest run of characters of `class` that lies ahead, which
    /// may be empty.
    pub fn take_run(self, class: CharClass) -> (r: (&'s str, Input<'s>))
        ensures
            r.0@ == self@.rest.take(run_len(self@.rest, class) as int),
            r.1@ == self@.advance(run_len(self@.rest, class)),
    {
        let ghost s = self.fragment@;
        proof {
            use_type_invariant(&self);
        }
        let mut it: Chars<'s> = self.fragment.chars();
        let mut n: usize = 0;
        let ghost mut k: nat = 0;
        proof {
            assert(s.skip(0) =~= s);
            assert(s.take(0) =~= Seq::<char>::empty());
        }
        loop
            invariant_except_break
                it.obeys_prophetic_iter_laws(),
                it.remaining() == s.skip(k as int),
                run_len(s, class) == k + run_len(s.skip(k as int), class),
            invariant
                k <= s.len(),
                n == byte_len(s.take(k as int)),
                byte_len(s) <= usize::MAX,
            ensures
                run_len(s, class) == k,
            decreases s.len() - k,
        {
            let next: Option<char> = it.next();
            match next {
                Some(c) => {
                    if !class.contains(c) {
                        break ;
                    }
                    proof {
                        lemma_byte_len_step(s, k as int);
                        lemma_byte_len_split(s, k as int + 1);
                        assert(s.skip(k as int).drop_first() =~= s.skip(k as int + 1));
                    }
                    n = n + utf8_width(c);
                    proof {
                        k = k + 1;
                    }
                },
                None => {
                    break ;
                },
            }
        }
        self.cut(n, Ghost(k))
    }

    /// Reads `text`, which must stand at the cursor character for character.
    /// Where it does not, the result says whether the source ended inside
    /// `text` (`true`) or differs from it (`false`).
    pub fn strip_prefix(self, text: &str) -> (r: Result<Input<'s>, bool>)
        ensures
            match r {
                Ok(rest) => self@.begins_with(text@) && rest@ == self@.advance(text@.len()),
                Err(ended) => !self@.begins_with(text@) && ended == self@.rest.is_prefix_of(text@),
            },
    {
        let ghost s = self.fragment@;
        let ghost t = text@;
        proof {
            use_type_invariant(&self);
            assert(s.skip(0) =~= s);
            assert(t.skip(0) =~= t);
            assert(s.take(0) =~= Seq::<char>::empty());
            assert(t.take(0) =~= Seq::<char>::empty());
        }
        let mut ahead: Chars<'s> = self.fragment.chars();
        let mut wanted: Chars<'_> = text.chars();
        let mut n: usize = 0;
        let ghost mut k: nat = 0;
        loop
            invariant
                k <= s.len(),
                k <= t.len(),
                ahead.obeys_prophetic_iter_laws(),
                wanted.obeys_prophetic_iter_laws(),
                ahead.remaining() == s.skip(k as int),
                wanted.remaining() == t.skip(k as int),
                s.take(k as int) == t.take(k as int),
                n == byte_len(s.take(k as int)),
                byte_len(s) <= usize::MAX,
                s == self@.rest,
                t == text@,
            decreases t.len() - k,
        {
            let want: Option<char> = wanted.next();
            match want {
                None => {
                    proof {
                        assert(t.take(k as int) =~= t);
                        assert(s.subrange(0, t.len() as int) =~= s.take(k as int));
                    }
                    let (_, rest) = self.cut(n, Ghost(k));
                    return Ok(rest);
                },
                Some(w) => {
                    let have: Option<char> = ahead.next();
                    match have {
                        None => {
                            proof {
                                assert(s.take(k as int) =~= s);
                                assert(t.subrange(0, s.len() as int) =~= t.take(k as int));
                                assert(!t.is_prefix_of(s));
                            }
                            return Err(true);
                        },
                        Some(c) => {
                            if c != w {
                                proof {
                                    assert(s[k as int] != t[k as int]);
                                    if t.is_prefix_of(s) {
                                        assert(s.subrange(0, t.len() as int)[k as int] == t[k as int]);
                                    }
                                    if s.is_prefix_of(t) {
                                        assert(t.subrange(0, s.len() as int)[k as int] == s[k as int]);
                                    }
                                }
                                return Err(false);
                            }
                            proof {
                                lemma_byte_len_step(s, k as int);
                                lemma_byte_len_split(s, k as int + 1);
                                assert(s.skip(k as int).drop_first() =~= s.skip(k as int + 1));
                                assert(t.skip(k as int).drop_first() =~= t.skip(k as int + 1));
                                assert(s.take(k as int + 1) =~= s.take(k as int).push(s[k as int]));
                                assert(t.take(k as int + 1) =~= t.take(k as int).push(t[k as int]));
                            }
                            n = n + utf8_width(c);
                            proof {
                                k = k + 1;
                            }
                        },
                    }
                },
            }
        }
    }
}

/// Whether two texts are the same, character for character.
pub fn same_text(a: &str, b: &str) -> (same: bool)
    ensures
        same == (a@ == b@),
{
    match Input::new(a).strip_prefix(b) {
        Ok(rest) => {
            let whole = rest.at_end();
            proof {
                if whole {
                    assert(a@ =~= b@);
                }
            }
            whole
        },
        Err(_) => {
            proof {
                if a@ == b@ {
                    assert(a@.subrange(0, b@.len() as int) =~= b@);
                }
            }
            false
        },
    }
}

} // verus!
