//! What holds of the lexical rules on every text.

use crate::error::{Expected, FailureKind};
use crate::grammar::{fail, identifier, pin, skip_white};
use crate::input::Cursor;
use crate::text::{
    byte_len, is_ascii_letter, is_digit, is_word, lemma_byte_len_ascii, lemma_run, lemma_run_is,
    run_len, CharClass,
};
use vstd::prelude::*;

verus! {

/// A name as the language takes it: not empty, made of letters, numbers and
/// underscores, and not beginning with a decimal digit.
pub open spec fn is_name(s: Seq<char>) -> bool {
    &&& s.len() > 0
    &&& !is_digit(s[0])
    &&& forall|i: int| 0 <= i < s.len() ==> is_word(#[trigger] s[i])
}

/// A name in the narrow sense: a letter of the basic Latin alphabet or an
/// underscore, followed by such letters, decimal digits and underscores.
pub open spec fn is_plain_name(s: Seq<char>) -> bool {
    &&& s.len() > 0
    &&& (is_ascii_letter(s[0]) || s[0] == '_')
    &&& forall|i: int|
        0 <= i < s.len() ==> is_ascii_letter(#[trigger] s[i]) || is_digit(s[i]) || s[i] == '_'
}

/// A name in the narrow sense is a name.
pub proof fn lemma_plain_name_is_name(s: Seq<char>)
    requires
        is_plain_name(s),
    ensures
        is_name(s),
{
    assert forall|i: int| 0 <= i < s.len() implies is_word(#[trigger] s[i]) by {
        assert(is_ascii_letter(s[i]) || is_digit(s[i]) || s[i] == '_');
    }
}

/// Where a name lies ahead and no character that could lengthen it follows,
/// `identifier` reads exactly the name.
pub proof fn lemma_identifier_reads_name(c: Cursor, name: Seq<char>, behind: Seq<char>)
    requires
        is_name(name),
        c.rest == name + behind,
        behind.len() > 0 ==> !is_word(behind[0]),
    ensures
        identifier(c) == Ok::<(Cursor, Seq<char>), crate::error::Failure>(
            (c.advance(name.len()), name),
        ),
        c.advance(name.len()).rest == behind,
{
    let s = c.rest;
    assert forall|i: int| 0 <= i < name.len() implies CharClass::Word.holds(#[trigger] s[i]) by {
        assert(s[i] == name[i]);
    }
    if name.len() < s.len() {
        assert(s[name.len() as int] == behind[0]);
    }
    lemma_run_is(s, CharClass::Word, name.len());
    lemma_run(s, CharClass::Digit);
    assert(s[0] == name[0]);
    assert(s.take(name.len() as int) =~= name);
    assert(s.skip(name.len() as int) =~= behind);
}

/// `identifier` reads the whole of any text that is a name in the narrow
/// sense, and ends as many bytes further as the name has characters.
pub proof fn lemma_identifier_reads_plain_name(name: Seq<char>, offset: nat)
    requires
        is_plain_name(name),
    ensures
        identifier(Cursor { rest: name, offset }) == Ok::<
            (Cursor, Seq<char>),
            crate::error::Failure,
        >((Cursor { rest: Seq::empty(), offset: offset + name.len() }, name)),
{
    let c = Cursor { rest: name, offset };
    lemma_plain_name_is_name(name);
    assert(name + Seq::<char>::empty() =~= name);
    lemma_identifier_reads_name(c, name, Seq::empty());
    assert(name.take(name.len() as int) =~= name);
    assert forall|i: int| 0 <= i < name.len() implies name[i] <= '\u{7f}' by {
        assert(is_ascii_letter(name[i]) || is_digit(name[i]) || name[i] == '_');
    }
    lemma_byte_len_ascii(name);
}

/// `identifier` refuses every text that begins with a decimal digit.
pub proof fn lemma_identifier_refuses_digits(c: Cursor)
    requires
        c.rest.len() > 0,
        is_digit(c.rest[0]),
    ensures
        identifier(c) == Err::<(Cursor, Seq<char>), crate::error::Failure>(
            fail(c, FailureKind::Lexical, Expected::Identifier),
        ),
{
    lemma_run(c.rest, CharClass::Digit);
}

/// What `identifier` reads is a name, and the text goes on with a character
/// that could not lengthen it.
pub proof fn lemma_identifier_gives_name(c: Cursor)
    ensures
        identifier(c) matches Ok((end, name)) ==> is_name(name) && c.rest == name + end.rest && (
        end.rest.len() > 0 ==> !is_word(end.rest[0])),
{
    lemma_run(c.rest, CharClass::Word);
    lemma_run(c.rest, CharClass::Digit);
    if let Ok((end, name)) = identifier(c) {
        let n = run_len(c.rest, CharClass::Word);
        assert(c.rest =~= name + end.rest);
        assert(name[0] == c.rest[0]);
        assert forall|i: int| 0 <= i < name.len() implies is_word(#[trigger] name[i]) by {
            assert(name[i] == c.rest[i]);
        }
        if end.rest.len() > 0 {
            assert(end.rest[0] == c.rest[n as int]);
        }
    }
}

/// The place of a name that was read: its text stands in the source from
/// its first offset on, behind any blank space that was skipped, and takes
/// up exactly the bytes up to its second offset, where reading goes on.
pub proof fn lemma_name_lies_where_it_says(c: Cursor)
    ensures
        pin(c) matches Ok((end, read)) ==> {
            &&& read.start == skip_white(c).offset
            &&& read.end == read.start + byte_len(read.value)
            &&& read.end == end.offset
            &&& skip_white(c).rest == read.value + end.rest
        },
{
    lemma_identifier_gives_name(skip_white(c));
}

} // verus!
