//! The grammar of the language, as functions on the text that lies ahead.
//!
//! Every rule takes the cursor at which it starts and says either where it
//! ends and what it read, or how it fails. Alternatives are tried in the
//! order written, each from the place where the rule started; a sequence
//! fails with the failure of its first failing element.

use crate::ast::{ChipModel, ConnectionModel, LhsModel, PartModel, RhsModel, SliceModel};
use crate::error::{Expected, Failure, FailureKind, Fault, Rule, Token};
use crate::input::Cursor;
use crate::located::Loc;
use crate::text::{run_len, CharClass};
use vstd::prelude::*;

verus! {

/// What a rule makes of a text: the cursor behind what it read and the value,
/// or the failure.
pub type Parsed<V> = Result<(Cursor, V), Failure>;

/// The single failure of kind `kind` at the cursor `c`.
pub open spec fn fail(c: Cursor, kind: FailureKind, expected: Expected) -> Failure {
    Failure::Base(Fault { offset: c.offset, kind, expected })
}

/// The kind of failure where something that begins with a character was
/// expected: the source has ended, or the character ahead cannot begin it.
pub open spec fn lexical_kind(c: Cursor) -> FailureKind {
    if c.rest.len() == 0 {
        FailureKind::Incomplete
    } else {
        FailureKind::Lexical
    }
}

/// A failure of `outcome` leaves through `rule`, which began at `start`.
pub open spec fn in_rule<V>(rule: Rule, start: Cursor, outcome: Parsed<V>) -> Parsed<V> {
    match outcome {
        Ok(done) => Ok(done),
        Err(failure) => Err(Failure::Stack { base: Box::new(failure), offset: start.offset, rule }),
    }
}

/// The value of `outcome` with the offsets between which it was read, where
/// the rule started at `start`.
pub open spec fn located<V>(start: Cursor, outcome: Parsed<V>) -> Parsed<Loc<V>> {
    match outcome {
        Ok((end, value)) => Ok((end, Loc { value, start: start.offset, end: end.offset })),
        Err(failure) => Err(failure),
    }
}

/// The first of two outcomes that succeeded; where neither did, the failure
/// of both.
pub open spec fn either<V>(first: Parsed<V>, second: Parsed<V>) -> Parsed<V> {
    match first {
        Ok(done) => Ok(done),
        Err(first_failure) => match second {
            Ok(done) => Ok(done),
            Err(second_failure) => Err(
                Failure::Alt(Box::new(first_failure), Box::new(second_failure)),
            ),
        },
    }
}

/// Skips the blank space ahead, if any. This never fails.
pub open spec fn skip_white(c: Cursor) -> Cursor {
    c.advance(run_len(c.rest, CharClass::Whitespace))
}

/// Reads `token`, which must stand at the cursor exactly as it is spelled.
pub open spec fn token(c: Cursor, token: Token) -> Parsed<()> {
    if c.begins_with(token.text()) {
        Ok((c.advance(token.text().len()), ()))
    } else if c.rest.is_prefix_of(token.text()) {
        Err(fail(c, FailureKind::Incomplete, Expected::Token(token)))
    } else {
        Err(fail(c, FailureKind::Syntax, Expected::Token(token)))
    }
}

/// Reads `token` behind any blank space.
pub open spec fn spaced_token(c: Cursor, token: Token) -> Parsed<()> {
    self::token(skip_white(c), token)
}

/// Reads an identifier: the longest run of letters, numbers and underscores
/// ahead, which must not be empty and must not begin with a decimal digit.
pub open spec fn identifier(c: Cursor) -> Parsed<Seq<char>> {
    let n = run_len(c.rest, CharClass::Word);
    if run_len(c.rest, CharClass::Digit) > 0 || n == 0 {
        Err(fail(c, lexical_kind(c), Expected::Identifier))
    } else {
        Ok((c.advance(n), c.rest.take(n as int)))
    }
}

/// The number that a run of decimal digits writes.
pub open spec fn decimal(digits: Seq<char>) -> nat
    decreases digits.len(),
{
    if digits.len() == 0 {
        0
    } else {
        decimal(digits.drop_last()) * 10 + (digits.last() as nat - '0' as nat) as nat
    }
}

/// Reads an unsigned number: the longest run of decimal digits ahead, which
/// must not be empty and must write a number that fits in 32 bits.
pub open spec fn unsigned(c: Cursor) -> Parsed<u32> {
    let n = run_len(c.rest, CharClass::Digit);
    if n == 0 {
        Err(fail(c, lexical_kind(c), Expected::Number))
    } else if decimal(c.rest.take(n as int)) > u32::MAX {
        Err(fail(c, FailureKind::Lexical, Expected::NumberInRange))
    } else {
        Ok((c.advance(n), decimal(c.rest.take(n as int)) as u32))
    }
}

/// Reads `true` or `false`, tried in this order.
pub open spec fn boolean(c: Cursor) -> Parsed<bool> {
    either(
        match token(c, Token::True) {
            Ok((end, _)) => Ok((end, true)),
            Err(failure) => Err(failure),
        },
        match token(c, Token::False) {
            Ok((end, _)) => Ok((end, false)),
            Err(failure) => Err(failure),
        },
    )
}

/// Reads an unsigned number behind any blank space, with its place.
pub open spec fn spaced_unsigned(c: Cursor) -> Parsed<Loc<u32>> {
    located(skip_white(c), unsigned(skip_white(c)))
}

/// Reads the two bounds of a range of pins, with `..` between them.
pub open spec fn slice_range(c: Cursor) -> Parsed<(Loc<u32>, Loc<u32>)> {
    match spaced_unsigned(c) {
        Err(failure) => Err(failure),
        Ok((c1, low)) => match spaced_token(c1, Token::DotDot) {
            Err(failure) => Err(failure),
            Ok((c2, _)) => match spaced_unsigned(c2) {
                Err(failure) => Err(failure),
                Ok((c3, high)) => Ok((c3, (low, high))),
            },
        },
    }
}

/// Reads the number of a single pin, which is the range from it to itself.
pub open spec fn slice_single(c: Cursor) -> Parsed<(Loc<u32>, Loc<u32>)> {
    match spaced_unsigned(c) {
        Err(failure) => Err(failure),
        Ok((c1, pin)) => Ok((c1, (pin, pin))),
    }
}

/// Reads a name and, in square brackets, a range of pins or a single pin.
/// The range is tried first.
pub open spec fn bus_slice(c: Cursor) -> Parsed<SliceModel> {
    match located(c, identifier(c)) {
        Err(failure) => Err(failure),
        Ok((c1, name)) => match spaced_token(c1, Token::OpenBracket) {
            Err(failure) => Err(failure),
            Ok((c2, _)) => match either(slice_range(c2), slice_single(c2)) {
                Err(failure) => Err(failure),
                Ok((c3, bounds)) => match spaced_token(c3, Token::CloseBracket) {
                    Err(failure) => Err(failure),
                    Ok((c4, _)) => Ok((c4, SliceModel { name, low: bounds.0, high: bounds.1 })),
                },
            },
        },
    }
}

/// `bus_slice` as the left side of a connection.
pub open spec fn lhs_slice(c: Cursor) -> Parsed<LhsModel> {
    match bus_slice(c) {
        Ok((end, slice)) => Ok((end, LhsModel::Slice(slice))),
        Err(failure) => Err(failure),
    }
}

/// `identifier` as the left side of a connection.
pub open spec fn lhs_bus(c: Cursor) -> Parsed<LhsModel> {
    match identifier(c) {
        Ok((end, name)) => Ok((end, LhsModel::Bus(name))),
        Err(failure) => Err(failure),
    }
}

/// Reads the left side of a connection: some pins of a bus, or else a name.
/// A name alone would leave the brackets of a slice unread, so the slice is
/// tried first.
pub open spec fn lhs_connector(c: Cursor) -> Parsed<Loc<LhsModel>> {
    located(c, either(lhs_slice(c), lhs_bus(c)))
}

/// `boolean` as the right side of a connection.
pub open spec fn rhs_potential(c: Cursor) -> Parsed<RhsModel> {
    match boolean(c) {
        Ok((end, level)) => Ok((end, RhsModel::Potential(level))),
        Err(failure) => Err(failure),
    }
}

/// `bus_slice` as the right side of a connection.
pub open spec fn rhs_slice(c: Cursor) -> Parsed<RhsModel> {
    match bus_slice(c) {
        Ok((end, slice)) => Ok((end, RhsModel::Slice(slice))),
        Err(failure) => Err(failure),
    }
}

/// `identifier` as the right side of a connection.
pub open spec fn rhs_bus(c: Cursor) -> Parsed<RhsModel> {
    match identifier(c) {
        Ok((end, name)) => Ok((end, RhsModel::Bus(name))),
        Err(failure) => Err(failure),
    }
}

/// Reads the right side of a connection: a constant, or else some pins of a
/// bus, or else a name. `true` and `false` would pass for names, so the
/// constant is tried first.
pub open spec fn rhs_connector(c: Cursor) -> Parsed<Loc<RhsModel>> {
    located(c, either(rhs_potential(c), either(rhs_slice(c), rhs_bus(c))))
}

/// Reads a connection: a left side, `=` and a right side, each behind any
/// blank space.
pub open spec fn connection(c: Cursor) -> Parsed<ConnectionModel> {
    match lhs_connector(skip_white(c)) {
        Err(failure) => Err(failure),
        Ok((c1, lhs)) => match spaced_token(c1, Token::Equals) {
            Err(failure) => Err(failure),
            Ok((c2, _)) => match rhs_connector(skip_white(c2)) {
                Err(failure) => Err(failure),
                Ok((c3, rhs)) => Ok((c3, ConnectionModel { lhs, rhs })),
            },
        },
    }
}

/// Reads the connections that follow the first one, each behind a comma. It
/// stops in front of the first comma that no connection follows.
pub open spec fn more_connections(c: Cursor) -> (Cursor, Seq<ConnectionModel>)
    decreases c.rest.len(),
{
    match spaced_token(c, Token::Comma) {
        Err(_) => (c, Seq::empty()),
        Ok((c1, _)) => match connection(c1) {
            Err(_) => (c, Seq::empty()),
            Ok((c2, item)) => {
                if c2.rest.len() < c.rest.len() {
                    let more = more_connections(c2);
                    (more.0, seq![item] + more.1)
                } else {
                    (c, Seq::empty())
                }
            },
        },
    }
}

/// Reads connections with commas between them, none of them too. This never
/// fails: it reads as far as the text ahead is such a list.
pub open spec fn connection_list(c: Cursor) -> (Cursor, Seq<ConnectionModel>) {
    match connection(c) {
        Err(_) => (c, Seq::empty()),
        Ok((c1, item)) => {
            let more = more_connections(c1);
            (more.0, seq![item] + more.1)
        },
    }
}

/// Reads a pin name behind any blank space, with its place.
pub open spec fn pin(c: Cursor) -> Parsed<Loc<Seq<char>>> {
    located(skip_white(c), identifier(skip_white(c)))
}

/// Reads the pin names that follow the first one, each behind a comma. It
/// stops in front of the first comma that no name follows.
pub open spec fn more_pins(c: Cursor) -> (Cursor, Seq<Loc<Seq<char>>>)
    decreases c.rest.len(),
{
    match spaced_token(c, Token::Comma) {
        Err(_) => (c, Seq::empty()),
        Ok((c1, _)) => match pin(c1) {
            Err(_) => (c, Seq::empty()),
            Ok((c2, item)) => {
                if c2.rest.len() < c.rest.len() {
                    let more = more_pins(c2);
                    (more.0, seq![item] + more.1)
                } else {
                    (c, Seq::empty())
                }
            },
        },
    }
}

/// Reads pin names with commas between them, none of them too. This never
/// fails: where a comma is missing it stops, and what follows stays unread.
pub open spec fn pin_list(c: Cursor) -> (Cursor, Seq<Loc<Seq<char>>>) {
    match pin(c) {
        Err(_) => (c, Seq::empty()),
        Ok((c1, item)) => {
            let more = more_pins(c1);
            (more.0, seq![item] + more.1)
        },
    }
}

/// Reads a declaration of pins: the word `keyword`, the pin names, and `;`.
pub open spec fn pin_decl(c: Cursor, keyword: Token, rule: Rule) -> Parsed<Seq<Loc<Seq<char>>>> {
    in_rule(
        rule,
        c,
        match spaced_token(c, keyword) {
            Err(failure) => Err(failure),
            Ok((c1, _)) => {
                let pins = pin_list(c1);
                match spaced_token(pins.0, Token::Semicolon) {
                    Err(failure) => Err(failure),
                    Ok((c2, _)) => Ok((c2, pins.1)),
                }
            },
        },
    )
}

/// Reads a part: a chip name, its connections in round brackets, and `;`.
#[verifier::opaque]
pub open spec fn part(c: Cursor) -> Parsed<PartModel> {
    in_rule(
        Rule::Part,
        c,
        match pin(c) {
            Err(failure) => Err(failure),
            Ok((c1, name)) => match spaced_token(c1, Token::OpenParen) {
                Err(failure) => Err(failure),
                Ok((c2, _)) => {
                    let wires = connection_list(c2);
                    match spaced_token(wires.0, Token::CloseParen) {
                        Err(failure) => Err(failure),
                        Ok((c3, _)) => match spaced_token(c3, Token::Semicolon) {
                            Err(failure) => Err(failure),
                            Ok((c4, _)) => Ok((c4, PartModel { name, connections: wires.1 })),
                        },
                    }
                },
            },
        },
    )
}

/// Reads parts as long as one follows. This never fails.
pub open spec fn parts(c: Cursor) -> (Cursor, Seq<PartModel>)
    decreases c.rest.len(),
{
    match part(c) {
        Err(_) => (c, Seq::empty()),
        Ok((c1, item)) => {
            if c1.rest.len() < c.rest.len() {
                let more = parts(c1);
                (more.0, seq![item] + more.1)
            } else {
                (c, Seq::empty())
            }
        },
    }
}

/// Reads the head of a chip: the word `CHIP` and the chip's name.
pub open spec fn chip_head(c: Cursor) -> Parsed<Loc<Seq<char>>> {
    in_rule(
        Rule::ChipHead,
        c,
        match spaced_token(c, Token::Chip) {
            Err(failure) => Err(failure),
            Ok((c1, _)) => pin(c1),
        },
    )
}

/// What the body of a chip holds: input pins, output pins and parts.
pub type BodyModel = (Seq<Loc<Seq<char>>>, Seq<Loc<Seq<char>>>, Seq<PartModel>);

/// Reads the body of a chip: in curly brackets the input pins, the output
/// pins, the word `PARTS:` and the parts.
pub open spec fn chip_body(c: Cursor) -> Parsed<BodyModel> {
    in_rule(
        Rule::ChipBody,
        c,
        match spaced_token(c, Token::OpenBrace) {
            Err(failure) => Err(failure),
            Ok((c1, _)) => match pin_decl(c1, Token::In, Rule::InputPins) {
                Err(failure) => Err(failure),
                Ok((c2, inputs)) => match pin_decl(c2, Token::Out, Rule::OutputPins) {
                    Err(failure) => Err(failure),
                    Ok((c3, outputs)) => match spaced_token(c3, Token::Parts) {
                        Err(failure) => Err(failure),
                        Ok((c4, _)) => {
                            let listed = parts(c4);
                            match spaced_token(listed.0, Token::CloseBrace) {
                                Err(failure) => Err(failure),
                                Ok((c5, _)) => Ok((c5, (inputs, outputs, listed.1))),
                            }
                        },
                    },
                },
            },
        },
    )
}

/// Reads a chip: its head and its body.
pub open spec fn chip(c: Cursor) -> Parsed<ChipModel> {
    match chip_head(c) {
        Err(failure) => Err(failure),
        Ok((c1, name)) => match chip_body(c1) {
            Err(failure) => Err(failure),
            Ok((c2, body)) => Ok(
                (c2, ChipModel { name, in_decl: body.0, out_decl: body.1, parts: body.2 }),
            ),
        },
    }
}

/// Reads all that lies ahead: one chip, and behind it nothing but blank
/// space. Anything else behind the chip is a failure of its own.
pub open spec fn whole(c: Cursor) -> Result<ChipModel, Failure> {
    match chip(c) {
        Err(failure) => Err(failure),
        Ok((c1, read)) => {
            let end = skip_white(c1);
            if end.rest.len() == 0 {
                Ok(read)
            } else {
                Err(fail(end, FailureKind::Trailing, Expected::EndOfInput))
            }
        },
    }
}

/// Reads a whole source text and, where that fails, picks the one failure
/// to report.
pub open spec fn diagnosed(source: Seq<char>) -> Result<ChipModel, Fault> {
    match whole(Cursor::start(source)) {
        Ok(read) => Ok(read),
        Err(failure) => Err(failure.primary()),
    }
}

/// One more digit multiplies what was written so far by ten and adds the digit.
pub proof fn lemma_decimal_step(digits: Seq<char>, k: int)
    requires
        0 <= k < digits.len(),
    ensures
        decimal(digits.take(k + 1)) == decimal(digits.take(k)) * 10 + (digits[k] as nat
            - '0' as nat) as nat,
{
    assert(digits.take(k + 1).drop_last() =~= digits.take(k));
}

/// No prefix of a run of digits writes a greater number than the whole run.
pub proof fn lemma_decimal_grows(digits: Seq<char>, k: int)
    requires
        0 <= k <= digits.len(),
    ensures
        decimal(digits.take(k)) <= decimal(digits),
    decreases digits.len() - k,
{
    if k == digits.len() {
        assert(digits.take(k) =~= digits);
    } else {
        lemma_decimal_step(digits, k);
        lemma_decimal_grows(digits, k + 1);
    }
}

} // verus!
