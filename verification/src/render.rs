//! The source text of a chip, laid out in one fixed way.
//!
//! Every function here says what is written for one piece of the tree in
//! front of the text `rest` that follows it.

use crate::error::Token;
use crate::shape::{ChipShape, ConnectionShape, LhsShape, PartShape, RhsShape, SliceShape};
use vstd::prelude::*;

verus! {

/// The character of the decimal digit `d`.
pub open spec fn digit_char(d: nat) -> char {
    if d == 0 {
        '0'
    } else if d == 1 {
        '1'
    } else if d == 2 {
        '2'
    } else if d == 3 {
        '3'
    } else if d == 4 {
        '4'
    } else if d == 5 {
        '5'
    } else if d == 6 {
        '6'
    } else if d == 7 {
        '7'
    } else if d == 8 {
        '8'
    } else {
        '9'
    }
}

/// The decimal digits that write `n`, without leading zeros.
pub open spec fn digits_of(n: nat) -> Seq<char>
    decreases n,
{
    if n < 10 {
        seq![digit_char(n)]
    } else {
        digits_of(n / 10).push(digit_char(n % 10))
    }
}

/// One blank.
pub open spec fn blank() -> Seq<char> {
    seq![' ']
}

/// A line break and the four blanks that begin a line inside a chip.
pub open spec fn new_line() -> Seq<char> {
    seq!['\n', ' ', ' ', ' ', ' ']
}

/// A bare line break.
pub open spec fn line_end() -> Seq<char> {
    seq!['\n']
}

/// `name[low..high]`.
pub open spec fn render_slice(slice: SliceShape, rest: Seq<char>) -> Seq<char> {
    slice.name + (Token::OpenBracket.text() + (digits_of(slice.low as nat) + (Token::DotDot.text()
        + (digits_of(slice.high as nat) + (Token::CloseBracket.text() + rest)))))
}

/// The left side of a connection.
pub open spec fn render_lhs(lhs: LhsShape, rest: Seq<char>) -> Seq<char> {
    match lhs {
        LhsShape::Bus(name) => name + rest,
        LhsShape::Slice(slice) => render_slice(slice, rest),
    }
}

/// The right side of a connection.
pub open spec fn render_rhs(rhs: RhsShape, rest: Seq<char>) -> Seq<char> {
    match rhs {
        RhsShape::Bus(name) => name + rest,
        RhsShape::Slice(slice) => render_slice(slice, rest),
        RhsShape::Potential(level) => if level {
            Token::True.text() + rest
        } else {
            Token::False.text() + rest
        },
    }
}

/// `lhs=rhs`.
pub open spec fn render_connection(wire: ConnectionShape, rest: Seq<char>) -> Seq<char> {
    render_lhs(wire.lhs, Token::Equals.text() + render_rhs(wire.rhs, rest))
}

/// The connections behind the first one, each behind a comma and a blank.
pub open spec fn render_more_connections(wires: Seq<ConnectionShape>, rest: Seq<char>) -> Seq<
    char,
>
    decreases wires.len(),
{
    if wires.len() == 0 {
        rest
    } else {
        Token::Comma.text() + (blank() + render_connection(
            wires[0],
            render_more_connections(wires.drop_first(), rest),
        ))
    }
}

/// The connections of a part, with a comma and a blank between them.
pub open spec fn render_connections(wires: Seq<ConnectionShape>, rest: Seq<char>) -> Seq<char> {
    if wires.len() == 0 {
        rest
    } else {
        render_connection(wires[0], render_more_connections(wires.drop_first(), rest))
    }
}

/// The pin names behind the first one, each behind a comma and a blank.
pub open spec fn render_more_pins(pins: Seq<Seq<char>>, rest: Seq<char>) -> Seq<char>
    decreases pins.len(),
{
    if pins.len() == 0 {
        rest
    } else {
        Token::Comma.text() + (blank() + (pins[0] + render_more_pins(pins.drop_first(), rest)))
    }
}

/// The pin names of a declaration, the first behind a blank, the others
/// each behind a comma and a blank.
pub open spec fn render_pins(pins: Seq<Seq<char>>, rest: Seq<char>) -> Seq<char> {
    if pins.len() == 0 {
        rest
    } else {
        blank() + (pins[0] + render_more_pins(pins.drop_first(), rest))
    }
}

/// A declaration of pins on a line of its own.
pub open spec fn render_decl(keyword: Token, pins: Seq<Seq<char>>, rest: Seq<char>) -> Seq<char> {
    new_line() + (keyword.text() + render_pins(pins, Token::Semicolon.text() + rest))
}

/// A part on a line of its own: `Name(wire, wire);`.
pub open spec fn render_part(part: PartShape, rest: Seq<char>) -> Seq<char> {
    new_line() + (part.name + (Token::OpenParen.text() + render_connections(
        part.connections,
        Token::CloseParen.text() + (Token::Semicolon.text() + rest),
    )))
}

/// The parts of a chip, each on a line of its own.
pub open spec fn render_parts(parts: Seq<PartShape>, rest: Seq<char>) -> Seq<char>
    decreases parts.len(),
{
    if parts.len() == 0 {
        rest
    } else {
        render_part(parts[0], render_parts(parts.drop_first(), rest))
    }
}

/// What a chip holds behind its name: in curly brackets the declarations
/// of its pins and its parts.
pub open spec fn render_body(chip: ChipShape, rest: Seq<char>) -> Seq<char> {
    blank() + (Token::OpenBrace.text() + render_decl(
        Token::In,
        chip.in_decl,
        render_decl(
            Token::Out,
            chip.out_decl,
            new_line() + (Token::Parts.text() + render_parts(
                chip.parts,
                line_end() + (Token::CloseBrace.text() + rest),
            )),
        ),
    ))
}

/// A whole chip, ending with a line break.
pub open spec fn render_chip(chip: ChipShape, rest: Seq<char>) -> Seq<char> {
    Token::Chip.text() + (blank() + (chip.name + render_body(chip, line_end() + rest)))
}

/// The source text of `chip`.
pub open spec fn source_of(chip: ChipShape) -> Seq<char> {
    render_chip(chip, Seq::empty())
}

} // verus!
