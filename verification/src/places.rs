//! Where the rules end: each rule reads some of the characters that lie
//! ahead, in order, and ends at the byte offset behind the last of them.

use crate::error::{Rule, Token};
use crate::grammar::{
    boolean, bus_slice, chip, chip_body, chip_head, connection, connection_list, either,
    identifier, lhs_connector, more_connections, more_pins, part, parts, pin, pin_decl, pin_list,
    rhs_connector, skip_white, slice_range, slice_single, spaced_token, spaced_unsigned, token,
    unsigned,
};
use crate::input::Cursor;
use crate::text::{byte_len, lemma_byte_len_split, lemma_encode_add, lemma_run, CharClass};
use vstd::prelude::*;

verus! {

/// Reading from `start` can end at `end`: `end` lies some characters further
/// on in the same text.
pub open spec fn reads_ahead(start: Cursor, end: Cursor) -> bool {
    exists|n: nat| n <= start.rest.len() && end == #[trigger] start.advance(n)
}

/// Reading on from where reading ended is reading further from the start.
pub proof fn lemma_advance_twice(c: Cursor, n: nat, m: nat)
    requires
        n + m <= c.rest.len(),
    ensures
        c.advance(n).advance(m) == c.advance(n + m),
{
    let s = c.rest;
    assert(s.skip(n as int).skip(m as int) =~= s.skip((n + m) as int));
    assert(s.take((n + m) as int) =~= s.take(n as int) + s.skip(n as int).take(m as int));
    lemma_encode_add(s.take(n as int), s.skip(n as int).take(m as int));
}

/// A cursor reaches itself.
pub proof fn lemma_reads_nothing(c: Cursor)
    ensures
        reads_ahead(c, c),
{
    assert(c.rest.skip(0) =~= c.rest);
    assert(c.rest.take(0) =~= Seq::<char>::empty());
    assert(c == c.advance(0));
}

/// What is reached from a cursor that was reached is reached.
pub proof fn lemma_reads_on(start: Cursor, middle: Cursor, end: Cursor)
    requires
        reads_ahead(start, middle),
        reads_ahead(middle, end),
    ensures
        reads_ahead(start, end),
{
    let n = choose|n: nat| n <= start.rest.len() && middle == #[trigger] start.advance(n);
    let m = choose|m: nat| m <= middle.rest.len() && end == #[trigger] middle.advance(m);
    lemma_advance_twice(start, n, m);
    assert(end == start.advance(n + m));
}

/// A cursor that was reached lies no earlier in the source, no further than
/// the end of the text, and has no more text ahead.
pub proof fn lemma_reached_lies_ahead(start: Cursor, end: Cursor)
    requires
        reads_ahead(start, end),
    ensures
        start.offset <= end.offset,
        end.offset + byte_len(end.rest) == start.offset + byte_len(start.rest),
        end.rest.len() <= start.rest.len(),
{
    let n = choose|n: nat| n <= start.rest.len() && end == #[trigger] start.advance(n);
    lemma_byte_len_split(start.rest, n as int);
}

/// Skipping blank space reads ahead.
pub proof fn lemma_skip_white_reads_ahead(c: Cursor)
    ensures
        reads_ahead(c, skip_white(c)),
{
    lemma_run(c.rest, CharClass::Whitespace);
}

/// A token that was read was read ahead.
pub proof fn lemma_token_reads_ahead(c: Cursor, t: Token)
    ensures
        token(c, t) matches Ok((end, _)) ==> reads_ahead(c, end),
        spaced_token(c, t) matches Ok((end, _)) ==> reads_ahead(c, end),
{
    lemma_skip_white_reads_ahead(c);
    if let Ok((end, _)) = spaced_token(c, t) {
        lemma_reads_on(c, skip_white(c), end);
    }
}

/// An identifier that was read was read ahead.
pub proof fn lemma_identifier_reads_ahead(c: Cursor)
    ensures
        identifier(c) matches Ok((end, _)) ==> reads_ahead(c, end),
{
    lemma_run(c.rest, CharClass::Word);
}

/// A number that was read was read ahead.
pub proof fn lemma_unsigned_reads_ahead(c: Cursor)
    ensures
        unsigned(c) matches Ok((end, _)) ==> reads_ahead(c, end),
        spaced_unsigned(c) matches Ok((end, read)) ==> reads_ahead(c, end) && c.offset
            <= read.start <= read.end == end.offset,
{
    lemma_run(c.rest, CharClass::Digit);
    lemma_skip_white_reads_ahead(c);
    lemma_run(skip_white(c).rest, CharClass::Digit);
    if let Ok((end, _)) = spaced_unsigned(c) {
        lemma_reads_on(c, skip_white(c), end);
        lemma_reached_lies_ahead(c, skip_white(c));
        lemma_reached_lies_ahead(skip_white(c), end);
    }
}

/// A constant that was read was read ahead.
pub proof fn lemma_boolean_reads_ahead(c: Cursor)
    ensures
        boolean(c) matches Ok((end, _)) ==> reads_ahead(c, end),
{
    lemma_token_reads_ahead(c, Token::True);
    lemma_token_reads_ahead(c, Token::False);
}

/// The bounds of a slice that were read were read ahead.
pub proof fn lemma_bounds_read_ahead(c: Cursor)
    ensures
        either(slice_range(c), slice_single(c)) matches Ok((end, _)) ==> reads_ahead(c, end),
{
    lemma_unsigned_reads_ahead(c);
    if let Ok((c1, _)) = spaced_unsigned(c) {
        lemma_token_reads_ahead(c1, Token::DotDot);
        if let Ok((c2, _)) = spaced_token(c1, Token::DotDot) {
            lemma_unsigned_reads_ahead(c2);
            if let Ok((c3, _)) = spaced_unsigned(c2) {
                lemma_reads_on(c, c1, c2);
                lemma_reads_on(c, c2, c3);
            }
        }
    }
}

/// A slice that was read was read ahead, and its name begins where reading
/// began.
pub proof fn lemma_bus_slice_reads_ahead(c: Cursor)
    ensures
        bus_slice(c) matches Ok((end, read)) ==> reads_ahead(c, end) && read.name.start
            == c.offset,
{
    lemma_identifier_reads_ahead(c);
    if let Ok((c1, _)) = identifier(c) {
        lemma_token_reads_ahead(c1, Token::OpenBracket);
        if let Ok((c2, _)) = spaced_token(c1, Token::OpenBracket) {
            lemma_bounds_read_ahead(c2);
            if let Ok((c3, _)) = either(slice_range(c2), slice_single(c2)) {
                lemma_token_reads_ahead(c3, Token::CloseBracket);
                if let Ok((c4, _)) = spaced_token(c3, Token::CloseBracket) {
                    lemma_reads_on(c, c1, c2);
                    lemma_reads_on(c, c2, c3);
                    lemma_reads_on(c, c3, c4);
                }
            }
        }
    }
}

/// A side of a connection that was read was read ahead, and is placed from
/// where reading began to where it ended.
pub proof fn lemma_connector_reads_ahead(c: Cursor)
    ensures
        lhs_connector(c) matches Ok((end, read)) ==> reads_ahead(c, end) && read.start == c.offset
            && read.end == end.offset,
        rhs_connector(c) matches Ok((end, read)) ==> reads_ahead(c, end) && read.start == c.offset
            && read.end == end.offset,
{
    lemma_boolean_reads_ahead(c);
    lemma_bus_slice_reads_ahead(c);
    lemma_identifier_reads_ahead(c);
}

/// A connection that was read was read ahead.
pub proof fn lemma_connection_reads_ahead(c: Cursor)
    ensures
        connection(c) matches Ok((end, _)) ==> reads_ahead(c, end),
{
    lemma_skip_white_reads_ahead(c);
    lemma_connector_reads_ahead(skip_white(c));
    if let Ok((c1, _)) = lhs_connector(skip_white(c)) {
        lemma_token_reads_ahead(c1, Token::Equals);
        if let Ok((c2, _)) = spaced_token(c1, Token::Equals) {
            lemma_skip_white_reads_ahead(c2);
            lemma_connector_reads_ahead(skip_white(c2));
            if let Ok((c3, _)) = rhs_connector(skip_white(c2)) {
                lemma_reads_on(c, skip_white(c), c1);
                lemma_reads_on(c, c1, c2);
                lemma_reads_on(c, c2, skip_white(c2));
                lemma_reads_on(c, skip_white(c2), c3);
            }
        }
    }
}

/// The connections behind the first end at a cursor that lies ahead.
pub proof fn lemma_more_connections_read_ahead(c: Cursor)
    ensures
        reads_ahead(c, more_connections(c).0),
    decreases c.rest.len(),
{
    lemma_reads_nothing(c);
    lemma_token_reads_ahead(c, Token::Comma);
    if let Ok((c1, _)) = spaced_token(c, Token::Comma) {
        lemma_connection_reads_ahead(c1);
        if let Ok((c2, _)) = connection(c1) {
            if c2.rest.len() < c.rest.len() {
                lemma_more_connections_read_ahead(c2);
                lemma_reads_on(c, c1, c2);
                lemma_reads_on(c, c2, more_connections(c2).0);
            }
        }
    }
}

/// A list of connections ends at a cursor that lies ahead.
pub proof fn lemma_connections_read_ahead(c: Cursor)
    ensures
        reads_ahead(c, connection_list(c).0),
{
    lemma_reads_nothing(c);
    lemma_connection_reads_ahead(c);
    if let Ok((c1, _)) = connection(c) {
        lemma_more_connections_read_ahead(c1);
        lemma_reads_on(c, c1, more_connections(c1).0);
    }
}

/// A name behind blank space that was read was read ahead, and is placed
/// between where reading began and where it ended.
pub proof fn lemma_pin_reads_ahead(c: Cursor)
    ensures
        pin(c) matches Ok((end, read)) ==> reads_ahead(c, end) && c.offset <= read.start
            <= read.end == end.offset,
{
    lemma_skip_white_reads_ahead(c);
    lemma_identifier_reads_ahead(skip_white(c));
    if let Ok((end, _)) = pin(c) {
        lemma_reads_on(c, skip_white(c), end);
        lemma_reached_lies_ahead(c, skip_white(c));
        lemma_reached_lies_ahead(skip_white(c), end);
    }
}

/// The pin names behind the first end at a cursor that lies ahead.
pub proof fn lemma_more_pins_read_ahead(c: Cursor)
    ensures
        reads_ahead(c, more_pins(c).0),
    decreases c.rest.len(),
{
    lemma_reads_nothing(c);
    lemma_token_reads_ahead(c, Token::Comma);
    if let Ok((c1, _)) = spaced_token(c, Token::Comma) {
        lemma_pin_reads_ahead(c1);
        if let Ok((c2, _)) = pin(c1) {
            if c2.rest.len() < c.rest.len() {
                lemma_more_pins_read_ahead(c2);
                lemma_reads_on(c, c1, c2);
                lemma_reads_on(c, c2, more_pins(c2).0);
            }
        }
    }
}

/// A list of pin names ends at a cursor that lies ahead.
pub proof fn lemma_pins_read_ahead(c: Cursor)
    ensures
        reads_ahead(c, pin_list(c).0),
{
    lemma_reads_nothing(c);
    lemma_pin_reads_ahead(c);
    if let Ok((c1, _)) = pin(c) {
        lemma_more_pins_read_ahead(c1);
        lemma_reads_on(c, c1, more_pins(c1).0);
    }
}

/// A declaration of pins that was read was read ahead.
pub proof fn lemma_pin_decl_reads_ahead(c: Cursor, keyword: Token, rule: Rule)
    ensures
        pin_decl(c, keyword, rule) matches Ok((end, _)) ==> reads_ahead(c, end),
{
    lemma_token_reads_ahead(c, keyword);
    if let Ok((c1, _)) = spaced_token(c, keyword) {
        lemma_pins_read_ahead(c1);
        let c2 = pin_list(c1).0;
        lemma_token_reads_ahead(c2, Token::Semicolon);
        if let Ok((c3, _)) = spaced_token(c2, Token::Semicolon) {
            lemma_reads_on(c, c1, c2);
            lemma_reads_on(c, c2, c3);
        }
    }
}

/// A part that was read was read ahead.
pub proof fn lemma_part_reads_ahead(c: Cursor)
    ensures
        part(c) matches Ok((end, _)) ==> reads_ahead(c, end),
{
    reveal(part);
    lemma_pin_reads_ahead(c);
    if let Ok((c1, _)) = pin(c) {
        lemma_token_reads_ahead(c1, Token::OpenParen);
        if let Ok((c2, _)) = spaced_token(c1, Token::OpenParen) {
            lemma_connections_read_ahead(c2);
            let c3 = connection_list(c2).0;
            lemma_token_reads_ahead(c3, Token::CloseParen);
            if let Ok((c4, _)) = spaced_token(c3, Token::CloseParen) {
                lemma_token_reads_ahead(c4, Token::Semicolon);
                if let Ok((c5, _)) = spaced_token(c4, Token::Semicolon) {
                    lemma_reads_on(c, c1, c2);
                    lemma_reads_on(c, c2, c3);
                    lemma_reads_on(c, c3, c4);
                    lemma_reads_on(c, c4, c5);
                }
            }
        }
    }
}

/// The parts of a chip end at a cursor that lies ahead.
pub proof fn lemma_parts_read_ahead(c: Cursor)
    ensures
        reads_ahead(c, parts(c).0),
    decreases c.rest.len(),
{
    lemma_reads_nothing(c);
    lemma_part_reads_ahead(c);
    if let Ok((c1, _)) = part(c) {
        if c1.rest.len() < c.rest.len() {
            lemma_parts_read_ahead(c1);
            lemma_reads_on(c, c1, parts(c1).0);
        }
    }
}

/// The head of a chip that was read was read ahead.
pub proof fn lemma_chip_head_reads_ahead(c: Cursor)
    ensures
        chip_head(c) matches Ok((end, read)) ==> reads_ahead(c, end) && c.offset <= read.start
            <= read.end == end.offset,
{
    lemma_token_reads_ahead(c, Token::Chip);
    if let Ok((c1, _)) = spaced_token(c, Token::Chip) {
        lemma_pin_reads_ahead(c1);
        if let Ok((c2, _)) = pin(c1) {
            lemma_reads_on(c, c1, c2);
            lemma_reached_lies_ahead(c, c1);
        }
    }
}

/// The body of a chip that was read was read ahead.
pub proof fn lemma_chip_body_reads_ahead(c: Cursor)
    ensures
        chip_body(c) matches Ok((end, _)) ==> reads_ahead(c, end),
{
    lemma_token_reads_ahead(c, Token::OpenBrace);
    if let Ok((c1, _)) = spaced_token(c, Token::OpenBrace) {
        lemma_pin_decl_reads_ahead(c1, Token::In, Rule::InputPins);
        if let Ok((c2, _)) = pin_decl(c1, Token::In, Rule::InputPins) {
            lemma_pin_decl_reads_ahead(c2, Token::Out, Rule::OutputPins);
            if let Ok((c3, _)) = pin_decl(c2, Token::Out, Rule::OutputPins) {
                lemma_token_reads_ahead(c3, Token::Parts);
                if let Ok((c4, _)) = spaced_token(c3, Token::Parts) {
                    lemma_parts_read_ahead(c4);
                    let c5 = parts(c4).0;
                    lemma_token_reads_ahead(c5, Token::CloseBrace);
                    if let Ok((c6, _)) = spaced_token(c5, Token::CloseBrace) {
                        lemma_reads_on(c, c1, c2);
                        lemma_reads_on(c, c2, c3);
                        lemma_reads_on(c, c3, c4);
                        lemma_reads_on(c, c4, c5);
                        lemma_reads_on(c, c5, c6);
                    }
                }
            }
        }
    }
}

/// A chip that was read was read ahead: it ends at a byte offset of the
/// source, no earlier than it began.
pub proof fn lemma_chip_reads_ahead(c: Cursor)
    ensures
        chip(c) matches Ok((end, _)) ==> reads_ahead(c, end),
{
    lemma_chip_head_reads_ahead(c);
    if let Ok((c1, _)) = chip_head(c) {
        lemma_chip_body_reads_ahead(c1);
        if let Ok((c2, _)) = chip_body(c1) {
            lemma_reads_on(c, c1, c2);
        }
    }
}

} // verus!
