//! No rule reads backwards, and the rules that read an item of a list read
//! at least one character. The lists of the grammar end for that reason.

use crate::error::Token;
use crate::grammar::{
    boolean, bus_slice, connection, connection_list, either, identifier, lhs_connector,
    more_connections, part, pin, rhs_connector, skip_white, slice_range, slice_single,
    spaced_token, spaced_unsigned, token, unsigned,
};
use crate::input::Cursor;
use crate::text::{lemma_run, CharClass};
use vstd::prelude::*;

verus! {

/// Blank space is skipped forwards.
pub proof fn lemma_skip_white_forward(c: Cursor)
    ensures
        skip_white(c).rest.len() <= c.rest.len(),
{
    lemma_run(c.rest, CharClass::Whitespace);
}

/// A token that was read took up as many characters as it is long.
pub proof fn lemma_token_forward(c: Cursor, t: Token)
    ensures
        token(c, t) matches Ok((end, _)) ==> end.rest.len() + t.text().len() == c.rest.len(),
        t.text().len() > 0,
{
}

/// A token behind blank space took up at least one character.
pub proof fn lemma_spaced_token_forward(c: Cursor, t: Token)
    ensures
        spaced_token(c, t) matches Ok((end, _)) ==> end.rest.len() < c.rest.len(),
{
    lemma_skip_white_forward(c);
    lemma_token_forward(skip_white(c), t);
}

/// An identifier took up at least one character.
pub proof fn lemma_identifier_forward(c: Cursor)
    ensures
        identifier(c) matches Ok((end, _)) ==> end.rest.len() < c.rest.len(),
{
    lemma_run(c.rest, CharClass::Word);
}

/// A number took up at least one character.
pub proof fn lemma_unsigned_forward(c: Cursor)
    ensures
        unsigned(c) matches Ok((end, _)) ==> end.rest.len() < c.rest.len(),
{
    lemma_run(c.rest, CharClass::Digit);
}

/// A number behind blank space took up at least one character.
pub proof fn lemma_spaced_unsigned_forward(c: Cursor)
    ensures
        spaced_unsigned(c) matches Ok((end, _)) ==> end.rest.len() < c.rest.len(),
{
    lemma_skip_white_forward(c);
    lemma_unsigned_forward(skip_white(c));
}

/// A constant took up at least one character.
pub proof fn lemma_boolean_forward(c: Cursor)
    ensures
        boolean(c) matches Ok((end, _)) ==> end.rest.len() < c.rest.len(),
{
    lemma_token_forward(c, Token::True);
    lemma_token_forward(c, Token::False);
}

/// The bounds of a slice took up at least one character.
pub proof fn lemma_bounds_forward(c: Cursor)
    ensures
        either(slice_range(c), slice_single(c)) matches Ok((end, _)) ==> end.rest.len()
            < c.rest.len(),
{
    lemma_spaced_unsigned_forward(c);
    if let Ok((c1, _)) = spaced_unsigned(c) {
        lemma_spaced_token_forward(c1, Token::DotDot);
        if let Ok((c2, _)) = spaced_token(c1, Token::DotDot) {
            lemma_spaced_unsigned_forward(c2);
        }
    }
}

/// A slice took up at least one character.
pub proof fn lemma_bus_slice_forward(c: Cursor)
    ensures
        bus_slice(c) matches Ok((end, _)) ==> end.rest.len() < c.rest.len(),
{
    lemma_identifier_forward(c);
    if let Ok((c1, _)) = identifier(c) {
        lemma_spaced_token_forward(c1, Token::OpenBracket);
        if let Ok((c2, _)) = spaced_token(c1, Token::OpenBracket) {
            lemma_bounds_forward(c2);
            if let Ok((c3, _)) = either(slice_range(c2), slice_single(c2)) {
                lemma_spaced_token_forward(c3, Token::CloseBracket);
            }
        }
    }
}

/// The left side of a connection took up at least one character.
pub proof fn lemma_lhs_forward(c: Cursor)
    ensures
        lhs_connector(c) matches Ok((end, _)) ==> end.rest.len() < c.rest.len(),
{
    lemma_bus_slice_forward(c);
    lemma_identifier_forward(c);
}

/// The right side of a connection took up at least one character.
pub proof fn lemma_rhs_forward(c: Cursor)
    ensures
        rhs_connector(c) matches Ok((end, _)) ==> end.rest.len() < c.rest.len(),
{
    lemma_boolean_forward(c);
    lemma_bus_slice_forward(c);
    lemma_identifier_forward(c);
}

/// A connection took up at least one character.
pub proof fn lemma_connection_forward(c: Cursor)
    ensures
        connection(c) matches Ok((end, _)) ==> end.rest.len() < c.rest.len(),
{
    lemma_skip_white_forward(c);
    lemma_lhs_forward(skip_white(c));
    if let Ok((c1, _)) = lhs_connector(skip_white(c)) {
        lemma_spaced_token_forward(c1, Token::Equals);
        if let Ok((c2, _)) = spaced_token(c1, Token::Equals) {
            lemma_skip_white_forward(c2);
            lemma_rhs_forward(skip_white(c2));
        }
    }
}

/// A pin name behind blank space took up at least one character.
pub proof fn lemma_pin_forward(c: Cursor)
    ensures
        pin(c) matches Ok((end, _)) ==> end.rest.len() < c.rest.len(),
{
    lemma_skip_white_forward(c);
    lemma_identifier_forward(skip_white(c));
}

/// The connections behind the first end no earlier than they begin.
pub proof fn lemma_more_connections_forward(c: Cursor)
    ensures
        more_connections(c).0.rest.len() <= c.rest.len(),
    decreases c.rest.len(),
{
    lemma_spaced_token_forward(c, Token::Comma);
    if let Ok((c1, _)) = spaced_token(c, Token::Comma) {
        lemma_connection_forward(c1);
        if let Ok((c2, _)) = connection(c1) {
            lemma_more_connections_forward(c2);
        }
    }
}

/// A list of connections ends no earlier than it begins.
pub proof fn lemma_connection_list_forward(c: Cursor)
    ensures
        connection_list(c).0.rest.len() <= c.rest.len(),
{
    lemma_connection_forward(c);
    if let Ok((c1, _)) = connection(c) {
        lemma_more_connections_forward(c1);
    }
}

/// A part took up at least one character.
pub proof fn lemma_part_forward(c: Cursor)
    ensures
        part(c) matches Ok((end, _)) ==> end.rest.len() < c.rest.len(),
{
    reveal(part);
    lemma_pin_forward(c);
    if let Ok((c1, _)) = pin(c) {
        lemma_spaced_token_forward(c1, Token::OpenParen);
        if let Ok((c2, _)) = spaced_token(c1, Token::OpenParen) {
            lemma_connection_list_forward(c2);
            let c3 = connection_list(c2).0;
            lemma_spaced_token_forward(c3, Token::CloseParen);
            if let Ok((c4, _)) = spaced_token(c3, Token::CloseParen) {
                lemma_spaced_token_forward(c4, Token::Semicolon);
            }
        }
    }
}

} // verus!
