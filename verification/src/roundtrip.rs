//! Reading back what was written: the source text of a chip that the
//! grammar has read is read again as a chip of the same shape.

use crate::ast::ConnectionModel;
use crate::error::{Rule, Token};
use crate::grammar::{
    boolean, bus_slice, chip, chip_body, chip_head, connection, connection_list, decimal,
    diagnosed, identifier, lhs_connector, more_connections, more_pins, part, parts, pin, pin_decl,
    pin_list, rhs_connector, skip_white, slice_range, spaced_token, spaced_unsigned, token, whole,
};
use crate::input::Cursor;
use crate::laws::{is_name, lemma_identifier_gives_name, lemma_identifier_reads_name};
use crate::located::Loc;
use crate::render::{
    blank, digit_char, digits_of, line_end, new_line, render_body, render_chip,
    render_connection, render_connections, render_decl, render_lhs, render_more_connections,
    render_more_pins, render_part, render_parts, render_pins, render_rhs, render_slice,
    source_of,
};
use crate::shape::{
    all_names, all_parts_readable, all_wires_readable, begins_with_constant, names, part_shapes,
    wire_shapes, ChipShape, ConnectionShape, LhsShape, PartShape, RhsShape, SliceShape,
};
use crate::text::{is_digit, is_whitespace, is_word, lemma_run, lemma_run_is, CharClass};
use vstd::prelude::*;

verus! {

/// Every character of `text` is blank space.
pub open spec fn all_blank(text: Seq<char>) -> bool {
    forall|i: int| 0 <= i < text.len() ==> is_whitespace(#[trigger] text[i])
}

/// Blank space in front of a text that does not begin with blank space is
/// skipped, and nothing more.
pub proof fn lemma_skips(c: Cursor, space: Seq<char>, behind: Seq<char>)
    requires
        c.rest == space + behind,
        all_blank(space),
        behind.len() > 0 ==> !is_whitespace(behind[0]),
    ensures
        skip_white(c).rest == behind,
{
    let s = c.rest;
    assert forall|i: int| 0 <= i < space.len() implies CharClass::Whitespace.holds(
        #[trigger] s[i],
    ) by {
        assert(s[i] == space[i]);
    }
    if space.len() < s.len() {
        assert(s[space.len() as int] == behind[0]);
    }
    lemma_run_is(s, CharClass::Whitespace, space.len());
    assert(s.skip(space.len() as int) =~= behind);
}

/// A token at the front of a text is read, and the text behind it is left.
pub proof fn lemma_reads_token(c: Cursor, t: Token, behind: Seq<char>)
    requires
        c.rest == t.text() + behind,
    ensures
        token(c, t) matches Ok((end, _)) && end.rest == behind,
{
    let s = c.rest;
    assert(s.subrange(0, t.text().len() as int) =~= t.text());
    assert(s.skip(t.text().len() as int) =~= behind);
}

/// A token behind blank space is read, and the text behind it is left.
pub proof fn lemma_reads_spaced_token(c: Cursor, space: Seq<char>, t: Token, behind: Seq<char>)
    requires
        c.rest == space + (t.text() + behind),
        all_blank(space),
    ensures
        spaced_token(c, t) matches Ok((end, _)) && end.rest == behind,
{
    let ahead = t.text() + behind;
    assert(ahead[0] == t.text()[0]);
    lemma_skips(c, space, ahead);
    lemma_reads_token(skip_white(c), t, behind);
}

/// A text that does not begin with the first character of a token does not
/// begin with the token, blank space or not.
pub proof fn lemma_refuses_token(c: Cursor, t: Token)
    requires
        c.rest.len() > 0 ==> !is_whitespace(c.rest[0]) && c.rest[0] != t.text()[0],
    ensures
        token(c, t) is Err,
        spaced_token(c, t) is Err,
{
    lemma_run(c.rest, CharClass::Whitespace);
    assert(c.rest.skip(0) =~= c.rest);
    let s = skip_white(c).rest;
    assert(s == c.rest);
    if t.text().is_prefix_of(s) {
        assert(s.subrange(0, t.text().len() as int)[0] == t.text()[0]);
    }
}

/// A character of a name is not blank space.
pub proof fn lemma_word_is_not_blank(c: char)
    requires
        is_word(c),
    ensures
        !is_whitespace(c),
{
}

/// A name behind blank space is read as it stands, where no character that
/// could lengthen it follows.
pub proof fn lemma_reads_pin(c: Cursor, space: Seq<char>, name: Seq<char>, behind: Seq<char>)
    requires
        c.rest == space + (name + behind),
        all_blank(space),
        is_name(name),
        behind.len() > 0 ==> !is_word(behind[0]),
    ensures
        pin(c) matches Ok((end, read)) && read.value == name && end.rest == behind,
{
    let ahead = name + behind;
    assert(ahead[0] == name[0]);
    lemma_word_is_not_blank(name[0]);
    lemma_skips(c, space, ahead);
    lemma_identifier_reads_name(skip_white(c), name, behind);
}

/// The digits that write a number are digits, and write that number.
pub proof fn lemma_digits_of(n: nat)
    ensures
        digits_of(n).len() > 0,
        forall|i: int| 0 <= i < digits_of(n).len() ==> is_digit(#[trigger] digits_of(n)[i]),
        decimal(digits_of(n)) == n,
    decreases n,
{
    if n < 10 {
        let d = digits_of(n);
        assert(d.drop_last() =~= Seq::<char>::empty());
        assert(decimal(d) == decimal(d.drop_last()) * 10 + (d.last() as nat - '0' as nat) as nat);
    } else {
        lemma_digits_of(n / 10);
        let front = digits_of(n / 10);
        let d = digits_of(n);
        assert(d.drop_last() =~= front);
        assert(d.last() == digit_char(n % 10));
        assert forall|i: int| 0 <= i < d.len() implies is_digit(#[trigger] d[i]) by {
            if i < front.len() {
                assert(d[i] == front[i]);
            }
        }
    }
}

/// A number behind blank space is read as it stands, where no digit follows.
pub proof fn lemma_reads_number(c: Cursor, space: Seq<char>, n: u32, behind: Seq<char>)
    requires
        c.rest == space + (digits_of(n as nat) + behind),
        all_blank(space),
        behind.len() > 0 ==> !is_digit(behind[0]),
    ensures
        spaced_unsigned(c) matches Ok((end, read)) && read.value == n && end.rest == behind,
{
    let digits = digits_of(n as nat);
    let ahead = digits + behind;
    lemma_digits_of(n as nat);
    assert(ahead[0] == digits[0]);
    lemma_skips(c, space, ahead);
    let at = skip_white(c);
    let s = at.rest;
    assert forall|i: int| 0 <= i < digits.len() implies CharClass::Digit.holds(#[trigger] s[i]) by {
        assert(s[i] == digits[i]);
    }
    if digits.len() < s.len() {
        assert(s[digits.len() as int] == behind[0]);
    }
    lemma_run_is(s, CharClass::Digit, digits.len());
    assert(s.take(digits.len() as int) =~= digits);
    assert(s.skip(digits.len() as int) =~= behind);
}

/// A name that does not begin with `true` or `false` is not read as a
/// constant, whatever stands behind it that could not lengthen it.
pub proof fn lemma_refuses_constant(c: Cursor, name: Seq<char>, behind: Seq<char>)
    requires
        c.rest == name + behind,
        is_name(name),
        !begins_with_constant(name),
        behind.len() > 0 ==> !is_word(behind[0]),
    ensures
        boolean(c) is Err,
{
    lemma_not_a_prefix(c, Token::True, name, behind);
    lemma_not_a_prefix(c, Token::False, name, behind);
}

/// A word of letters that is no prefix of a name is no prefix of the name
/// with something behind it that could not lengthen the name.
proof fn lemma_not_a_prefix(c: Cursor, t: Token, name: Seq<char>, behind: Seq<char>)
    requires
        c.rest == name + behind,
        t == Token::True || t == Token::False,
        !t.text().is_prefix_of(name),
        behind.len() > 0 ==> !is_word(behind[0]),
    ensures
        token(c, t) is Err,
{
    let s = c.rest;
    let word = t.text();
    if word.is_prefix_of(s) {
        if word.len() <= name.len() {
            assert(name.subrange(0, word.len() as int) =~= s.subrange(0, word.len() as int));
        } else {
            let k = name.len() as int;
            assert(s[k] == behind[0]);
            assert(s.subrange(0, word.len() as int)[k] == word[k]);
            assert(is_word(word[k]));
        }
    }
}

/// The text of a slice is read as that slice.
pub proof fn lemma_reads_slice(c: Cursor, slice: SliceShape, behind: Seq<char>)
    requires
        c.rest == render_slice(slice, behind),
        slice.readable(),
    ensures
        bus_slice(c) matches Ok((end, read)) && read.shape() == slice && end.rest == behind,
{
    let none = Seq::<char>::empty();
    let after_high = Token::CloseBracket.text() + behind;
    let after_dots = digits_of(slice.high as nat) + after_high;
    let after_low = Token::DotDot.text() + after_dots;
    let after_open = digits_of(slice.low as nat) + after_low;
    let after_name = Token::OpenBracket.text() + after_open;
    assert(after_name[0] == '[');
    lemma_identifier_reads_name(c, slice.name, after_name);
    let c1 = c.advance(slice.name.len());
    assert(c1.rest =~= none + after_name);
    lemma_reads_spaced_token(c1, none, Token::OpenBracket, after_open);
    let c2 = spaced_token(c1, Token::OpenBracket)->Ok_0.0;
    assert(c2.rest =~= none + after_open);
    assert(after_low[0] == '.');
    lemma_reads_number(c2, none, slice.low, after_low);
    let c3 = spaced_unsigned(c2)->Ok_0.0;
    assert(c3.rest =~= none + after_low);
    lemma_reads_spaced_token(c3, none, Token::DotDot, after_dots);
    let c4 = spaced_token(c3, Token::DotDot)->Ok_0.0;
    assert(c4.rest =~= none + after_dots);
    assert(after_high[0] == ']');
    lemma_reads_number(c4, none, slice.high, after_high);
    let c5 = spaced_unsigned(c4)->Ok_0.0;
    assert(slice_range(c2) is Ok);
    assert(c5.rest =~= none + after_high);
    lemma_reads_spaced_token(c5, none, Token::CloseBracket, behind);
}

/// A name in front of a text that does not go on with `[` is not read as a
/// slice.
pub proof fn lemma_refuses_slice(c: Cursor, name: Seq<char>, behind: Seq<char>)
    requires
        c.rest == name + behind,
        is_name(name),
        behind.len() > 0,
        !is_word(behind[0]),
        !is_whitespace(behind[0]),
        behind[0] != '[',
    ensures
        bus_slice(c) is Err,
{
    lemma_identifier_reads_name(c, name, behind);
    lemma_refuses_token(c.advance(name.len()), Token::OpenBracket);
}

/// The text of the left side of a connection, in front of `=`, is read as
/// that left side.
pub proof fn lemma_reads_lhs(c: Cursor, lhs: LhsShape, behind: Seq<char>)
    requires
        c.rest == render_lhs(lhs, behind),
        lhs.readable(),
        behind.len() > 0,
        behind[0] == '=',
    ensures
        lhs_connector(c) matches Ok((end, read)) && read.value.shape() == lhs && end.rest
            == behind,
{
    match lhs {
        LhsShape::Bus(name) => {
            lemma_refuses_slice(c, name, behind);
            lemma_identifier_reads_name(c, name, behind);
        },
        LhsShape::Slice(slice) => {
            lemma_reads_slice(c, slice, behind);
        },
    }
}

/// The text of the right side of a connection, in front of `,` or `)`, is
/// read as that right side.
pub proof fn lemma_reads_rhs(c: Cursor, rhs: RhsShape, behind: Seq<char>)
    requires
        c.rest == render_rhs(rhs, behind),
        rhs.readable(),
        behind.len() > 0,
        behind[0] == ',' || behind[0] == ')',
    ensures
        rhs_connector(c) matches Ok((end, read)) && read.value.shape() == rhs && end.rest
            == behind,
{
    match rhs {
        RhsShape::Bus(name) => {
            lemma_refuses_constant(c, name, behind);
            lemma_refuses_slice(c, name, behind);
            lemma_identifier_reads_name(c, name, behind);
        },
        RhsShape::Slice(slice) => {
            let after_name = Token::OpenBracket.text() + (digits_of(slice.low as nat) + (
            Token::DotDot.text() + (digits_of(slice.high as nat) + (Token::CloseBracket.text()
                + behind))));
            assert(after_name[0] == '[');
            lemma_refuses_constant(c, slice.name, after_name);
            lemma_reads_slice(c, slice, behind);
        },
        RhsShape::Potential(level) => {
            if level {
                lemma_reads_token(c, Token::True, behind);
            } else {
                assert(c.rest[0] == 'f');
                lemma_refuses_token(c, Token::True);
                lemma_reads_token(c, Token::False, behind);
            }
        },
    }
}

/// The first character of the text of a left side is a character of a name.
pub proof fn lemma_lhs_begins_with_word(lhs: LhsShape, behind: Seq<char>)
    requires
        lhs.readable(),
    ensures
        render_lhs(lhs, behind).len() > 0,
        is_word(render_lhs(lhs, behind)[0]),
{
    match lhs {
        LhsShape::Bus(name) => {
            assert((name + behind)[0] == name[0]);
        },
        LhsShape::Slice(slice) => {
            assert(render_slice(slice, behind)[0] == slice.name[0]);
        },
    }
}

/// The text of a connection behind blank space, in front of `,` or `)`, is
/// read as that connection.
pub proof fn lemma_reads_connection(
    c: Cursor,
    space: Seq<char>,
    wire: ConnectionShape,
    behind: Seq<char>,
)
    requires
        c.rest == space + render_connection(wire, behind),
        all_blank(space),
        wire.readable(),
        behind.len() > 0,
        behind[0] == ',' || behind[0] == ')',
    ensures
        connection(c) matches Ok((end, read)) && read.shape() == wire && end.rest == behind,
{
    let none = Seq::<char>::empty();
    let right = render_rhs(wire.rhs, behind);
    let after_lhs = Token::Equals.text() + right;
    let text = render_lhs(wire.lhs, after_lhs);
    lemma_lhs_begins_with_word(wire.lhs, after_lhs);
    lemma_word_is_not_blank(text[0]);
    lemma_skips(c, space, text);
    assert(after_lhs[0] == '=');
    lemma_reads_lhs(skip_white(c), wire.lhs, after_lhs);
    let c1 = lhs_connector(skip_white(c))->Ok_0.0;
    assert(c1.rest =~= none + after_lhs);
    lemma_reads_spaced_token(c1, none, Token::Equals, right);
    let c2 = spaced_token(c1, Token::Equals)->Ok_0.0;
    lemma_rhs_begins_with_word(wire.rhs, behind);
    lemma_word_is_not_blank(right[0]);
    assert(c2.rest =~= none + right);
    lemma_skips(c2, none, right);
    lemma_reads_rhs(skip_white(c2), wire.rhs, behind);
}

/// The first character of the text of a right side is a character of a name.
pub proof fn lemma_rhs_begins_with_word(rhs: RhsShape, behind: Seq<char>)
    requires
        rhs.readable(),
    ensures
        render_rhs(rhs, behind).len() > 0,
        is_word(render_rhs(rhs, behind)[0]),
{
    match rhs {
        RhsShape::Bus(name) => {
            assert((name + behind)[0] == name[0]);
        },
        RhsShape::Slice(slice) => {
            assert(render_slice(slice, behind)[0] == slice.name[0]);
        },
        RhsShape::Potential(level) => {
            if level {
                assert((Token::True.text() + behind)[0] == 't');
            } else {
                assert((Token::False.text() + behind)[0] == 'f');
            }
        },
    }
}

/// The text of the connections behind the first, in front of `)`, is read
/// as those connections.
pub proof fn lemma_reads_more_connections(
    c: Cursor,
    wires: Seq<ConnectionShape>,
    behind: Seq<char>,
)
    requires
        c.rest == render_more_connections(wires, behind),
        all_wires_readable(wires),
        behind.len() > 0,
        behind[0] == ')',
    ensures
        wire_shapes(more_connections(c).1) == wires,
        more_connections(c).0.rest == behind,
    decreases wires.len(),
{
    let none = Seq::<char>::empty();
    if wires.len() == 0 {
        lemma_refuses_token(c, Token::Comma);
        assert(wire_shapes(more_connections(c).1) =~= wires);
    } else {
        let tail = wires.drop_first();
        let after = render_more_connections(tail, behind);
        let item = render_connection(wires[0], after);
        assert(c.rest =~= none + (Token::Comma.text() + (blank() + item)));
        lemma_reads_spaced_token(c, none, Token::Comma, blank() + item);
        let c1 = spaced_token(c, Token::Comma)->Ok_0.0;
        assert(after.len() > 0 && (after[0] == ',' || after[0] == ')')) by {
            if tail.len() > 0 {
                assert(after[0] == Token::Comma.text()[0]);
            }
        }
        assert(wires[0].readable());
        lemma_reads_connection(c1, blank(), wires[0], after);
        let c2 = connection(c1)->Ok_0.0;
        let read = connection(c1)->Ok_0.1;
        crate::progress::lemma_spaced_token_forward(c, Token::Comma);
        crate::progress::lemma_connection_forward(c1);
        assert forall|i: int| 0 <= i < tail.len() implies (#[trigger] tail[i]).readable() by {
            assert(tail[i] == wires[i + 1]);
        }
        lemma_reads_more_connections(c2, tail, behind);
        let more = more_connections(c2);
        assert(more_connections(c) == (more.0, seq![read] + more.1));
        assert(wire_shapes(seq![read] + more.1) =~= wires) by {
            assert forall|i: int| 0 <= i < wires.len() implies wire_shapes(seq![read] + more.1)[i]
                == wires[i] by {
                if i > 0 {
                    assert((seq![read] + more.1)[i] == more.1[i - 1]);
                    assert(wire_shapes(more.1)[i - 1] == tail[i - 1]);
                }
            }
        }
    }
}

/// The text of the connections of a part, in front of `)`, is read as
/// those connections.
pub proof fn lemma_reads_connections(c: Cursor, wires: Seq<ConnectionShape>, behind: Seq<char>)
    requires
        c.rest == render_connections(wires, behind),
        all_wires_readable(wires),
        behind.len() > 0,
        behind[0] == ')',
    ensures
        wire_shapes(connection_list(c).1) == wires,
        connection_list(c).0.rest == behind,
{
    let none = Seq::<char>::empty();
    if wires.len() == 0 {
        lemma_run(c.rest, CharClass::Whitespace);
        assert(c.rest.skip(0) =~= c.rest);
        lemma_run(c.rest, CharClass::Word);
        assert(connection(c) is Err);
        assert(wire_shapes(connection_list(c).1) =~= wires);
    } else {
        let tail = wires.drop_first();
        let after = render_more_connections(tail, behind);
        assert(after.len() > 0 && (after[0] == ',' || after[0] == ')')) by {
            if tail.len() > 0 {
                assert(after[0] == Token::Comma.text()[0]);
            }
        }
        assert(wires[0].readable());
        assert(c.rest =~= none + render_connection(wires[0], after));
        lemma_reads_connection(c, none, wires[0], after);
        let c1 = connection(c)->Ok_0.0;
        let read = connection(c)->Ok_0.1;
        assert forall|i: int| 0 <= i < tail.len() implies (#[trigger] tail[i]).readable() by {
            assert(tail[i] == wires[i + 1]);
        }
        lemma_reads_more_connections(c1, tail, behind);
        let more = more_connections(c1);
        assert(wire_shapes(seq![read] + more.1) =~= wires) by {
            assert forall|i: int| 0 <= i < wires.len() implies wire_shapes(seq![read] + more.1)[i]
                == wires[i] by {
                if i > 0 {
                    assert((seq![read] + more.1)[i] == more.1[i - 1]);
                    assert(wire_shapes(more.1)[i - 1] == tail[i - 1]);
                }
            }
        }
    }
}

/// The text of the pin names behind the first, in front of `;`, is read as
/// those names.
pub proof fn lemma_reads_more_pins(c: Cursor, pins: Seq<Seq<char>>, behind: Seq<char>)
    requires
        c.rest == render_more_pins(pins, behind),
        all_names(pins),
        behind.len() > 0,
        behind[0] == ';',
    ensures
        names(more_pins(c).1) == pins,
        more_pins(c).0.rest == behind,
    decreases pins.len(),
{
    let none = Seq::<char>::empty();
    if pins.len() == 0 {
        lemma_refuses_token(c, Token::Comma);
        assert(names(more_pins(c).1) =~= pins);
    } else {
        let tail = pins.drop_first();
        let after = render_more_pins(tail, behind);
        assert(c.rest =~= none + (Token::Comma.text() + (blank() + (pins[0] + after))));
        lemma_reads_spaced_token(c, none, Token::Comma, blank() + (pins[0] + after));
        let c1 = spaced_token(c, Token::Comma)->Ok_0.0;
        assert(after.len() > 0 && (after[0] == ',' || after[0] == ';')) by {
            if tail.len() > 0 {
                assert(after[0] == Token::Comma.text()[0]);
            }
        }
        assert(is_name(pins[0]));
        lemma_reads_pin(c1, blank(), pins[0], after);
        let c2 = pin(c1)->Ok_0.0;
        let read = pin(c1)->Ok_0.1;
        crate::progress::lemma_spaced_token_forward(c, Token::Comma);
        crate::progress::lemma_pin_forward(c1);
        assert forall|i: int| 0 <= i < tail.len() implies is_name(#[trigger] tail[i]) by {
            assert(tail[i] == pins[i + 1]);
        }
        lemma_reads_more_pins(c2, tail, behind);
        let more = more_pins(c2);
        assert(more_pins(c) == (more.0, seq![read] + more.1));
        assert(names(seq![read] + more.1) =~= pins) by {
            assert forall|i: int| 0 <= i < pins.len() implies names(seq![read] + more.1)[i]
                == pins[i] by {
                if i > 0 {
                    assert((seq![read] + more.1)[i] == more.1[i - 1]);
                    assert(names(more.1)[i - 1] == tail[i - 1]);
                }
            }
        }
    }
}

/// The text of the pin names of a declaration, in front of `;`, is read as
/// those names.
pub proof fn lemma_reads_pins(c: Cursor, pins: Seq<Seq<char>>, behind: Seq<char>)
    requires
        c.rest == render_pins(pins, behind),
        all_names(pins),
        behind.len() > 0,
        behind[0] == ';',
    ensures
        names(pin_list(c).1) == pins,
        pin_list(c).0.rest == behind,
{
    if pins.len() == 0 {
        lemma_run(c.rest, CharClass::Whitespace);
        assert(c.rest.skip(0) =~= c.rest);
        lemma_run(c.rest, CharClass::Word);
        assert(pin(c) is Err);
        assert(names(pin_list(c).1) =~= pins);
    } else {
        let tail = pins.drop_first();
        let after = render_more_pins(tail, behind);
        assert(after.len() > 0 && (after[0] == ',' || after[0] == ';')) by {
            if tail.len() > 0 {
                assert(after[0] == Token::Comma.text()[0]);
            }
        }
        assert(is_name(pins[0]));
        lemma_reads_pin(c, blank(), pins[0], after);
        let c1 = pin(c)->Ok_0.0;
        let read = pin(c)->Ok_0.1;
        assert forall|i: int| 0 <= i < tail.len() implies is_name(#[trigger] tail[i]) by {
            assert(tail[i] == pins[i + 1]);
        }
        lemma_reads_more_pins(c1, tail, behind);
        let more = more_pins(c1);
        assert(names(seq![read] + more.1) =~= pins) by {
            assert forall|i: int| 0 <= i < pins.len() implies names(seq![read] + more.1)[i]
                == pins[i] by {
                if i > 0 {
                    assert((seq![read] + more.1)[i] == more.1[i - 1]);
                    assert(names(more.1)[i - 1] == tail[i - 1]);
                }
            }
        }
    }
}

/// The text of a declaration of pins is read as that declaration.
pub proof fn lemma_reads_decl(
    c: Cursor,
    keyword: Token,
    rule: Rule,
    pins: Seq<Seq<char>>,
    behind: Seq<char>,
)
    requires
        c.rest == render_decl(keyword, pins, behind),
        all_names(pins),
    ensures
        pin_decl(c, keyword, rule) matches Ok((end, read)) && names(read) == pins && end.rest
            == behind,
{
    let none = Seq::<char>::empty();
    let after_pins = Token::Semicolon.text() + behind;
    let listed = render_pins(pins, after_pins);
    lemma_reads_spaced_token(c, new_line(), keyword, listed);
    let c1 = spaced_token(c, keyword)->Ok_0.0;
    assert(after_pins[0] == ';');
    lemma_reads_pins(c1, pins, after_pins);
    let c2 = pin_list(c1).0;
    assert(c2.rest =~= none + after_pins);
    lemma_reads_spaced_token(c2, none, Token::Semicolon, behind);
}

/// The text of a part is read as that part.
#[verifier::rlimit(60)]
pub proof fn lemma_reads_part(c: Cursor, item: PartShape, behind: Seq<char>)
    requires
        c.rest == render_part(item, behind),
        item.readable(),
    ensures
        part(c) matches Ok((end, read)) && read.shape() == item && end.rest == behind,
{
    reveal(part);
    let none = Seq::<char>::empty();
    let after_close = Token::Semicolon.text() + behind;
    let after_wires = Token::CloseParen.text() + after_close;
    let wires = render_connections(item.connections, after_wires);
    let after_name = Token::OpenParen.text() + wires;
    assert(after_name[0] == '(');
    lemma_reads_pin(c, new_line(), item.name, after_name);
    let c1 = pin(c)->Ok_0.0;
    assert(c1.rest =~= none + after_name);
    lemma_reads_spaced_token(c1, none, Token::OpenParen, wires);
    let c2 = spaced_token(c1, Token::OpenParen)->Ok_0.0;
    assert(after_wires[0] == ')');
    lemma_reads_connections(c2, item.connections, after_wires);
    let c3 = connection_list(c2).0;
    assert(c3.rest =~= none + after_wires);
    lemma_reads_spaced_token(c3, none, Token::CloseParen, after_close);
    let c4 = spaced_token(c3, Token::CloseParen)->Ok_0.0;
    assert(c4.rest =~= none + after_close);
    lemma_reads_spaced_token(c4, none, Token::Semicolon, behind);
}

/// The text of the parts of a chip, in front of the line with the closing
/// bracket, is read as those parts.
pub proof fn lemma_reads_parts(c: Cursor, items: Seq<PartShape>, behind: Seq<char>)
    requires
        c.rest == render_parts(items, line_end() + (Token::CloseBrace.text() + behind)),
        all_parts_readable(items),
    ensures
        part_shapes(parts(c).1) == items,
        parts(c).0.rest == line_end() + (Token::CloseBrace.text() + behind),
    decreases items.len(),
{
    let closing = Token::CloseBrace.text() + behind;
    let end_text = line_end() + closing;
    if items.len() == 0 {
        reveal(part);
        assert(closing[0] == '}');
        lemma_skips(c, line_end(), closing);
        lemma_run(skip_white(c).rest, CharClass::Word);
        assert(pin(c) is Err);
        assert(part(c) is Err);
        assert(part_shapes(parts(c).1) =~= items);
    } else {
        let tail = items.drop_first();
        let after = render_parts(tail, end_text);
        assert(items[0].readable());
        lemma_reads_part(c, items[0], after);
        let c1 = part(c)->Ok_0.0;
        let read = part(c)->Ok_0.1;
        crate::progress::lemma_part_forward(c);
        assert forall|i: int| 0 <= i < tail.len() implies (#[trigger] tail[i]).readable() by {
            assert(tail[i] == items[i + 1]);
        }
        lemma_reads_parts(c1, tail, behind);
        let more = parts(c1);
        assert(parts(c) == (more.0, seq![read] + more.1));
        assert(part_shapes(seq![read] + more.1) =~= items) by {
            assert forall|i: int| 0 <= i < items.len() implies part_shapes(seq![read] + more.1)[i]
                == items[i] by {
                if i > 0 {
                    assert((seq![read] + more.1)[i] == more.1[i - 1]);
                    assert(part_shapes(more.1)[i - 1] == tail[i - 1]);
                }
            }
        }
    }
}

/// The text of the head of a chip, in front of a text that could not
/// lengthen the name, is read as that name.
pub proof fn lemma_reads_head(c: Cursor, name: Seq<char>, behind: Seq<char>)
    requires
        c.rest == Token::Chip.text() + (blank() + (name + behind)),
        is_name(name),
        behind.len() > 0 ==> !is_word(behind[0]),
    ensures
        chip_head(c) matches Ok((end, read)) && read.value == name && end.rest == behind,
{
    let none = Seq::<char>::empty();
    let after_word = blank() + (name + behind);
    assert(c.rest =~= none + (Token::Chip.text() + after_word));
    lemma_reads_spaced_token(c, none, Token::Chip, after_word);
    let c1 = spaced_token(c, Token::Chip)->Ok_0.0;
    lemma_reads_pin(c1, blank(), name, behind);
}

/// The text of the body of a chip is read as that body.
#[verifier::rlimit(60)]
pub proof fn lemma_reads_body(c: Cursor, shape: ChipShape, behind: Seq<char>)
    requires
        c.rest == render_body(shape, behind),
        shape.readable(),
    ensures
        chip_body(c) matches Ok((end, read)) && names(read.0) == shape.in_decl && names(read.1)
            == shape.out_decl && part_shapes(read.2) == shape.parts && end.rest == behind,
{
    let closing = Token::CloseBrace.text() + behind;
    let end_text = line_end() + closing;
    let listed = render_parts(shape.parts, end_text);
    let after_outputs = new_line() + (Token::Parts.text() + listed);
    let after_inputs = render_decl(Token::Out, shape.out_decl, after_outputs);
    let after_open = render_decl(Token::In, shape.in_decl, after_inputs);
    lemma_reads_spaced_token(c, blank(), Token::OpenBrace, after_open);
    let c1 = spaced_token(c, Token::OpenBrace)->Ok_0.0;
    lemma_reads_decl(c1, Token::In, Rule::InputPins, shape.in_decl, after_inputs);
    let c2 = pin_decl(c1, Token::In, Rule::InputPins)->Ok_0.0;
    lemma_reads_decl(c2, Token::Out, Rule::OutputPins, shape.out_decl, after_outputs);
    let c3 = pin_decl(c2, Token::Out, Rule::OutputPins)->Ok_0.0;
    lemma_reads_spaced_token(c3, new_line(), Token::Parts, listed);
    let c4 = spaced_token(c3, Token::Parts)->Ok_0.0;
    lemma_reads_parts(c4, shape.parts, behind);
    let c5 = parts(c4).0;
    lemma_reads_spaced_token(c5, line_end(), Token::CloseBrace, behind);
}

/// The text of a chip is read as that chip, and the line break that ends
/// it is left.
pub proof fn lemma_reads_chip(c: Cursor, shape: ChipShape, behind: Seq<char>)
    requires
        c.rest == render_chip(shape, behind),
        shape.readable(),
    ensures
        chip(c) matches Ok((end, read)) && read.shape() == shape && end.rest == line_end()
            + behind,
{
    let body = render_body(shape, line_end() + behind);
    assert(body[0] == ' ');
    assert(c.rest == Token::Chip.text() + (blank() + (shape.name + body)));
    lemma_reads_head(c, shape.name, body);
    let c1 = chip_head(c)->Ok_0.0;
    lemma_reads_body(c1, shape, line_end() + behind);
}

/// Reading back: the source text of a readable shape is read, whole, as a
/// chip of that shape.
pub proof fn lemma_reads_source(shape: ChipShape)
    requires
        shape.readable(),
    ensures
        whole(Cursor::start(source_of(shape))) matches Ok(read) && read.shape() == shape,
{
    let none = Seq::<char>::empty();
    let c = Cursor::start(source_of(shape));
    lemma_reads_chip(c, shape, none);
    let c1 = chip(c)->Ok_0.0;
    assert(c1.rest =~= line_end() + none);
    lemma_skips(c1, line_end(), none);
}

/// A slice that was read has a name that the language takes.
pub proof fn lemma_read_slice_is_readable(c: Cursor)
    ensures
        bus_slice(c) matches Ok((_, read)) ==> read.shape().readable() && read.name.value
            .is_prefix_of(c.rest),
{
    lemma_identifier_gives_name(c);
    if let Ok((end, name)) = identifier(c) {
        assert(c.rest.subrange(0, name.len() as int) =~= name);
    }
}

/// The left side of a connection that was read is readable.
pub proof fn lemma_read_lhs_is_readable(c: Cursor)
    ensures
        lhs_connector(c) matches Ok((_, read)) ==> read.value.shape().readable(),
{
    lemma_read_slice_is_readable(c);
    lemma_identifier_gives_name(c);
}

/// A text with a prefix that begins with a constant begins with that
/// constant.
proof fn lemma_prefix_of_prefix(word: Seq<char>, name: Seq<char>, text: Seq<char>)
    requires
        word.is_prefix_of(name),
        name.is_prefix_of(text),
    ensures
        word.is_prefix_of(text),
{
    assert(text.subrange(0, word.len() as int) =~= name.subrange(0, word.len() as int)) by {
        assert forall|i: int| 0 <= i < word.len() implies text[i] == name[i] by {
            assert(text.subrange(0, name.len() as int)[i] == name[i]);
        }
    }
}

/// The right side of a connection that was read is readable: no signal that
/// begins with `true` or `false` is ever read there, since the constant is
/// tried first.
pub proof fn lemma_read_rhs_is_readable(c: Cursor)
    ensures
        rhs_connector(c) matches Ok((_, read)) ==> read.value.shape().readable(),
{
    lemma_read_slice_is_readable(c);
    lemma_identifier_gives_name(c);
    if boolean(c) is Err {
        assert(!Token::True.text().is_prefix_of(c.rest));
        assert(!Token::False.text().is_prefix_of(c.rest));
        if let Ok((_, slice)) = bus_slice(c) {
            if Token::True.text().is_prefix_of(slice.name.value) {
                lemma_prefix_of_prefix(Token::True.text(), slice.name.value, c.rest);
            }
            if Token::False.text().is_prefix_of(slice.name.value) {
                lemma_prefix_of_prefix(Token::False.text(), slice.name.value, c.rest);
            }
        } else if let Ok((end, name)) = identifier(c) {
            assert(c.rest.subrange(0, name.len() as int) =~= name);
            if Token::True.text().is_prefix_of(name) {
                lemma_prefix_of_prefix(Token::True.text(), name, c.rest);
            }
            if Token::False.text().is_prefix_of(name) {
                lemma_prefix_of_prefix(Token::False.text(), name, c.rest);
            }
        }
    }
}

/// A connection that was read is readable.
pub proof fn lemma_read_connection_is_readable(c: Cursor)
    ensures
        connection(c) matches Ok((_, read)) ==> read.shape().readable(),
{
    lemma_read_lhs_is_readable(skip_white(c));
    if let Ok((c1, _)) = lhs_connector(skip_white(c)) {
        if let Ok((c2, _)) = spaced_token(c1, Token::Equals) {
            lemma_read_rhs_is_readable(skip_white(c2));
        }
    }
}

/// A readable connection in front of readable ones gives readable ones.
proof fn lemma_wires_readable_cons(first: ConnectionModel, more: Seq<ConnectionModel>)
    requires
        first.shape().readable(),
        all_wires_readable(wire_shapes(more)),
    ensures
        all_wires_readable(wire_shapes(seq![first] + more)),
{
    let all = seq![first] + more;
    assert forall|i: int| 0 <= i < wire_shapes(all).len() implies (#[trigger] wire_shapes(
        all,
    )[i]).readable() by {
        if i > 0 {
            assert(all[i] == more[i - 1]);
            assert(wire_shapes(more)[i - 1].readable());
        }
    }
}

/// The connections behind the first that were read are readable.
pub proof fn lemma_read_more_connections_are_readable(c: Cursor)
    ensures
        all_wires_readable(wire_shapes(more_connections(c).1)),
    decreases c.rest.len(),
{
    if let Ok((c1, _)) = spaced_token(c, Token::Comma) {
        lemma_read_connection_is_readable(c1);
        if let Ok((c2, item)) = connection(c1) {
            if c2.rest.len() < c.rest.len() {
                lemma_read_more_connections_are_readable(c2);
                lemma_wires_readable_cons(item, more_connections(c2).1);
            }
        }
    }
}

/// The connections of a part that were read are readable.
pub proof fn lemma_read_connections_are_readable(c: Cursor)
    ensures
        all_wires_readable(wire_shapes(connection_list(c).1)),
{
    lemma_read_connection_is_readable(c);
    if let Ok((c1, item)) = connection(c) {
        lemma_read_more_connections_are_readable(c1);
        lemma_wires_readable_cons(item, more_connections(c1).1);
    }
}

/// A pin name that was read is a name.
pub proof fn lemma_read_pin_is_name(c: Cursor)
    ensures
        pin(c) matches Ok((_, read)) ==> is_name(read.value),
{
    lemma_identifier_gives_name(skip_white(c));
}

/// A name in front of names gives names.
proof fn lemma_names_cons(first: Loc<Seq<char>>, more: Seq<Loc<Seq<char>>>)
    requires
        is_name(first.value),
        all_names(names(more)),
    ensures
        all_names(names(seq![first] + more)),
{
    let all = seq![first] + more;
    assert forall|i: int| 0 <= i < names(all).len() implies is_name(#[trigger] names(all)[i]) by {
        if i > 0 {
            assert(all[i] == more[i - 1]);
            assert(is_name(names(more)[i - 1]));
        }
    }
}

/// The pin names behind the first that were read are names.
pub proof fn lemma_read_more_pins_are_names(c: Cursor)
    ensures
        all_names(names(more_pins(c).1)),
    decreases c.rest.len(),
{
    if let Ok((c1, _)) = spaced_token(c, Token::Comma) {
        lemma_read_pin_is_name(c1);
        if let Ok((c2, item)) = pin(c1) {
            if c2.rest.len() < c.rest.len() {
                lemma_read_more_pins_are_names(c2);
                lemma_names_cons(item, more_pins(c2).1);
            }
        }
    }
}

/// The pin names that were read are names.
pub proof fn lemma_read_pins_are_names(c: Cursor)
    ensures
        all_names(names(pin_list(c).1)),
{
    lemma_read_pin_is_name(c);
    if let Ok((c1, item)) = pin(c) {
        lemma_read_more_pins_are_names(c1);
        lemma_names_cons(item, more_pins(c1).1);
    }
}

/// The pin names of a declaration that was read are names.
pub proof fn lemma_read_decl_is_names(c: Cursor, keyword: Token, rule: Rule)
    ensures
        pin_decl(c, keyword, rule) matches Ok((_, read)) ==> all_names(names(read)),
{
    if let Ok((c1, _)) = spaced_token(c, keyword) {
        lemma_read_pins_are_names(c1);
    }
}

/// A part that was read is readable.
pub proof fn lemma_read_part_is_readable(c: Cursor)
    ensures
        part(c) matches Ok((_, read)) ==> read.shape().readable(),
{
    reveal(part);
    lemma_read_pin_is_name(c);
    if let Ok((c1, _)) = pin(c) {
        if let Ok((c2, _)) = spaced_token(c1, Token::OpenParen) {
            lemma_read_connections_are_readable(c2);
        }
    }
}

/// The parts that were read are readable.
pub proof fn lemma_read_parts_are_readable(c: Cursor)
    ensures
        all_parts_readable(part_shapes(parts(c).1)),
    decreases c.rest.len(),
{
    lemma_read_part_is_readable(c);
    if let Ok((c1, item)) = part(c) {
        if c1.rest.len() < c.rest.len() {
            lemma_read_parts_are_readable(c1);
            let more = parts(c1).1;
            let all = seq![item] + more;
            assert forall|i: int| 0 <= i < part_shapes(all).len() implies (#[trigger] part_shapes(
                all,
            )[i]).readable() by {
                if i > 0 {
                    assert(all[i] == more[i - 1]);
                    assert(part_shapes(more)[i - 1].readable());
                }
            }
        }
    }
}

/// A chip that was read is readable.
pub proof fn lemma_read_chip_is_readable(c: Cursor)
    ensures
        chip(c) matches Ok((_, read)) ==> read.shape().readable(),
{
    if let Ok((c0, _)) = spaced_token(c, Token::Chip) {
        lemma_read_pin_is_name(c0);
    }
    if let Ok((c1, _)) = chip_head(c) {
        if let Ok((c2, _)) = spaced_token(c1, Token::OpenBrace) {
            lemma_read_decl_is_names(c2, Token::In, Rule::InputPins);
            if let Ok((c3, _)) = pin_decl(c2, Token::In, Rule::InputPins) {
                lemma_read_decl_is_names(c3, Token::Out, Rule::OutputPins);
                if let Ok((c4, _)) = pin_decl(c3, Token::Out, Rule::OutputPins) {
                    if let Ok((c5, _)) = spaced_token(c4, Token::Parts) {
                        lemma_read_parts_are_readable(c5);
                    }
                }
            }
        }
    }
}

/// Whatever source text the grammar reads as a chip, the chip's own source
/// text is read again, whole, as a chip of the same shape: the two differ in
/// the places of their pieces at most.
pub proof fn lemma_reads_back(source: Seq<char>)
    ensures
        whole(Cursor::start(source)) matches Ok(first) ==> (whole(
            Cursor::start(source_of(first.shape())),
        ) matches Ok(second) && second.shape() == first.shape()),
{
    let c = Cursor::start(source);
    lemma_read_chip_is_readable(c);
    if let Ok(first) = whole(c) {
        lemma_reads_source(first.shape());
    }
}

/// The same of `diagnosed`: where it reads a source text as a chip, it
/// reads the chip's own source text as a chip of the same shape.
pub proof fn lemma_diagnosed_reads_back(source: Seq<char>)
    ensures
        diagnosed(source) matches Ok(first) ==> (diagnosed(source_of(first.shape())) matches Ok(
            second,
        ) && second.shape() == first.shape()),
{
    lemma_reads_back(source);
}

} // verus!
