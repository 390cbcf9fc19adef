//! Writing a chip back as source text.

use crate::ast::{views, BusSlice, Chip, Connection, LPinName, LhsConnector, Part, RhsConnector};
use crate::error::Token;
use crate::render::{
    blank, digit_char, digits_of, line_end, new_line, render_body, render_connection,
    render_connections, render_decl, render_lhs, render_more_connections, render_more_pins,
    render_part, render_parts, render_pins, render_rhs, render_slice, source_of,
};
use crate::shape::{names, part_shapes, wire_shapes};
use vstd::prelude::*;
use vstd::string::*;

verus! {

/// Writes `text`.
fn put(out: &mut String, text: &str, Ghost(rest): Ghost<Seq<char>>)
    ensures
        final(out)@ == old(out)@ + text@,
        final(out)@ + rest == old(out)@ + (text@ + rest),
{
    out.append(text);
    assert(out@ + rest =~= old(out)@ + (text@ + rest));
}

/// Writes `token`.
fn put_token(out: &mut String, token: Token, Ghost(rest): Ghost<Seq<char>>)
    ensures
        final(out)@ + rest == old(out)@ + (token.text() + rest),
{
    put(out, token.as_str(), Ghost(rest));
}

/// Writes one blank.
fn put_blank(out: &mut String, Ghost(rest): Ghost<Seq<char>>)
    ensures
        final(out)@ + rest == old(out)@ + (blank() + rest),
{
    proof {
        reveal_strlit(" ");
        assert(" "@ =~= blank());
    }
    put(out, " ", Ghost(rest));
}

/// Begins a line inside a chip.
fn put_new_line(out: &mut String, Ghost(rest): Ghost<Seq<char>>)
    ensures
        final(out)@ + rest == old(out)@ + (new_line() + rest),
{
    proof {
        reveal_strlit("\n    ");
        assert("\n    "@ =~= new_line());
    }
    put(out, "\n    ", Ghost(rest));
}

/// Ends a line.
fn put_line_end(out: &mut String, Ghost(rest): Ghost<Seq<char>>)
    ensures
        final(out)@ + rest == old(out)@ + (line_end() + rest),
{
    proof {
        reveal_strlit("\n");
        assert("\n"@ =~= line_end());
    }
    put(out, "\n", Ghost(rest));
}

/// The decimal digit `d` as a text.
fn digit_text(d: u32) -> (text: &'static str)
    requires
        d < 10,
    ensures
        text@ == seq![digit_char(d as nat)],
{
    proof {
        reveal_strlit("0");
        reveal_strlit("1");
        reveal_strlit("2");
        reveal_strlit("3");
        reveal_strlit("4");
        reveal_strlit("5");
        reveal_strlit("6");
        reveal_strlit("7");
        reveal_strlit("8");
        reveal_strlit("9");
    }
    let text = if d == 0 {
        "0"
    } else if d == 1 {
        "1"
    } else if d == 2 {
        "2"
    } else if d == 3 {
        "3"
    } else if d == 4 {
        "4"
    } else if d == 5 {
        "5"
    } else if d == 6 {
        "6"
    } else if d == 7 {
        "7"
    } else if d == 8 {
        "8"
    } else {
        "9"
    };
    assert(text@ =~= seq![digit_char(d as nat)]);
    text
}

/// Writes `n` in decimal digits, without leading zeros.
fn put_digits(out: &mut String, n: u32)
    ensures
        final(out)@ == old(out)@ + digits_of(n as nat),
    decreases n,
{
    if n < 10 {
        out.append(digit_text(n));
    } else {
        put_digits(out, n / 10);
        out.append(digit_text(n % 10));
        assert(out@ =~= old(out)@ + digits_of(n as nat));
    }
}

/// Writes `n` in decimal digits.
fn put_number(out: &mut String, n: u32, Ghost(rest): Ghost<Seq<char>>)
    ensures
        final(out)@ + rest == old(out)@ + (digits_of(n as nat) + rest),
{
    put_digits(out, n);
    assert(out@ + rest =~= old(out)@ + (digits_of(n as nat) + rest));
}

/// Writes a slice as `name[low..high]`.
fn put_slice(out: &mut String, slice: &BusSlice<'_>, Ghost(rest): Ghost<Seq<char>>)
    ensures
        final(out)@ + rest == old(out)@ + render_slice(slice@.shape(), rest),
{
    let ghost shape = slice@.shape();
    let ghost after_high = Token::CloseBracket.text() + rest;
    let ghost after_dots = digits_of(shape.high as nat) + after_high;
    let ghost after_low = Token::DotDot.text() + after_dots;
    let ghost after_open = digits_of(shape.low as nat) + after_low;
    let ghost after_name = Token::OpenBracket.text() + after_open;
    put(out, slice.name.value.0, Ghost(after_name));
    put_token(out, Token::OpenBracket, Ghost(after_open));
    put_number(out, slice.slice.0.value, Ghost(after_low));
    put_token(out, Token::DotDot, Ghost(after_dots));
    put_number(out, slice.slice.1.value, Ghost(after_high));
    put_token(out, Token::CloseBracket, Ghost(rest));
}

/// Writes the left side of a connection.
fn put_lhs(out: &mut String, lhs: &LhsConnector<'_>, Ghost(rest): Ghost<Seq<char>>)
    ensures
        final(out)@ + rest == old(out)@ + render_lhs(lhs@.shape(), rest),
{
    match lhs {
        LhsConnector::Bus(name) => put(out, name, Ghost(rest)),
        LhsConnector::Slice(slice) => put_slice(out, slice, Ghost(rest)),
    }
}

/// Writes the right side of a connection.
fn put_rhs(out: &mut String, rhs: &RhsConnector<'_>, Ghost(rest): Ghost<Seq<char>>)
    ensures
        final(out)@ + rest == old(out)@ + render_rhs(rhs@.shape(), rest),
{
    match rhs {
        RhsConnector::Bus(name) => put(out, name, Ghost(rest)),
        RhsConnector::Slice(slice) => put_slice(out, slice, Ghost(rest)),
        RhsConnector::Potential(level) => {
            if *level {
                put_token(out, Token::True, Ghost(rest))
            } else {
                put_token(out, Token::False, Ghost(rest))
            }
        },
    }
}

/// Writes a connection as `lhs=rhs`.
fn put_connection(out: &mut String, wire: &Connection<'_>, Ghost(rest): Ghost<Seq<char>>)
    ensures
        final(out)@ + rest == old(out)@ + render_connection(wire@.shape(), rest),
{
    let ghost right = render_rhs(wire@.shape().rhs, rest);
    put_lhs(out, &wire.lhs.value, Ghost(Token::Equals.text() + right));
    put_token(out, Token::Equals, Ghost(right));
    put_rhs(out, &wire.rhs.value, Ghost(rest));
}

/// Writes the connections of a part, with a comma and a blank between them.
fn put_connections(out: &mut String, wires: &Vec<Connection<'_>>, Ghost(rest): Ghost<Seq<char>>)
    ensures
        final(out)@ + rest == old(out)@ + render_connections(wire_shapes(views(wires@)), rest),
{
    let ghost shapes = wire_shapes(views(wires@));
    if wires.len() == 0 {
        return ;
    }
    proof {
        assert(shapes.drop_first() =~= shapes.skip(1));
        assert(shapes[0] == wires@[0]@.shape());
    }
    put_connection(out, &wires[0], Ghost(render_more_connections(shapes.skip(1), rest)));
    let mut i: usize = 1;
    while i < wires.len()
        invariant
            1 <= i <= wires.len(),
            shapes == wire_shapes(views(wires@)),
            out@ + render_more_connections(shapes.skip(i as int), rest) == old(out)@
                + render_connections(shapes, rest),
        decreases wires.len() - i,
    {
        let ghost after = render_more_connections(shapes.skip(i as int + 1), rest);
        let ghost item = render_connection(shapes[i as int], after);
        proof {
            assert(shapes.skip(i as int).drop_first() =~= shapes.skip(i as int + 1));
            assert(shapes.skip(i as int)[0] == shapes[i as int]);
            assert(shapes[i as int] == wires@[i as int]@.shape());
        }
        put_token(out, Token::Comma, Ghost(blank() + item));
        put_blank(out, Ghost(item));
        put_connection(out, &wires[i], Ghost(after));
        i = i + 1;
    }
    proof {
        assert(shapes.skip(i as int) =~= Seq::empty());
    }
}

/// Writes the pin names of a declaration, the first behind a blank, the
/// others each behind a comma and a blank.
fn put_pins(out: &mut String, pins: &Vec<LPinName<'_>>, Ghost(rest): Ghost<Seq<char>>)
    ensures
        final(out)@ + rest == old(out)@ + render_pins(names(views(pins@)), rest),
{
    let ghost listed = names(views(pins@));
    if pins.len() == 0 {
        return ;
    }
    proof {
        assert(listed.drop_first() =~= listed.skip(1));
        assert(listed[0] == pins@[0].value.0@);
    }
    put_blank(out, Ghost(listed[0] + render_more_pins(listed.skip(1), rest)));
    put(out, pins[0].value.0, Ghost(render_more_pins(listed.skip(1), rest)));
    let mut i: usize = 1;
    while i < pins.len()
        invariant
            1 <= i <= pins.len(),
            listed == names(views(pins@)),
            out@ + render_more_pins(listed.skip(i as int), rest) == old(out)@ + render_pins(
                listed,
                rest,
            ),
        decreases pins.len() - i,
    {
        let ghost after = render_more_pins(listed.skip(i as int + 1), rest);
        proof {
            assert(listed.skip(i as int).drop_first() =~= listed.skip(i as int + 1));
            assert(listed.skip(i as int)[0] == listed[i as int]);
            assert(listed[i as int] == pins@[i as int].value.0@);
        }
        put_token(out, Token::Comma, Ghost(blank() + (listed[i as int] + after)));
        put_blank(out, Ghost(listed[i as int] + after));
        put(out, pins[i].value.0, Ghost(after));
        i = i + 1;
    }
    proof {
        assert(listed.skip(i as int) =~= Seq::empty());
    }
}

/// Writes a declaration of pins on a line of its own.
fn put_decl(
    out: &mut String,
    keyword: Token,
    pins: &Vec<LPinName<'_>>,
    Ghost(rest): Ghost<Seq<char>>,
)
    ensures
        final(out)@ + rest == old(out)@ + render_decl(keyword, names(views(pins@)), rest),
{
    let ghost after_pins = Token::Semicolon.text() + rest;
    let ghost listed = render_pins(names(views(pins@)), after_pins);
    put_new_line(out, Ghost(keyword.text() + listed));
    put_token(out, keyword, Ghost(listed));
    put_pins(out, pins, Ghost(after_pins));
    put_token(out, Token::Semicolon, Ghost(rest));
}

/// Writes a part on a line of its own.
fn put_part(out: &mut String, part: &Part<'_>, Ghost(rest): Ghost<Seq<char>>)
    ensures
        final(out)@ + rest == old(out)@ + render_part(part@.shape(), rest),
{
    let ghost shape = part@.shape();
    let ghost after_close = Token::Semicolon.text() + rest;
    let ghost after_wires = Token::CloseParen.text() + after_close;
    let ghost wires = render_connections(shape.connections, after_wires);
    let ghost after_name = Token::OpenParen.text() + wires;
    put_new_line(out, Ghost(shape.name + after_name));
    put(out, part.name.value.0, Ghost(after_name));
    put_token(out, Token::OpenParen, Ghost(wires));
    put_connections(out, &part.connections.0, Ghost(after_wires));
    put_token(out, Token::CloseParen, Ghost(after_close));
    put_token(out, Token::Semicolon, Ghost(rest));
}

/// Writes the parts of a chip, each on a line of its own.
fn put_parts(out: &mut String, parts: &Vec<Part<'_>>, Ghost(rest): Ghost<Seq<char>>)
    ensures
        final(out)@ + rest == old(out)@ + render_parts(part_shapes(views(parts@)), rest),
{
    let ghost shapes = part_shapes(views(parts@));
    let mut i: usize = 0;
    proof {
        assert(shapes.skip(0) =~= shapes);
    }
    while i < parts.len()
        invariant
            i <= parts.len(),
            shapes == part_shapes(views(parts@)),
            out@ + render_parts(shapes.skip(i as int), rest) == old(out)@ + render_parts(
                shapes,
                rest,
            ),
        decreases parts.len() - i,
    {
        proof {
            assert(shapes.skip(i as int).drop_first() =~= shapes.skip(i as int + 1));
            assert(shapes.skip(i as int)[0] == shapes[i as int]);
            assert(shapes[i as int] == parts@[i as int]@.shape());
        }
        put_part(out, &parts[i], Ghost(render_parts(shapes.skip(i as int + 1), rest)));
        i = i + 1;
    }
    proof {
        assert(shapes.skip(i as int) =~= Seq::empty());
    }
}

impl<'s> Chip<'s> {
    /// The chip as source text, in a fixed layout: the declarations and the
    /// parts each on a line of their own. The places that the chip's pieces
    /// had in the source they were read from play no part in it.
    pub fn to_source(&self) -> (text: String)
        ensures
            text@ == source_of(self@.shape()),
    {
        let ghost shape = self@.shape();
        let ghost none = Seq::<char>::empty();
        let ghost last = line_end() + none;
        let ghost closing = Token::CloseBrace.text() + last;
        let ghost end_text = line_end() + closing;
        let ghost listed = render_parts(shape.parts, end_text);
        let ghost after_outputs = new_line() + (Token::Parts.text() + listed);
        let ghost after_inputs = render_decl(Token::Out, shape.out_decl, after_outputs);
        let ghost after_open = render_decl(Token::In, shape.in_decl, after_inputs);
        let ghost body = blank() + (Token::OpenBrace.text() + after_open);
        assert(body == render_body(shape, last));
        let mut out = String::new();
        put_token(&mut out, Token::Chip, Ghost(blank() + (shape.name + body)));
        put_blank(&mut out, Ghost(shape.name + body));
        put(&mut out, self.name.value.0, Ghost(body));
        put_blank(&mut out, Ghost(Token::OpenBrace.text() + after_open));
        put_token(&mut out, Token::OpenBrace, Ghost(after_open));
        put_decl(&mut out, Token::In, &self.in_decl, Ghost(after_inputs));
        put_decl(&mut out, Token::Out, &self.out_decl, Ghost(after_outputs));
        put_new_line(&mut out, Ghost(Token::Parts.text() + listed));
        put_token(&mut out, Token::Parts, Ghost(listed));
        put_parts(&mut out, &self.parts, Ghost(end_text));
        put_line_end(&mut out, Ghost(closing));
        put_token(&mut out, Token::CloseBrace, Ghost(last));
        put_line_end(&mut out, Ghost(none));
        proof {
            assert(out@ + none =~= out@);
            assert(Seq::<char>::empty() + source_of(shape) =~= source_of(shape));
        }
        out
    }
}

} // verus!
