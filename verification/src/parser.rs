//! The rules of the grammar as functions that read a source text.
//!
//! Each rule does on an `Input` what the rule of the same name in `grammar`
//! says of the text behind that input, and nothing else.

use crate::ast::{
    lemma_views_push, views, BusSlice, Chip, ChipModel, ChipName, Connection, ConnectionList,
    LChipName, LLhsConnector, LPinName, LRhsConnector, LUnsigned, LhsConnector, Part, PinName,
    RhsConnector,
};
use crate::error::{ErrorTree, Expected, Failure, FailureKind, Fault, HdlError, Rule, Token};
use crate::grammar;
use crate::grammar::{BodyModel, Parsed};
use crate::input::Input;
use crate::located::{locate, Loc};
use crate::progress::{
    lemma_connection_forward, lemma_part_forward, lemma_pin_forward, lemma_spaced_token_forward,
};
use crate::text::{is_digit, lemma_run, run_len, CharClass};
use std::str::Chars;
use vstd::prelude::*;
use vstd::std_specs::iter::IteratorSpec;
use vstd::string::*;

verus! {

broadcast use vstd::string::group_string_axioms;

/// What a rule hands back: the input behind what it read and the value, or
/// the failure.
pub type LResult<'s, O> = Result<(Input<'s>, O), ErrorTree>;

/// What the result of a rule stands for.
pub open spec fn outcome<'s, O: View>(r: LResult<'s, O>) -> Parsed<O::V> {
    match r {
        Ok((rest, value)) => Ok((rest@, value@)),
        Err(failure) => Err(failure@),
    }
}

/// What the result of a rule that reads a token stands for.
pub open spec fn mark<'s>(r: Result<Input<'s>, ErrorTree>) -> Parsed<()> {
    match r {
        Ok(rest) => Ok((rest@, ())),
        Err(failure) => Err(failure@),
    }
}

/// The single failure at `input`.
fn fail_at<'s>(input: Input<'s>, kind: FailureKind, expected: Expected) -> (tree: ErrorTree)
    ensures
        tree@ == grammar::fail(input@, kind, expected),
{
    ErrorTree::Base { offset: input.location_offset(), kind, expected }
}

/// The single failure at `input` of a rule that needs a character there.
fn lexical_failure<'s>(input: Input<'s>, expected: Expected) -> (tree: ErrorTree)
    ensures
        tree@ == grammar::fail(input@, grammar::lexical_kind(input@), expected),
{
    if input.at_end() {
        fail_at(input, FailureKind::Incomplete, expected)
    } else {
        fail_at(input, FailureKind::Lexical, expected)
    }
}

/// Skips the blank space ahead and hands it back. This never fails.
pub fn skip_white<'s>(input: Input<'s>) -> (r: LResult<'s, &'s str>)
    ensures
        r matches Ok((rest, blank)) && rest@ == grammar::skip_white(input@) && blank@
            == input@.rest.take(run_len(input@.rest, CharClass::Whitespace) as int),
{
    let (blank, rest) = input.take_run(CharClass::Whitespace);
    Ok((rest, blank))
}

/// The input behind the blank space ahead.
fn skip<'s>(input: Input<'s>) -> (rest: Input<'s>)
    ensures
        rest@ == grammar::skip_white(input@),
{
    input.take_run(CharClass::Whitespace).1
}

/// Reads `token`, which must stand at the input exactly as it is spelled.
pub fn expect<'s>(input: Input<'s>, token: Token) -> (r: Result<Input<'s>, ErrorTree>)
    ensures
        mark(r) == grammar::token(input@, token),
{
    match input.strip_prefix(token.as_str()) {
        Ok(rest) => Ok(rest),
        Err(ended) => {
            if ended {
                Err(fail_at(input, FailureKind::Incomplete, Expected::Token(token)))
            } else {
                Err(fail_at(input, FailureKind::Syntax, Expected::Token(token)))
            }
        },
    }
}

/// Reads `token` behind any blank space.
pub fn expect_spaced<'s>(input: Input<'s>, token: Token) -> (r: Result<Input<'s>, ErrorTree>)
    ensures
        mark(r) == grammar::spaced_token(input@, token),
{
    expect(skip(input), token)
}

/// Reads an identifier: the longest run of letters, numbers and underscores
/// ahead, which must not be empty and must not begin with a decimal digit.
pub fn identifier<'s>(input: Input<'s>) -> (r: LResult<'s, &'s str>)
    ensures
        outcome(r) == grammar::identifier(input@),
{
    let (digits, _) = input.take_run(CharClass::Digit);
    proof {
        lemma_run(input@.rest, CharClass::Digit);
        lemma_run(input@.rest, CharClass::Word);
    }
    if !digits.is_empty() {
        return Err(lexical_failure(input, Expected::Identifier));
    }
    let (name, rest) = input.take_run(CharClass::Word);
    if name.is_empty() {
        return Err(lexical_failure(input, Expected::Identifier));
    }
    Ok((rest, name))
}

/// The number that the decimal digits of `digits` write, if it fits in 32 bits.
fn digits_value(digits: &str) -> (value: Option<u32>)
    requires
        forall|i: int| 0 <= i < digits@.len() ==> is_digit(#[trigger] digits@[i]),
    ensures
        match value {
            Some(v) => grammar::decimal(digits@) == v,
            None => grammar::decimal(digits@) > u32::MAX,
        },
{
    let ghost t = digits@;
    let mut it: Chars<'_> = digits.chars();
    let mut acc: u64 = 0;
    let ghost mut k: nat = 0;
    proof {
        assert(t.skip(0) =~= t);
        assert(t.take(0) =~= Seq::<char>::empty());
    }
    loop
        invariant
            k <= t.len(),
            t == digits@,
            it.obeys_prophetic_iter_laws(),
            it.remaining() == t.skip(k as int),
            acc == grammar::decimal(t.take(k as int)),
            acc <= u32::MAX,
            forall|i: int| 0 <= i < t.len() ==> is_digit(#[trigger] t[i]),
        decreases t.len() - k,
    {
        let next: Option<char> = it.next();
        match next {
            None => {
                proof {
                    assert(t.take(k as int) =~= t);
                }
                return Some(acc as u32);
            },
            Some(c) => {
                proof {
                    assert(is_digit(t[k as int]));
                    grammar::lemma_decimal_step(t, k as int);
                    assert(t.skip(k as int).drop_first() =~= t.skip(k as int + 1));
                }
                let digit: u64 = (c as u32 - '0' as u32) as u64;
                let grown: u64 = acc * 10 + digit;
                if grown > u32::MAX as u64 {
                    proof {
                        grammar::lemma_decimal_grows(t, k as int + 1);
                    }
                    return None;
                }
                acc = grown;
                proof {
                    k = k + 1;
                }
            },
        }
    }
}

/// Reads an unsigned number: the longest run of decimal digits ahead, which
/// must not be empty and must write a number that fits in 32 bits.
pub fn unsigned<'s>(input: Input<'s>) -> (r: LResult<'s, u32>)
    ensures
        outcome(r) == grammar::unsigned(input@),
{
    let (digits, rest) = input.take_run(CharClass::Digit);
    proof {
        lemma_run(input@.rest, CharClass::Digit);
    }
    if digits.is_empty() {
        return Err(lexical_failure(input, Expected::Number));
    }
    match digits_value(digits) {
        Some(value) => Ok((rest, value)),
        None => Err(fail_at(input, FailureKind::Lexical, Expected::NumberInRange)),
    }
}

/// Reads the name of a pin.
pub fn pin_name<'s>(input: Input<'s>) -> (r: LResult<'s, PinName<'s>>)
    ensures
        outcome(r) == grammar::identifier(input@),
{
    match identifier(input) {
        Ok((rest, name)) => Ok((rest, PinName(name))),
        Err(failure) => Err(failure),
    }
}

/// Reads the name of a chip.
pub fn chip_name<'s>(input: Input<'s>) -> (r: LResult<'s, ChipName<'s>>)
    ensures
        outcome(r) == grammar::identifier(input@),
{
    match identifier(input) {
        Ok((rest, name)) => Ok((rest, ChipName(name))),
        Err(failure) => Err(failure),
    }
}

/// Reads `true` or `false`, tried in this order.
pub fn boolean<'s>(input: Input<'s>) -> (r: LResult<'s, bool>)
    ensures
        outcome(r) == grammar::boolean(input@),
{
    match expect(input, Token::True) {
        Ok(rest) => Ok((rest, true)),
        Err(first) => match expect(input, Token::False) {
            Ok(rest) => Ok((rest, false)),
            Err(second) => Err(first.or(second)),
        },
    }
}

/// Reads an unsigned number behind any blank space, with its place.
fn spaced_unsigned<'s>(input: Input<'s>) -> (r: LResult<'s, LUnsigned>)
    ensures
        outcome(r) == grammar::spaced_unsigned(input@),
{
    locate(unsigned, skip(input))
}

/// Reads the two bounds of a range of pins, with `..` between them.
fn slice_range<'s>(input: Input<'s>) -> (r: LResult<'s, (LUnsigned, LUnsigned)>)
    ensures
        outcome(r) == grammar::slice_range(input@),
{
    let (after_low, low) = spaced_unsigned(input)?;
    let after_dots = expect_spaced(after_low, Token::DotDot)?;
    let (rest, high) = spaced_unsigned(after_dots)?;
    Ok((rest, (low, high)))
}

/// Reads the number of a single pin, which is the range from it to itself.
fn slice_single<'s>(input: Input<'s>) -> (r: LResult<'s, (LUnsigned, LUnsigned)>)
    ensures
        outcome(r) == grammar::slice_single(input@),
{
    let (rest, pin) = spaced_unsigned(input)?;
    Ok((rest, (pin, pin)))
}

/// Reads a name and, in square brackets, a range of pins or a single pin.
/// The range is tried first.
pub fn bus_slice<'s>(input: Input<'s>) -> (r: LResult<'s, BusSlice<'s>>)
    ensures
        outcome(r) == grammar::bus_slice(input@),
{
    let (after_name, name) = locate(pin_name, input)?;
    let inside = expect_spaced(after_name, Token::OpenBracket)?;
    let (after_bounds, slice) = match slice_range(inside) {
        Ok(done) => done,
        Err(first) => match slice_single(inside) {
            Ok(done) => done,
            Err(second) => {
                return Err(first.or(second));
            },
        },
    };
    let rest = expect_spaced(after_bounds, Token::CloseBracket)?;
    Ok((rest, BusSlice { name, slice }))
}

/// Reads what may stand on the left of `=`, without its place.
fn lhs_inner<'s>(input: Input<'s>) -> (r: LResult<'s, LhsConnector<'s>>)
    ensures
        outcome(r) == grammar::either(grammar::lhs_slice(input@), grammar::lhs_bus(input@)),
{
    match bus_slice(input) {
        Ok((rest, slice)) => Ok((rest, LhsConnector::Slice(slice))),
        Err(first) => match identifier(input) {
            Ok((rest, name)) => Ok((rest, LhsConnector::Bus(name))),
            Err(second) => Err(first.or(second)),
        },
    }
}

/// Reads the left side of a connection: some pins of a bus, or else a name.
pub fn lhs_connector<'s>(input: Input<'s>) -> (r: LResult<'s, LLhsConnector<'s>>)
    ensures
        outcome(r) == grammar::lhs_connector(input@),
{
    locate(lhs_inner, input)
}

/// Reads what may stand on the right of `=`, without its place.
fn rhs_inner<'s>(input: Input<'s>) -> (r: LResult<'s, RhsConnector<'s>>)
    ensures
        outcome(r) == grammar::either(
            grammar::rhs_potential(input@),
            grammar::either(grammar::rhs_slice(input@), grammar::rhs_bus(input@)),
        ),
{
    match boolean(input) {
        Ok((rest, level)) => Ok((rest, RhsConnector::Potential(level))),
        Err(first) => match bus_slice(input) {
            Ok((rest, slice)) => Ok((rest, RhsConnector::Slice(slice))),
            Err(second) => match identifier(input) {
                Ok((rest, name)) => Ok((rest, RhsConnector::Bus(name))),
                Err(third) => Err(first.or(second.or(third))),
            },
        },
    }
}

/// Reads the right side of a connection: a constant, or else some pins of a
/// bus, or else a name.
pub fn rhs_connector<'s>(input: Input<'s>) -> (r: LResult<'s, LRhsConnector<'s>>)
    ensures
        outcome(r) == grammar::rhs_connector(input@),
{
    locate(rhs_inner, input)
}

/// Reads a connection: a left side, `=` and a right side, each behind any
/// blank space.
pub fn connection<'s>(input: Input<'s>) -> (r: LResult<'s, Connection<'s>>)
    ensures
        outcome(r) == grammar::connection(input@),
{
    let (after_lhs, lhs) = lhs_connector(skip(input))?;
    let after_equals = expect_spaced(after_lhs, Token::Equals)?;
    let (rest, rhs) = rhs_connector(skip(after_equals))?;
    Ok((rest, Connection { lhs, rhs }))
}

/// Reads a pin name behind any blank space, with its place.
fn spaced_pin<'s>(input: Input<'s>) -> (r: LResult<'s, LPinName<'s>>)
    ensures
        outcome(r) == grammar::pin(input@),
{
    locate(pin_name, skip(input))
}

/// Reads a chip name behind any blank space, with its place.
fn spaced_chip_name<'s>(input: Input<'s>) -> (r: LResult<'s, LChipName<'s>>)
    ensures
        outcome(r) == grammar::pin(input@),
{
    locate(chip_name, skip(input))
}

/// Reads pin names with commas between them, none of them too. This never
/// fails: where a comma is missing it stops, and what follows stays unread.
pub fn pin_list<'s>(input: Input<'s>) -> (r: LResult<'s, Vec<LPinName<'s>>>)
    ensures
        r matches Ok((rest, pins)) && (rest@, views(pins@)) == grammar::pin_list(input@),
{
    let mut pins: Vec<LPinName<'s>> = Vec::new();
    let mut at: Input<'s> = input;
    match spaced_pin(input) {
        Err(_) => {
            assert(views(pins@) =~= Seq::empty());
            return Ok((input, pins));
        },
        Ok((rest, first)) => {
            pins.push(first);
            at = rest;
        },
    }
    assert(views(pins@) =~= seq![pins@[0]@]);
    loop
        invariant
            grammar::pin_list(input@) == (
                grammar::more_pins(at@).0,
                views(pins@) + grammar::more_pins(at@).1,
            ),
        decreases at@.rest.len(),
    {
        let after_comma = match expect_spaced(at, Token::Comma) {
            Ok(after_comma) => after_comma,
            Err(_) => {
                assert(views(pins@) + Seq::empty() =~= views(pins@));
                return Ok((at, pins));
            },
        };
        match spaced_pin(after_comma) {
            Err(_) => {
                assert(views(pins@) + Seq::empty() =~= views(pins@));
                return Ok((at, pins));
            },
            Ok((rest, item)) => {
                proof {
                    lemma_spaced_token_forward(at@, Token::Comma);
                    lemma_pin_forward(after_comma@);
                    lemma_views_push(pins@, item);
                    let more = grammar::more_pins(rest@).1;
                    assert(views(pins@).push(item@) + more =~= views(pins@) + (seq![item@] + more));
                }
                pins.push(item);
                at = rest;
            },
        }
    }
}

/// Reads connections with commas between them, none of them too. This never
/// fails: it reads as far as the text ahead is such a list.
pub fn connection_list<'s>(input: Input<'s>) -> (r: LResult<'s, ConnectionList<'s>>)
    ensures
        r matches Ok((rest, list)) && (rest@, list@) == grammar::connection_list(input@),
{
    let mut wires: Vec<Connection<'s>> = Vec::new();
    let mut at: Input<'s> = input;
    match connection(input) {
        Err(_) => {
            assert(views(wires@) =~= Seq::empty());
            return Ok((input, ConnectionList(wires)));
        },
        Ok((rest, first)) => {
            wires.push(first);
            at = rest;
        },
    }
    assert(views(wires@) =~= seq![wires@[0]@]);
    loop
        invariant
            grammar::connection_list(input@) == (
                grammar::more_connections(at@).0,
                views(wires@) + grammar::more_connections(at@).1,
            ),
        decreases at@.rest.len(),
    {
        let after_comma = match expect_spaced(at, Token::Comma) {
            Ok(after_comma) => after_comma,
            Err(_) => {
                assert(views(wires@) + Seq::empty() =~= views(wires@));
                return Ok((at, ConnectionList(wires)));
            },
        };
        match connection(after_comma) {
            Err(_) => {
                assert(views(wires@) + Seq::empty() =~= views(wires@));
                return Ok((at, ConnectionList(wires)));
            },
            Ok((rest, item)) => {
                proof {
                    lemma_spaced_token_forward(at@, Token::Comma);
                    lemma_connection_forward(after_comma@);
                    lemma_views_push(wires@, item);
                    let more = grammar::more_connections(rest@).1;
                    assert(views(wires@).push(item@) + more =~= views(wires@) + (seq![item@]
                        + more));
                }
                wires.push(item);
                at = rest;
            },
        }
    }
}

/// The two kinds of pin declaration.
pub trait Pin {
    /// The word that begins the declaration.
    spec fn keyword() -> Token;

    /// The name that the declaration leaves on a failure.
    spec fn rule() -> Rule;

    /// The word that begins the declaration.
    fn conn() -> (token: Token)
        ensures
            token == Self::keyword(),
    ;

    /// The name that the declaration leaves on a failure.
    fn context() -> (rule: Rule)
        ensures
            rule == Self::rule(),
    ;
}

/// The declaration of the input pins.
pub struct In;

/// The declaration of the output pins.
pub struct Out;

impl Pin for In {
    open spec fn keyword() -> Token {
        Token::In
    }

    open spec fn rule() -> Rule {
        Rule::InputPins
    }

    fn conn() -> (token: Token) {
        Token::In
    }

    fn context() -> (rule: Rule) {
        Rule::InputPins
    }
}

impl Pin for Out {
    open spec fn keyword() -> Token {
        Token::Out
    }

    open spec fn rule() -> Rule {
        Rule::OutputPins
    }

    fn conn() -> (token: Token) {
        Token::Out
    }

    fn context() -> (rule: Rule) {
        Rule::OutputPins
    }
}

/// A failure of `r` leaves through `rule`, which began at `offset`.
fn within_rule<T>(r: Result<T, ErrorTree>, offset: usize, rule: Rule) -> (out: Result<T, ErrorTree>)
    ensures
        match r {
            Ok(done) => out == Ok::<T, ErrorTree>(done),
            Err(failure) => out matches Err(raised) && raised@ == (Failure::Stack {
                base: Box::new(failure@),
                offset: offset as nat,
                rule,
            }),
        },
{
    match r {
        Ok(done) => Ok(done),
        Err(failure) => Err(failure.within(offset, rule)),
    }
}

/// What the result of a rule that reads pin names stands for.
pub open spec fn pins_outcome<'s>(r: LResult<'s, Vec<LPinName<'s>>>) -> Parsed<
    Seq<Loc<Seq<char>>>,
> {
    match r {
        Ok((rest, pins)) => Ok((rest@, views(pins@))),
        Err(failure) => Err(failure@),
    }
}

/// Reads a declaration of pins: the word for the kind `P`, the pin names,
/// and `;`.
pub fn pin_decl<'s, P: Pin>(input: Input<'s>) -> (r: LResult<'s, Vec<LPinName<'s>>>)
    ensures
        pins_outcome(r) == grammar::pin_decl(input@, P::keyword(), P::rule()),
{
    let start: usize = input.location_offset();
    let rule = P::context();
    let after_keyword = within_rule(expect_spaced(input, P::conn()), start, rule)?;
    let (after_pins, pins) = pin_list(after_keyword)?;
    let rest = within_rule(expect_spaced(after_pins, Token::Semicolon), start, rule)?;
    Ok((rest, pins))
}

/// Reads a part: a chip name, its connections in round brackets, and `;`.
pub fn part<'s>(input: Input<'s>) -> (r: LResult<'s, Part<'s>>)
    ensures
        outcome(r) == grammar::part(input@),
{
    proof {
        reveal(grammar::part);
    }
    let start: usize = input.location_offset();
    let (after_name, name) = within_rule(spaced_chip_name(input), start, Rule::Part)?;
    let inside = within_rule(expect_spaced(after_name, Token::OpenParen), start, Rule::Part)?;
    let (after_wires, connections) = connection_list(inside)?;
    let closed = within_rule(expect_spaced(after_wires, Token::CloseParen), start, Rule::Part)?;
    let rest = within_rule(expect_spaced(closed, Token::Semicolon), start, Rule::Part)?;
    Ok((rest, Part { name, connections }))
}

/// Reads parts as long as one follows. This never fails.
fn parts<'s>(input: Input<'s>) -> (r: (Input<'s>, Vec<Part<'s>>))
    ensures
        (r.0@, views(r.1@)) == grammar::parts(input@),
{
    let mut list: Vec<Part<'s>> = Vec::new();
    let mut at: Input<'s> = input;
    assert(views(list@) =~= Seq::empty());
    loop
        invariant
            grammar::parts(input@) == (grammar::parts(at@).0, views(list@) + grammar::parts(at@).1),
        decreases at@.rest.len(),
    {
        match part(at) {
            Err(_) => {
                assert(views(list@) + Seq::empty() =~= views(list@));
                return (at, list);
            },
            Ok((rest, item)) => {
                proof {
                    lemma_part_forward(at@);
                    lemma_views_push(list@, item);
                    let more = grammar::parts(rest@).1;
                    assert(views(list@).push(item@) + more =~= views(list@) + (seq![item@] + more));
                }
                list.push(item);
                at = rest;
            },
        }
    }
}

/// Reads the head of a chip: the word `CHIP` and the chip's name.
pub fn chip_head<'s>(input: Input<'s>) -> (r: LResult<'s, LChipName<'s>>)
    ensures
        outcome(r) == grammar::chip_head(input@),
{
    let start: usize = input.location_offset();
    let after_word = within_rule(expect_spaced(input, Token::Chip), start, Rule::ChipHead)?;
    within_rule(spaced_chip_name(after_word), start, Rule::ChipHead)
}

/// What the result of `chip_body` stands for.
pub open spec fn body_outcome<'s>(
    r: LResult<'s, (Vec<LPinName<'s>>, Vec<LPinName<'s>>, Vec<Part<'s>>)>,
) -> Parsed<BodyModel> {
    match r {
        Ok((rest, body)) => Ok((rest@, (views(body.0@), views(body.1@), views(body.2@)))),
        Err(failure) => Err(failure@),
    }
}

/// Reads the body of a chip: in curly brackets the input pins, the output
/// pins, the word `PARTS:` and the parts.
pub fn chip_body<'s>(input: Input<'s>) -> (r: LResult<
    's,
    (Vec<LPinName<'s>>, Vec<LPinName<'s>>, Vec<Part<'s>>),
>)
    ensures
        body_outcome(r) == grammar::chip_body(input@),
{
    let start: usize = input.location_offset();
    let inside = within_rule(expect_spaced(input, Token::OpenBrace), start, Rule::ChipBody)?;
    let (after_inputs, inputs) = within_rule(pin_decl::<In>(inside), start, Rule::ChipBody)?;
    let (after_outputs, outputs) = within_rule(
        pin_decl::<Out>(after_inputs),
        start,
        Rule::ChipBody,
    )?;
    let after_word = within_rule(
        expect_spaced(after_outputs, Token::Parts),
        start,
        Rule::ChipBody,
    )?;
    let (after_parts, listed) = parts(after_word);
    let rest = within_rule(expect_spaced(after_parts, Token::CloseBrace), start, Rule::ChipBody)?;
    Ok((rest, (inputs, outputs, listed)))
}

/// Reads a chip: its head and its body.
pub fn chip<'s>(input: Input<'s>) -> (r: LResult<'s, Chip<'s>>)
    ensures
        outcome(r) == grammar::chip(input@),
{
    let (after_head, name) = chip_head(input)?;
    let (rest, body) = chip_body(after_head)?;
    Ok((rest, Chip { name, in_decl: body.0, out_decl: body.1, parts: body.2 }))
}

/// Reads all that lies ahead: one chip, and behind it nothing but blank
/// space. Anything else behind the chip is a failure of its own.
pub fn parse_hdl<'s>(input: Input<'s>) -> (r: Result<Chip<'s>, ErrorTree>)
    ensures
        match r {
            Ok(read) => grammar::whole(input@) == Ok::<ChipModel, Failure>(read@),
            Err(failure) => grammar::whole(input@) == Err::<ChipModel, Failure>(failure@),
        },
{
    let (after_chip, read) = chip(input)?;
    let end = skip(after_chip);
    if end.at_end() {
        Ok(read)
    } else {
        Err(fail_at(end, FailureKind::Trailing, Expected::EndOfInput))
    }
}

/// Reads a whole source text. A failure, whatever its shape, comes back as
/// the one diagnostic that lies furthest into the source.
pub fn parse_hdl2<'s>(input: &'s str) -> (r: Result<Chip<'s>, HdlError>)
    ensures
        match r {
            Ok(read) => grammar::diagnosed(input@) == Ok::<ChipModel, Fault>(read@),
            Err(diagnostic) => grammar::diagnosed(input@) == Err::<ChipModel, Fault>(
                diagnostic.fault(),
            ) && diagnostic.error_pos.end == diagnostic.error_pos.start,
        },
{
    match parse_hdl(Input::new(input)) {
        Ok(read) => Ok(read),
        Err(failure) => Err(failure.primary()),
    }
}

} // verus!
