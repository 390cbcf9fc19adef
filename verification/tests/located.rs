use hdl_parser::error::{ErrorTree, Token};
use hdl_parser::input::Input;
use hdl_parser::located::{get_str, locate, CharsLen, Located, Span};
use hdl_parser::parser::{expect, LResult};
use hdl_parser::text::CharClass;

fn letters<'s>(input: Input<'s>) -> Result<(Input<'s>, Input<'s>), ErrorTree> {
    let (run, rest) = input.take_run(CharClass::Word);
    Ok((rest, Input::new(run)))
}

fn letters_text<'s>(input: Input<'s>) -> LResult<'s, &'s str> {
    get_str(letters, input)
}

fn test_parser<'s>(input: Input<'s>) -> LResult<'s, Located<&'s str>> {
    let inside = expect(input, Token::OpenParen)?;
    let (behind, word) = locate(letters_text, inside)?;
    let rest = expect(behind, Token::CloseParen)?;
    Ok((rest, word))
}

#[test]
fn span_1() {
    let (_res, l_str) = test_parser(Input::new("(hello) ")).unwrap();

    assert_eq!(*l_str.get(), "hello");
    assert_eq!(l_str.span(), (1, 5));
}

#[test]
fn span_2() {
    let (_res, l_str) = test_parser(Input::new("(h) ")).unwrap();

    assert_eq!(*l_str.get(), "h");
    assert_eq!(l_str.span(), (1, 1));
}

#[test]
fn span_3() {
    let (_res, l_str) = test_parser(Input::new("() ")).unwrap();

    assert_eq!(*l_str.get(), "");
    assert_eq!(l_str.span(), (1, 1));
}

#[test]
fn span_0() {
    let src = "pub class ab";
    let rest = &src[9..];
    let span = Span::ending_before(src.len() - rest.len(), 5);
    assert_eq!(4, span.start);
    assert_eq!(8, span.end);
}

#[test]
fn auto_span_0() {
    let src = "pub class ab";
    let class = &src[4..=8];
    let rest = &src[9..];
    let span = Span::ending_before(src.len() - rest.len(), class.len());
    assert_eq!(4, span.start);
    assert_eq!(8, span.end);
}

#[test]
fn span_before_the_start_of_the_source() {
    assert_eq!(Span::ending_before(0, 5), Span { start: 0, end: 0 });
    assert_eq!(Span::ending_before(3, 5), Span { start: 0, end: 2 });
    assert_eq!(Span::at(7), Span { start: 7, end: 7 });
}

fn placed(value: &'static str, place: &'static str) -> Located<&'static str> {
    let start = place.as_bytes()[0] as usize;
    Located { value, start, end: start + value.len() }
}

#[test]
fn patial_eq_0() {
    assert_eq!(placed("a", "b"), placed("a", "b"));
    assert_ne!(placed("a", "b"), placed("a", "c"));
    assert_ne!(placed("a", "b"), placed("c", "b"));
    assert_ne!(placed("a", "b"), placed("c", "d"));
}

#[test]
fn located_values_compare_with_their_place() {
    let here = Located { value: "a", start: 1, end: 2 };
    assert_eq!(here, Located { value: "a", start: 1, end: 2 });
    assert_ne!(here, Located { value: "a", start: 1, end: 3 });
    assert_ne!(here, Located { value: "a", start: 0, end: 2 });
    assert_ne!(here, Located { value: "c", start: 1, end: 2 });
    assert_ne!(here, Located { value: "c", start: 4, end: 5 });
}

#[test]
fn located_values_compare_with_bare_values_by_value() {
    let here = Located { value: 22u32, start: 1, end: 3 };
    let there = Located { value: 22u32, start: 10, end: 12 };
    assert_eq!(here, 22u32);
    assert_eq!(there, 22u32);
    assert_ne!(here, 23u32);
    assert_ne!(here, there);
}

#[test]
fn located_accessors() {
    let here = Located { value: "abc", start: 4, end: 7 };
    assert_eq!(*here.get(), "abc");
    assert_eq!(here.offset(), 4);
    assert_eq!(here.end_offset(), 7);
    assert_eq!(here.span(), (4, 6));
    let empty = Located { value: "", start: 4, end: 4 };
    assert_eq!(empty.span(), (4, 4));
}

#[test]
fn chars_len_counts_bytes() {
    assert_eq!("hello".chars_len(), 5);
    assert_eq!("".chars_len(), 0);
    assert_eq!("né".chars_len(), 3);
}

#[test]
fn locate_hands_failures_on() {
    let r = locate(|i| expect(i, Token::Comma).map(|rest| (rest, ())), Input::new("x"));
    assert!(r.is_err());
}

#[test]
fn input_knows_where_it_is() {
    let start = Input::new("  ab");
    assert_eq!(start.location_offset(), 0);
    assert!(!start.at_end());
    let (blank, rest) = start.take_run(CharClass::Whitespace);
    assert_eq!(blank, "  ");
    assert_eq!(rest.location_offset(), 2);
    let (word, rest) = rest.take_run(CharClass::Word);
    assert_eq!(word, "ab");
    assert_eq!(rest.location_offset(), 4);
    assert!(rest.at_end());
    assert_eq!(rest.into_fragment(), "");
}

#[test]
fn prefix_that_matches_differs_or_ends_early() {
    let input = Input::new("CHIP x");
    assert_eq!(input.strip_prefix("CHIP").unwrap().into_fragment(), " x");
    assert_eq!(input.strip_prefix("CHAP").unwrap_err(), false);
    assert_eq!(Input::new("CH").strip_prefix("CHIP").unwrap_err(), true);
    assert_eq!(Input::new("").strip_prefix("CHIP").unwrap_err(), true);
    assert_eq!(input.strip_prefix("").unwrap().into_fragment(), "CHIP x");
}
