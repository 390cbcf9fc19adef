use hdl_parser::error::{ErrorTree, Expected, FailureKind, HdlError, Rule, Token};
use hdl_parser::input::Input;
use hdl_parser::located::Span;
use hdl_parser::parser::{
    boolean, bus_slice, chip_body, chip_head, expect, expect_spaced, identifier, parse_hdl,
    parse_hdl2, part, pin_decl, rhs_connector, skip_white, unsigned, In,
};

fn base(offset: usize, kind: FailureKind, expected: Expected) -> ErrorTree {
    ErrorTree::Base { offset, kind, expected }
}

fn diagnostic(offset: usize, kind: FailureKind, expected: Expected) -> HdlError {
    HdlError { error_pos: Span { start: offset, end: offset }, kind, expected }
}

#[test]
fn trailing_text_is_a_failure() {
    let r = parse_hdl2("CHIP A { IN a; OUT b; PARTS: } extra");
    assert_eq!(
        r.unwrap_err(),
        diagnostic(31, FailureKind::Trailing, Expected::EndOfInput)
    );
}

#[test]
fn trailing_blank_space_is_no_failure() {
    let chip = parse_hdl2("CHIP A { IN a; OUT b; PARTS: } \n\t ").unwrap();
    assert_eq!(chip.name.value.0, "A");
    let chip = parse_hdl2("CHIP A { IN a; OUT b; PARTS: }").unwrap();
    assert_eq!(chip.name.value.0, "A");
}

#[test]
fn end_to_end() {
    let source = "CHIP And { IN a,b; OUT out; PARTS: Nand(a=a,b=b,out=c); Not(in=c,out=out); }";
    let chip = parse_hdl2(source).unwrap();
    assert_eq!(chip.name.value.0, "And");
    assert_eq!(chip.name.span(), (5, 7));
    assert_eq!(chip.in_decl.len(), 2);
    assert_eq!(chip.in_decl[0].value.0, "a");
    assert_eq!(chip.in_decl[0].span(), (14, 14));
    assert_eq!(chip.in_decl[1].value.0, "b");
    assert_eq!(chip.in_decl[1].span(), (16, 16));
    assert_eq!(chip.out_decl.len(), 1);
    assert_eq!(chip.out_decl[0].value.0, "out");
    assert_eq!(chip.out_decl[0].span(), (23, 25));
    assert_eq!(chip.parts.len(), 2);
    assert_eq!(chip.parts[0].name.value.0, "Nand");
    assert_eq!(chip.parts[0].name.span(), (35, 38));
    assert_eq!(chip.parts[0].connections.0.len(), 3);
    assert_eq!(chip.parts[1].name.value.0, "Not");
    assert_eq!(chip.parts[1].name.span(), (56, 58));
    assert_eq!(chip.parts[1].connections.0.len(), 2);
    assert_eq!(chip.parts[1].connections.0[1].rhs.span(), (69, 71));
    assert_eq!(&source[56..=58], "Not");
    assert_eq!(&source[69..=71], "out");
}

#[test]
fn parse_hdl_gives_the_whole_tree_of_failures() {
    let r = parse_hdl(Input::new("CHIP A { IN a; OUT b; PARTS: } extra"));
    assert_eq!(
        r.unwrap_err(),
        base(31, FailureKind::Trailing, Expected::EndOfInput)
    );
    let r = parse_hdl(Input::new("CHIP 1"));
    assert_eq!(
        r.unwrap_err(),
        ErrorTree::Stack {
            base: Box::new(base(5, FailureKind::Lexical, Expected::Identifier)),
            offset: 0,
            rule: Rule::ChipHead,
        }
    );
}

#[test]
fn missing_word_is_a_syntax_failure() {
    let r = parse_hdl2("Chip A { IN a; OUT b; PARTS: }");
    assert_eq!(
        r.unwrap_err(),
        diagnostic(0, FailureKind::Syntax, Expected::Token(Token::Chip))
    );
    let r = parse_hdl2("CHIP A { OUT b; PARTS: }");
    assert_eq!(
        r.unwrap_err(),
        diagnostic(9, FailureKind::Syntax, Expected::Token(Token::In))
    );
    let r = parse_hdl2("CHIP A { IN a; OUT b; PARTS: Nand(a=b) }");
    assert_eq!(
        r.unwrap_err(),
        diagnostic(29, FailureKind::Syntax, Expected::Token(Token::CloseBrace))
    );
}

#[test]
fn source_that_ends_early_is_incomplete() {
    let r = parse_hdl2("CHIP A { IN a; OUT b; PARTS: ");
    assert_eq!(
        r.unwrap_err(),
        diagnostic(29, FailureKind::Incomplete, Expected::Token(Token::CloseBrace))
    );
    let r = parse_hdl2("CHIP A { IN a; OU");
    assert_eq!(
        r.unwrap_err(),
        diagnostic(15, FailureKind::Incomplete, Expected::Token(Token::Out))
    );
    let r = parse_hdl2("CHIP ");
    assert_eq!(
        r.unwrap_err(),
        diagnostic(5, FailureKind::Incomplete, Expected::Identifier)
    );
    let r = parse_hdl2("");
    assert_eq!(
        r.unwrap_err(),
        diagnostic(0, FailureKind::Incomplete, Expected::Token(Token::Chip))
    );
}

#[test]
fn character_that_begins_no_name_is_a_lexical_failure() {
    let r = parse_hdl2("CHIP 9A { IN a; OUT b; PARTS: }");
    assert_eq!(
        r.unwrap_err(),
        diagnostic(5, FailureKind::Lexical, Expected::Identifier)
    );
    let r = parse_hdl2("CHIP ! { IN a; OUT b; PARTS: }");
    assert_eq!(
        r.unwrap_err(),
        diagnostic(5, FailureKind::Lexical, Expected::Identifier)
    );
}

#[test]
fn identifier_failures() {
    assert_eq!(
        identifier(Input::new("99ALU_01!")).unwrap_err(),
        base(0, FailureKind::Lexical, Expected::Identifier)
    );
    assert_eq!(
        identifier(Input::new("!")).unwrap_err(),
        base(0, FailureKind::Lexical, Expected::Identifier)
    );
    assert_eq!(
        identifier(Input::new("")).unwrap_err(),
        base(0, FailureKind::Incomplete, Expected::Identifier)
    );
}

#[test]
fn identifier_takes_letters_beyond_ascii() {
    let (rest, name) = identifier(Input::new("größe1 x")).unwrap();
    assert_eq!(name, "größe1");
    assert_eq!(rest.into_fragment(), " x");
    assert_eq!(rest.location_offset(), 8);
    let (rest, name) = identifier(Input::new("a\u{2028}b")).unwrap();
    assert_eq!(name, "a");
    assert_eq!(rest.location_offset(), 1);
    let (rest, name) = identifier(Input::new("a-b")).unwrap();
    assert_eq!(name, "a");
    assert_eq!(rest.into_fragment(), "-b");
}

#[test]
fn identifier_reads_every_plain_name_whole() {
    for name in ["a", "_", "A_1", "z9_Z", "_0", "CHIP", "x__"] {
        let (rest, read) = identifier(Input::new(name)).unwrap();
        assert_eq!(read, name);
        assert_eq!(rest.into_fragment(), "");
        assert_eq!(rest.location_offset(), name.len());
    }
    for text in ["0", "0a", "9_", "12ab"] {
        assert!(identifier(Input::new(text)).is_err());
    }
}

#[test]
fn unsigned_values_and_failures() {
    let (rest, n) = unsigned(Input::new("0042]")).unwrap();
    assert_eq!(n, 42);
    assert_eq!(rest.into_fragment(), "]");
    let (_, n) = unsigned(Input::new("4294967295")).unwrap();
    assert_eq!(n, u32::MAX);
    assert_eq!(
        unsigned(Input::new("4294967296")).unwrap_err(),
        base(0, FailureKind::Lexical, Expected::NumberInRange)
    );
    assert_eq!(
        unsigned(Input::new("99999999999999999999999")).unwrap_err(),
        base(0, FailureKind::Lexical, Expected::NumberInRange)
    );
    assert_eq!(
        unsigned(Input::new("x")).unwrap_err(),
        base(0, FailureKind::Lexical, Expected::Number)
    );
    assert_eq!(
        unsigned(Input::new("")).unwrap_err(),
        base(0, FailureKind::Incomplete, Expected::Number)
    );
    assert_eq!(
        unsigned(Input::new("+1")).unwrap_err(),
        base(0, FailureKind::Lexical, Expected::Number)
    );
}

#[test]
fn skip_white_never_fails() {
    let (rest, blank) = skip_white(Input::new(" \t\r\n x ")).unwrap();
    assert_eq!(blank, " \t\r\n ");
    assert_eq!(rest.into_fragment(), "x ");
    let (rest, blank) = skip_white(Input::new("x")).unwrap();
    assert_eq!(blank, "");
    assert_eq!(rest.into_fragment(), "x");
    let (rest, blank) = skip_white(Input::new("")).unwrap();
    assert_eq!(blank, "");
    assert!(rest.at_end());
    // a no-break space is no blank space of the language
    let (rest, blank) = skip_white(Input::new("\u{a0}x")).unwrap();
    assert_eq!(blank, "");
    assert_eq!(rest.location_offset(), 0);
}

#[test]
fn boolean_spelling() {
    assert_eq!(boolean(Input::new("true")).unwrap().1, true);
    assert_eq!(boolean(Input::new("false")).unwrap().1, false);
    assert_eq!(boolean(Input::new("truex")).unwrap().0.into_fragment(), "x");
    assert_eq!(
        boolean(Input::new("True")).unwrap_err(),
        ErrorTree::Alt(
            Box::new(base(0, FailureKind::Syntax, Expected::Token(Token::True))),
            Box::new(base(0, FailureKind::Syntax, Expected::Token(Token::False))),
        )
    );
    assert_eq!(
        boolean(Input::new("fal")).unwrap_err(),
        ErrorTree::Alt(
            Box::new(base(0, FailureKind::Syntax, Expected::Token(Token::True))),
            Box::new(base(0, FailureKind::Incomplete, Expected::Token(Token::False))),
        )
    );
}

#[test]
fn alternatives_start_from_the_same_place() {
    // the slice fails behind the name; the name alone is read from the start
    let (rest, read) = rhs_connector(Input::new("ab[x")).unwrap();
    assert_eq!(read.span(), (0, 1));
    assert_eq!(rest.into_fragment(), "[x");
    assert_eq!(rest.location_offset(), 2);
}

#[test]
fn slice_failures() {
    // behind `1..` no number follows, so the single pin is read and `]` is missing
    assert_eq!(
        bus_slice(Input::new("a[1..x]")).unwrap_err(),
        base(3, FailureKind::Syntax, Expected::Token(Token::CloseBracket))
    );
    assert_eq!(
        bus_slice(Input::new("a[x]")).unwrap_err(),
        ErrorTree::Alt(
            Box::new(base(2, FailureKind::Lexical, Expected::Number)),
            Box::new(base(2, FailureKind::Lexical, Expected::Number)),
        )
    );
    assert_eq!(
        bus_slice(Input::new("a")).unwrap_err(),
        base(1, FailureKind::Incomplete, Expected::Token(Token::OpenBracket))
    );
}

#[test]
fn failures_carry_the_rules_they_passed() {
    assert_eq!(
        pin_decl::<In>(Input::new(" IN a, b")).unwrap_err(),
        ErrorTree::Stack {
            base: Box::new(base(8, FailureKind::Incomplete, Expected::Token(Token::Semicolon))),
            offset: 0,
            rule: Rule::InputPins,
        }
    );
    assert_eq!(
        part(Input::new("And(a=b;")).unwrap_err(),
        ErrorTree::Stack {
            base: Box::new(base(7, FailureKind::Syntax, Expected::Token(Token::CloseParen))),
            offset: 0,
            rule: Rule::Part,
        }
    );
    assert_eq!(
        chip_head(Input::new("CHIP")).unwrap_err(),
        ErrorTree::Stack {
            base: Box::new(base(4, FailureKind::Incomplete, Expected::Identifier)),
            offset: 0,
            rule: Rule::ChipHead,
        }
    );
    assert_eq!(
        chip_body(Input::new("{ IN a; OUT")).unwrap_err(),
        ErrorTree::Stack {
            base: Box::new(ErrorTree::Stack {
                base: Box::new(base(
                    11,
                    FailureKind::Incomplete,
                    Expected::Token(Token::Semicolon)
                )),
                offset: 7,
                rule: Rule::OutputPins,
            }),
            offset: 0,
            rule: Rule::ChipBody,
        }
    );
}

#[test]
fn tokens_behind_blank_space() {
    assert_eq!(expect_spaced(Input::new("  ;x"), Token::Semicolon).unwrap().into_fragment(), "x");
    assert_eq!(
        expect(Input::new("  ;x"), Token::Semicolon).unwrap_err(),
        base(0, FailureKind::Syntax, Expected::Token(Token::Semicolon))
    );
    assert_eq!(
        expect_spaced(Input::new("  x"), Token::Semicolon).unwrap_err(),
        base(2, FailureKind::Syntax, Expected::Token(Token::Semicolon))
    );
}

#[test]
fn primary_of_a_single_failure_is_itself() {
    let tree = base(7, FailureKind::Syntax, Expected::Token(Token::Comma));
    assert_eq!(
        tree.primary(),
        diagnostic(7, FailureKind::Syntax, Expected::Token(Token::Comma))
    );
}

#[test]
fn primary_of_a_stack_is_the_innermost_failure() {
    let tree = base(9, FailureKind::Lexical, Expected::Identifier)
        .within(4, Rule::Part)
        .within(0, Rule::ChipBody);
    assert_eq!(
        tree.primary(),
        diagnostic(9, FailureKind::Lexical, Expected::Identifier)
    );
}

#[test]
fn primary_of_alternatives_is_the_one_that_got_furthest() {
    let near = base(3, FailureKind::Syntax, Expected::Token(Token::True));
    let far = base(8, FailureKind::Lexical, Expected::Number).within(3, Rule::Part);
    let mid = base(5, FailureKind::Incomplete, Expected::Identifier);
    let tree = near.or(far.or(mid));
    assert_eq!(
        tree.primary(),
        diagnostic(8, FailureKind::Lexical, Expected::Number)
    );
    // of two that got equally far, the one tried first
    let first = base(3, FailureKind::Syntax, Expected::Token(Token::True));
    let second = base(3, FailureKind::Syntax, Expected::Token(Token::False));
    assert_eq!(
        first.or(second).primary(),
        diagnostic(3, FailureKind::Syntax, Expected::Token(Token::True))
    );
}

#[test]
fn messages() {
    let say = |expected| diagnostic(0, FailureKind::Syntax, expected).message();
    assert_eq!(say(Expected::Token(Token::Chip)), "expected CHIP");
    assert_eq!(say(Expected::Token(Token::Parts)), "expected PARTS:");
    assert_eq!(say(Expected::Token(Token::DotDot)), "expected ..");
    assert_eq!(say(Expected::Token(Token::OpenBrace)), "expected {");
    assert_eq!(say(Expected::Identifier), "expected an identifier");
    assert_eq!(say(Expected::Number), "expected a number");
    assert_eq!(
        say(Expected::NumberInRange),
        "expected a number that fits in 32 bits"
    );
    assert_eq!(say(Expected::EndOfInput), "expected the end of the source");
}

#[test]
fn token_texts() {
    let all = [
        (Token::Chip, "CHIP"),
        (Token::In, "IN"),
        (Token::Out, "OUT"),
        (Token::Parts, "PARTS:"),
        (Token::True, "true"),
        (Token::False, "false"),
        (Token::DotDot, ".."),
        (Token::OpenBrace, "{"),
        (Token::CloseBrace, "}"),
        (Token::OpenBracket, "["),
        (Token::CloseBracket, "]"),
        (Token::OpenParen, "("),
        (Token::CloseParen, ")"),
        (Token::Semicolon, ";"),
        (Token::Comma, ","),
        (Token::Equals, "="),
    ];
    for (token, text) in all {
        assert_eq!(token.as_str(), text);
    }
}
