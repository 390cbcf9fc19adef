//! How a parse fails, and how a tree of failures becomes one diagnostic.

use crate::located::Span;
use vstd::prelude::*;
use vstd::string::*;

verus! {

/// The fixed words and marks of the language.
#[derive(Copy, Clone, PartialEq, Eq, Debug, Structural)]
pub enum Token {
    Chip,
    In,
    Out,
    Parts,
    True,
    False,
    DotDot,
    OpenBrace,
    CloseBrace,
    OpenBracket,
    CloseBracket,
    OpenParen,
    CloseParen,
    Semicolon,
    Comma,
    Equals,
}

impl Token {
    /// The characters that spell the token.
    pub open spec fn text(self) -> Seq<char> {
        match self {
            Token::Chip => seq!['C', 'H', 'I', 'P'],
            Token::In => seq!['I', 'N'],
            Token::Out => seq!['O', 'U', 'T'],
            Token::Parts => seq!['P', 'A', 'R', 'T', 'S', ':'],
            Token::True => seq!['t', 'r', 'u', 'e'],
            Token::False => seq!['f', 'a', 'l', 's', 'e'],
            Token::DotDot => seq!['.', '.'],
            Token::OpenBrace => seq!['{'],
            Token::CloseBrace => seq!['}'],
            Token::OpenBracket => seq!['['],
            Token::CloseBracket => seq![']'],
            Token::OpenParen => seq!['('],
            Token::CloseParen => seq![')'],
            Token::Semicolon => seq![';'],
            Token::Comma => seq![','],
            Token::Equals => seq!['='],
        }
    }

    /// The token as it is written in a source text.
    pub fn as_str(self) -> (s: &'static str)
        ensures
            s@ == self.text(),
    {
        match self {
            Token::Chip => {
                proof {
                    reveal_strlit("CHIP");
                }
                assert("CHIP"@ =~= self.text());
                "CHIP"
            },
            Token::In => {
                proof {
                    reveal_strlit("IN");
                }
                assert("IN"@ =~= self.text());
                "IN"
            },
            Token::Out => {
                proof {
                    reveal_strlit("OUT");
                }
                assert("OUT"@ =~= self.text());
                "OUT"
            },
            Token::Parts => {
                proof {
                    reveal_strlit("PARTS:");
                }
                assert("PARTS:"@ =~= self.text());
                "PARTS:"
            },
            Token::True => {
                proof {
                    reveal_strlit("true");
                }
                assert("true"@ =~= self.text());
                "true"
            },
            Token::False => {
                proof {
                    reveal_strlit("false");
                }
                assert("false"@ =~= self.text());
                "false"
            },
            Token::DotDot => {
                proof {
                    reveal_strlit("..");
                }
                assert(".."@ =~= self.text());
                ".."
            },
            Token::OpenBrace => {
                proof {
                    reveal_strlit("{");
                }
                assert("{"@ =~= self.text());
                "{"
            },
            Token::CloseBrace => {
                proof {
                    reveal_strlit("}");
                }
                assert("}"@ =~= self.text());
                "}"
            },
            Token::OpenBracket => {
                proof {
                    reveal_strlit("[");
                }
                assert("["@ =~= self.text());
                "["
            },
            Token::CloseBracket => {
                proof {
                    reveal_strlit("]");
                }
                assert("]"@ =~= self.text());
                "]"
            },
            Token::OpenParen => {
                proof {
                    reveal_strlit("(");
                }
                assert("("@ =~= self.text());
                "("
            },
            Token::CloseParen => {
                proof {
                    reveal_strlit(")");
                }
                assert(")"@ =~= self.text());
                ")"
            },
            Token::Semicolon => {
                proof {
                    reveal_strlit(";");
                }
                assert(";"@ =~= self.text());
                ";"
            },
            Token::Comma => {
                proof {
                    reveal_strlit(",");
                }
                assert(","@ =~= self.text());
                ","
            },
            Token::Equals => {
                proof {
                    reveal_strlit("=");
                }
                assert("="@ =~= self.text());
                "="
            },
        }
    }
}

/// The condition under which a rule gave up.
#[derive(Copy, Clone, PartialEq, Eq, Debug, Structural)]
pub enum FailureKind {
    /// A character that cannot begin what was expected.
    Lexical,
    /// A word or mark of the language is missing where it is required.
    Syntax,
    /// The source ended inside a construct that was still open.
    Incomplete,
    /// A whole chip was read and something other than blank space follows.
    Trailing,
}

/// What a rule was looking for when it gave up.
#[derive(Copy, Clone, PartialEq, Eq, Debug, Structural)]
pub enum Expected {
    Token(Token),
    Identifier,
    Number,
    NumberInRange,
    EndOfInput,
}

/// The rules that leave their name on a failure that passes through them.
#[derive(Copy, Clone, PartialEq, Eq, Debug, Structural)]
pub enum Rule {
    ChipHead,
    ChipBody,
    InputPins,
    OutputPins,
    Part,
}

/// One failure at one place.
pub struct Fault {
    pub offset: nat,
    pub kind: FailureKind,
    pub expected: Expected,
}

/// What an `ErrorTree` stands for, with offsets as natural numbers.
pub enum Failure {
    Base(Fault),
    Stack { base: Box<Failure>, offset: nat, rule: Rule },
    Alt(Box<Failure>, Box<Failure>),
}

/// The failure of a rule, in one of three shapes.
#[derive(Debug, PartialEq, Eq)]
pub enum ErrorTree {
    /// One failure at one byte offset.
    Base { offset: usize, kind: FailureKind, expected: Expected },
    /// A failure that passed through `rule`, which had begun at `offset`.
    Stack { base: Box<ErrorTree>, offset: usize, rule: Rule },
    /// Two alternatives that were tried in turn at one place and both failed.
    Alt(Box<ErrorTree>, Box<ErrorTree>),
}

impl ErrorTree {
    /// The tree with natural numbers for its offsets.
    pub open spec fn model(&self) -> Failure
        decreases self,
    {
        match self {
            ErrorTree::Base { offset, kind, expected } => Failure::Base(
                Fault { offset: *offset as nat, kind: *kind, expected: *expected },
            ),
            ErrorTree::Stack { base, offset, rule } => Failure::Stack {
                base: Box::new(base.model()),
                offset: *offset as nat,
                rule: *rule,
            },
            ErrorTree::Alt(first, second) => Failure::Alt(
                Box::new(first.model()),
                Box::new(second.model()),
            ),
        }
    }
}

impl View for ErrorTree {
    type V = Failure;

    open spec fn view(&self) -> Failure {
        self.model()
    }
}

impl Failure {
    /// The failure to report: of a single failure, itself; of a failure that
    /// passed through outer rules, the innermost one; of two alternatives,
    /// the one that got further into the source, and the first where both
    /// got equally far.
    pub open spec fn primary(self) -> Fault
        decreases self,
    {
        match self {
            Failure::Base(fault) => fault,
            Failure::Stack { base, .. } => base.primary(),
            Failure::Alt(first, second) => {
                if second.primary().offset > first.primary().offset {
                    second.primary()
                } else {
                    first.primary()
                }
            },
        }
    }

    /// Whether `fault` is one of the single failures that the tree holds.
    pub open spec fn mentions(self, fault: Fault) -> bool
        decreases self,
    {
        match self {
            Failure::Base(own) => own == fault,
            Failure::Stack { base, .. } => base.mentions(fault),
            Failure::Alt(first, second) => first.mentions(fault) || second.mentions(fault),
        }
    }
}

/// The failure that is reported is one that the tree holds, and none in the
/// tree lies further into the source.
pub proof fn lemma_primary_is_furthest(tree: Failure)
    ensures
        tree.mentions(tree.primary()),
        forall|fault: Fault| #[trigger] tree.mentions(fault) ==> fault.offset <= tree.primary().offset,
    decreases tree,
{
    match tree {
        Failure::Base(_) => {},
        Failure::Stack { base, .. } => {
            lemma_primary_is_furthest(*base);
            assert forall|fault: Fault| #[trigger] tree.mentions(fault) implies fault.offset
                <= tree.primary().offset by {
                assert(base.mentions(fault));
            }
        },
        Failure::Alt(first, second) => {
            lemma_primary_is_furthest(*first);
            lemma_primary_is_furthest(*second);
            assert forall|fault: Fault| #[trigger] tree.mentions(fault) implies fault.offset
                <= tree.primary().offset by {
                assert(first.mentions(fault) || second.mentions(fault));
            }
        },
    }
}

/// Outer rules that a failure passed through do not change what is reported.
pub proof fn lemma_context_keeps_primary(base: Failure, offset: nat, rule: Rule)
    ensures
        (Failure::Stack { base: Box::new(base), offset, rule }).primary() == base.primary(),
{
}

/// The words that say what was expected.
pub open spec fn message_of(expected: Expected) -> Seq<char> {
    match expected {
        Expected::Token(token) => "expected "@ + token.text(),
        Expected::Identifier => "expected an identifier"@,
        Expected::Number => "expected a number"@,
        Expected::NumberInRange => "expected a number that fits in 32 bits"@,
        Expected::EndOfInput => "expected the end of the source"@,
    }
}

/// The one diagnostic that a failed parse comes down to.
#[derive(Copy, Clone, PartialEq, Eq, Debug, Structural)]
pub struct HdlError {
    /// Where in the source the failure lies.
    pub error_pos: Span,
    pub kind: FailureKind,
    pub expected: Expected,
}

impl HdlError {
    /// The diagnostic as a single failure.
    pub open spec fn fault(self) -> Fault {
        Fault { offset: self.error_pos.start as nat, kind: self.kind, expected: self.expected }
    }

    /// The words that say what was expected at the place of the failure.
    pub fn message(&self) -> (text: String)
        ensures
            text@ == message_of(self.expected),
    {
        match self.expected {
            Expected::Token(token) => String::from_str("expected ").concat(token.as_str()),
            Expected::Identifier => String::from_str("expected an identifier"),
            Expected::Number => String::from_str("expected a number"),
            Expected::NumberInRange => String::from_str("expected a number that fits in 32 bits"),
            Expected::EndOfInput => String::from_str("expected the end of the source"),
        }
    }
}

impl ErrorTree {
    /// The diagnostic for this failure, whatever its shape: the single
    /// failure that lies furthest into the source.
    pub fn primary(&self) -> (diagnostic: HdlError)
        ensures
            diagnostic.fault() == self@.primary(),
            diagnostic.error_pos.end == diagnostic.error_pos.start,
        decreases self,
    {
        match self {
            ErrorTree::Base { offset, kind, expected } => HdlError {
                error_pos: Span::at(*offset),
                kind: *kind,
                expected: *expected,
            },
            ErrorTree::Stack { base, .. } => base.primary(),
            ErrorTree::Alt(first, second) => {
                let left = first.primary();
                let right = second.primary();
                if right.error_pos.start > left.error_pos.start {
                    right
                } else {
                    left
                }
            },
        }
    }

    /// This failure as one that passed through `rule`, which began at `offset`.
    pub fn within(self, offset: usize, rule: Rule) -> (tree: ErrorTree)
        ensures
            tree@ == (Failure::Stack { base: Box::new(self@), offset: offset as nat, rule }),
    {
        ErrorTree::Stack { base: Box::new(self), offset, rule }
    }

    /// The failure of two alternatives, `self` tried before `other`.
    pub fn or(self, other: ErrorTree) -> (tree: ErrorTree)
        ensures
            tree@ == Failure::Alt(Box::new(self@), Box::new(other@)),
    {
        ErrorTree::Alt(Box::new(self), Box::new(other))
    }
}

} // verus!
