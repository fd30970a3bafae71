use crate::scanning::nodes::{ast_of_type, node_name, quoted, Ast, NodeType};
use crate::scanning::tokens::{diagnostic_name, Tok, TokenType};
use crate::text::{from_text, push_char, push_text};
use vstd::prelude::*;

verus! {

/// Why lexing or parsing stopped.
#[derive(Debug, PartialEq)]
pub enum Error {
    Error(String),
    InputFile(String),
    IllegalChar(char),
    ExpectedChar(char),
    ExpectedHexDigit,
    UnexpectedEOF,
    UnexpectedToken(TokenType),
    ExpectedToken(TokenType, Option<TokenType>),
    UnexpectedNode(NodeType),
}

/// An error with its payloads as character sequences and tree shapes.
pub enum ErrorView {
    Error(Seq<char>),
    InputFile(Seq<char>),
    IllegalChar(char),
    ExpectedChar(char),
    ExpectedHexDigit,
    UnexpectedEOF,
    UnexpectedToken(Tok),
    ExpectedToken(Tok, Option<Tok>),
    UnexpectedNode(Ast),
}

impl View for Error {
    type V = ErrorView;

    open spec fn view(&self) -> ErrorView {
        match self {
            Error::Error(m) => ErrorView::Error(m@),
            Error::InputFile(p) => ErrorView::InputFile(p@),
            Error::IllegalChar(c) => ErrorView::IllegalChar(*c),
            Error::ExpectedChar(c) => ErrorView::ExpectedChar(*c),
            Error::ExpectedHexDigit => ErrorView::ExpectedHexDigit,
            Error::UnexpectedEOF => ErrorView::UnexpectedEOF,
            Error::UnexpectedToken(t) => ErrorView::UnexpectedToken(t@),
            Error::ExpectedToken(t, got) => ErrorView::ExpectedToken(
                t@,
                match got {
                    Some(g) => Some(g@),
                    None => None,
                },
            ),
            Error::UnexpectedNode(n) => ErrorView::UnexpectedNode(ast_of_type(*n)),
        }
    }
}

/// How a character is written between single quotes in a diagnostic:
/// quotes, backslashes and the usual control characters are escaped.
pub open spec fn char_literal(c: char) -> Seq<char> {
    seq!['\''] + (if c == '\\' {
        seq!['\\', '\\']
    } else if c == '\'' {
        seq!['\\', '\'']
    } else if c == '\n' {
        seq!['\\', 'n']
    } else if c == '\t' {
        seq!['\\', 't']
    } else if c == '\r' {
        seq!['\\', 'r']
    } else if c == '\0' {
        seq!['\\', '0']
    } else {
        seq![c]
    }) + seq!['\'']
}

fn push_char_literal(t: &mut String, c: char)
    ensures
        final(t)@ == old(t)@ + char_literal(c),
{
    let ghost before = t@;
    push_char(t, '\'');
    if c == '\\' || c == '\'' || c == '\n' || c == '\t' || c == '\r' || c == '\0' {
        push_char(t, '\\');
        let e = if c == '\n' {
            'n'
        } else if c == '\t' {
            't'
        } else if c == '\r' {
            'r'
        } else if c == '\0' {
            '0'
        } else {
            c
        };
        push_char(t, e);
    } else {
        push_char(t, c);
    }
    push_char(t, '\'');
    assert(t@ =~= before + char_literal(c));
}

/// The one-line diagnostic for an error.
pub open spec fn message_of(e: ErrorView) -> Seq<char> {
    "ERROR: "@ + match e {
        ErrorView::Error(m) => m,
        ErrorView::InputFile(p) => "couldn't find input path "@ + quoted(p),
        ErrorView::IllegalChar(c) => "illegal character "@ + char_literal(c),
        ErrorView::ExpectedChar(c) => "expected character "@ + char_literal(c),
        ErrorView::ExpectedHexDigit => "expected hexadecimal digit"@,
        ErrorView::UnexpectedEOF => "unexpected end of file"@,
        ErrorView::UnexpectedToken(t) => "unexpected "@ + diagnostic_name(t),
        ErrorView::ExpectedToken(t, got) => "expected "@ + diagnostic_name(t) + match got {
            Some(g) => ", got "@ + diagnostic_name(g),
            None => Seq::empty(),
        },
        ErrorView::UnexpectedNode(n) => "unexpected "@ + node_name(n),
    }
}

impl Error {
    pub fn error(msg: &str) -> (r: Self)
        ensures
            r matches Error::Error(m) && m@ == msg@,
    {
        Error::Error(from_text(msg))
    }

    /// The one-line diagnostic shown to the user.
    pub fn message(&self) -> (r: String)
        ensures
            r@ == message_of(self@),
    {
        let mut t = String::new();
        match self {
            Error::Error(m) => {
                push_text(&mut t, m.as_str());
            },
            Error::InputFile(p) => {
                push_text(&mut t, "couldn't find input path ");
                push_text(&mut t, crate::scanning::nodes::quote(p).as_str());
            },
            Error::IllegalChar(c) => {
                push_text(&mut t, "illegal character ");
                push_char_literal(&mut t, *c);
            },
            Error::ExpectedChar(c) => {
                push_text(&mut t, "expected character ");
                push_char_literal(&mut t, *c);
            },
            Error::ExpectedHexDigit => {
                push_text(&mut t, "expected hexadecimal digit");
            },
            Error::UnexpectedEOF => {
                push_text(&mut t, "unexpected end of file");
            },
            Error::UnexpectedToken(k) => {
                push_text(&mut t, "unexpected ");
                push_text(&mut t, k.name().as_str());
            },
            Error::ExpectedToken(k, got) => {
                push_text(&mut t, "expected ");
                push_text(&mut t, k.name().as_str());
                let mut g = String::new();
                match got {
                    Some(x) => {
                        push_text(&mut g, ", got ");
                        push_text(&mut g, x.name().as_str());
                    },
                    None => {},
                }
                push_text(&mut t, g.as_str());
            },
            Error::UnexpectedNode(n) => {
                push_text(&mut t, "unexpected ");
                push_text(&mut t, n.name());
            },
        }
        let mut r = from_text("ERROR: ");
        push_text(&mut r, t.as_str());
        proof {
            assert(r@ =~= message_of(self@));
        }
        r
    }
}

} // verus!
