use super::position::Position;
use crate::text::{chars_of, from_text, push_text, same_text};
use vstd::prelude::*;

verus! {

/// A numeric literal as it was written: hexadecimal digits after `0x`, or a
/// run of decimal digits with an optional fraction after a `.`.
#[derive(Debug, Clone, PartialEq)]
pub struct Numeral {
    pub hex: bool,
    pub whole: String,
    pub frac: Option<String>,
}

/// What a numeral holds, as character sequences.
pub struct NumeralView {
    pub hex: bool,
    pub whole: Seq<char>,
    pub frac: Option<Seq<char>>,
}

impl View for Numeral {
    type V = NumeralView;

    open spec fn view(&self) -> NumeralView {
        NumeralView {
            hex: self.hex,
            whole: self.whole@,
            frac: match self.frac {
                Some(f) => Some(f@),
                None => None,
            },
        }
    }
}

/// The source spelling of a numeral.
pub open spec fn numeral_text(n: NumeralView) -> Seq<char> {
    if n.hex {
        seq!['0', 'x'] + n.whole
    } else {
        match n.frac {
            Some(f) => n.whole + seq!['.'] + f,
            None => n.whole,
        }
    }
}

pub open spec fn digit_value(c: char) -> nat {
    if '0' <= c <= '9' {
        (c as nat - '0' as nat) as nat
    } else if 'a' <= c <= 'f' {
        (c as nat - 'a' as nat + 10) as nat
    } else if 'A' <= c <= 'F' {
        (c as nat - 'A' as nat + 10) as nat
    } else {
        0
    }
}

/// The value of a run of digits in the given radix, most significant first.
pub open spec fn digits_value(d: Seq<char>, radix: nat) -> nat
    decreases d.len(),
{
    if d.len() == 0 {
        0
    } else {
        digits_value(d.drop_last(), radix) * radix + digit_value(d.last())
    }
}

proof fn lemma_digits_value_grows(d: Seq<char>, radix: nat, i: int, j: int)
    requires
        radix >= 1,
        0 <= i <= j <= d.len(),
    ensures
        digits_value(d.subrange(0, i), radix) <= digits_value(d.subrange(0, j), radix),
    decreases j - i,
{
    if i < j {
        lemma_digits_value_grows(d, radix, i, j - 1);
        let p = d.subrange(0, j);
        assert(p.drop_last() =~= d.subrange(0, j - 1));
        let v = digits_value(d.subrange(0, j - 1), radix);
        assert(v * radix >= v) by (nonlinear_arith)
            requires
                radix >= 1,
        ;
    }
}

fn digit_of(c: char) -> (r: u64)
    ensures
        r == digit_value(c),
        r < 16,
{
    if '0' <= c && c <= '9' {
        (c as u64) - ('0' as u64)
    } else if 'a' <= c && c <= 'f' {
        (c as u64) - ('a' as u64) + 10
    } else if 'A' <= c && c <= 'F' {
        (c as u64) - ('A' as u64) + 10
    } else {
        0
    }
}

impl Numeral {
    /// The value of a numeral without a fraction, in its radix.
    pub open spec fn integer_value(n: NumeralView) -> nat {
        digits_value(n.whole, if n.hex { 16 } else { 10 })
    }

    /// The value of a numeral that has no fraction and fits in 64 bits.
    pub fn value(&self) -> (r: Option<u64>)
        ensures
            r == (if self.frac is None && Numeral::integer_value(self@) <= u64::MAX {
                Some(Numeral::integer_value(self@) as u64)
            } else {
                None
            }),
    {
        if self.frac.is_some() {
            return None;
        }
        let radix: u64 = if self.hex { 16 } else { 10 };
        let ghost d = self.whole@;
        let digits = chars_of(self.whole.as_str());
        let mut v: u64 = 0;
        let mut i: usize = 0;
        while i < digits.len()
            invariant
                digits@ == d,
                d == self.whole@,
                radix == (if self.hex { 16nat } else { 10nat }),
                i <= d.len(),
                v == digits_value(d.subrange(0, i as int), radix as nat),
            decreases digits.len() - i,
        {
            let c = digit_of(digits[i]);
            proof {
                let p = d.subrange(0, i + 1);
                assert(p.drop_last() =~= d.subrange(0, i as int));
                lemma_digits_value_grows(d, radix as nat, i + 1, d.len() as int);
                assert(d.subrange(0, d.len() as int) =~= d);
            }
            if v > (u64::MAX - c) / radix {
                proof {
                    assert(v * radix + c > u64::MAX) by (nonlinear_arith)
                        requires
                            v > (u64::MAX - c) as int / radix as int,
                            radix >= 10,
                            c < 16,
                    ;
                }
                return None;
            }
            proof {
                assert(v * radix + c <= u64::MAX) by (nonlinear_arith)
                    requires
                        v <= (u64::MAX - c) as int / radix as int,
                        radix >= 10,
                        c < 16,
                ;
            }
            v = v * radix + c;
            i += 1;
        }
        proof {
            assert(d.subrange(0, d.len() as int) =~= d);
        }
        Some(v)
    }

    /// Whether two numerals are written the same way.
    pub fn same(&self, other: &Numeral) -> (r: bool)
        ensures
            r == (self@ == other@),
    {
        let frac_same = match &self.frac {
            Some(a) => match &other.frac {
                Some(b) => *a == *b,
                None => false,
            },
            None => other.frac.is_none(),
        };
        let whole_same = self.whole == other.whole;
        self.hex == other.hex && whole_same && frac_same
    }

    pub fn cloned(&self) -> (r: Numeral)
        ensures
            r == *self,
    {
        let frac = match &self.frac {
            Some(f) => Some(f.clone()),
            None => None,
        };
        Numeral { hex: self.hex, whole: self.whole.clone(), frac }
    }

    /// The numeral as it is written in source text.
    pub fn text(&self) -> (r: String)
        ensures
            r@ == numeral_text(self@),
    {
        let mut r = String::new();
        if self.hex {
            push_text(&mut r, "0x");
            push_text(&mut r, self.whole.as_str());
            proof {
                reveal_strlit("0x");
                assert(r@ =~= numeral_text(self@));
            }
        } else {
            push_text(&mut r, self.whole.as_str());
            match &self.frac {
                Some(f) => {
                    push_text(&mut r, ".");
                    push_text(&mut r, f.as_str());
                    proof {
                        reveal_strlit(".");
                        assert(r@ =~= numeral_text(self@));
                    }
                },
                None => {
                    assert(r@ =~= numeral_text(self@));
                },
            }
        }
        r
    }
}

#[derive(Debug, Clone, PartialEq)]
pub enum TokenType {
    ID(String),
    Number(Numeral),
    Boolean(bool),
    String(String),
    Nil,
    Add,
    Sub,
    Mul,
    Div,
    Mod,
    Pow,
    Len,
    EQ,
    NE,
    LT,
    GT,
    LE,
    GE,
    Assign,
    EvalIn,
    EvalOut,
    TableIn,
    TableOut,
    IndexIn,
    IndexOut,
    Rep,
    Sep,
    Field,
    Concat,
    Args,
    And,
    Break,
    Do,
    Else,
    Elseif,
    End,
    For,
    Fn,
    If,
    In,
    Local,
    Not,
    Or,
    Return,
    Then,
    While,
}

/// A token category with its payload as character sequences.
pub enum Tok {
    /// A category whose payload, if any, is plain data.
    Plain(TokenType),
    Name(Seq<char>),
    Num(NumeralView),
    Text(Seq<char>),
}

impl View for TokenType {
    type V = Tok;

    open spec fn view(&self) -> Tok {
        match self {
            TokenType::ID(s) => Tok::Name(s@),
            TokenType::Number(n) => Tok::Num(n@),
            TokenType::String(s) => Tok::Text(s@),
            _ => Tok::Plain(*self),
        }
    }
}

/// The category that a word spelled `w` stands for: a keyword, a boolean,
/// `nil`, or else an identifier.
pub open spec fn word_token(w: Seq<char>) -> Tok {
    if w == "true"@ {
        Tok::Plain(TokenType::Boolean(true))
    } else if w == "false"@ {
        Tok::Plain(TokenType::Boolean(false))
    } else if w == "nil"@ {
        Tok::Plain(TokenType::Nil)
    } else if w == "and"@ {
        Tok::Plain(TokenType::And)
    } else if w == "break"@ {
        Tok::Plain(TokenType::Break)
    } else if w == "do"@ {
        Tok::Plain(TokenType::Do)
    } else if w == "else"@ {
        Tok::Plain(TokenType::Else)
    } else if w == "elseif"@ {
        Tok::Plain(TokenType::Elseif)
    } else if w == "end"@ {
        Tok::Plain(TokenType::End)
    } else if w == "for"@ {
        Tok::Plain(TokenType::For)
    } else if w == "function"@ {
        Tok::Plain(TokenType::Fn)
    } else if w == "if"@ {
        Tok::Plain(TokenType::If)
    } else if w == "in"@ {
        Tok::Plain(TokenType::In)
    } else if w == "local"@ {
        Tok::Plain(TokenType::Local)
    } else if w == "not"@ {
        Tok::Plain(TokenType::Not)
    } else if w == "or"@ {
        Tok::Plain(TokenType::Or)
    } else if w == "return"@ {
        Tok::Plain(TokenType::Return)
    } else if w == "then"@ {
        Tok::Plain(TokenType::Then)
    } else if w == "while"@ {
        Tok::Plain(TokenType::While)
    } else {
        Tok::Name(w)
    }
}

/// How a token is spelled in source-like text (a string's characters are
/// given without quotes).
pub open spec fn spelling(t: Tok) -> Seq<char> {
    match t {
        Tok::Name(s) => s,
        Tok::Num(n) => numeral_text(n),
        Tok::Text(s) => s,
        Tok::Plain(p) => match p {
            TokenType::Boolean(b) => if b { "true"@ } else { "false"@ },
            TokenType::Nil => "nil"@,
            TokenType::Add => "+"@,
            TokenType::Sub => "-"@,
            TokenType::Mul => "*"@,
            TokenType::Div => "/"@,
            TokenType::Mod => "%"@,
            TokenType::Pow => "^"@,
            TokenType::Len => "#"@,
            TokenType::EQ => "=="@,
            TokenType::NE => "~="@,
            TokenType::LT => "<"@,
            TokenType::GT => ">"@,
            TokenType::LE => "<="@,
            TokenType::GE => ">="@,
            TokenType::Assign => "="@,
            TokenType::EvalIn => "("@,
            TokenType::EvalOut => ")"@,
            TokenType::TableIn => "{"@,
            TokenType::TableOut => "}"@,
            TokenType::IndexIn => "["@,
            TokenType::IndexOut => "]"@,
            TokenType::Rep => ":"@,
            TokenType::Sep => ","@,
            TokenType::Field => "."@,
            TokenType::Concat => ".."@,
            TokenType::Args => "..."@,
            TokenType::And => "and"@,
            TokenType::Break => "break"@,
            TokenType::Do => "do"@,
            TokenType::Else => "else"@,
            TokenType::Elseif => "elseif"@,
            TokenType::End => "end"@,
            TokenType::For => "for"@,
            TokenType::Fn => "function"@,
            TokenType::If => "if"@,
            TokenType::In => "in"@,
            TokenType::Local => "local"@,
            TokenType::Not => "not"@,
            TokenType::Or => "or"@,
            TokenType::Return => "return"@,
            TokenType::Then => "then"@,
            TokenType::While => "while"@,
            TokenType::ID(s) => s@,
            TokenType::Number(n) => numeral_text(n@),
            TokenType::String(s) => s@,
        },
    }
}

/// The noun or quoted spelling that names a token category in diagnostics.
pub open spec fn diagnostic_name(t: Tok) -> Seq<char> {
    match t {
        Tok::Name(_) => "identifier"@,
        Tok::Num(_) => "number"@,
        Tok::Text(_) => "string"@,
        Tok::Plain(TokenType::Boolean(_)) => "boolean"@,
        Tok::Plain(TokenType::Nil) => "nil"@,
        _ => "'"@ + spelling(t) + "'"@,
    }
}

impl TokenType {
    /// The category of a completed identifier-shaped word.
    pub fn from_name(id: String) -> (r: Self)
        ensures
            r@ == word_token(id@),
    {
        let w = id.as_str();
        if same_text(w, "true") {
            TokenType::Boolean(true)
        } else if same_text(w, "false") {
            TokenType::Boolean(false)
        } else if same_text(w, "nil") {
            TokenType::Nil
        } else if same_text(w, "and") {
            TokenType::And
        } else if same_text(w, "break") {
            TokenType::Break
        } else if same_text(w, "do") {
            TokenType::Do
        } else if same_text(w, "else") {
            TokenType::Else
        } else if same_text(w, "elseif") {
            TokenType::Elseif
        } else if same_text(w, "end") {
            TokenType::End
        } else if same_text(w, "for") {
            TokenType::For
        } else if same_text(w, "function") {
            TokenType::Fn
        } else if same_text(w, "if") {
            TokenType::If
        } else if same_text(w, "in") {
            TokenType::In
        } else if same_text(w, "local") {
            TokenType::Local
        } else if same_text(w, "not") {
            TokenType::Not
        } else if same_text(w, "or") {
            TokenType::Or
        } else if same_text(w, "return") {
            TokenType::Return
        } else if same_text(w, "then") {
            TokenType::Then
        } else if same_text(w, "while") {
            TokenType::While
        } else {
            TokenType::ID(id)
        }
    }


    /// The token as it is spelled in source-like text.
    pub fn display(&self) -> (r: String)
        ensures
            r@ == spelling(self@),
    {
        match self {
            TokenType::ID(v) => v.clone(),
            TokenType::Number(n) => n.text(),
            TokenType::Boolean(b) => if *b {
                from_text("true")
            } else {
                from_text("false")
            },
            TokenType::String(v) => v.clone(),
            TokenType::Nil => from_text("nil"),
            TokenType::Add => from_text("+"),
            TokenType::Sub => from_text("-"),
            TokenType::Mul => from_text("*"),
            TokenType::Div => from_text("/"),
            TokenType::Mod => from_text("%"),
            TokenType::Pow => from_text("^"),
            TokenType::Len => from_text("#"),
            TokenType::EQ => from_text("=="),
            TokenType::NE => from_text("~="),
            TokenType::LT => from_text("<"),
            TokenType::GT => from_text(">"),
            TokenType::LE => from_text("<="),
            TokenType::GE => from_text(">="),
            TokenType::Assign => from_text("="),
            TokenType::EvalIn => from_text("("),
            TokenType::EvalOut => from_text(")"),
            TokenType::TableIn => from_text("{"),
            TokenType::TableOut => from_text("}"),
            TokenType::IndexIn => from_text("["),
            TokenType::IndexOut => from_text("]"),
            TokenType::Rep => from_text(":"),
            TokenType::Sep => from_text(","),
            TokenType::Field => from_text("."),
            TokenType::Concat => from_text(".."),
            TokenType::Args => from_text("..."),
            TokenType::And => from_text("and"),
            TokenType::Break => from_text("break"),
            TokenType::Do => from_text("do"),
            TokenType::Else => from_text("else"),
            TokenType::Elseif => from_text("elseif"),
            TokenType::End => from_text("end"),
            TokenType::For => from_text("for"),
            TokenType::Fn => from_text("function"),
            TokenType::If => from_text("if"),
            TokenType::In => from_text("in"),
            TokenType::Local => from_text("local"),
            TokenType::Not => from_text("not"),
            TokenType::Or => from_text("or"),
            TokenType::Return => from_text("return"),
            TokenType::Then => from_text("then"),
            TokenType::While => from_text("while"),
        }
    }

    /// The name of the token's category, for diagnostics.
    pub fn name(&self) -> (r: String)
        ensures
            r@ == diagnostic_name(self@),
    {
        match self {
            TokenType::ID(_) => from_text("identifier"),
            TokenType::Number(_) => from_text("number"),
            TokenType::Boolean(_) => from_text("boolean"),
            TokenType::String(_) => from_text("string"),
            TokenType::Nil => from_text("nil"),
            _ => {
                let mut r = from_text("'");
                let d = self.display();
                push_text(&mut r, d.as_str());
                push_text(&mut r, "'");
                r
            },
        }
    }

    /// Whether this token and `other` are the same category with the same
    /// payload.
    pub fn is(&self, other: &TokenType) -> (r: bool)
        ensures
            r == (self@ == other@),
    {
        match (self, other) {
            (TokenType::ID(a), TokenType::ID(b)) => *a == *b,
            (TokenType::String(a), TokenType::String(b)) => *a == *b,
            (TokenType::Number(a), TokenType::Number(b)) => a.same(b),
            (TokenType::Boolean(a), TokenType::Boolean(b)) => *a == *b,
            (TokenType::Nil, TokenType::Nil)
            | (TokenType::Add, TokenType::Add)
            | (TokenType::Sub, TokenType::Sub)
            | (TokenType::Mul, TokenType::Mul)
            | (TokenType::Div, TokenType::Div)
            | (TokenType::Mod, TokenType::Mod)
            | (TokenType::Pow, TokenType::Pow)
            | (TokenType::Len, TokenType::Len)
            | (TokenType::EQ, TokenType::EQ)
            | (TokenType::NE, TokenType::NE)
            | (TokenType::LT, TokenType::LT)
            | (TokenType::GT, TokenType::GT)
            | (TokenType::LE, TokenType::LE)
            | (TokenType::GE, TokenType::GE)
            | (TokenType::Assign, TokenType::Assign)
            | (TokenType::EvalIn, TokenType::EvalIn)
            | (TokenType::EvalOut, TokenType::EvalOut)
            | (TokenType::TableIn, TokenType::TableIn)
            | (TokenType::TableOut, TokenType::TableOut)
            | (TokenType::IndexIn, TokenType::IndexIn)
            | (TokenType::IndexOut, TokenType::IndexOut)
            | (TokenType::Rep, TokenType::Rep)
            | (TokenType::Sep, TokenType::Sep)
            | (TokenType::Field, TokenType::Field)
            | (TokenType::Concat, TokenType::Concat)
            | (TokenType::Args, TokenType::Args)
            | (TokenType::And, TokenType::And)
            | (TokenType::Break, TokenType::Break)
            | (TokenType::Do, TokenType::Do)
            | (TokenType::Else, TokenType::Else)
            | (TokenType::Elseif, TokenType::Elseif)
            | (TokenType::End, TokenType::End)
            | (TokenType::For, TokenType::For)
            | (TokenType::Fn, TokenType::Fn)
            | (TokenType::If, TokenType::If)
            | (TokenType::In, TokenType::In)
            | (TokenType::Local, TokenType::Local)
            | (TokenType::Not, TokenType::Not)
            | (TokenType::Or, TokenType::Or)
            | (TokenType::Return, TokenType::Return)
            | (TokenType::Then, TokenType::Then)
            | (TokenType::While, TokenType::While) => true,
            _ => false,
        }
    }

    pub fn cloned(&self) -> (r: Self)
        ensures
            r == *self,
    {
        match self {
            TokenType::ID(s) => TokenType::ID(s.clone()),
            TokenType::Number(n) => TokenType::Number(n.cloned()),
            TokenType::String(s) => TokenType::String(s.clone()),
            TokenType::Boolean(b) => TokenType::Boolean(*b),
            TokenType::Nil => TokenType::Nil,
            TokenType::Add => TokenType::Add,
            TokenType::Sub => TokenType::Sub,
            TokenType::Mul => TokenType::Mul,
            TokenType::Div => TokenType::Div,
            TokenType::Mod => TokenType::Mod,
            TokenType::Pow => TokenType::Pow,
            TokenType::Len => TokenType::Len,
            TokenType::EQ => TokenType::EQ,
            TokenType::NE => TokenType::NE,
            TokenType::LT => TokenType::LT,
            TokenType::GT => TokenType::GT,
            TokenType::LE => TokenType::LE,
            TokenType::GE => TokenType::GE,
            TokenType::Assign => TokenType::Assign,
            TokenType::EvalIn => TokenType::EvalIn,
            TokenType::EvalOut => TokenType::EvalOut,
            TokenType::TableIn => TokenType::TableIn,
            TokenType::TableOut => TokenType::TableOut,
            TokenType::IndexIn => TokenType::IndexIn,
            TokenType::IndexOut => TokenType::IndexOut,
            TokenType::Rep => TokenType::Rep,
            TokenType::Sep => TokenType::Sep,
            TokenType::Field => TokenType::Field,
            TokenType::Concat => TokenType::Concat,
            TokenType::Args => TokenType::Args,
            TokenType::And => TokenType::And,
            TokenType::Break => TokenType::Break,
            TokenType::Do => TokenType::Do,
            TokenType::Else => TokenType::Else,
            TokenType::Elseif => TokenType::Elseif,
            TokenType::End => TokenType::End,
            TokenType::For => TokenType::For,
            TokenType::Fn => TokenType::Fn,
            TokenType::If => TokenType::If,
            TokenType::In => TokenType::In,
            TokenType::Local => TokenType::Local,
            TokenType::Not => TokenType::Not,
            TokenType::Or => TokenType::Or,
            TokenType::Return => TokenType::Return,
            TokenType::Then => TokenType::Then,
            TokenType::While => TokenType::While,
        }
    }
}

/// A token category together with the source span it was read from.
#[derive(Debug, Clone, PartialEq)]
pub struct Token {
    pub token: TokenType,
    pub pos: Position,
}

impl Token {
    pub fn new(token: TokenType, pos: Position) -> (r: Self)
        ensures
            r.token == token,
            r.pos == pos,
    {
        Token { token, pos }
    }

    pub fn token(&self) -> (r: &TokenType)
        ensures
            *r == self.token,
    {
        &self.token
    }

    pub fn pos(&self) -> (r: &Position)
        ensures
            *r == self.pos,
    {
        &self.pos
    }
}

} // verus!
