use super::position::Position;
use super::tokens::{word_token, NumeralView, Numeral, Tok, Token, TokenType};
use crate::error::Error;
use crate::text::{chars_of, push_char, string_of};
use vstd::prelude::*;

verus! {

/// Whether a character has the Unicode `Alphabetic` property.
pub uninterp spec fn alphabetic(c: char) -> bool;

/// Relies on `char::is_alphabetic`: whether `c` has the `Alphabetic` property.
#[verifier::external_body]
fn is_alphabetic(c: char) -> (r: bool)
    ensures
        r == alphabetic(c),
{
    c.is_alphabetic()
}

pub open spec fn is_space(c: char) -> bool {
    c == ' ' || c == '\t' || c == '\n' || c == '\r'
}

pub open spec fn is_digit(c: char) -> bool {
    '0' <= c <= '9'
}

pub open spec fn is_hex_digit(c: char) -> bool {
    is_digit(c) || ('a' <= c <= 'f') || ('A' <= c <= 'F')
}

/// Characters that may start or continue an identifier-shaped word: letters
/// and the underscore, but no digits.
pub open spec fn is_word_char(c: char) -> bool {
    ||| c == '_'
    ||| ('a' <= c <= 'z')
    ||| ('A' <= c <= 'Z')
    ||| (c as u32 >= 128 && alphabetic(c))
}

/// The character at `i`, if there is one.
pub open spec fn char_at(t: Seq<char>, i: int) -> Option<char> {
    if 0 <= i < t.len() {
        Some(t[i])
    } else {
        None
    }
}

/// The line and column that the cursor reports at index `i`: moving onto a
/// newline starts the next line at column 0, any other step goes one
/// column right.
pub open spec fn line_col(t: Seq<char>, i: int) -> (int, int)
    decreases i,
{
    if i <= 0 {
        (0, 0)
    } else {
        let (l, c) = line_col(t, i - 1);
        if i < t.len() && t[i] == '\n' {
            (l + 1, 0)
        } else {
            (l, c + 1)
        }
    }
}

/// Whether the span `p` ends just after the character at index `i`.
pub open spec fn ends_after(p: Position, t: Seq<char>, i: int) -> bool {
    p.ln_end == line_col(t, i).0 + 1 && p.col_end == line_col(t, i).1 + 1
}

/// The index of the last character that the span of the token read from `j`
/// to `k` covers: a string's span stops before its closing quote, and a `-`
/// that opens a comment covers only itself.
pub open spec fn span_last(t: Seq<char>, j: int, k: int) -> int {
    if t[j] == '"' || t[j] == '\'' {
        k - 2
    } else if t[j] == '-' {
        j
    } else {
        k - 1
    }
}

/// The first index at or after `i` that does not hold whitespace.
pub open spec fn spaces_end(t: Seq<char>, i: int) -> int
    decreases t.len() - i,
{
    if 0 <= i < t.len() && is_space(t[i]) {
        spaces_end(t, i + 1)
    } else {
        i
    }
}

/// The first index at or after `i` that does not hold a decimal digit.
pub open spec fn digits_end(t: Seq<char>, i: int) -> int
    decreases t.len() - i,
{
    if 0 <= i < t.len() && is_digit(t[i]) {
        digits_end(t, i + 1)
    } else {
        i
    }
}

/// The first index at or after `i` that does not hold a hexadecimal digit.
pub open spec fn hex_end(t: Seq<char>, i: int) -> int
    decreases t.len() - i,
{
    if 0 <= i < t.len() && is_hex_digit(t[i]) {
        hex_end(t, i + 1)
    } else {
        i
    }
}

/// The first index at or after `i` that does not hold a word character.
pub open spec fn word_end(t: Seq<char>, i: int) -> int
    decreases t.len() - i,
{
    if 0 <= i < t.len() && is_word_char(t[i]) {
        word_end(t, i + 1)
    } else {
        i
    }
}

/// Where a line comment whose text begins at `i` ends: just past the next
/// newline, or at the end of input.
pub open spec fn comment_end(t: Seq<char>, i: int) -> int
    decreases t.len() - i,
{
    if i < 0 || i >= t.len() {
        i
    } else if t[i] == '\n' {
        i + 1
    } else {
        comment_end(t, i + 1)
    }
}

/// The character that a backslash followed by `c` stands for in a string.
pub open spec fn unescape(c: char) -> char {
    if c == 'n' {
        '\n'
    } else if c == 't' {
        '\t'
    } else if c == 'r' {
        '\r'
    } else if c == '0' {
        '\0'
    } else {
        c
    }
}

/// The contents of a string literal whose text begins at `i` and which is
/// closed by `quote`, and the index just past the closing quote.
pub open spec fn string_body(t: Seq<char>, i: int, quote: char) -> Result<(Seq<char>, int), Error>
    decreases t.len() - i,
{
    if i < 0 || i >= t.len() {
        Err(Error::UnexpectedEOF)
    } else if t[i] == quote {
        Ok((Seq::empty(), i + 1))
    } else if t[i] == '\\' {
        if i + 1 >= t.len() {
            Err(Error::UnexpectedEOF)
        } else {
            match string_body(t, i + 2, quote) {
                Ok((s, k)) => Ok((seq![unescape(t[i + 1])] + s, k)),
                Err(e) => Err(e),
            }
        }
    } else {
        match string_body(t, i + 1, quote) {
            Ok((s, k)) => Ok((seq![t[i]] + s, k)),
            Err(e) => Err(e),
        }
    }
}

/// The token of the characters that stand for one token on their own.
pub open spec fn single_char_token(c: char) -> Option<TokenType> {
    if c == '+' {
        Some(TokenType::Add)
    } else if c == '*' {
        Some(TokenType::Mul)
    } else if c == '/' {
        Some(TokenType::Div)
    } else if c == '%' {
        Some(TokenType::Mod)
    } else if c == '^' {
        Some(TokenType::Pow)
    } else if c == '#' {
        Some(TokenType::Len)
    } else if c == '(' {
        Some(TokenType::EvalIn)
    } else if c == ')' {
        Some(TokenType::EvalOut)
    } else if c == '{' {
        Some(TokenType::TableIn)
    } else if c == '}' {
        Some(TokenType::TableOut)
    } else if c == '[' {
        Some(TokenType::IndexIn)
    } else if c == ']' {
        Some(TokenType::IndexOut)
    } else if c == ':' {
        Some(TokenType::Rep)
    } else if c == ',' {
        Some(TokenType::Sep)
    } else {
        None
    }
}

/// The token of `<`, `>` or `=`, alone or followed by `=`.
pub open spec fn relation_token(c: char, eq_follows: bool) -> TokenType {
    if c == '<' {
        if eq_follows { TokenType::LE } else { TokenType::LT }
    } else if c == '>' {
        if eq_follows { TokenType::GE } else { TokenType::GT }
    } else {
        if eq_follows { TokenType::EQ } else { TokenType::Assign }
    }
}

/// The numeric token whose first digit stands at `i`, and where it ends.
pub open spec fn scan_number(t: Seq<char>, i: int) -> Result<(Tok, int), Error> {
    let d = digits_end(t, i + 1);
    if d == i + 1 && t[i] == '0' && char_at(t, d) == Some('x') {
        let h = hex_end(t, d + 1);
        if h == d + 1 {
            Err(Error::ExpectedHexDigit)
        } else {
            Ok((Tok::Num(NumeralView { hex: true, whole: t.subrange(d + 1, h), frac: None }), h))
        }
    } else if char_at(t, d) == Some('.') {
        let f = digits_end(t, d + 1);
        Ok((
            Tok::Num(
                NumeralView {
                    hex: false,
                    whole: t.subrange(i, d),
                    frac: Some(t.subrange(d + 1, f)),
                },
            ),
            f,
        ))
    } else {
        Ok((Tok::Num(NumeralView { hex: false, whole: t.subrange(i, d), frac: None }), d))
    }
}

/// The token that begins at index `i` (which holds no whitespace) and the
/// index just past it, or the lexical error found there.
pub open spec fn scan(t: Seq<char>, i: int) -> Result<(Tok, int), Error> {
    let c = t[i];
    let next = char_at(t, i + 1);
    if single_char_token(c) is Some {
        Ok((Tok::Plain(single_char_token(c)->0), i + 1))
    } else if c == '-' {
        if next == Some('-') {
            Ok((Tok::Plain(TokenType::Sub), comment_end(t, i + 2)))
        } else {
            Ok((Tok::Plain(TokenType::Sub), i + 1))
        }
    } else if c == '=' || c == '<' || c == '>' {
        if next == Some('=') {
            Ok((Tok::Plain(relation_token(c, true)), i + 2))
        } else {
            Ok((Tok::Plain(relation_token(c, false)), i + 1))
        }
    } else if c == '~' {
        if next == Some('=') {
            Ok((Tok::Plain(TokenType::NE), i + 2))
        } else {
            Err(Error::ExpectedChar('='))
        }
    } else if c == '.' {
        if next == Some('.') {
            if char_at(t, i + 2) == Some('.') {
                Ok((Tok::Plain(TokenType::Args), i + 3))
            } else {
                Ok((Tok::Plain(TokenType::Concat), i + 2))
            }
        } else {
            Ok((Tok::Plain(TokenType::Field), i + 1))
        }
    } else if c == '"' || c == '\'' {
        match string_body(t, i + 1, c) {
            Ok((s, k)) => Ok((Tok::Text(s), k)),
            Err(e) => Err(e),
        }
    } else if is_digit(c) {
        scan_number(t, i)
    } else if is_word_char(c) {
        let w = word_end(t, i + 1);
        Ok((word_token(t.subrange(i, w)), w))
    } else {
        Err(Error::IllegalChar(c))
    }
}

/// The tokens of `t` from index `i` on, or the first lexical error.
pub open spec fn lex_from(t: Seq<char>, i: int) -> Result<Seq<Tok>, Error>
    decreases t.len() - i,
{
    let j = spaces_end(t, i);
    if i < 0 || j >= t.len() {
        Ok(Seq::empty())
    } else {
        match scan(t, j) {
            Err(e) => Err(e),
            Ok((tok, k)) => if i < k <= t.len() {
                match lex_from(t, k) {
                    Ok(ts) => Ok(seq![tok] + ts),
                    Err(e) => Err(e),
                }
            } else {
                Ok(Seq::empty())
            },
        }
    }
}

/// The tokens of a whole source text, or the first lexical error.
pub open spec fn tokens_of(text: Seq<char>) -> Result<Seq<Tok>, Error> {
    lex_from(text, 0)
}

/// The categories of a token sequence, with payloads as character sequences.
pub open spec fn token_views(v: Seq<Token>) -> Seq<Tok> {
    v.map_values(|t: Token| t.token@)
}

} // verus!

verus! {

/// `r` with `acc` put in front of the string it holds.
pub open spec fn prepend_text(acc: Seq<char>, r: Result<(Seq<char>, int), Error>) -> Result<(Seq<char>, int), Error> {
    match r {
        Ok((s, k)) => Ok((acc + s, k)),
        Err(e) => Err(e),
    }
}

/// `r` with `acc` put in front of the tokens it holds.
pub open spec fn prepend_tokens(acc: Seq<Tok>, r: Result<Seq<Tok>, Error>) -> Result<Seq<Tok>, Error> {
    match r {
        Ok(ts) => Ok(acc + ts),
        Err(e) => Err(e),
    }
}

proof fn lemma_spaces_end(t: Seq<char>, i: int)
    requires
        0 <= i <= t.len(),
    ensures
        i <= spaces_end(t, i) <= t.len(),
        spaces_end(t, i) < t.len() ==> !is_space(t[spaces_end(t, i)]),
    decreases t.len() - i,
{
    if i < t.len() && is_space(t[i]) {
        lemma_spaces_end(t, i + 1);
    }
}

proof fn lemma_digits_end(t: Seq<char>, i: int)
    requires
        0 <= i <= t.len(),
    ensures
        i <= digits_end(t, i) <= t.len(),
    decreases t.len() - i,
{
    if i < t.len() && is_digit(t[i]) {
        lemma_digits_end(t, i + 1);
    }
}

proof fn lemma_hex_end(t: Seq<char>, i: int)
    requires
        0 <= i <= t.len(),
    ensures
        i <= hex_end(t, i) <= t.len(),
    decreases t.len() - i,
{
    if i < t.len() && is_hex_digit(t[i]) {
        lemma_hex_end(t, i + 1);
    }
}

proof fn lemma_word_end(t: Seq<char>, i: int)
    requires
        0 <= i <= t.len(),
    ensures
        i <= word_end(t, i) <= t.len(),
    decreases t.len() - i,
{
    if i < t.len() && is_word_char(t[i]) {
        lemma_word_end(t, i + 1);
    }
}

proof fn lemma_comment_end(t: Seq<char>, i: int)
    requires
        0 <= i <= t.len(),
    ensures
        i <= comment_end(t, i) <= t.len(),
    decreases t.len() - i,
{
    if i < t.len() && t[i] != '\n' {
        lemma_comment_end(t, i + 1);
    }
}

proof fn lemma_string_body(t: Seq<char>, i: int, quote: char)
    requires
        0 <= i,
    ensures
        string_body(t, i, quote) matches Ok((s, k)) ==> i < k <= t.len(),
    decreases t.len() - i,
{
    if 0 <= i < t.len() && t[i] != quote {
        if t[i] == '\\' {
            if i + 1 < t.len() {
                lemma_string_body(t, i + 2, quote);
            }
        } else {
            lemma_string_body(t, i + 1, quote);
        }
    }
}

/// A token that is read consumes at least one character.
proof fn lemma_scan(t: Seq<char>, i: int)
    requires
        0 <= i < t.len(),
    ensures
        scan(t, i) matches Ok((tok, k)) ==> i < k <= t.len(),
{
    lemma_digits_end(t, i + 1);
    let d = digits_end(t, i + 1);
    if d < t.len() {
        lemma_hex_end(t, d + 1);
        lemma_digits_end(t, d + 1);
    }
    lemma_word_end(t, i + 1);
    if i + 2 <= t.len() {
        lemma_comment_end(t, i + 2);
    }
    lemma_string_body(t, i + 1, t[i]);
}

fn single_char(c: char) -> (r: Option<TokenType>)
    ensures
        r == single_char_token(c),
{
    if c == '+' {
        Some(TokenType::Add)
    } else if c == '*' {
        Some(TokenType::Mul)
    } else if c == '/' {
        Some(TokenType::Div)
    } else if c == '%' {
        Some(TokenType::Mod)
    } else if c == '^' {
        Some(TokenType::Pow)
    } else if c == '#' {
        Some(TokenType::Len)
    } else if c == '(' {
        Some(TokenType::EvalIn)
    } else if c == ')' {
        Some(TokenType::EvalOut)
    } else if c == '{' {
        Some(TokenType::TableIn)
    } else if c == '}' {
        Some(TokenType::TableOut)
    } else if c == '[' {
        Some(TokenType::IndexIn)
    } else if c == ']' {
        Some(TokenType::IndexOut)
    } else if c == ':' {
        Some(TokenType::Rep)
    } else if c == ',' {
        Some(TokenType::Sep)
    } else {
        None
    }
}

fn relation(c: char, eq_follows: bool) -> (r: TokenType)
    ensures
        r == relation_token(c, eq_follows),
{
    if c == '<' {
        if eq_follows { TokenType::LE } else { TokenType::LT }
    } else if c == '>' {
        if eq_follows { TokenType::GE } else { TokenType::GT }
    } else {
        if eq_follows { TokenType::EQ } else { TokenType::Assign }
    }
}

fn unescaped(c: char) -> (r: char)
    ensures
        r == unescape(c),
{
    if c == 'n' {
        '\n'
    } else if c == 't' {
        '\t'
    } else if c == 'r' {
        '\r'
    } else if c == '0' {
        '\0'
    } else {
        c
    }
}

fn word_char(c: char) -> (r: bool)
    ensures
        r == is_word_char(c),
{
    if c == '_' || ('a' <= c && c <= 'z') || ('A' <= c && c <= 'Z') {
        true
    } else if (c as u32) >= 128 {
        is_alphabetic(c)
    } else {
        false
    }
}

/// A cursor over source text that reads it token by token.
pub struct Lexer {
    path: String,
    text: Vec<char>,
    idx: usize,
    ln: usize,
    col: usize,
}

impl Lexer {
    /// The cursor stays within the text, and its line and column count no
    /// more than the characters passed.
    pub closed spec fn wf(&self) -> bool {
        &&& self.idx <= self.text@.len() < usize::MAX
        &&& self.ln <= self.idx
        &&& self.col <= self.idx
        &&& line_col(self.text@, self.idx as int) == (self.ln as int, self.col as int)
    }

    pub closed spec fn text(&self) -> Seq<char> {
        self.text@
    }

    pub closed spec fn index(&self) -> int {
        self.idx as int
    }

    pub closed spec fn line(&self) -> int {
        self.ln as int
    }

    pub closed spec fn column(&self) -> int {
        self.col as int
    }

    pub fn new(path: &String, text: String) -> (r: Self)
        requires
            text@.len() < usize::MAX,
        ensures
            r.wf(),
            r.text() == text@,
            r.index() == 0,
            r.line() == 0,
            r.column() == 0,
    {
        let chars = chars_of(text.as_str());
        Lexer { path: path.clone(), text: chars, idx: 0, ln: 0, col: 0 }
    }

    /// The character under the cursor.
    pub fn get(&self) -> (r: Option<char>)
        ensures
            r == char_at(self.text(), self.index()),
    {
        if self.idx < self.text.len() {
            Some(self.text[self.idx])
        } else {
            None
        }
    }

    /// Moves past one character, if any is left. Stepping onto a newline
    /// starts the next line at column 0.
    pub fn advance(&mut self)
        requires
            old(self).wf(),
        ensures
            final(self).wf(),
            final(self).text() == old(self).text(),
            old(self).index() < old(self).text().len() ==> {
                &&& final(self).index() == old(self).index() + 1
                &&& if char_at(final(self).text(), final(self).index()) == Some('\n') {
                    final(self).line() == old(self).line() + 1 && final(self).column() == 0
                } else {
                    final(self).line() == old(self).line() && final(self).column() == old(
                        self,
                    ).column() + 1
                }
            },
            old(self).index() >= old(self).text().len() ==> *final(self) == *old(self),
    {
        if self.idx < self.text.len() {
            self.idx += 1;
            self.col += 1;
            if self.idx < self.text.len() && self.text[self.idx] == '\n' {
                self.ln += 1;
                self.col = 0;
            }
        }
    }

    /// The one-character span under the cursor.
    pub fn pos(&self) -> (r: Position)
        requires
            self.wf(),
        ensures
            r == Position::at(self.line(), self.column()),
            r.wf(),
    {
        Position::new(self.ln..self.ln + 1, self.col..self.col + 1)
    }

    fn next_is(&self, c: char) -> (r: bool)
        ensures
            r == (char_at(self.text(), self.index()) == Some(c)),
    {
        self.idx < self.text.len() && self.text[self.idx] == c
    }

    fn at_digit(&self) -> (r: bool)
        ensures
            r == (0 <= self.index() < self.text().len() && is_digit(self.text()[self.index()])),
    {
        self.idx < self.text.len() && '0' <= self.text[self.idx] && self.text[self.idx] <= '9'
    }

    fn at_hex_digit(&self) -> (r: bool)
        ensures
            r == (0 <= self.index() < self.text().len() && is_hex_digit(
                self.text()[self.index()],
            )),
    {
        if self.idx < self.text.len() {
            let c = self.text[self.idx];
            ('0' <= c && c <= '9') || ('a' <= c && c <= 'f') || ('A' <= c && c <= 'F')
        } else {
            false
        }
    }

    fn at_word_char(&self) -> (r: bool)
        ensures
            r == (0 <= self.index() < self.text().len() && is_word_char(self.text()[self.index()])),
    {
        self.idx < self.text.len() && word_char(self.text[self.idx])
    }

    fn skip_spaces(&mut self)
        requires
            old(self).wf(),
        ensures
            final(self).wf(),
            final(self).text() == old(self).text(),
            final(self).index() == spaces_end(old(self).text(), old(self).index()),
    {
        while self.idx < self.text.len() && (self.text[self.idx] == ' ' || self.text[self.idx]
            == '\t' || self.text[self.idx] == '\n' || self.text[self.idx] == '\r')
            invariant
                self.wf(),
                self.text() == old(self).text(),
                spaces_end(self.text(), self.index()) == spaces_end(
                    old(self).text(),
                    old(self).index(),
                ),
            decreases self.text().len() - self.index(),
        {
            self.advance();
        }
    }

    fn skip_comment(&mut self)
        requires
            old(self).wf(),
        ensures
            final(self).wf(),
            final(self).text() == old(self).text(),
            final(self).index() == comment_end(old(self).text(), old(self).index()),
    {
        while self.idx < self.text.len()
            invariant
                self.wf(),
                self.text() == old(self).text(),
                comment_end(self.text(), self.index()) == comment_end(
                    old(self).text(),
                    old(self).index(),
                ),
            decreases self.text().len() - self.index(),
        {
            if self.text[self.idx] == '\n' {
                self.advance();
                return;
            }
            self.advance();
        }
    }

    /// Reads the token after any whitespace: `None` at the end of input.
    pub fn token(&mut self) -> (r: Result<Option<Token>, Error>)
        requires
            old(self).wf(),
        ensures
            final(self).wf(),
            final(self).text() == old(self).text(),
            ({
                let t = old(self).text();
                let j = spaces_end(t, old(self).index());
                if j >= t.len() {
                    r matches Ok(None) && final(self).index() == t.len()
                } else {
                    match scan(t, j) {
                        Ok((tok, k)) => r matches Ok(Some(x)) && x.token@ == tok
                            && final(self).index() == k && (x.pos.ln_start as int, x.pos.col_start as int)
                            == line_col(t, j) && ends_after(x.pos, t, span_last(t, j, k)),
                        Err(e) => r == Err::<Option<Token>, Error>(e),
                    }
                }
            }),
    {
        self.skip_spaces();
        let ghost t = self.text();
        proof {
            lemma_spaces_end(t, old(self).index());
        }
        let c = match self.get() {
            Some(c) => c,
            None => return Ok(None),
        };
        let start = self.idx;
        let mut pos = self.pos();
        if let Some(tt) = single_char(c) {
            self.advance();
            return Ok(Some(Token::new(tt, pos)));
        }
        if c == '-' {
            self.advance();
            if self.next_is('-') {
                self.advance();
                self.skip_comment();
            }
            return Ok(Some(Token::new(TokenType::Sub, pos)));
        }
        if c == '=' || c == '<' || c == '>' {
            self.advance();
            if self.next_is('=') {
                pos.extend(&self.pos());
                self.advance();
                return Ok(Some(Token::new(relation(c, true), pos)));
            }
            return Ok(Some(Token::new(relation(c, false), pos)));
        }
        if c == '~' {
            self.advance();
            if self.next_is('=') {
                pos.extend(&self.pos());
                self.advance();
                return Ok(Some(Token::new(TokenType::NE, pos)));
            }
            return Err(Error::ExpectedChar('='));
        }
        if c == '.' {
            self.advance();
            if self.next_is('.') {
                pos.extend(&self.pos());
                self.advance();
                if self.next_is('.') {
                    pos.extend(&self.pos());
                    self.advance();
                    return Ok(Some(Token::new(TokenType::Args, pos)));
                }
                return Ok(Some(Token::new(TokenType::Concat, pos)));
            }
            return Ok(Some(Token::new(TokenType::Field, pos)));
        }
        if c == '"' || c == '\'' {
            self.advance();
            self.string_literal(c, pos)
        } else if '0' <= c && c <= '9' {
            self.number(pos)
        } else if word_char(c) {
            self.advance();
            while self.at_word_char()
                invariant
                    pos.ln_start == line_col(t, start as int).0,
                    pos.col_start == line_col(t, start as int).1,
                    ends_after(pos, t, self.index() - 1),
                    self.wf(),
                    self.text() == t,
                    start < self.index() <= t.len(),
                    word_end(t, start + 1) == word_end(t, self.index()),
                decreases t.len() - self.index(),
            {
                pos.extend(&self.pos());
                self.advance();
            }
            let id = string_of(&self.text, start, self.idx);
            Ok(Some(Token::new(TokenType::from_name(id), pos)))
        } else {
            Err(Error::IllegalChar(c))
        }
    }

    /// Reads the rest of a string literal opened by `quote`, the cursor
    /// standing just past the opening quote.
    fn string_literal(&mut self, quote: char, pos: Position) -> (r: Result<Option<Token>, Error>)
        requires
            old(self).wf(),
            ends_after(pos, old(self).text(), old(self).index() - 1),
        ensures
            final(self).wf(),
            final(self).text() == old(self).text(),
            r matches Ok(Some(x)) ==> x.pos.ln_start == pos.ln_start && x.pos.col_start
                == pos.col_start && ends_after(x.pos, old(self).text(), final(self).index() - 2),
            match string_body(old(self).text(), old(self).index(), quote) {
                Ok((s, k)) => r matches Ok(Some(x)) && x.token@ == Tok::Text(s)
                    && final(self).index() == k,
                Err(e) => r == Err::<Option<Token>, Error>(e),
            },
    {
        let ghost t = self.text();
        let ghost start = self.index();
        let ghost p0 = pos;
        let mut pos = pos;
        let mut s = String::new();
        loop
            invariant
                pos.ln_start == p0.ln_start && pos.col_start == p0.col_start,
                ends_after(pos, t, self.index() - 1),
                self.wf(),
                self.text() == t,
                t == old(self).text(),
                start == old(self).index(),
                start <= self.index() <= t.len(),
                string_body(t, start, quote) == prepend_text(s@, string_body(t, self.index(), quote)),
            ensures
                self.index() < t.len(),
                t[self.index()] == quote,
            decreases t.len() - self.index(),
        {
            let d = match self.get() {
                Some(d) => d,
                None => return Err(Error::UnexpectedEOF),
            };
            if d == quote {
                break;
            }
            let ghost i = self.index();
            if d == '\\' {
                pos.extend(&self.pos());
                self.advance();
                let e = match self.get() {
                    Some(e) => e,
                    None => return Err(Error::UnexpectedEOF),
                };
                let ghost acc = s@;
                push_char(&mut s, unescaped(e));
                proof {
                    match string_body(t, i + 2, quote) {
                        Ok((rest, k)) => {
                            assert(acc + (seq![unescape(e)] + rest) =~= s@ + rest);
                        },
                        Err(_) => {},
                    }
                }
                pos.extend(&self.pos());
                self.advance();
            } else {
                let ghost acc = s@;
                push_char(&mut s, d);
                proof {
                    match string_body(t, i + 1, quote) {
                        Ok((rest, k)) => {
                            assert(acc + (seq![d] + rest) =~= s@ + rest);
                        },
                        Err(_) => {},
                    }
                }
                pos.extend(&self.pos());
                self.advance();
            }
        }
        proof {
            assert(s@ + Seq::<char>::empty() =~= s@);
        }
        self.advance();
        Ok(Some(Token::new(TokenType::String(s), pos)))
    }

    /// Reads a numeric literal whose first digit is under the cursor.
    fn number(&mut self, pos: Position) -> (r: Result<Option<Token>, Error>)
        requires
            old(self).wf(),
            ends_after(pos, old(self).text(), old(self).index()),
            old(self).index() < old(self).text().len(),
            is_digit(old(self).text()[old(self).index()]),
        ensures
            final(self).wf(),
            final(self).text() == old(self).text(),
            r matches Ok(Some(x)) ==> x.pos.ln_start == pos.ln_start && x.pos.col_start
                == pos.col_start && ends_after(x.pos, old(self).text(), final(self).index() - 1),
            match scan_number(old(self).text(), old(self).index()) {
                Ok((tok, k)) => r matches Ok(Some(x)) && x.token@ == tok && final(self).index() == k,
                Err(e) => r == Err::<Option<Token>, Error>(e),
            },
    {
        let ghost t = self.text();
        let start = self.idx;
        let c = self.text[start];
        let ghost p0 = pos;
        let mut pos = pos;
        self.advance();
        while self.at_digit()
            invariant
                pos.ln_start == p0.ln_start && pos.col_start == p0.col_start,
                ends_after(pos, t, self.index() - 1),
                self.wf(),
                self.text() == t,
                start < self.index() <= t.len(),
                digits_end(t, start + 1) == digits_end(t, self.index()),
            decreases t.len() - self.index(),
        {
            pos.extend(&self.pos());
            self.advance();
        }
        let d = self.idx;
        if d == start + 1 && c == '0' && self.next_is('x') {
            self.advance();
            let h = self.idx;
            while self.at_hex_digit()
                invariant
                    pos.ln_start == p0.ln_start && pos.col_start == p0.col_start,
                    self.index() == h ==> ends_after(pos, t, h - 2),
                    self.index() > h ==> ends_after(pos, t, self.index() - 1),
                    h >= 2,
                    self.wf(),
                    self.text() == t,
                    h <= self.index() <= t.len(),
                    hex_end(t, h as int) == hex_end(t, self.index()),
                decreases t.len() - self.index(),
            {
                pos.extend(&self.pos());
                self.advance();
            }
            if self.idx == h {
                return Err(Error::ExpectedHexDigit);
            }
            let whole = string_of(&self.text, h, self.idx);
            Ok(Some(Token::new(TokenType::Number(Numeral { hex: true, whole, frac: None }), pos)))
        } else if self.next_is('.') {
            pos.extend(&self.pos());
            self.advance();
            let f = self.idx;
            while self.at_digit()
                invariant
                    pos.ln_start == p0.ln_start && pos.col_start == p0.col_start,
                    ends_after(pos, t, self.index() - 1),
                    self.wf(),
                    self.text() == t,
                    f <= self.index() <= t.len(),
                    digits_end(t, f as int) == digits_end(t, self.index()),
                decreases t.len() - self.index(),
            {
                pos.extend(&self.pos());
                self.advance();
            }
            let whole = string_of(&self.text, start, d);
            let frac = string_of(&self.text, f, self.idx);
            Ok(
                Some(
                    Token::new(
                        TokenType::Number(Numeral { hex: false, whole, frac: Some(frac) }),
                        pos,
                    ),
                ),
            )
        } else {
            let whole = string_of(&self.text, start, d);
            Ok(Some(Token::new(TokenType::Number(Numeral { hex: false, whole, frac: None }), pos)))
        }
    }

    /// Reads every remaining token, stopping at the first lexical error.
    pub fn lex(&mut self) -> (r: Result<Vec<Token>, Error>)
        requires
            old(self).wf(),
        ensures
            final(self).wf(),
            final(self).text() == old(self).text(),
            r is Ok ==> final(self).index() == final(self).text().len(),
            match lex_from(old(self).text(), old(self).index()) {
                Ok(ts) => r matches Ok(v) && token_views(v@) == ts,
                Err(e) => r == Err::<Vec<Token>, Error>(e),
            },
    {
        let ghost t = self.text();
        let mut tokens: Vec<Token> = Vec::new();
        while self.get().is_some()
            invariant
                self.wf(),
                self.text() == t,
                t == old(self).text(),
                lex_from(t, old(self).index()) == prepend_tokens(
                    token_views(tokens@),
                    lex_from(t, self.index()),
                ),
            decreases t.len() - self.index(),
        {
            let ghost i = self.index();
            let ghost acc = token_views(tokens@);
            proof {
                lemma_spaces_end(t, i);
                let j = spaces_end(t, i);
                if j < t.len() {
                    lemma_scan(t, j);
                }
            }
            match self.token() {
                Err(e) => return Err(e),
                Ok(Some(tok)) => {
                    let ghost v = tok.token@;
                    tokens.push(tok);
                    proof {
                        assert(token_views(tokens@) =~= acc.push(v));
                        match lex_from(t, self.index()) {
                            Ok(ts) => {
                                assert(acc + (seq![v] + ts) =~= acc.push(v) + ts);
                            },
                            Err(_) => {},
                        }
                    }
                },
                Ok(None) => {},
            }
        }
        proof {
            assert(token_views(tokens@) + Seq::<Tok>::empty() =~= token_views(tokens@));
        }
        Ok(tokens)
    }
}

/// The tokens of `text`, or the first lexical error in it.
pub fn lex(path: &String, text: String) -> (r: Result<Vec<Token>, Error>)
    requires
        text@.len() < usize::MAX,
    ensures
        match tokens_of(text@) {
            Ok(ts) => r matches Ok(v) && token_views(v@) == ts,
            Err(e) => r == Err::<Vec<Token>, Error>(e),
        },
{
    Lexer::new(path, text).lex()
}

/// A string literal with no closing quote anywhere after its opening one
/// fails with an unexpected end of input.
pub proof fn lemma_unterminated_string(t: Seq<char>, i: int, quote: char)
    requires
        0 <= i,
        forall|j: int| i <= j < t.len() ==> t[j] != quote,
    ensures
        string_body(t, i, quote) == Err::<(Seq<char>, int), Error>(Error::UnexpectedEOF),
    decreases t.len() - i,
{
    if i < t.len() {
        if t[i] == '\\' {
            if i + 1 < t.len() {
                lemma_unterminated_string(t, i + 2, quote);
            }
        } else {
            lemma_unterminated_string(t, i + 1, quote);
        }
    }
}

/// `0x` that is not followed by a hexadecimal digit is an error.
pub proof fn lemma_hex_prefix_needs_digit(t: Seq<char>, i: int)
    requires
        0 <= i,
        i + 1 < t.len(),
        t[i] == '0',
        t[i + 1] == 'x',
        i + 2 >= t.len() || !is_hex_digit(t[i + 2]),
    ensures
        scan(t, i) == Err::<(Tok, int), Error>(Error::ExpectedHexDigit),
{
    assert(digits_end(t, i + 1) == i + 1);
    assert(hex_end(t, i + 2) == i + 2);
}

} // verus!
