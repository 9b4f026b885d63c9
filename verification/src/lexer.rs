//! From source text to tokens.

use crate::error::Error;
use vstd::prelude::*;
use vstd::string::{StrSliceExecFns, StringExecFns};

verus! {

/// The reserved words.
#[derive(Debug, Clone, Copy, PartialEq, Eq, Structural)]
pub enum Keyword {
    Var,
    Val,
    Fn,
    If,
    Else,
    While,
    Return,
    Break,
    Continue,
    I32,
}

/// The operators.
#[derive(Debug, Clone, Copy, PartialEq, Eq, Structural)]
pub enum Operator {
    /// `+`
    Plus,
    /// `-`
    Minus,
    /// `*`
    Star,
    /// `/`
    Slash,
    /// `%`
    Percent,
    /// `<`
    Lt,
    /// `>`
    Gt,
    /// `<=`
    Le,
    /// `>=`
    Ge,
    /// `==`
    EqEq,
    /// `!=`
    Ne,
    /// `!`
    Not,
    /// `&&`
    AndAnd,
    /// `||`
    OrOr,
    /// `=`
    Assign,
    /// `->`
    Arrow,
}

/// The punctuation.
#[derive(Debug, Clone, Copy, PartialEq, Eq, Structural)]
pub enum Delimiter {
    /// `(`
    LParen,
    /// `)`
    RParen,
    /// `{`
    LBrace,
    /// `}`
    RBrace,
    /// `,`
    Comma,
    /// `;`
    Semi,
    /// `:`
    Colon,
}

/// A token of the source language.
#[derive(Debug, Clone, PartialEq, Eq)]
pub enum Token {
    Keyword(Keyword),
    Identifier(String),
    Number(i32),
    Operator(Operator),
    Delimiters(Delimiter),
    /// The end of the text.
    EOF,
}

/// A token as a mathematical value: an identifier is its characters.
pub enum Lexeme {
    Keyword(Keyword),
    Identifier(Seq<char>),
    Number(i32),
    Operator(Operator),
    Delimiters(Delimiter),
    EOF,
}

impl View for Token {
    type V = Lexeme;

    open spec fn view(&self) -> Lexeme {
        match *self {
            Token::Keyword(k) => Lexeme::Keyword(k),
            Token::Identifier(name) => Lexeme::Identifier(name@),
            Token::Number(n) => Lexeme::Number(n),
            Token::Operator(o) => Lexeme::Operator(o),
            Token::Delimiters(d) => Lexeme::Delimiters(d),
            Token::EOF => Lexeme::EOF,
        }
    }
}

/// Whether `c` is a blank.
pub open spec fn is_blank(c: char) -> bool {
    c == ' ' || c == '\t' || c == '\n' || c == '\r'
}

/// Whether `c` is a decimal digit.
pub open spec fn is_digit(c: char) -> bool {
    '0' <= c <= '9'
}

/// Whether `c` can start a name: a letter or an underscore.
pub open spec fn is_letter(c: char) -> bool {
    ('a' <= c <= 'z') || ('A' <= c <= 'Z') || c == '_'
}

/// The first index from `from` on at which `text` holds no blank.
pub open spec fn blanks_end(text: Seq<char>, from: nat) -> nat
    decreases text.len() - from,
{
    if from >= text.len() || !is_blank(text[from as int]) {
        from
    } else {
        blanks_end(text, from + 1)
    }
}

/// The first index from `from` on at which `text` holds no digit.
pub open spec fn digits_end(text: Seq<char>, from: nat) -> nat
    decreases text.len() - from,
{
    if from >= text.len() || !is_digit(text[from as int]) {
        from
    } else {
        digits_end(text, from + 1)
    }
}

/// The first index from `from` on at which `text` holds neither a letter
/// nor a digit.
pub open spec fn word_end(text: Seq<char>, from: nat) -> nat
    decreases text.len() - from,
{
    if from >= text.len() || !(is_letter(text[from as int]) || is_digit(text[from as int])) {
        from
    } else {
        word_end(text, from + 1)
    }
}

/// The number that a sequence of digits stands for in decimal.
pub open spec fn number(digits: Seq<char>) -> nat
    decreases digits.len(),
{
    if digits.len() == 0 {
        0
    } else {
        (number(digits.drop_last()) * 10 + (digits.last() as u32 - '0' as u32)) as nat
    }
}

/// The reserved word that `word` is, if it is one.
pub open spec fn keyword(word: Seq<char>) -> Option<Keyword> {
    if word == "var"@ {
        Some(Keyword::Var)
    } else if word == "val"@ {
        Some(Keyword::Val)
    } else if word == "fn"@ {
        Some(Keyword::Fn)
    } else if word == "if"@ {
        Some(Keyword::If)
    } else if word == "else"@ {
        Some(Keyword::Else)
    } else if word == "while"@ {
        Some(Keyword::While)
    } else if word == "return"@ {
        Some(Keyword::Return)
    } else if word == "break"@ {
        Some(Keyword::Break)
    } else if word == "continue"@ {
        Some(Keyword::Continue)
    } else if word == "i32"@ {
        Some(Keyword::I32)
    } else {
        None
    }
}

/// The operator or the punctuation mark that starts with `c`, where `d` is
/// the character after it (or a blank at the end of the text), and the
/// number of characters it takes.
pub open spec fn symbol(c: char, d: char) -> Option<(Lexeme, nat)> {
    if c == '+' {
        Some((Lexeme::Operator(Operator::Plus), 1))
    } else if c == '-' {
        if d == '>' {
            Some((Lexeme::Operator(Operator::Arrow), 2))
        } else {
            Some((Lexeme::Operator(Operator::Minus), 1))
        }
    } else if c == '*' {
        Some((Lexeme::Operator(Operator::Star), 1))
    } else if c == '/' {
        Some((Lexeme::Operator(Operator::Slash), 1))
    } else if c == '%' {
        Some((Lexeme::Operator(Operator::Percent), 1))
    } else if c == '<' {
        if d == '=' {
            Some((Lexeme::Operator(Operator::Le), 2))
        } else {
            Some((Lexeme::Operator(Operator::Lt), 1))
        }
    } else if c == '>' {
        if d == '=' {
            Some((Lexeme::Operator(Operator::Ge), 2))
        } else {
            Some((Lexeme::Operator(Operator::Gt), 1))
        }
    } else if c == '=' {
        if d == '=' {
            Some((Lexeme::Operator(Operator::EqEq), 2))
        } else {
            Some((Lexeme::Operator(Operator::Assign), 1))
        }
    } else if c == '!' {
        if d == '=' {
            Some((Lexeme::Operator(Operator::Ne), 2))
        } else {
            Some((Lexeme::Operator(Operator::Not), 1))
        }
    } else if c == '&' && d == '&' {
        Some((Lexeme::Operator(Operator::AndAnd), 2))
    } else if c == '|' && d == '|' {
        Some((Lexeme::Operator(Operator::OrOr), 2))
    } else if c == '(' {
        Some((Lexeme::Delimiters(Delimiter::LParen), 1))
    } else if c == ')' {
        Some((Lexeme::Delimiters(Delimiter::RParen), 1))
    } else if c == '{' {
        Some((Lexeme::Delimiters(Delimiter::LBrace), 1))
    } else if c == '}' {
        Some((Lexeme::Delimiters(Delimiter::RBrace), 1))
    } else if c == ',' {
        Some((Lexeme::Delimiters(Delimiter::Comma), 1))
    } else if c == ';' {
        Some((Lexeme::Delimiters(Delimiter::Semi), 1))
    } else if c == ':' {
        Some((Lexeme::Delimiters(Delimiter::Colon), 1))
    } else {
        None
    }
}

/// The character at index `i`, or a blank past the end.
pub open spec fn char_at(text: Seq<char>, i: int) -> char {
    if 0 <= i < text.len() {
        text[i]
    } else {
        ' '
    }
}

/// The token that starts at index `start` of `text`, where no blank
/// stands, and the index at which it ends; or `None` where no token starts
/// there. A number is a run of digits and must fit 32 bits; a word is a run
/// of letters and digits that starts with a letter, and is a reserved word
/// or a name.
pub open spec fn token_at(text: Seq<char>, start: nat) -> Option<(Lexeme, nat)> {
    if start >= text.len() {
        Some((Lexeme::EOF, start))
    } else if is_digit(text[start as int]) {
        let end = digits_end(text, start);
        let n = number(text.subrange(start as int, end as int));
        if n > i32::MAX {
            None
        } else {
            Some((Lexeme::Number(n as i32), end))
        }
    } else if is_letter(text[start as int]) {
        let end = word_end(text, start);
        let word = text.subrange(start as int, end as int);
        match keyword(word) {
            Some(k) => Some((Lexeme::Keyword(k), end)),
            None => Some((Lexeme::Identifier(word), end)),
        }
    } else {
        match symbol(text[start as int], char_at(text, start as int + 1)) {
            Some((lexeme, width)) => Some((lexeme, start + width)),
            None => None,
        }
    }
}

/// The next token from index `from` on, after any blanks, and the index at
/// which it ends; or the index at which no token starts.
pub open spec fn next_lexeme(text: Seq<char>, from: nat) -> Result<(Lexeme, nat), usize> {
    let start = blanks_end(text, from);
    match token_at(text, start) {
        Some(found) => Ok(found),
        None => Err(start as usize),
    }
}

/// Where blanks, digits and words end.
pub proof fn lemma_ends(text: Seq<char>, from: nat)
    requires
        from <= text.len(),
    ensures
        from <= blanks_end(text, from) <= text.len(),
        from <= digits_end(text, from) <= text.len(),
        from <= word_end(text, from) <= text.len(),
        from < text.len() && is_digit(text[from as int]) ==> from < digits_end(text, from),
        from < text.len() && is_letter(text[from as int]) ==> from < word_end(text, from),
        blanks_end(text, from) < text.len() ==> !is_blank(text[blanks_end(text, from) as int]),
    decreases text.len() - from,
{
    if from < text.len() {
        lemma_ends(text, from + 1);
    }
}

/// A token other than the end of the text takes at least one character,
/// and no token goes beyond the end of the text.
pub proof fn lemma_token_at(text: Seq<char>, start: nat)
    requires
        start <= text.len(),
    ensures
        token_at(text, start) matches Some((lexeme, end)) ==> start <= end <= text.len() && (
        lexeme is EOF <==> start == text.len()) && (start < text.len() ==> start < end),
{
    lemma_ends(text, start);
}

/// The tokens of `text` from index `from` on, the end of the text being
/// the last of them; or the index at which no token starts.
pub open spec fn lexemes_from(text: Seq<char>, from: nat) -> Result<Seq<Lexeme>, usize>
    decreases text.len() - from,
{
    if from > text.len() {
        Ok(seq![Lexeme::EOF])
    } else {
        match next_lexeme(text, from) {
            Err(at) => Err(at),
            Ok((Lexeme::EOF, _)) => Ok(seq![Lexeme::EOF]),
            Ok((lexeme, end)) => {
                proof {
                    lemma_ends(text, from);
                    lemma_token_at(text, blanks_end(text, from));
                }
                match lexemes_from(text, end) {
                    Ok(rest) => Ok(seq![lexeme] + rest),
                    Err(at) => Err(at),
                }
            },
        }
    }
}

/// The tokens of a text.
pub open spec fn lexemes(text: Seq<char>) -> Result<Seq<Lexeme>, usize> {
    lexemes_from(text, 0)
}

/// The tokens as mathematical values.
pub open spec fn tokens_view(tokens: Seq<Token>) -> Seq<Lexeme> {
    Seq::new(tokens.len(), |i: int| tokens[i]@)
}


/// A scanner over a source text.
pub struct Lexer<'a> {
    input: &'a str,
    chars: Vec<char>,
    position: usize,
}

/// The operator or the punctuation mark that starts with `c`, where `d` is
/// the character after it, and the number of characters it takes.
fn symbol_token(c: char, d: char) -> (r: Option<(Token, usize)>)
    ensures
        match symbol(c, d) {
            Some((lexeme, width)) => r matches Some((token, w)) && token@ == lexeme && w == width,
            None => r is None,
        },
{
    if c == '+' {
        Some((Token::Operator(Operator::Plus), 1))
    } else if c == '-' {
        if d == '>' {
            Some((Token::Operator(Operator::Arrow), 2))
        } else {
            Some((Token::Operator(Operator::Minus), 1))
        }
    } else if c == '*' {
        Some((Token::Operator(Operator::Star), 1))
    } else if c == '/' {
        Some((Token::Operator(Operator::Slash), 1))
    } else if c == '%' {
        Some((Token::Operator(Operator::Percent), 1))
    } else if c == '<' {
        if d == '=' {
            Some((Token::Operator(Operator::Le), 2))
        } else {
            Some((Token::Operator(Operator::Lt), 1))
        }
    } else if c == '>' {
        if d == '=' {
            Some((Token::Operator(Operator::Ge), 2))
        } else {
            Some((Token::Operator(Operator::Gt), 1))
        }
    } else if c == '=' {
        if d == '=' {
            Some((Token::Operator(Operator::EqEq), 2))
        } else {
            Some((Token::Operator(Operator::Assign), 1))
        }
    } else if c == '!' {
        if d == '=' {
            Some((Token::Operator(Operator::Ne), 2))
        } else {
            Some((Token::Operator(Operator::Not), 1))
        }
    } else if c == '&' && d == '&' {
        Some((Token::Operator(Operator::AndAnd), 2))
    } else if c == '|' && d == '|' {
        Some((Token::Operator(Operator::OrOr), 2))
    } else if c == '(' {
        Some((Token::Delimiters(Delimiter::LParen), 1))
    } else if c == ')' {
        Some((Token::Delimiters(Delimiter::RParen), 1))
    } else if c == '{' {
        Some((Token::Delimiters(Delimiter::LBrace), 1))
    } else if c == '}' {
        Some((Token::Delimiters(Delimiter::RBrace), 1))
    } else if c == ',' {
        Some((Token::Delimiters(Delimiter::Comma), 1))
    } else if c == ';' {
        Some((Token::Delimiters(Delimiter::Semi), 1))
    } else if c == ':' {
        Some((Token::Delimiters(Delimiter::Colon), 1))
    } else {
        None
    }
}

/// Whether `word` is the text `name`.
fn is_word(word: &String, name: &str) -> (b: bool)
    ensures
        b == (word@ == name@),
{
    let other = String::from_str(name);
    *word == other
}

/// The reserved word that `word` is, if it is one.
fn keyword_of(word: &String) -> (r: Option<Keyword>)
    ensures
        r == keyword(word@),
{
    if is_word(word, "var") {
        Some(Keyword::Var)
    } else if is_word(word, "val") {
        Some(Keyword::Val)
    } else if is_word(word, "fn") {
        Some(Keyword::Fn)
    } else if is_word(word, "if") {
        Some(Keyword::If)
    } else if is_word(word, "else") {
        Some(Keyword::Else)
    } else if is_word(word, "while") {
        Some(Keyword::While)
    } else if is_word(word, "return") {
        Some(Keyword::Return)
    } else if is_word(word, "break") {
        Some(Keyword::Break)
    } else if is_word(word, "continue") {
        Some(Keyword::Continue)
    } else if is_word(word, "i32") {
        Some(Keyword::I32)
    } else {
        None
    }
}

impl<'a> Lexer<'a> {
    /// The text that is scanned.
    pub closed spec fn text(&self) -> Seq<char> {
        self.chars@
    }

    /// The index of the character at which the next token is looked for.
    pub closed spec fn position(&self) -> nat {
        self.position as nat
    }

    /// The scanner holds the characters of its text and stands within it.
    pub closed spec fn wf(&self) -> bool {
        self.chars@ == self.input@ && self.position <= self.chars.len()
    }

    /// A scanner at the start of `input`.
    pub fn new(input: &'a str) -> (lexer: Self)
        ensures
            lexer.wf(),
            lexer.text() == input@,
            lexer.position() == 0,
    {
        let len = input.unicode_len();
        let mut chars: Vec<char> = Vec::new();
        let mut i: usize = 0;
        while i < len
            invariant
                i <= len,
                len == input@.len(),
                chars@ =~= input@.take(i as int),
            decreases len - i,
        {
            chars.push(input.get_char(i));
            i = i + 1;
        }
        assert(input@.take(len as int) =~= input@);
        Lexer { input, chars, position: 0 }
    }

    /// Looks at the character at which the scanner stands.
    fn peek(&self) -> (c: Option<char>)
        requires
            self.wf(),
        ensures
            c == if self.position() < self.text().len() {
                Some(self.text()[self.position() as int])
            } else {
                None
            },
    {
        if self.position < self.chars.len() {
            Some(self.chars[self.position])
        } else {
            None
        }
    }

    /// Moves past the blanks at which the scanner stands.
    fn skip_whitespace(&mut self)
        requires
            old(self).wf(),
        ensures
            final(self).wf(),
            final(self).text() == old(self).text(),
            final(self).position() == blanks_end(old(self).text(), old(self).position()),
    {
        while self.position < self.chars.len() && Self::isblank(self.chars[self.position])
            invariant
                self.wf(),
                self.text() == old(self).text(),
                blanks_end(self.text(), self.position()) == blanks_end(
                    old(self).text(),
                    old(self).position(),
                ),
            decreases self.chars.len() - self.position,
        {
            self.position = self.position + 1;
        }
    }

    fn isblank(c: char) -> (b: bool)
        ensures
            b == is_blank(c),
    {
        c == ' ' || c == '\t' || c == '\n' || c == '\r'
    }

    fn isdigit(c: char) -> (b: bool)
        ensures
            b == is_digit(c),
    {
        '0' <= c && c <= '9'
    }

    fn isletter_(c: char) -> (b: bool)
        ensures
            b == is_letter(c),
    {
        ('a' <= c && c <= 'z') || ('A' <= c && c <= 'Z') || c == '_'
    }

    fn isletter_or_digit(c: char) -> (b: bool)
        ensures
            b == (is_letter(c) || is_digit(c)),
    {
        Self::isdigit(c) || Self::isletter_(c)
    }

    /// Reads the number at which the scanner stands and moves past it.
    fn read_number(&mut self) -> (r: Option<i32>)
        requires
            old(self).wf(),
        ensures
            final(self).wf(),
            final(self).text() == old(self).text(),
            final(self).position() == digits_end(old(self).text(), old(self).position()),
            ({
                let digits = old(self).text().subrange(
                    old(self).position() as int,
                    final(self).position() as int,
                );
                r == if number(digits) <= i32::MAX {
                    Some(number(digits) as i32)
                } else {
                    None
                }
            }),
    {
        let start = self.position;
        let mut acc: Option<i32> = Some(0);
        assert(self.text().subrange(start as int, start as int) =~= Seq::<char>::empty());
        while self.position < self.chars.len() && Self::isdigit(self.chars[self.position])
            invariant
                self.wf(),
                self.text() == old(self).text(),
                start == old(self).position(),
                start <= self.position,
                digits_end(self.text(), start as nat) == digits_end(self.text(), self.position()),
                acc == if number(self.text().subrange(start as int, self.position as int))
                    <= i32::MAX {
                    Some(number(self.text().subrange(start as int, self.position as int)) as i32)
                } else {
                    None
                },
            decreases self.chars.len() - self.position,
        {
            let c = self.chars[self.position];
            let d = (c as u32 - '0' as u32) as i32;
            proof {
                let sofar = self.text().subrange(start as int, self.position as int);
                assert(sofar.push(c) =~= self.text().subrange(start as int, self.position + 1));
                assert(sofar.push(c).drop_last() =~= sofar);
                assert(number(sofar) * 10 + d >= number(sofar)) by (nonlinear_arith)
                    requires
                        number(sofar) >= 0,
                        d >= 0,
                ;
            }
            acc = match acc {
                None => None,
                Some(a) => match a.checked_mul(10) {
                    None => None,
                    Some(b) => b.checked_add(d),
                },
            };
            self.position = self.position + 1;
        }
        acc
    }

    /// Moves past the word at which the scanner stands.
    fn skip_word(&mut self)
        requires
            old(self).wf(),
        ensures
            final(self).wf(),
            final(self).text() == old(self).text(),
            final(self).position() == word_end(old(self).text(), old(self).position()),
            old(self).position() <= final(self).position(),
    {
        while self.position < self.chars.len() && Self::isletter_or_digit(
            self.chars[self.position],
        )
            invariant
                self.wf(),
                self.text() == old(self).text(),
                old(self).position() <= self.position,
                word_end(self.text(), self.position()) == word_end(
                    old(self).text(),
                    old(self).position(),
                ),
            decreases self.chars.len() - self.position,
        {
            self.position = self.position + 1;
        }
    }

    /// Reads the next token: skips the blanks at which the scanner stands,
    /// and moves past the token that follows them. At the end of the text
    /// the token is `EOF`, and the scanner stays there.
    ///
    /// Fails with `LexerError` and the index of the character at which no
    /// token starts; the scanner then stands where it stood.
    pub fn next_token(&mut self) -> (r: Result<Token, Error>)
        requires
            old(self).wf(),
        ensures
            final(self).wf(),
            final(self).text() == old(self).text(),
            match next_lexeme(old(self).text(), old(self).position()) {
                Ok((lexeme, end)) => r matches Ok(token) && token@ == lexeme
                    && final(self).position() == end,
                Err(at) => r matches Err(Error::LexerError(p)) && p == at && final(self).position()
                    == old(self).position(),
            },
    {
        let origin = self.position;
        self.skip_whitespace();
        let start = self.position;
        match self.peek() {
            None => Ok(Token::EOF),
            Some(c) => {
                if Self::isdigit(c) {
                    match self.read_number() {
                        Some(n) => Ok(Token::Number(n)),
                        None => {
                            self.position = origin;
                            Err(Error::LexerError(start))
                        },
                    }
                } else if Self::isletter_(c) {
                    self.skip_word();
                    let word = String::from_str(self.input.substring_char(start, self.position));
                    match keyword_of(&word) {
                        Some(k) => Ok(Token::Keyword(k)),
                        None => Ok(Token::Identifier(word)),
                    }
                } else {
                    let d = if start + 1 < self.chars.len() {
                        self.chars[start + 1]
                    } else {
                        ' '
                    };
                    match symbol_token(c, d) {
                        Some((token, width)) => {
                            self.position = start + width;
                            Ok(token)
                        },
                        None => {
                            self.position = origin;
                            Err(Error::LexerError(start))
                        },
                    }
                }
            },
        }
    }
}

/// Scans a whole text: its tokens in order, with `EOF` as the last.
///
/// Fails with `LexerError` and the index of the first character at which no
/// token starts.
pub fn tokenize(input: &str) -> (r: Result<Vec<Token>, Error>)
    ensures
        match lexemes(input@) {
            Ok(found) => r matches Ok(tokens) && tokens_view(tokens@) == found,
            Err(at) => r matches Err(Error::LexerError(p)) && p == at,
        },
{
    let mut lexer = Lexer::new(input);
    let mut tokens: Vec<Token> = Vec::new();
    loop
        invariant
            lexer.wf(),
            lexer.text() == input@,
            lexer.position() <= input@.len(),
            lexemes(input@) == match lexemes_from(input@, lexer.position()) {
                Ok(rest) => Ok::<Seq<Lexeme>, usize>(tokens_view(tokens@) + rest),
                Err(at) => Err(at),
            },
        decreases input@.len() - lexer.position(),
    {
        let ghost from = lexer.position();
        let ghost before = tokens_view(tokens@);
        proof {
            lemma_ends(input@, from);
            lemma_token_at(input@, blanks_end(input@, from));
        }
        match lexer.next_token() {
            Err(e) => {
                return Err(e);
            },
            Ok(token) => {
                let done = match token {
                    Token::EOF => true,
                    _ => false,
                };
                tokens.push(token);
                proof {
                    assert(tokens_view(tokens@) =~= before + seq![token@]);
                    if !done {
                        if let Ok(rest) = lexemes_from(input@, lexer.position()) {
                            assert(before + (seq![token@] + rest) =~= tokens_view(tokens@) + rest);
                        }
                    }
                }
                if done {
                    return Ok(tokens);
                }
            },
        }
    }
}

} // verus!
