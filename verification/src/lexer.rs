//! The lexer: a pull iterator over the source text that yields one
//! token per call. Whitespace separates tokens and is discarded;
//! identifiers and keywords, decimal numbers, double-quoted strings,
//! the one- and two-character operators and the punctuation are
//! recognised; anything else is an `illegal` token. After the input
//! is exhausted `eof` is yielded indefinitely.

use vstd::prelude::*;

use crate::strutil::{str_chars, chars_to_string, digits_to_i64, digits_val, is_digit_char};
use crate::token::{Token, TokenType, TokenV, LitV, token_type_text};

verus! {

/// The character at a position, with NUL standing in past the end.
pub open spec fn char_at(s: Seq<char>, p: int) -> char {
    if 0 <= p < s.len() {
        s[p]
    } else {
        '\0'
    }
}

/// Whitespace: space, tab, carriage return or newline.
pub open spec fn is_ws_char(c: char) -> bool {
    c == ' ' || c == '\t' || c == '\r' || c == '\n'
}

/// A character that may start an identifier.
pub open spec fn is_ident_start(c: char) -> bool {
    ('a' <= c && c <= 'z') || ('A' <= c && c <= 'Z') || c == '_'
}

/// A character that may continue an identifier.
pub open spec fn is_ident_cont(c: char) -> bool {
    is_ident_start(c) || is_digit_char(c)
}

/// The first position at or after `p` that holds no whitespace.
pub open spec fn skip_ws(s: Seq<char>, p: nat) -> nat
    decreases s.len() - p,
{
    if p >= s.len() {
        p
    } else if is_ws_char(s[p as int]) {
        skip_ws(s, p + 1)
    } else {
        p
    }
}

/// The first position at or after `p` that cannot continue an
/// identifier.
pub open spec fn scan_ident(s: Seq<char>, p: nat) -> nat
    decreases s.len() - p,
{
    if p >= s.len() {
        p
    } else if is_ident_cont(s[p as int]) {
        scan_ident(s, p + 1)
    } else {
        p
    }
}

/// The first position at or after `p` that holds no decimal digit.
pub open spec fn scan_digits(s: Seq<char>, p: nat) -> nat
    decreases s.len() - p,
{
    if p >= s.len() {
        p
    } else if is_digit_char(s[p as int]) {
        scan_digits(s, p + 1)
    } else {
        p
    }
}

/// The position of the first double quote at or after `p`, or the
/// input's length when there is none.
pub open spec fn find_quote(s: Seq<char>, p: nat) -> nat
    decreases s.len() - p,
{
    if p >= s.len() {
        s.len()
    } else if s[p as int] == '"' {
        p
    } else {
        find_quote(s, p + 1)
    }
}

/// A token without a payload: it carries its own textual form.
pub open spec fn tok_simple(ty: TokenType) -> TokenV {
    TokenV { ty, lit: LitV::Str(token_type_text(ty)) }
}

/// The token for a stretch of identifier characters: the keyword it
/// spells, else an identifier.
pub open spec fn keyword_token(t: Seq<char>) -> TokenV {
    if t == "let"@ {
        tok_simple(TokenType::Let)
    } else if t == "fn"@ {
        tok_simple(TokenType::Fn)
    } else if t == "if"@ {
        tok_simple(TokenType::If)
    } else if t == "else"@ {
        tok_simple(TokenType::Else)
    } else if t == "return"@ {
        tok_simple(TokenType::Return)
    } else if t == "true"@ {
        tok_simple(TokenType::True)
    } else if t == "false"@ {
        tok_simple(TokenType::False)
    } else {
        TokenV { ty: TokenType::Ident, lit: LitV::Ident(t) }
    }
}

/// The token for a stretch of digits: its value when it fits in a
/// signed 64-bit integer, else `illegal`.
pub open spec fn number_token(d: Seq<char>) -> TokenV {
    if digits_val(d) <= i64::MAX {
        TokenV { ty: TokenType::Number, lit: LitV::Num(digits_val(d) as i64) }
    } else {
        tok_simple(TokenType::Illegal)
    }
}

/// The next token of the source text at position `p`, and the
/// position just after it.
pub open spec fn next_token_at(s: Seq<char>, p: nat) -> (TokenV, nat) {
    let q = skip_ws(s, p);
    let c = char_at(s, q as int);
    if c == '\0' {
        (tok_simple(TokenType::Eof), if q < s.len() { q + 1 } else { s.len() })
    } else if c == '=' {
        if char_at(s, q as int + 1) == '=' {
            (tok_simple(TokenType::Eq), q + 2)
        } else {
            (tok_simple(TokenType::Assign), q + 1)
        }
    } else if c == '!' {
        if char_at(s, q as int + 1) == '=' {
            (tok_simple(TokenType::NotEq), q + 2)
        } else {
            (tok_simple(TokenType::Bang), q + 1)
        }
    } else if c == '+' {
        (tok_simple(TokenType::Plus), q + 1)
    } else if c == '-' {
        (tok_simple(TokenType::Minus), q + 1)
    } else if c == '/' {
        (tok_simple(TokenType::Slash), q + 1)
    } else if c == '*' {
        (tok_simple(TokenType::Star), q + 1)
    } else if c == ',' {
        (tok_simple(TokenType::Comma), q + 1)
    } else if c == ';' {
        (tok_simple(TokenType::Semicolon), q + 1)
    } else if c == ':' {
        (tok_simple(TokenType::Colon), q + 1)
    } else if c == '(' {
        (tok_simple(TokenType::LParen), q + 1)
    } else if c == ')' {
        (tok_simple(TokenType::RParen), q + 1)
    } else if c == '{' {
        (tok_simple(TokenType::LBrace), q + 1)
    } else if c == '}' {
        (tok_simple(TokenType::RBrace), q + 1)
    } else if c == '[' {
        (tok_simple(TokenType::LBracket), q + 1)
    } else if c == ']' {
        (tok_simple(TokenType::RBracket), q + 1)
    } else if c == '<' {
        (tok_simple(TokenType::Lt), q + 1)
    } else if c == '>' {
        (tok_simple(TokenType::Gt), q + 1)
    } else if c == '"' {
        let e = find_quote(s, q + 1);
        if e < s.len() {
            (TokenV { ty: TokenType::String, lit: LitV::Str(s.subrange(q as int + 1, e as int)) }, e + 1)
        } else {
            (tok_simple(TokenType::Illegal), s.len())
        }
    } else if is_ident_start(c) {
        let e = scan_ident(s, q);
        (keyword_token(s.subrange(q as int, e as int)), e)
    } else if is_digit_char(c) {
        let e = scan_digits(s, q);
        (number_token(s.subrange(q as int, e as int)), e)
    } else {
        (tok_simple(TokenType::Illegal), q + 1)
    }
}

/// The lexer: the source characters, the position of the current
/// character, the position to read next, and the current character.
pub struct Lexer {
    input: Vec<char>,
    pos: usize,
    read_pos: usize,
    ch: char,
}

impl Lexer {
    /// The position and cached character agree with the input.
    pub closed spec fn wf(&self) -> bool {
        &&& self.pos <= self.input@.len()
        &&& if self.pos < self.input@.len() {
            self.read_pos == self.pos + 1
        } else {
            self.read_pos == self.input@.len()
        }
        &&& self.ch == char_at(self.input@, self.pos as int)
    }

    /// The source text.
    pub closed spec fn src(&self) -> Seq<char> {
        self.input@
    }

    /// The position of the current character.
    pub closed spec fn position(&self) -> nat {
        self.pos as nat
    }

    /// The length of the source text.
    pub fn src_len(&self) -> (n: usize)
        ensures
            n == self.src().len(),
    {
        self.input.len()
    }

    /// Build a lexer over the given source text, positioned at its
    /// first character.
    pub fn new(input: String) -> (r: Lexer)
        ensures
            r.wf(),
            r.src() == input@,
            r.position() == 0,
    {
        let chars = str_chars(input.as_str());
        let mut s = Lexer { input: chars, pos: 0, read_pos: 0, ch: '\0' };
        s.read();
        s
    }

    /// Advance to the next character, parking at the end of the input.
    fn read(&mut self)
        requires
            old(self).read_pos <= old(self).input@.len(),
        ensures
            final(self).input == old(self).input,
            final(self).wf(),
            final(self).pos == old(self).read_pos,
    {
        if self.read_pos >= self.input.len() {
            self.ch = '\0';
            self.pos = self.input.len();
            self.read_pos = self.input.len();
        } else {
            self.ch = self.input[self.read_pos];
            self.pos = self.read_pos;
            self.read_pos = self.read_pos + 1;
        }
    }

    /// The character just after the current one, with NUL standing in
    /// past the end.
    fn peek_char(&self) -> (c: char)
        requires
            self.wf(),
            self.pos < self.input@.len(),
        ensures
            c == char_at(self.input@, self.pos + 1),
    {
        if self.read_pos >= self.input.len() {
            '\0'
        } else {
            self.input[self.read_pos]
        }
    }

    /// Discard whitespace.
    fn skip_whitespace(&mut self)
        requires
            old(self).wf(),
        ensures
            final(self).wf(),
            final(self).input == old(self).input,
            final(self).pos == skip_ws(old(self).input@, old(self).pos as nat),
    {
        while is_ws_exec(self.ch)
            invariant
                self.wf(),
                self.input == old(self).input,
                skip_ws(self.input@, self.pos as nat) == skip_ws(
                    old(self).input@,
                    old(self).pos as nat,
                ),
            decreases self.input@.len() - self.pos,
        {
            assert(self.pos < self.input@.len());
            self.read();
        }
    }

    /// Yield the next token and advance past it.
    pub fn next(&mut self) -> (t: Token)
        requires
            old(self).wf(),
        ensures
            final(self).wf(),
            final(self).src() == old(self).src(),
            t.wf(),
            t@ == next_token_at(old(self).src(), old(self).position()).0,
            final(self).position() == next_token_at(old(self).src(), old(self).position()).1,
    {
        self.skip_whitespace();
        let c = self.ch;
        if c == '"' {
            return self.read_string();
        }
        if is_ident_char(c, true) {
            return self.read_ident();
        }
        if is_digit_exec(c) {
            return self.read_num();
        }
        let token = if c == '\0' {
            Token::new(TokenType::Eof, None)
        } else if c == '=' {
            if self.peek_char() == '=' {
                self.read();
                Token::new(TokenType::Eq, None)
            } else {
                Token::new(TokenType::Assign, None)
            }
        } else if c == '!' {
            if self.peek_char() == '=' {
                self.read();
                Token::new(TokenType::NotEq, None)
            } else {
                Token::new(TokenType::Bang, None)
            }
        } else if c == '+' {
            Token::new(TokenType::Plus, None)
        } else if c == '-' {
            Token::new(TokenType::Minus, None)
        } else if c == '/' {
            Token::new(TokenType::Slash, None)
        } else if c == '*' {
            Token::new(TokenType::Star, None)
        } else if c == ',' {
            Token::new(TokenType::Comma, None)
        } else if c == ';' {
            Token::new(TokenType::Semicolon, None)
        } else if c == ':' {
            Token::new(TokenType::Colon, None)
        } else if c == '(' {
            Token::new(TokenType::LParen, None)
        } else if c == ')' {
            Token::new(TokenType::RParen, None)
        } else if c == '{' {
            Token::new(TokenType::LBrace, None)
        } else if c == '}' {
            Token::new(TokenType::RBrace, None)
        } else if c == '[' {
            Token::new(TokenType::LBracket, None)
        } else if c == ']' {
            Token::new(TokenType::RBracket, None)
        } else if c == '<' {
            Token::new(TokenType::Lt, None)
        } else if c == '>' {
            Token::new(TokenType::Gt, None)
        } else {
            Token::new(TokenType::Illegal, None)
        };
        self.read();
        token
    }

    /// Read an identifier or keyword starting at the current
    /// character.
    fn read_ident(&mut self) -> (t: Token)
        requires
            old(self).wf(),
            is_ident_start(char_at(old(self).input@, old(self).pos as int)),
        ensures
            final(self).wf(),
            final(self).input == old(self).input,
            t.wf(),
            t@ == keyword_token(
                old(self).input@.subrange(
                    old(self).pos as int,
                    scan_ident(old(self).input@, old(self).pos as nat) as int,
                ),
            ),
            final(self).pos == scan_ident(old(self).input@, old(self).pos as nat),
    {
        let ghost start = self.pos as int;
        let mut v: Vec<char> = Vec::new();
        proof {
            assert(v@ =~= self.input@.subrange(start, self.pos as int));
        }
        while is_ident_char(self.ch, false)
            invariant
                self.wf(),
                self.input == old(self).input,
                0 <= start <= self.pos as int,
                v@ == self.input@.subrange(start, self.pos as int),
                scan_ident(self.input@, self.pos as nat) == scan_ident(self.input@, start as nat),
            decreases self.input@.len() - self.pos,
        {
            assert(self.pos < self.input@.len());
            v.push(self.ch);
            self.read();
            proof {
                assert(v@ =~= self.input@.subrange(start, self.pos as int));
            }
        }
        let text = chars_to_string(&v);
        keyword_or_ident(text)
    }

    /// Read a number starting at the current character; a value that
    /// does not fit in a signed 64-bit integer is an `illegal` token.
    fn read_num(&mut self) -> (t: Token)
        requires
            old(self).wf(),
            is_digit_char(char_at(old(self).input@, old(self).pos as int)),
        ensures
            final(self).wf(),
            final(self).input == old(self).input,
            t.wf(),
            t@ == number_token(
                old(self).input@.subrange(
                    old(self).pos as int,
                    scan_digits(old(self).input@, old(self).pos as nat) as int,
                ),
            ),
            final(self).pos == scan_digits(old(self).input@, old(self).pos as nat),
    {
        let ghost start = self.pos as int;
        let mut v: Vec<char> = Vec::new();
        proof {
            assert(v@ =~= self.input@.subrange(start, self.pos as int));
        }
        while is_digit_exec(self.ch)
            invariant
                self.wf(),
                self.input == old(self).input,
                0 <= start <= self.pos as int,
                v@ == self.input@.subrange(start, self.pos as int),
                forall|j: int| 0 <= j < v@.len() ==> is_digit_char(#[trigger] v@[j]),
                scan_digits(self.input@, self.pos as nat) == scan_digits(self.input@, start as nat),
            decreases self.input@.len() - self.pos,
        {
            assert(self.pos < self.input@.len());
            v.push(self.ch);
            self.read();
            proof {
                assert(v@ =~= self.input@.subrange(start, self.pos as int));
            }
        }
        match digits_to_i64(&v) {
            Some(x) => Token::number(x),
            None => Token::new(TokenType::Illegal, None),
        }
    }

    /// Read a string literal starting at the current double quote; an
    /// unterminated string is an `illegal` token.
    fn read_string(&mut self) -> (t: Token)
        requires
            old(self).wf(),
            char_at(old(self).input@, old(self).pos as int) == '"',
        ensures
            final(self).wf(),
            final(self).input == old(self).input,
            t.wf(),
            ({
                let e = find_quote(old(self).input@, (old(self).pos + 1) as nat);
                if e < old(self).input@.len() {
                    t@ == TokenV {
                        ty: TokenType::String,
                        lit: LitV::Str(
                            old(self).input@.subrange(old(self).pos + 1, e as int),
                        ),
                    } && final(self).pos == e + 1
                } else {
                    t@ == tok_simple(TokenType::Illegal) && final(self).pos == old(self).input@.len()
                }
            }),
    {
        self.read();
        let ghost start = self.pos as int;
        let mut v: Vec<char> = Vec::new();
        proof {
            assert(v@ =~= self.input@.subrange(start, self.pos as int));
        }
        while self.pos < self.input.len() && self.ch != '"'
            invariant
                self.wf(),
                self.input == old(self).input,
                0 <= start <= self.pos as int,
                v@ == self.input@.subrange(start, self.pos as int),
                find_quote(self.input@, self.pos as nat) == find_quote(self.input@, start as nat),
            decreases self.input@.len() - self.pos,
        {
            v.push(self.ch);
            self.read();
            proof {
                assert(v@ =~= self.input@.subrange(start, self.pos as int));
            }
        }
        if self.pos >= self.input.len() {
            Token::new(TokenType::Illegal, None)
        } else {
            let text = chars_to_string(&v);
            self.read();
            Token::new(TokenType::String, Some(text))
        }
    }
}

/// Whether a character is whitespace.
fn is_ws_exec(c: char) -> (r: bool)
    ensures
        r == is_ws_char(c),
{
    c == ' ' || c == '\t' || c == '\r' || c == '\n'
}

/// Whether a character is a decimal digit.
fn is_digit_exec(c: char) -> (r: bool)
    ensures
        r == is_digit_char(c),
{
    '0' <= c && c <= '9'
}

/// Whether a character may start (`first`) or continue an identifier.
fn is_ident_char(c: char, first: bool) -> (r: bool)
    ensures
        r == if first {
            is_ident_start(c)
        } else {
            is_ident_cont(c)
        },
{
    if first {
        ('a' <= c && c <= 'z') || ('A' <= c && c <= 'Z') || c == '_'
    } else {
        ('a' <= c && c <= 'z') || ('A' <= c && c <= 'Z') || c == '_' || ('0' <= c && c <= '9')
    }
}

/// Whether a string spells a given name.
pub fn is_name(s: &String, kw: &str) -> (r: bool)
    ensures
        r == (s@ == kw@),
{
    s.eq(&kw.to_owned())
}

/// The token for identifier text: the keyword it spells, else an
/// identifier.
fn keyword_or_ident(s: String) -> (t: Token)
    ensures
        t.wf(),
        t@ == keyword_token(s@),
{
    if is_name(&s, "let") {
        Token::new(TokenType::Let, None)
    } else if is_name(&s, "fn") {
        Token::new(TokenType::Fn, None)
    } else if is_name(&s, "if") {
        Token::new(TokenType::If, None)
    } else if is_name(&s, "else") {
        Token::new(TokenType::Else, None)
    } else if is_name(&s, "return") {
        Token::new(TokenType::Return, None)
    } else if is_name(&s, "true") {
        Token::new(TokenType::True, None)
    } else if is_name(&s, "false") {
        Token::new(TokenType::False, None)
    } else {
        Token::new(TokenType::Ident, Some(s))
    }
}

} // verus!
