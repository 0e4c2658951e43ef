//! The lexer: a scanning loop that turns source text into tokens. The
//! parser relies on one guarantee here: every token but the final
//! end-of-input token consumes at least one character, so pulling tokens
//! terminates.

use crate::token::{lookup_ident, new_token, Token, TokenType};
use vstd::prelude::*;

verus! {

/// Whether a character starts or continues an identifier.
pub open spec fn is_letter(c: char) -> bool {
    ('a' <= c && c <= 'z') || ('A' <= c && c <= 'Z') || c == '_'
}

/// Whether a character is a decimal digit.
pub open spec fn is_digit(c: char) -> bool {
    '0' <= c && c <= '9'
}

/// Whether a character is blank space between tokens.
pub open spec fn is_space(c: char) -> bool {
    c == ' ' || c == '\t' || c == '\n' || c == '\r'
}

fn letter(c: char) -> (r: bool)
    ensures
        r == is_letter(c),
{
    ('a' <= c && c <= 'z') || ('A' <= c && c <= 'Z') || c == '_'
}

fn digit(c: char) -> (r: bool)
    ensures
        r == is_digit(c),
{
    '0' <= c && c <= '9'
}

fn space(c: char) -> (r: bool)
    ensures
        r == is_space(c),
{
    c == ' ' || c == '\t' || c == '\n' || c == '\r'
}

/// The lexer: the whole source and the position of the next unread
/// character.
pub struct Lexer {
    pub input: String,
    pub pos: usize,
}

impl Lexer {
    /// The position never runs past the end of the input.
    pub open spec fn wf(&self) -> bool {
        self.pos <= self.input@.len()
    }

    /// A lexer at the start of `input`.
    pub fn new(input: &str) -> (l: Lexer)
        ensures
            l.input@ == input@,
            l.pos == 0,
            l.wf(),
    {
        Lexer { input: input.to_owned(), pos: 0 }
    }

    /// The next character, where one remains.
    fn peek_char(&self) -> (c: char)
        requires
            self.wf(),
            self.pos < self.input@.len(),
        ensures
            c == self.input@[self.pos as int],
    {
        self.input.as_str().get_char(self.pos)
    }

    /// Scan the next token: exactly what the definitional scanner says.
    /// Every token but `EOF` consumes at least one character; `EOF` comes
    /// exactly when the input is spent.
    pub fn next_token(&mut self) -> (t: Token)
        requires
            old(self).wf(),
        ensures
            final(self).wf(),
            final(self).input == old(self).input,
            old(self).pos <= final(self).pos,
            t@.kind != TokenType::EOF ==> final(self).pos > old(self).pos,
            t@.kind == TokenType::EOF ==> final(self).pos == final(self).input@.len(),
            ({
                let (tv, p2) = scan_s(old(self).input@, old(self).pos as int);
                &&& t@ == tv
                &&& final(self).pos as int == p2
            }),
    {
        let ghost s0 = self.input@;
        let ghost pos0 = self.pos as int;
        let n = self.input.as_str().unicode_len();
        while self.pos < n && space(self.peek_char())
            invariant
                self.wf(),
                n == self.input@.len(),
                self.input == old(self).input,
                old(self).pos <= self.pos,
                s0 == self.input@,
                pos0 == old(self).pos as int,
                skip_space_s(s0, pos0) == skip_space_s(s0, self.pos as int),
            decreases n - self.pos,
        {
            proof {
                assert(skip_space_s(s0, self.pos as int) == skip_space_s(s0, self.pos + 1));
            }
            self.pos = self.pos + 1;
        }
        proof {
            assert(skip_space_s(s0, self.pos as int) == self.pos as int);
        }
        if self.pos >= n {
            let t = new_token(TokenType::EOF, String::new());
            proof {
                assert(t@ =~= scan_s(s0, pos0).0);
            }
            return t;
        }
        let c = self.peek_char();
        if letter(c) {
            let start = self.pos;
            while self.pos < n && letter(self.peek_char())
                invariant
                    self.wf(),
                    n == self.input@.len(),
                    self.input == old(self).input,
                    start <= self.pos,
                    s0 == self.input@,
                    scan_letters_s(s0, start as int) == scan_letters_s(s0, self.pos as int),
                decreases n - self.pos,
            {
                proof {
                    assert(scan_letters_s(s0, self.pos as int) == scan_letters_s(
                        s0,
                        self.pos + 1,
                    ));
                }
                self.pos = self.pos + 1;
            }
            proof {
                assert(scan_letters_s(s0, start as int) == self.pos as int);
            }
            let word = self.input.as_str().substring_char(start, self.pos).to_owned();
            let kind = lookup_ident(word.as_str());
            let t = new_token(kind, word);
            proof {
                assert(t@ =~= scan_s(s0, pos0).0);
            }
            t
        } else if digit(c) {
            let start = self.pos;
            while self.pos < n && digit(self.peek_char())
                invariant
                    self.wf(),
                    n == self.input@.len(),
                    self.input == old(self).input,
                    start <= self.pos,
                    s0 == self.input@,
                    scan_digits_s(s0, start as int) == scan_digits_s(s0, self.pos as int),
                decreases n - self.pos,
            {
                proof {
                    assert(scan_digits_s(s0, self.pos as int) == scan_digits_s(s0, self.pos + 1));
                }
                self.pos = self.pos + 1;
            }
            proof {
                assert(scan_digits_s(s0, start as int) == self.pos as int);
            }
            let word = self.input.as_str().substring_char(start, self.pos).to_owned();
            let t = new_token(TokenType::INT, word);
            proof {
                assert(t@ =~= scan_s(s0, pos0).0);
            }
            t
        } else if c == '"' {
            self.pos = self.pos + 1;
            let start = self.pos;
            while self.pos < n && self.peek_char() != '"'
                invariant
                    self.wf(),
                    n == self.input@.len(),
                    self.input == old(self).input,
                    start <= self.pos,
                    s0 == self.input@,
                    scan_string_s(s0, start as int) == scan_string_s(s0, self.pos as int),
                decreases n - self.pos,
            {
                proof {
                    assert(scan_string_s(s0, self.pos as int) == scan_string_s(s0, self.pos + 1));
                }
                self.pos = self.pos + 1;
            }
            proof {
                assert(scan_string_s(s0, start as int) == self.pos as int);
            }
            let word = self.input.as_str().substring_char(start, self.pos).to_owned();
            if self.pos < n {
                self.pos = self.pos + 1;
            }
            let t = new_token(TokenType::STRING, word);
            proof {
                assert(t@ =~= scan_s(s0, pos0).0);
            }
            t
        } else if c == '=' {
            self.pos = self.pos + 1;
            if self.pos < n && self.peek_char() == '=' {
                self.pos = self.pos + 1;
                let t = new_token(TokenType::EQ, String::from_str("=="));
                proof {
                    assert(t@ =~= scan_s(s0, pos0).0);
                }
                t
            } else {
                let t = new_token(TokenType::ASSIGN, String::from_str("="));
                proof {
                    assert(t@ =~= scan_s(s0, pos0).0);
                }
                t
            }
        } else if c == '!' {
            self.pos = self.pos + 1;
            if self.pos < n && self.peek_char() == '=' {
                self.pos = self.pos + 1;
                let t = new_token(TokenType::NOTEQ, String::from_str("!="));
                proof {
                    assert(t@ =~= scan_s(s0, pos0).0);
                }
                t
            } else {
                let t = new_token(TokenType::BANG, String::from_str("!"));
                proof {
                    assert(t@ =~= scan_s(s0, pos0).0);
                }
                t
            }
        } else {
            self.pos = self.pos + 1;
            let kind = if c == '+' {
                TokenType::PLUS
            } else if c == '-' {
                TokenType::MINUS
            } else if c == '*' {
                TokenType::ASTERISK
            } else if c == '/' {
                TokenType::SLASH
            } else if c == '<' {
                TokenType::LT
            } else if c == '>' {
                TokenType::GT
            } else if c == ',' {
                TokenType::COMMA
            } else if c == ';' {
                TokenType::SEMICOLON
            } else if c == '(' {
                TokenType::LPAREN
            } else if c == ')' {
                TokenType::RPAREN
            } else if c == '{' {
                TokenType::LBRACE
            } else if c == '}' {
                TokenType::RBRACE
            } else {
                TokenType::ILLEGAL
            };
            let lit = self.input.as_str().substring_char(self.pos - 1, self.pos).to_owned();
            let t = new_token(kind, lit);
            proof {
                assert(kind == single_kind(c));
                assert(t@ =~= scan_s(s0, pos0).0);
            }
            t
        }
    }
}

/// The index after running past blank space from `i`.
pub open spec fn skip_space_s(s: Seq<char>, i: int) -> int
    decreases s.len() - i,
{
    if 0 <= i < s.len() && is_space(s[i]) {
        skip_space_s(s, i + 1)
    } else {
        i
    }
}

/// The index after running past identifier characters from `i`.
pub open spec fn scan_letters_s(s: Seq<char>, i: int) -> int
    decreases s.len() - i,
{
    if 0 <= i < s.len() && is_letter(s[i]) {
        scan_letters_s(s, i + 1)
    } else {
        i
    }
}

/// The index after running past digits from `i`.
pub open spec fn scan_digits_s(s: Seq<char>, i: int) -> int
    decreases s.len() - i,
{
    if 0 <= i < s.len() && is_digit(s[i]) {
        scan_digits_s(s, i + 1)
    } else {
        i
    }
}

/// The index of the closing quote of a string literal, or the end of the
/// input if it never closes.
pub open spec fn scan_string_s(s: Seq<char>, i: int) -> int
    decreases s.len() - i,
{
    if 0 <= i < s.len() && s[i] != '"' {
        scan_string_s(s, i + 1)
    } else {
        i
    }
}

/// The kind of a one-character operator or delimiter.
pub open spec fn single_kind(c: char) -> TokenType {
    if c == '+' {
        TokenType::PLUS
    } else if c == '-' {
        TokenType::MINUS
    } else if c == '*' {
        TokenType::ASTERISK
    } else if c == '/' {
        TokenType::SLASH
    } else if c == '<' {
        TokenType::LT
    } else if c == '>' {
        TokenType::GT
    } else if c == ',' {
        TokenType::COMMA
    } else if c == ';' {
        TokenType::SEMICOLON
    } else if c == '(' {
        TokenType::LPAREN
    } else if c == ')' {
        TokenType::RPAREN
    } else if c == '{' {
        TokenType::LBRACE
    } else if c == '}' {
        TokenType::RBRACE
    } else {
        TokenType::ILLEGAL
    }
}

/// The definitional scanner: the next token of `s` from position `pos`,
/// and the position after it.
pub open spec fn scan_s(s: Seq<char>, pos: int) -> (crate::token::TokenV, int) {
    let i = skip_space_s(s, pos);
    if !(0 <= i < s.len()) {
        (crate::token::TokenV { kind: TokenType::EOF, lit: Seq::empty() }, i)
    } else {
        let c = s[i];
        if is_letter(c) {
            let j = scan_letters_s(s, i);
            let w = s.subrange(i, j);
            (crate::token::TokenV { kind: crate::token::spec_lookup_ident(w), lit: w }, j)
        } else if is_digit(c) {
            let j = scan_digits_s(s, i);
            (crate::token::TokenV { kind: TokenType::INT, lit: s.subrange(i, j) }, j)
        } else if c == '"' {
            let j = scan_string_s(s, i + 1);
            let w = s.subrange(i + 1, j);
            (
                crate::token::TokenV { kind: TokenType::STRING, lit: w },
                if j < s.len() {
                    j + 1
                } else {
                    j
                },
            )
        } else if c == '=' {
            if i + 1 < s.len() && s[i + 1] == '=' {
                (crate::token::TokenV { kind: TokenType::EQ, lit: "=="@ }, i + 2)
            } else {
                (crate::token::TokenV { kind: TokenType::ASSIGN, lit: "="@ }, i + 1)
            }
        } else if c == '!' {
            if i + 1 < s.len() && s[i + 1] == '=' {
                (crate::token::TokenV { kind: TokenType::NOTEQ, lit: "!="@ }, i + 2)
            } else {
                (crate::token::TokenV { kind: TokenType::BANG, lit: "!"@ }, i + 1)
            }
        } else {
            (
                crate::token::TokenV { kind: single_kind(c), lit: s.subrange(i, i + 1) },
                i + 1,
            )
        }
    }
}

/// The definitional tokenizer: every token of `s` from `pos` on, the
/// final end-of-input token included.
pub open spec fn tokenize_s(s: Seq<char>, pos: int) -> Seq<crate::token::TokenV>
    decreases s.len() - pos,
{
    let (t, p2) = scan_s(s, pos);
    if t.kind == TokenType::EOF {
        seq![t]
    } else if !(0 <= pos < s.len()) {
        seq![t]
    } else {
        let p3 = if pos < p2 && p2 <= s.len() {
            p2
        } else {
            pos + 1
        };
        seq![t] + tokenize_s(s, p3)
    }
}

} // verus!
