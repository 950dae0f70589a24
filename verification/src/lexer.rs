//! The scanner: owns the decoded input and a cursor, and produces one
//! classified token per call, exactly as `model::next_token_spec` says.
use vstd::prelude::*;
use vstd::string::StrSliceExecFns;
use crate::token::Token;
use crate::token::TokenKind;
use crate::token::lookup_identifier;
use crate::model::alphabetic;
use crate::model::char_alphabetic;
use crate::model::is_letter_char;
use crate::model::is_digit_char;
use crate::model::is_ws_char;
use crate::model::char_at;
use crate::model::skip_ws_from;
use crate::model::ident_end;
use crate::model::num_end;
use crate::model::str_body_end;
use crate::model::line_end;
use crate::model::lemma_skip_ws_from;
use crate::model::lemma_line_end;
use crate::model::skip_trivia;
use crate::model::next_token_spec;

verus! {

/// Relies on `char::is_alphabetic`: true exactly for the characters with
/// the Unicode `Alphabetic` property; within ASCII those are the letters
/// `a`-`z` and `A`-`Z`.
#[verifier::external_body]
fn char_is_alphabetic(c: char) -> (r: bool)
    ensures
        r == char_alphabetic(c),
        (c as u32) >= 128 ==> r == alphabetic(c),
{
    c.is_alphabetic()
}

/// Relies on `String::push`: appends the given character to the end of
/// the string.
#[verifier::external_body]
fn push_char(s: &mut String, c: char)
    ensures
        final(s)@ == old(s)@.push(c),
{
    s.push(c);
}

/// The scanner's cursor state: the input as a sequence of Unicode scalar
/// values, and the position of the character currently under the cursor.
pub struct Lexer {
    input: Vec<char>,
    pos: usize,
}

impl Lexer {
    /// The complete input text being scanned.
    pub closed spec fn text(&self) -> Seq<char> {
        self.input@
    }

    /// The position of the character under the cursor.
    pub closed spec fn cursor(&self) -> int {
        self.pos as int
    }

    /// The cursor never runs past the end of the input.
    pub open spec fn wf(&self) -> bool {
        0 <= self.cursor() <= self.text().len()
    }

    /// Constructs a scanner over the complete input text, with the cursor
    /// on its first character.
    pub fn new(input: &str) -> (lexer: Lexer)
        ensures
            lexer.wf(),
            lexer.text() == input@,
            lexer.cursor() == 0,
    {
        let n = input.unicode_len();
        let mut chars: Vec<char> = Vec::new();
        let mut i: usize = 0;
        while i < n
            invariant
                i <= n,
                n == input@.len(),
                chars@ == input@.subrange(0, i as int),
            decreases n - i,
        {
            let c = input.get_char(i);
            chars.push(c);
            i = i + 1;
            proof {
                assert(chars@ =~= input@.subrange(0, i as int));
            }
        }
        proof {
            assert(input@.subrange(0, n as int) =~= input@);
        }
        Lexer { input: chars, pos: 0 }
    }

    /// The character under the cursor; the null sentinel past the end.
    fn ch(&self) -> (c: char)
        requires
            self.wf(),
        ensures
            c == char_at(self.text(), self.cursor()),
    {
        if self.pos < self.input.len() {
            self.input[self.pos]
        } else {
            '\0'
        }
    }

    /// One-character lookahead: the character just after the cursor,
    /// without consuming anything.
    fn peek_char(&self) -> (c: char)
        requires
            self.wf(),
        ensures
            c == char_at(self.text(), self.cursor() + 1),
    {
        if self.pos < self.input.len() && self.pos + 1 < self.input.len() {
            self.input[self.pos + 1]
        } else {
            '\0'
        }
    }

    /// Consumes one character: advances the cursor, never past the end.
    fn read_char(&mut self)
        requires
            old(self).wf(),
        ensures
            final(self).wf(),
            final(self).text() == old(self).text(),
            final(self).cursor() == if old(self).cursor() < old(self).text().len() {
                old(self).cursor() + 1
            } else {
                old(self).cursor()
            },
    {
        if self.pos < self.input.len() {
            self.pos = self.pos + 1;
        }
    }

    /// Whitespace the scanner skips between tokens.
    fn is_ws(c: char) -> (r: bool)
        ensures
            r == is_ws_char(c),
    {
        c == ' ' || c == '\t' || c == '\n' || c == '\r'
    }

    /// A character that may start or continue an identifier.
    fn is_letter(ch: char) -> (r: bool)
        ensures
            r == is_letter_char(ch),
    {
        char_is_alphabetic(ch) || ch == '_'
    }

    /// A decimal digit.
    fn is_num(ch: char) -> (r: bool)
        ensures
            r == is_digit_char(ch),
    {
        '0' <= ch && ch <= '9'
    }

    /// Advances the cursor past the maximal run of whitespace under it.
    fn skip_whitespace(&mut self)
        requires
            old(self).wf(),
        ensures
            final(self).wf(),
            final(self).text() == old(self).text(),
            final(self).cursor() == skip_ws_from(old(self).text(), old(self).cursor()),
            !is_ws_char(char_at(final(self).text(), final(self).cursor())),
    {
        loop
            invariant
                self.wf(),
                self.text() == old(self).text(),
                skip_ws_from(self.text(), self.cursor()) == skip_ws_from(
                    old(self).text(),
                    old(self).cursor(),
                ),
            ensures
                self.wf(),
                self.text() == old(self).text(),
                self.cursor() == skip_ws_from(old(self).text(), old(self).cursor()),
                !is_ws_char(char_at(self.text(), self.cursor())),
            decreases self.text().len() - self.cursor(),
        {
            let c = self.ch();
            if !Self::is_ws(c) {
                proof {
                    assert(skip_ws_from(self.text(), self.cursor()) == self.cursor());
                }
                break;
            }
            self.read_char();
        }
    }

    /// Consumes a line comment: everything up to, but not including, the
    /// next newline or the end of the input.
    fn skip_comment(&mut self)
        requires
            old(self).wf(),
        ensures
            final(self).wf(),
            final(self).text() == old(self).text(),
            final(self).cursor() == line_end(old(self).text(), old(self).cursor()),
    {
        loop
            invariant
                self.wf(),
                self.text() == old(self).text(),
                line_end(self.text(), self.cursor()) == line_end(
                    old(self).text(),
                    old(self).cursor(),
                ),
            ensures
                self.wf(),
                self.text() == old(self).text(),
                self.cursor() == line_end(old(self).text(), old(self).cursor()),
            decreases self.text().len() - self.cursor(),
        {
            let c = self.ch();
            if c == '\n' || c == '\0' {
                proof {
                    assert(line_end(self.text(), self.cursor()) == self.cursor());
                }
                break;
            }
            self.read_char();
        }
    }

    /// Consumes the maximal run of decimal digits under the cursor and
    /// returns it as the integer literal's text.
    fn read_num(&mut self) -> (num: String)
        requires
            old(self).wf(),
        ensures
            final(self).wf(),
            final(self).text() == old(self).text(),
            final(self).cursor() == num_end(old(self).text(), old(self).cursor()),
            num@ == old(self).text().subrange(
                old(self).cursor(),
                num_end(old(self).text(), old(self).cursor()),
            ),
    {
        let mut num = String::new();
        loop
            invariant
                self.wf(),
                self.text() == old(self).text(),
                old(self).cursor() <= self.cursor(),
                num_end(self.text(), self.cursor()) == num_end(
                    old(self).text(),
                    old(self).cursor(),
                ),
                num@ == self.text().subrange(old(self).cursor(), self.cursor()),
            ensures
                self.wf(),
                self.text() == old(self).text(),
                self.cursor() == num_end(old(self).text(), old(self).cursor()),
                num@ == self.text().subrange(old(self).cursor(), self.cursor()),
            decreases self.text().len() - self.cursor(),
        {
            let c = self.ch();
            if !Self::is_num(c) {
                proof {
                    assert(num_end(self.text(), self.cursor()) == self.cursor());
                }
                break;
            }
            push_char(&mut num, c);
            self.read_char();
            proof {
                assert(num@ =~= self.text().subrange(old(self).cursor(), self.cursor()));
            }
        }
        num
    }

    /// Consumes the maximal run of letters under the cursor and returns
    /// it as the identifier's spelling.
    fn read_identifier(&mut self) -> (identifier: String)
        requires
            old(self).wf(),
        ensures
            final(self).wf(),
            final(self).text() == old(self).text(),
            final(self).cursor() == ident_end(old(self).text(), old(self).cursor()),
            identifier@ == old(self).text().subrange(
                old(self).cursor(),
                ident_end(old(self).text(), old(self).cursor()),
            ),
    {
        let mut identifier = String::new();
        loop
            invariant
                self.wf(),
                self.text() == old(self).text(),
                old(self).cursor() <= self.cursor(),
                ident_end(self.text(), self.cursor()) == ident_end(
                    old(self).text(),
                    old(self).cursor(),
                ),
                identifier@ == self.text().subrange(old(self).cursor(), self.cursor()),
            ensures
                self.wf(),
                self.text() == old(self).text(),
                self.cursor() == ident_end(old(self).text(), old(self).cursor()),
                identifier@ == self.text().subrange(old(self).cursor(), self.cursor()),
            decreases self.text().len() - self.cursor(),
        {
            let c = self.ch();
            if !Self::is_letter(c) {
                proof {
                    assert(ident_end(self.text(), self.cursor()) == self.cursor());
                }
                break;
            }
            push_char(&mut identifier, c);
            self.read_char();
            proof {
                assert(identifier@ =~= self.text().subrange(old(self).cursor(), self.cursor()));
            }
        }
        identifier
    }

    /// Consumes a string literal's body: everything up to, but not
    /// including, the closing quote or the end of the input.
    fn read_str(&mut self) -> (body: String)
        requires
            old(self).wf(),
        ensures
            final(self).wf(),
            final(self).text() == old(self).text(),
            final(self).cursor() == str_body_end(old(self).text(), old(self).cursor()),
            body@ == old(self).text().subrange(
                old(self).cursor(),
                str_body_end(old(self).text(), old(self).cursor()),
            ),
    {
        let mut body = String::new();
        loop
            invariant
                self.wf(),
                self.text() == old(self).text(),
                old(self).cursor() <= self.cursor(),
                str_body_end(self.text(), self.cursor()) == str_body_end(
                    old(self).text(),
                    old(self).cursor(),
                ),
                body@ == self.text().subrange(old(self).cursor(), self.cursor()),
            ensures
                self.wf(),
                self.text() == old(self).text(),
                self.cursor() == str_body_end(old(self).text(), old(self).cursor()),
                body@ == self.text().subrange(old(self).cursor(), self.cursor()),
            decreases self.text().len() - self.cursor(),
        {
            let c = self.ch();
            if c == '"' || c == '\0' {
                proof {
                    assert(str_body_end(self.text(), self.cursor()) == self.cursor());
                }
                break;
            }
            push_char(&mut body, c);
            self.read_char();
            proof {
                assert(body@ =~= self.text().subrange(old(self).cursor(), self.cursor()));
            }
        }
        body
    }

    /// A one-character token whose text is that character.
    fn new_token(kind: TokenKind, ch: char) -> (token: Token)
        ensures
            token.kind == kind,
            token.literal@ == seq![ch],
    {
        let mut literal = String::new();
        push_char(&mut literal, ch);
        proof {
            assert(literal@ =~= seq![ch]);
        }
        Token { kind, literal }
    }

    /// Produces the next token: skips whitespace and line comments, then
    /// classifies what is under the cursor. Total: every call returns a
    /// token, and once the end of the input is reached every further call
    /// returns the end-of-input token again.
    pub fn next(&mut self) -> (token: Token)
        requires
            old(self).wf(),
        ensures
            final(self).wf(),
            final(self).text() == old(self).text(),
            ({
                let step = next_token_spec(old(self).text(), old(self).cursor());
                token.kind == step.kind && token.literal@ == step.text && final(self).cursor()
                    == step.end
            }),
    {
        loop
            invariant
                self.wf(),
                self.text() == old(self).text(),
                skip_trivia(self.text(), self.cursor()) == skip_trivia(
                    old(self).text(),
                    old(self).cursor(),
                ),
            ensures
                self.wf(),
                self.text() == old(self).text(),
                self.cursor() == skip_trivia(old(self).text(), old(self).cursor()),
            decreases self.text().len() - self.cursor(),
        {
            proof {
                lemma_skip_ws_from(self.text(), self.cursor());
            }
            self.skip_whitespace();
            let c = self.ch();
            if c == '/' && self.peek_char() == '/' {
                proof {
                    let s = self.text();
                    let p = self.cursor();
                    lemma_line_end(s, p + 1);
                    assert(line_end(s, p) == line_end(s, p + 1));
                    assert(line_end(s, p + 1) == line_end(s, p + 2));
                    assert(skip_ws_from(s, p) == p);
                    assert(skip_trivia(s, p) == skip_trivia(s, line_end(s, p + 2)));
                }
                self.skip_comment();
            } else {
                proof {
                    let s = self.text();
                    let p = self.cursor();
                    assert(skip_ws_from(s, p) == p);
                    assert(skip_trivia(s, p) == p);
                }
                break;
            }
        }
        let ghost s = self.text();
        let ghost p = self.cursor();
        let c = self.ch();
        if c == '\0' {
            Token { kind: TokenKind::Eof, literal: String::new() }
        } else if c == ';' {
            let token = Self::new_token(TokenKind::Semicolon, c);
            self.read_char();
            token
        } else if c == ',' {
            let token = Self::new_token(TokenKind::Comma, c);
            self.read_char();
            token
        } else if c == '(' {
            let token = Self::new_token(TokenKind::LeftParen, c);
            self.read_char();
            token
        } else if c == ')' {
            let token = Self::new_token(TokenKind::RightParen, c);
            self.read_char();
            token
        } else if c == '{' {
            let token = Self::new_token(TokenKind::LeftBrace, c);
            self.read_char();
            token
        } else if c == '}' {
            let token = Self::new_token(TokenKind::RightBrace, c);
            self.read_char();
            token
        } else if c == '+' {
            let token = Self::new_token(TokenKind::Plus, c);
            self.read_char();
            token
        } else if c == '-' {
            let token = Self::new_token(TokenKind::Minus, c);
            self.read_char();
            token
        } else if c == '*' {
            let token = Self::new_token(TokenKind::Asterisk, c);
            self.read_char();
            token
        } else if c == '<' {
            let token = Self::new_token(TokenKind::LessThan, c);
            self.read_char();
            token
        } else if c == '>' {
            let token = Self::new_token(TokenKind::GreaterThan, c);
            self.read_char();
            token
        } else if c == '=' {
            if self.peek_char() == '=' {
                self.read_char();
                self.read_char();
                proof {
                    reveal_strlit("==");
                    assert(("==")@ =~= seq!['=', '=']);
                }
                Token { kind: TokenKind::Eq, literal: String::from_str("==") }
            } else {
                let token = Self::new_token(TokenKind::Assign, c);
                self.read_char();
                token
            }
        } else if c == '!' {
            if self.peek_char() == '=' {
                self.read_char();
                self.read_char();
                proof {
                    reveal_strlit("!=");
                    assert(("!=")@ =~= seq!['!', '=']);
                }
                Token { kind: TokenKind::NotEq, literal: String::from_str("!=") }
            } else {
                let token = Self::new_token(TokenKind::Bang, c);
                self.read_char();
                token
            }
        } else if c == '/' {
            let token = Self::new_token(TokenKind::Slash, c);
            self.read_char();
            token
        } else if c == '"' {
            self.read_char();
            let literal = self.read_str();
            let token = Token { kind: TokenKind::Str, literal };
            if self.ch() == '"' {
                self.read_char();
            }
            token
        } else if Self::is_letter(c) {
            let literal = self.read_identifier();
            let kind = lookup_identifier(&literal);
            Token { kind, literal }
        } else if Self::is_num(c) {
            let literal = self.read_num();
            Token { kind: TokenKind::Int, literal }
        } else {
            let token = Self::new_token(TokenKind::Illegal, c);
            self.read_char();
            token
        }
    }
}

} // verus!
