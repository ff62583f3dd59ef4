use vstd::prelude::*;

use crate::error::{Error, ErrorKind, Position};
use crate::token::{token_views, LitV, Literal, Token, TokenType, TokenV};

verus! {

// The scanner turns source text into tokens. The text is held as its
// codepoints; every helper below speaks of indices into that sequence.

pub open spec fn is_digit_ch(c: char) -> bool {
    ('0' as u32) <= (c as u32) && (c as u32) <= ('9' as u32)
}

/// A letter or underscore begins an identifier.
pub open spec fn is_alpha_ch(c: char) -> bool {
    ||| (('a' as u32) <= (c as u32) && (c as u32) <= ('z' as u32))
    ||| (('A' as u32) <= (c as u32) && (c as u32) <= ('Z' as u32))
    ||| c == '_'
}

pub open spec fn is_alnum_ch(c: char) -> bool {
    is_alpha_ch(c) || is_digit_ch(c)
}

/// ASCII whitespace other than newline, which is counted separately.
pub open spec fn is_blank_ch(c: char) -> bool {
    c == ' ' || c == '\t' || c == '\r'
}

/// Line numbers saturate at the machine limit rather than wrap.
pub open spec fn line_bump(l: nat) -> nat {
    if l < usize::MAX as nat {
        l + 1
    } else {
        l
    }
}

pub open spec fn line_add(l: nat, k: nat) -> nat {
    if l + k <= usize::MAX as nat {
        l + k
    } else {
        usize::MAX as nat
    }
}

/// The index of the newline that ends a line comment, or the end of input.
pub open spec fn comment_end(chars: Seq<char>, i: int) -> int
    decreases chars.len() - i,
{
    if i < 0 || i >= chars.len() {
        chars.len() as int
    } else if chars[i] == '\n' {
        i
    } else {
        comment_end(chars, i + 1)
    }
}

/// The index of the next double quote at or after `i`, if any.
pub open spec fn close_quote(chars: Seq<char>, i: int) -> Option<int>
    decreases chars.len() - i,
{
    if i < 0 || i >= chars.len() {
        None
    } else if chars[i] == '"' {
        Some(i)
    } else {
        close_quote(chars, i + 1)
    }
}

/// How many newlines `chars[i..j)` holds.
pub open spec fn newlines_in(chars: Seq<char>, i: int, j: int) -> nat
    decreases j - i,
{
    if i < 0 || i >= j || j > chars.len() {
        0
    } else {
        (if chars[i] == '\n' {
            1nat
        } else {
            0nat
        }) + newlines_in(chars, i + 1, j)
    }
}

/// The first index at or after `i` that does not hold a digit.
pub open spec fn digits_end(chars: Seq<char>, i: int) -> int
    decreases chars.len() - i,
{
    if i < 0 || i >= chars.len() {
        if i < 0 {
            0
        } else {
            chars.len() as int
        }
    } else if !is_digit_ch(chars[i]) {
        i
    } else {
        digits_end(chars, i + 1)
    }
}

/// The first index at or after `i` that does not hold an identifier
/// character.
pub open spec fn ident_end(chars: Seq<char>, i: int) -> int
    decreases chars.len() - i,
{
    if i < 0 || i >= chars.len() {
        if i < 0 {
            0
        } else {
            chars.len() as int
        }
    } else if !is_alnum_ch(chars[i]) {
        i
    } else {
        ident_end(chars, i + 1)
    }
}

/// The reserved words; any other identifier lexeme names a variable.
pub open spec fn keyword_kind(s: Seq<char>) -> TokenType {
    if s == "and"@ {
        TokenType::And
    } else if s == "class"@ {
        TokenType::Class
    } else if s == "else"@ {
        TokenType::Else
    } else if s == "false"@ {
        TokenType::False
    } else if s == "fun"@ {
        TokenType::Fun
    } else if s == "for"@ {
        TokenType::For
    } else if s == "if"@ {
        TokenType::If
    } else if s == "nil"@ {
        TokenType::Nil
    } else if s == "or"@ {
        TokenType::Or
    } else if s == "print"@ {
        TokenType::Print
    } else if s == "return"@ {
        TokenType::Return
    } else if s == "super"@ {
        TokenType::Super
    } else if s == "this"@ {
        TokenType::This
    } else if s == "true"@ {
        TokenType::True
    } else if s == "var"@ {
        TokenType::Var
    } else if s == "while"@ {
        TokenType::While
    } else {
        TokenType::Identifier
    }
}

/// What one step of the scanner does at index `i`: skip trivia, produce a
/// token, or stop with a lexical error. Each non-error case carries the
/// index and line to continue from.
pub enum StepV {
    Skip(int, nat),
    Tok(TokenV, int, nat),
    Stop(Error),
}

/// One token with no literal payload.
pub open spec fn plain_tok(kind: TokenType, chars: Seq<char>, i: int, j: int, line: nat) -> StepV {
    StepV::Tok(
        TokenV { kind, lexeme: chars.subrange(i, j), literal: LitV::Nil, line },
        j,
        line,
    )
}

/// One scanning step at index `i` of the text (which must be in range).
pub open spec fn scan_step(chars: Seq<char>, i: int, line: nat) -> StepV {
    let c = chars[i];
    if c == '(' {
        plain_tok(TokenType::LeftParen, chars, i, i + 1, line)
    } else if c == ')' {
        plain_tok(TokenType::RightParen, chars, i, i + 1, line)
    } else if c == '{' {
        plain_tok(TokenType::LeftBrace, chars, i, i + 1, line)
    } else if c == '}' {
        plain_tok(TokenType::RightBrace, chars, i, i + 1, line)
    } else if c == ',' {
        plain_tok(TokenType::Comma, chars, i, i + 1, line)
    } else if c == '.' {
        plain_tok(TokenType::Dot, chars, i, i + 1, line)
    } else if c == '-' {
        plain_tok(TokenType::Minus, chars, i, i + 1, line)
    } else if c == '+' {
        plain_tok(TokenType::Plus, chars, i, i + 1, line)
    } else if c == ';' {
        plain_tok(TokenType::Semicolon, chars, i, i + 1, line)
    } else if c == '*' {
        plain_tok(TokenType::Star, chars, i, i + 1, line)
    } else if c == '!' {
        if i + 1 < chars.len() && chars[i + 1] == '=' {
            plain_tok(TokenType::BangEqual, chars, i, i + 2, line)
        } else {
            plain_tok(TokenType::Bang, chars, i, i + 1, line)
        }
    } else if c == '=' {
        if i + 1 < chars.len() && chars[i + 1] == '=' {
            plain_tok(TokenType::EqualEqual, chars, i, i + 2, line)
        } else {
            plain_tok(TokenType::Equal, chars, i, i + 1, line)
        }
    } else if c == '<' {
        if i + 1 < chars.len() && chars[i + 1] == '=' {
            plain_tok(TokenType::LessEqual, chars, i, i + 2, line)
        } else {
            plain_tok(TokenType::Less, chars, i, i + 1, line)
        }
    } else if c == '>' {
        if i + 1 < chars.len() && chars[i + 1] == '=' {
            plain_tok(TokenType::GreaterEqual, chars, i, i + 2, line)
        } else {
            plain_tok(TokenType::Greater, chars, i, i + 1, line)
        }
    } else if c == '/' {
        if i + 1 < chars.len() && chars[i + 1] == '/' {
            StepV::Skip(comment_end(chars, i + 2), line)
        } else {
            plain_tok(TokenType::Slash, chars, i, i + 1, line)
        }
    } else if c == '\n' {
        StepV::Skip(i + 1, line_bump(line))
    } else if is_blank_ch(c) {
        StepV::Skip(i + 1, line)
    } else if c == '"' {
        match close_quote(chars, i + 1) {
            None => StepV::Stop(
                Error {
                    kind: ErrorKind::UnterminatedString(
                        Position { line: line as usize, char: i as usize },
                    ),
                },
            ),
            Some(q) => {
                let l2 = line_add(line, newlines_in(chars, i + 1, q));
                StepV::Tok(
                    TokenV {
                        kind: TokenType::String,
                        lexeme: chars.subrange(i, q + 1),
                        literal: LitV::Str(chars.subrange(i + 1, q)),
                        line: l2,
                    },
                    q + 1,
                    l2,
                )
            },
        }
    } else if is_digit_ch(c) {
        let e1 = digits_end(chars, i + 1);
        let e2 = if e1 + 1 < chars.len() && chars[e1] == '.' && is_digit_ch(chars[e1 + 1]) {
            digits_end(chars, e1 + 1)
        } else {
            e1
        };
        StepV::Tok(
            TokenV {
                kind: TokenType::Number,
                lexeme: chars.subrange(i, e2),
                literal: LitV::Num(chars.subrange(i, e2)),
                line,
            },
            e2,
            line,
        )
    } else if is_alpha_ch(c) {
        let e = ident_end(chars, i + 1);
        let lex = chars.subrange(i, e);
        StepV::Tok(
            TokenV { kind: keyword_kind(lex), lexeme: lex, literal: LitV::Nil, line },
            e,
            line,
        )
    } else {
        StepV::Stop(
            Error {
                kind: ErrorKind::UnexpectedCharacter(
                    Position { line: line as usize, char: i as usize },
                ),
            },
        )
    }
}

/// The whole scan from index `i`: the tokens to the end of input followed by
/// an end-of-input token, or the first lexical error. Every step moves
/// forward; the clamp to `i + 1` makes that manifest so the recursion
/// visibly terminates.
pub open spec fn scan_from(chars: Seq<char>, i: int, line: nat) -> Result<Seq<TokenV>, Error>
    decreases chars.len() - i,
{
    if i < 0 || i >= chars.len() {
        Ok(
            seq![
                TokenV {
                    kind: TokenType::Eof,
                    lexeme: Seq::<char>::empty(),
                    literal: LitV::Nil,
                    line,
                },
            ],
        )
    } else {
        match scan_step(chars, i, line) {
            StepV::Skip(j, l2) => {
                let jj = if i < j <= chars.len() {
                    j
                } else {
                    i + 1
                };
                scan_from(chars, jj, l2)
            },
            StepV::Tok(tv, j, l2) => {
                let jj = if i < j <= chars.len() {
                    j
                } else {
                    i + 1
                };
                match scan_from(chars, jj, l2) {
                    Ok(rest) => Ok(seq![tv] + rest),
                    Err(e) => Err(e),
                }
            },
            StepV::Stop(e) => Err(e),
        }
    }
}

/// Relies on String::from_iter: the returned string holds exactly the given
/// characters, in order.
#[verifier::external_body]
fn text_of(v: &Vec<char>, i: usize, j: usize) -> (s: String)
    requires
        i <= j && j <= v@.len(),
    ensures
        s@ == v@.subrange(i as int, j as int),
{
    v[i..j].iter().copied().collect()
}

/// Relies on Iterator::collect for Vec: the characters of the string, in
/// order.
#[verifier::external_body]
fn chars_of(src: &str) -> (v: Vec<char>)
    ensures
        v@ == src@,
{
    src.chars().collect()
}

pub struct Scanner {
    chars: Vec<char>,
    pub tokens: Vec<Token>,
    /// First character of the lexeme being scanned.
    start: usize,
    /// The character under consideration.
    current: usize,
    /// The source line the scanner is on.
    line: usize,
}

impl Scanner {
    pub closed spec fn src(&self) -> Seq<char> {
        self.chars@
    }

    pub closed spec fn toks(&self) -> Seq<TokenV> {
        self.tokens@.map(|i: int, t: Token| t@)
    }

    pub closed spec fn pos(&self) -> int {
        self.current as int
    }

    pub closed spec fn line_no(&self) -> nat {
        self.line as nat
    }

    pub fn new(src: String) -> (s: Scanner)
        ensures
            s.src() == src@,
            s.toks() =~= Seq::<TokenV>::empty(),
            s.pos() == 0,
            s.line_no() == 1,
    {
        let s = Scanner {
            chars: chars_of(src.as_str()),
            tokens: Vec::new(),
            start: 0,
            current: 0,
            line: 1,
        };
        proof {
            assert(s.toks() =~= Seq::<TokenV>::empty());
        }
        s
    }

    fn is_at_end(&self) -> (r: bool)
        ensures
            r == (self.pos() >= self.src().len()),
    {
        self.current >= self.chars.len()
    }

    fn is_digit_c(c: char) -> (r: bool)
        ensures
            r == is_digit_ch(c),
    {
        ('0' as u32) <= (c as u32) && (c as u32) <= ('9' as u32)
    }

    fn is_alpha_c(c: char) -> (r: bool)
        ensures
            r == is_alpha_ch(c),
    {
        (('a' as u32) <= (c as u32) && (c as u32) <= ('z' as u32)) || (('A' as u32) <= (c as u32)
            && (c as u32) <= ('Z' as u32)) || c == '_'
    }

    fn is_alnum_c(c: char) -> (r: bool)
        ensures
            r == is_alnum_ch(c),
    {
        Self::is_alpha_c(c) || Self::is_digit_c(c)
    }

    fn bump_line(&mut self)
        ensures
            final(self).line_no() == line_bump(old(self).line_no()),
            final(self).chars == old(self).chars,
            final(self).tokens == old(self).tokens,
            final(self).start == old(self).start,
            final(self).current == old(self).current,
    {
        if self.line < usize::MAX {
            self.line = self.line + 1;
        }
    }

    fn keyword_or_ident(lex: &String) -> (t: TokenType)
        ensures
            t == keyword_kind(lex@),
    {
        if *lex == "and".to_owned() {
            TokenType::And
        } else if *lex == "class".to_owned() {
            TokenType::Class
        } else if *lex == "else".to_owned() {
            TokenType::Else
        } else if *lex == "false".to_owned() {
            TokenType::False
        } else if *lex == "fun".to_owned() {
            TokenType::Fun
        } else if *lex == "for".to_owned() {
            TokenType::For
        } else if *lex == "if".to_owned() {
            TokenType::If
        } else if *lex == "nil".to_owned() {
            TokenType::Nil
        } else if *lex == "or".to_owned() {
            TokenType::Or
        } else if *lex == "print".to_owned() {
            TokenType::Print
        } else if *lex == "return".to_owned() {
            TokenType::Return
        } else if *lex == "super".to_owned() {
            TokenType::Super
        } else if *lex == "this".to_owned() {
            TokenType::This
        } else if *lex == "true".to_owned() {
            TokenType::True
        } else if *lex == "var".to_owned() {
            TokenType::Var
        } else if *lex == "while".to_owned() {
            TokenType::While
        } else {
            TokenType::Identifier
        }
    }

    /// Appends one token whose lexeme is `chars[start..current]`.
    fn add_token_literal(&mut self, token_type: TokenType, literal: Literal)
        requires
            old(self).start <= old(self).current,
            old(self).current as int <= old(self).src().len(),
        ensures
            final(self).chars == old(self).chars,
            final(self).start == old(self).start,
            final(self).current == old(self).current,
            final(self).line == old(self).line,
            final(self).toks() =~= old(self).toks().push(
                TokenV {
                    kind: token_type,
                    lexeme: old(self).src().subrange(
                        old(self).start as int,
                        old(self).current as int,
                    ),
                    literal: literal@,
                    line: old(self).line as nat,
                },
            ),
    {
        let text = text_of(&self.chars, self.start, self.current);
        let ghost litv = literal@;
        self.tokens.push(Token { token_type, lexeme: text, literal, line: self.line });
        proof {
            let tv = TokenV {
                kind: token_type,
                lexeme: old(self).src().subrange(old(self).start as int, old(self).current as int),
                literal: litv,
                line: old(self).line as nat,
            };
            assert forall|k: int| 0 <= k < self.toks().len() implies self.toks()[k]
                == old(self).toks().push(tv)[k] by {
                if k < self.toks().len() - 1 {
                    assert(self.tokens@[k] == old(self).tokens@[k]);
                }
            }
        }
    }

    fn add_token(&mut self, token_type: TokenType)
        requires
            old(self).start <= old(self).current,
            old(self).current as int <= old(self).src().len(),
        ensures
            final(self).chars == old(self).chars,
            final(self).start == old(self).start,
            final(self).current == old(self).current,
            final(self).line == old(self).line,
            final(self).toks() =~= old(self).toks().push(
                TokenV {
                    kind: token_type,
                    lexeme: old(self).src().subrange(
                        old(self).start as int,
                        old(self).current as int,
                    ),
                    literal: LitV::Nil,
                    line: old(self).line as nat,
                },
            ),
    {
        self.add_token_literal(token_type, Literal::Nil);
    }

    /// If the next character is `expected`, consumes it.
    fn next_is(&mut self, expected: char) -> (r: bool)
        ensures
            final(self).chars == old(self).chars,
            final(self).tokens == old(self).tokens,
            final(self).start == old(self).start,
            final(self).line == old(self).line,
            r == (old(self).pos() < old(self).src().len() && old(self).src()[old(self).pos()]
                == expected),
            final(self).pos() == if r {
                old(self).pos() + 1
            } else {
                old(self).pos()
            },
    {
        if self.current < self.chars.len() {
            if self.chars[self.current] == expected {
                self.current = self.current + 1;
                return true;
            }
        }
        false
    }

    /// Hands the token list over, for the parser.
    pub fn into_tokens(self) -> (v: Vec<Token>)
        ensures
            token_views(v@) == self.toks(),
    {
        self.tokens
    }

    /// The character at `current`, or the sentinel at end of input.
    fn peek(&self) -> (c: char)
        ensures
            c == if self.pos() < self.src().len() {
                self.src()[self.pos()]
            } else {
                '\u{0}'
            },
    {
        if self.is_at_end() {
            '\0'
        } else {
            self.chars[self.current]
        }
    }

    /// The character one past `current`, or the sentinel.
    fn peek_next(&self) -> (c: char)
        ensures
            c == if self.pos() + 1 < self.src().len() {
                self.src()[self.pos() + 1]
            } else {
                '\u{0}'
            },
    {
        let n = self.chars.len();
        if self.current < n && self.current + 1 < n {
            self.chars[self.current + 1]
        } else {
            '\0'
        }
    }

    /// Scans the single token or piece of trivia that begins at `current`,
    /// doing exactly what `scan_step` says.
    #[verifier::loop_isolation(false)]
    fn scan_token(&mut self) -> (r: Result<(), Error>)
        requires
            old(self).pos() < old(self).src().len(),
            old(self).start == old(self).current,
        ensures
            final(self).src() == old(self).src(),
            match r {
                Ok(_) => {
                    &&& old(self).pos() < final(self).pos() <= final(self).src().len()
                    &&& match scan_step(old(self).src(), old(self).pos(), old(self).line_no()) {
                        StepV::Skip(j, l2) => final(self).toks() == old(self).toks()
                            && final(self).pos() == j && final(self).line_no() == l2,
                        StepV::Tok(tv, j, l2) => final(self).toks() =~= old(self).toks().push(tv)
                            && final(self).pos() == j && final(self).line_no() == l2,
                        StepV::Stop(_) => false,
                    }
                },
                Err(e) => scan_step(old(self).src(), old(self).pos(), old(self).line_no())
                    == StepV::Stop(e),
            },
    {
        let ghost src = self.src();
        let ghost i = self.pos();
        let ghost line0 = self.line_no();
        let n = self.chars.len();
        proof {
            assert(src.len() == n as int);
        }
        let c = self.chars[self.current];
        self.current = self.current + 1;
        if c == '(' {
            self.add_token(TokenType::LeftParen);
            Ok(())
        } else if c == ')' {
            self.add_token(TokenType::RightParen);
            Ok(())
        } else if c == '{' {
            self.add_token(TokenType::LeftBrace);
            Ok(())
        } else if c == '}' {
            self.add_token(TokenType::RightBrace);
            Ok(())
        } else if c == ',' {
            self.add_token(TokenType::Comma);
            Ok(())
        } else if c == '.' {
            self.add_token(TokenType::Dot);
            Ok(())
        } else if c == '-' {
            self.add_token(TokenType::Minus);
            Ok(())
        } else if c == '+' {
            self.add_token(TokenType::Plus);
            Ok(())
        } else if c == ';' {
            self.add_token(TokenType::Semicolon);
            Ok(())
        } else if c == '*' {
            self.add_token(TokenType::Star);
            Ok(())
        } else if c == '!' {
            let t = if self.next_is('=') {
                TokenType::BangEqual
            } else {
                TokenType::Bang
            };
            self.add_token(t);
            Ok(())
        } else if c == '=' {
            let t = if self.next_is('=') {
                TokenType::EqualEqual
            } else {
                TokenType::Equal
            };
            self.add_token(t);
            Ok(())
        } else if c == '<' {
            let t = if self.next_is('=') {
                TokenType::LessEqual
            } else {
                TokenType::Less
            };
            self.add_token(t);
            Ok(())
        } else if c == '>' {
            let t = if self.next_is('=') {
                TokenType::GreaterEqual
            } else {
                TokenType::Greater
            };
            self.add_token(t);
            Ok(())
        } else if c == '/' {
            if self.next_is('/') {
                let ghost c0 = self.pos();
                loop
                    invariant
                        self.chars == old(self).chars,
                        self.tokens == old(self).tokens,
                        self.start == old(self).start,
                        self.line == old(self).line,
                        c0 <= self.pos() <= src.len(),
                        comment_end(src, c0) == comment_end(src, self.pos()),
                    decreases src.len() - self.pos(),
                {
                    if self.is_at_end() {
                        break ;
                    }
                    if self.peek() == '\n' {
                        break ;
                    }
                    self.current = self.current + 1;
                }
                Ok(())
            } else {
                self.add_token(TokenType::Slash);
                Ok(())
            }
        } else if c == '\n' {
            self.bump_line();
            Ok(())
        } else if c == ' ' || c == '\t' || c == '\r' {
            Ok(())
        } else if c == '"' {
            let line_at = self.line;
            let ghost p0 = self.pos();
            loop
                invariant
                    self.chars == old(self).chars,
                    self.tokens == old(self).tokens,
                    self.start == old(self).start,
                    p0 <= self.pos() <= src.len(),
                    close_quote(src, p0) == close_quote(src, self.pos()),
                    self.line_no() == line_add(line0, newlines_in(src, p0, self.pos())),
                decreases src.len() - self.pos(),
            {
                if self.is_at_end() {
                    break ;
                }
                if self.peek() == '"' {
                    break ;
                }
                proof {
                    lemma_newlines_snoc(src, p0, self.pos());
                }
                if self.peek() == '\n' {
                    self.bump_line();
                }
                self.current = self.current + 1;
            }
            if self.is_at_end() {
                return Err(
                    Error {
                        kind: ErrorKind::UnterminatedString(Position::new(line_at, self.start)),
                    },
                );
            }
            self.current = self.current + 1;
            let lit = text_of(&self.chars, self.start + 1, self.current - 1);
            self.add_token_literal(TokenType::String, Literal::String(lit));
            Ok(())
        } else if Self::is_digit_c(c) {
            loop
                invariant
                    self.chars == old(self).chars,
                    self.tokens == old(self).tokens,
                    self.start == old(self).start,
                    self.line == old(self).line,
                    i < self.pos() <= src.len(),
                    digits_end(src, i + 1) == digits_end(src, self.pos()),
                decreases src.len() - self.pos(),
            {
                if !Self::is_digit_c(self.peek()) {
                    break ;
                }
                self.current = self.current + 1;
            }
            if self.peek() == '.' && Self::is_digit_c(self.peek_next()) {
                self.current = self.current + 1;
                let ghost e1 = self.pos() - 1;
                loop
                    invariant
                        self.chars == old(self).chars,
                        self.tokens == old(self).tokens,
                        self.start == old(self).start,
                        self.line == old(self).line,
                        e1 + 1 <= self.pos() <= src.len(),
                        digits_end(src, e1 + 1) == digits_end(src, self.pos()),
                    decreases src.len() - self.pos(),
                {
                    if !Self::is_digit_c(self.peek()) {
                        break ;
                    }
                    self.current = self.current + 1;
                }
            }
            let lit = text_of(&self.chars, self.start, self.current);
            self.add_token_literal(TokenType::Number, Literal::Number(lit));
            Ok(())
        } else if Self::is_alpha_c(c) {
            loop
                invariant
                    self.chars == old(self).chars,
                    self.tokens == old(self).tokens,
                    self.start == old(self).start,
                    self.line == old(self).line,
                    i < self.pos() <= src.len(),
                    ident_end(src, i + 1) == ident_end(src, self.pos()),
                decreases src.len() - self.pos(),
            {
                if !Self::is_alnum_c(self.peek()) {
                    break ;
                }
                self.current = self.current + 1;
            }
            let lex = text_of(&self.chars, self.start, self.current);
            let kind = Self::keyword_or_ident(&lex);
            self.add_token(kind);
            Ok(())
        } else {
            Err(
                Error {
                    kind: ErrorKind::UnexpectedCharacter(Position::new(self.line, self.start)),
                },
            )
        }
    }

    /// Scans the whole source: the token sequence ends with an end-of-input
    /// token, or the first lexical error is reported and scanning stops.
    /// The result is exactly what `scan_from` says of the text.
    #[verifier::loop_isolation(false)]
    pub fn scan_tokens(&mut self) -> (r: Result<(), Error>)
        requires
            old(self).pos() == 0,
            old(self).toks().len() == 0,
            old(self).line_no() == 1,
        ensures
            final(self).src() == old(self).src(),
            match r {
                Ok(_) => scan_from(old(self).src(), 0, 1) == Ok::<Seq<TokenV>, Error>(
                    final(self).toks(),
                ),
                Err(e) => scan_from(old(self).src(), 0, 1) == Err::<Seq<TokenV>, Error>(e),
            },
    {
        let ghost src0 = self.src();
        loop
            invariant
                self.src() == src0,
                0 <= self.pos() <= src0.len(),
                match scan_from(src0, self.pos(), self.line_no()) {
                    Ok(rest) => scan_from(src0, 0, 1) == Ok::<Seq<TokenV>, Error>(
                        self.toks() + rest,
                    ),
                    Err(e) => scan_from(src0, 0, 1) == Err::<Seq<TokenV>, Error>(e),
                },
            decreases src0.len() - self.pos(),
        {
            if self.is_at_end() {
                let ghost toks_b = self.toks();
                let ghost tvec_b = self.tokens@;
                let ghost line_now = self.line_no();
                self.tokens.push(
                    Token {
                        token_type: TokenType::Eof,
                        lexeme: String::new(),
                        literal: Literal::Nil,
                        line: self.line,
                    },
                );
                proof {
                    let eofv = TokenV {
                        kind: TokenType::Eof,
                        lexeme: Seq::<char>::empty(),
                        literal: LitV::Nil,
                        line: line_now,
                    };
                    assert forall|k: int| 0 <= k < self.toks().len() implies self.toks()[k]
                        == toks_b.push(eofv)[k] by {
                        if k < self.toks().len() - 1 {
                            assert(self.tokens@[k] == tvec_b[k]);
                        } else {
                            assert(self.tokens@[k].lexeme@ =~= Seq::<char>::empty());
                        }
                    }
                    assert(self.toks() =~= toks_b.push(eofv));
                    assert(toks_b + seq![eofv] =~= toks_b.push(eofv));
                }
                return Ok(());
            }
            self.start = self.current;
            let ghost toks_b = self.toks();
            let ghost pos_b = self.pos();
            let ghost line_b = self.line_no();
            let res = self.scan_token();
            match res {
                Ok(_) => {
                    proof {
                        let stp = scan_step(src0, pos_b, line_b);
                        match stp {
                            StepV::Tok(tv, j, l2) => {
                                match scan_from(src0, self.pos(), self.line_no()) {
                                    Ok(rest) => {
                                        assert(toks_b.push(tv) + rest =~= toks_b + (seq![tv]
                                            + rest));
                                        assert(self.toks() + rest =~= toks_b.push(tv) + rest);
                                    },
                                    Err(_) => {},
                                }
                            },
                            _ => {},
                        }
                    }
                },
                Err(e) => {
                    return Err(e);
                },
            }
        }
    }
}

/// A scan that succeeds always ends with the end-of-input token.
pub proof fn lemma_scan_terminated(chars: Seq<char>, i: int, line: nat)
    ensures
        scan_from(chars, i, line) matches Ok(ts) ==> ts.len() >= 1 && ts[ts.len() - 1].kind
            == TokenType::Eof,
    decreases chars.len() - i,
{
    if 0 <= i < chars.len() {
        match scan_step(chars, i, line) {
            StepV::Skip(j, l2) => {
                let jj = if i < j <= chars.len() {
                    j
                } else {
                    i + 1
                };
                lemma_scan_terminated(chars, jj, l2);
            },
            StepV::Tok(tv, j, l2) => {
                let jj = if i < j <= chars.len() {
                    j
                } else {
                    i + 1
                };
                lemma_scan_terminated(chars, jj, l2);
            },
            StepV::Stop(_) => {},
        }
    }
}

proof fn lemma_newlines_snoc(chars: Seq<char>, i: int, j: int)
    requires
        0 <= i <= j < chars.len(),
    ensures
        newlines_in(chars, i, j + 1) == newlines_in(chars, i, j) + (if chars[j] == '\n' {
            1nat
        } else {
            0nat
        }),
    decreases j - i,
{
    if i < j {
        lemma_newlines_snoc(chars, i + 1, j);
        assert(newlines_in(chars, i, j + 1) == (if chars[i] == '\n' {
            1nat
        } else {
            0nat
        }) + newlines_in(chars, i + 1, j + 1));
    } else {
        assert(newlines_in(chars, i + 1, j + 1) == 0);
        assert(newlines_in(chars, i, j) == 0);
    }
}

} // verus!
