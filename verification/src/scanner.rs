use vstd::prelude::*;
use vstd::string::StrSliceExecFns;

verus! {

/// A lexical token: its kind, its text (a slice of the source for ordinary
/// tokens, a fixed message for `Error` tokens), and the 1-based source line
/// on which it ends.
#[derive(Debug, Clone, Copy)]
pub struct Token<'src> {
    pub typ: TokenType,
    pub name: &'src str,
    pub line: usize,
}

#[derive(Debug, Clone, Copy, PartialEq, Eq, Structural)]
pub enum TokenType {
    LeftParen,
    RightParen,
    LeftBrace,
    RightBrace,
    Comma,
    Dot,
    Minus,
    Plus,
    Semicolon,
    Slash,
    Star,
    Bang,
    BangEqual,
    Equal,
    EqualEqual,
    Greater,
    GreaterEqual,
    Less,
    LessEqual,
    Identifier,
    String,
    Number,
    And,
    Class,
    Else,
    False,
    For,
    Fun,
    If,
    Nil,
    Or,
    Print,
    Return,
    Super,
    This,
    True,
    Var,
    While,
    Error,
    Eof,
}

pub enum ScannerError {
    UnexpectedCharacter,
}

/// Decimal digit.
pub open spec fn is_digit_c(c: char) -> bool {
    48 <= (c as u32) && (c as u32) <= 57
}

/// Letter or underscore: what may start an identifier.
pub open spec fn is_alpha_c(c: char) -> bool {
    (97 <= (c as u32) && (c as u32) <= 122) || (65 <= (c as u32) && (c as u32) <= 90) || (c as u32)
        == 95
}

/// Letter, digit or underscore: what may continue an identifier.
pub open spec fn is_alnum_c(c: char) -> bool {
    is_alpha_c(c) || is_digit_c(c)
}

/// The shape of a number token: one or more digits, optionally followed by
/// `.` and one or more digits.
pub open spec fn is_number_lexeme(s: Seq<char>) -> bool {
    exists|k: int|
        #![trigger s.subrange(0, k)]
        1 <= k <= s.len() && (forall|i: int| 0 <= i < k ==> is_digit_c(s[i])) && (k == s.len() || (
        k + 2 <= s.len() && s[k] == '.' && forall|i: int| k + 1 <= i < s.len() ==> is_digit_c(
            s[i],
        )))
}

/// Where scanning stands after whitespace and line comments are skipped,
/// starting at position `i` on line `line`; `in_comment` tells whether the
/// position is inside a `//` comment. Newlines advance the line counter; a
/// comment runs to the next newline, which it does not consume.
pub open spec fn skip_ws_from(s: Seq<char>, i: nat, line: nat, in_comment: bool) -> (nat, nat)
    decreases s.len() - i, (if in_comment { 1int } else { 0int }),
{
    if i >= s.len() {
        (i, line)
    } else if in_comment {
        if s[i as int] == '\n' {
            skip_ws_from(s, i, line, false)
        } else {
            skip_ws_from(s, (i + 1) as nat, line, true)
        }
    } else {
        let c = s[i as int];
        if c == ' ' || c == '\r' || c == '\t' {
            skip_ws_from(s, (i + 1) as nat, line, false)
        } else if c == '\n' {
            skip_ws_from(s, (i + 1) as nat, (line + 1) as nat, false)
        } else if c == '/' && i + 1 < s.len() && s[i as int + 1] == '/' {
            skip_ws_from(s, (i + 2) as nat, line, true)
        } else {
            (i, line)
        }
    }
}

/// The first position at or after `i` that does not hold a digit.
pub open spec fn digits_end(s: Seq<char>, i: nat) -> nat
    decreases s.len() - i,
{
    if i >= s.len() {
        i
    } else if is_digit_c(s[i as int]) {
        digits_end(s, (i + 1) as nat)
    } else {
        i
    }
}

/// Where a number token that started just before `i` ends: the remaining
/// digits, then optionally `.` followed by at least one digit.
pub open spec fn number_end(s: Seq<char>, i: nat) -> nat {
    let d = digits_end(s, i);
    if d + 1 < s.len() && s[d as int] == '.' && is_digit_c(s[d as int + 1]) {
        digits_end(s, (d + 2) as nat)
    } else {
        d
    }
}

/// The first position at or after `i` that does not continue an identifier.
pub open spec fn ident_end(s: Seq<char>, i: nat) -> nat
    decreases s.len() - i,
{
    if i >= s.len() {
        i
    } else if is_alnum_c(s[i as int]) {
        ident_end(s, (i + 1) as nat)
    } else {
        i
    }
}

/// The position of the closing `"` at or after `i`, or the length of the
/// source when the string is unterminated.
pub open spec fn quote_end(s: Seq<char>, i: nat) -> nat
    decreases s.len() - i,
{
    if i >= s.len() {
        i
    } else if s[i as int] == '"' {
        i
    } else {
        quote_end(s, (i + 1) as nat)
    }
}

/// How many newlines lie in `s[i..j]`.
pub open spec fn nl_count(s: Seq<char>, i: nat, j: nat) -> nat
    decreases j - i,
{
    if i >= j {
        0
    } else {
        (if s[i as int] == '\n' {
            1nat
        } else {
            0nat
        }) + nl_count(s, (i + 1) as nat, j)
    }
}

/// The token kind an identifier lexeme denotes: one of the sixteen reserved
/// words, or a plain identifier.
pub open spec fn keyword_type(lex: Seq<char>) -> TokenType {
    if lex == "and"@ {
        TokenType::And
    } else if lex == "class"@ {
        TokenType::Class
    } else if lex == "else"@ {
        TokenType::Else
    } else if lex == "false"@ {
        TokenType::False
    } else if lex == "for"@ {
        TokenType::For
    } else if lex == "fun"@ {
        TokenType::Fun
    } else if lex == "if"@ {
        TokenType::If
    } else if lex == "nil"@ {
        TokenType::Nil
    } else if lex == "or"@ {
        TokenType::Or
    } else if lex == "print"@ {
        TokenType::Print
    } else if lex == "return"@ {
        TokenType::Return
    } else if lex == "super"@ {
        TokenType::Super
    } else if lex == "this"@ {
        TokenType::This
    } else if lex == "true"@ {
        TokenType::True
    } else if lex == "var"@ {
        TokenType::Var
    } else if lex == "while"@ {
        TokenType::While
    } else {
        TokenType::Identifier
    }
}

/// What one call of `scan_token` does, as a value: the token's kind, its
/// start and end position, the line counter after it, and its text (the
/// source slice, or the message of an `Error` token).
pub struct ScanStep {
    pub typ: TokenType,
    pub start: nat,
    pub end: nat,
    pub line: nat,
    pub lex: Seq<char>,
}

/// The reference scanner: the token found at position `pos`, line `line`.
pub open spec fn spec_scan(s: Seq<char>, pos: nat, line: nat) -> ScanStep {
    let (i, l) = skip_ws_from(s, pos, line, false);
    if i >= s.len() {
        ScanStep { typ: TokenType::Eof, start: i, end: i, line: l, lex: Seq::empty() }
    } else {
        let c = s[i as int];
        if is_alpha_c(c) {
            let e = ident_end(s, (i + 1) as nat);
            ScanStep {
                typ: keyword_type(s.subrange(i as int, e as int)),
                start: i,
                end: e,
                line: l,
                lex: s.subrange(i as int, e as int),
            }
        } else if is_digit_c(c) {
            let e = number_end(s, (i + 1) as nat);
            ScanStep {
                typ: TokenType::Number,
                start: i,
                end: e,
                line: l,
                lex: s.subrange(i as int, e as int),
            }
        } else if c == '"' {
            let q = quote_end(s, (i + 1) as nat);
            if q >= s.len() {
                ScanStep {
                    typ: TokenType::Error,
                    start: i,
                    end: q,
                    line: (l + nl_count(s, (i + 1) as nat, q)) as nat,
                    lex: "Unterminated string."@,
                }
            } else {
                ScanStep {
                    typ: TokenType::String,
                    start: i,
                    end: (q + 1) as nat,
                    line: (l + nl_count(s, (i + 1) as nat, q)) as nat,
                    lex: s.subrange(i as int, q as int + 1),
                }
            }
        } else {
            let two = i + 1 < s.len() && s[i as int + 1] == '=';
            let (t, e): (TokenType, nat) = if c == '(' {
                (TokenType::LeftParen, (i + 1) as nat)
            } else if c == ')' {
                (TokenType::RightParen, (i + 1) as nat)
            } else if c == '{' {
                (TokenType::LeftBrace, (i + 1) as nat)
            } else if c == '}' {
                (TokenType::RightBrace, (i + 1) as nat)
            } else if c == ';' {
                (TokenType::Semicolon, (i + 1) as nat)
            } else if c == ',' {
                (TokenType::Comma, (i + 1) as nat)
            } else if c == '.' {
                (TokenType::Dot, (i + 1) as nat)
            } else if c == '-' {
                (TokenType::Minus, (i + 1) as nat)
            } else if c == '+' {
                (TokenType::Plus, (i + 1) as nat)
            } else if c == '/' {
                (TokenType::Slash, (i + 1) as nat)
            } else if c == '*' {
                (TokenType::Star, (i + 1) as nat)
            } else if c == '!' {
                if two {
                    (TokenType::BangEqual, (i + 2) as nat)
                } else {
                    (TokenType::Bang, (i + 1) as nat)
                }
            } else if c == '=' {
                if two {
                    (TokenType::EqualEqual, (i + 2) as nat)
                } else {
                    (TokenType::Equal, (i + 1) as nat)
                }
            } else if c == '<' {
                if two {
                    (TokenType::LessEqual, (i + 2) as nat)
                } else {
                    (TokenType::Less, (i + 1) as nat)
                }
            } else if c == '>' {
                if two {
                    (TokenType::GreaterEqual, (i + 2) as nat)
                } else {
                    (TokenType::Greater, (i + 1) as nat)
                }
            } else {
                (TokenType::Error, (i + 1) as nat)
            };
            if t == TokenType::Error {
                ScanStep {
                    typ: t,
                    start: i,
                    end: e,
                    line: l,
                    lex: "Unexpected character."@,
                }
            } else {
                ScanStep { typ: t, start: i, end: e, line: l, lex: s.subrange(i as int, e as int) }
            }
        }
    }
}

/// A lazy tokenizer over a borrowed source text. `start`, `current` and the
/// cached length are positions in characters; `line` is 1-based.
pub struct Scanner<'src> {
    source: &'src str,
    len: usize,
    start: usize,
    current: usize,
    line: usize,
}

impl<'src> Scanner<'src> {
    /// The source text being scanned.
    pub closed spec fn text(self) -> Seq<char> {
        self.source@
    }

    /// The position after the most recently produced token.
    pub closed spec fn cur(self) -> nat {
        self.current as nat
    }

    /// The start of the most recently produced token.
    pub closed spec fn tok_start(self) -> nat {
        self.start as nat
    }

    /// The current 1-based line.
    pub closed spec fn cur_line(self) -> nat {
        self.line as nat
    }

    pub closed spec fn len_cached(self) -> bool {
        self.len as nat == self.source@.len()
    }

    pub open spec fn wf(self) -> bool {
        &&& self.len_cached()
        &&& self.tok_start() <= self.cur() <= self.text().len()
        &&& self.text().len() <= usize::MAX
        &&& 1 <= self.cur_line()
        &&& self.cur_line() + self.text().len() - self.cur() <= usize::MAX
    }

    pub fn new(source: &'src str) -> (r: Scanner<'src>)
        requires
            source@.len() < usize::MAX,
        ensures
            r.wf(),
            r.text() == source@,
            r.cur() == 0,
            r.tok_start() == 0,
            r.cur_line() == 1,
    {
        let len = source.unicode_len();
        Scanner { source, len, start: 0, current: 0, line: 1 }
    }

    fn is_at_end(&self) -> (r: bool)
        requires
            self.wf(),
        ensures
            r == (self.cur() >= self.text().len()),
    {
        self.current >= self.len
    }

    /// Consumes and returns the next character.
    pub fn advance(&mut self) -> (c: char)
        requires
            old(self).wf(),
            old(self).cur() < old(self).text().len(),
        ensures
            final(self).wf(),
            c == old(self).text()[old(self).cur() as int],
            final(self).cur() == old(self).cur() + 1,
            final(self).text() == old(self).text(),
            final(self).tok_start() == old(self).tok_start(),
            final(self).cur_line() == old(self).cur_line(),
    {
        let c = self.source.get_char(self.current);
        self.current = self.current + 1;
        c
    }

    fn peek(&self) -> (r: Option<char>)
        requires
            self.wf(),
        ensures
            r == (if self.cur() < self.text().len() {
                Some(self.text()[self.cur() as int])
            } else {
                Option::<char>::None
            }),
    {
        if self.current >= self.len {
            None
        } else {
            Some(self.source.get_char(self.current))
        }
    }

    fn peek_next(&self) -> (r: Option<char>)
        requires
            self.wf(),
        ensures
            r == (if self.cur() + 1 < self.text().len() {
                Some(self.text()[self.cur() as int + 1])
            } else {
                Option::<char>::None
            }),
    {
        if self.current >= self.len || self.current + 1 >= self.len {
            None
        } else {
            Some(self.source.get_char(self.current + 1))
        }
    }

    /// Consumes the next character when it is `expected`.
    fn matches(&mut self, expected: char) -> (r: bool)
        requires
            old(self).wf(),
        ensures
            final(self).wf(),
            r == (old(self).cur() < old(self).text().len() && old(self).text()[old(
                self,
            ).cur() as int] == expected),
            final(self).cur() == (if r {
                old(self).cur() + 1
            } else {
                old(self).cur()
            }),
            final(self).text() == old(self).text(),
            final(self).tok_start() == old(self).tok_start(),
            final(self).cur_line() == old(self).cur_line(),
    {
        if self.is_at_end() {
            return false;
        }
        let c = self.peek();
        match c {
            Some(c) => {
                if c != expected {
                    return false;
                }
            },
            None => {
                return false;
            },
        }
        self.current = self.current + 1;
        true
    }

    /// A token of the given kind spanning the text from `start` to the
    /// current position, on the current line.
    fn make_token(&self, typ: TokenType) -> (tok: Token<'src>)
        requires
            self.wf(),
        ensures
            tok.typ == typ,
            tok.name@ == self.text().subrange(self.tok_start() as int, self.cur() as int),
            tok.line == self.cur_line(),
    {
        let src: &'src str = self.source;
        Token { typ, name: src.substring_char(self.start, self.current), line: self.line }
    }

    /// An error token carrying a diagnostic message instead of a lexeme.
    fn error_token(&self, message: &'static str) -> (tok: Token<'src>)
        requires
            self.wf(),
        ensures
            tok.typ == TokenType::Error,
            tok.name@ == message@,
            tok.line == self.cur_line(),
    {
        Token { typ: TokenType::Error, name: message, line: self.line }
    }

    /// Skips spaces, tabs, carriage returns, newlines (counting lines) and
    /// `//` line comments.
    fn skip_whitespace(&mut self)
        requires
            old(self).wf(),
        ensures
            final(self).wf(),
            final(self).text() == old(self).text(),
            final(self).tok_start() == old(self).tok_start(),
            (final(self).cur(), final(self).cur_line()) == skip_ws_from(
                old(self).text(),
                old(self).cur(),
                old(self).cur_line(),
                false,
            ),
    {
        loop
            invariant
                self.wf(),
                self.text() == old(self).text(),
                self.tok_start() == old(self).tok_start(),
                skip_ws_from(self.text(), self.cur(), self.cur_line(), false) == skip_ws_from(
                    old(self).text(),
                    old(self).cur(),
                    old(self).cur_line(),
                    false,
                ),
            decreases self.text().len() - self.cur(),
        {
            let c_opt = self.peek();
            match c_opt {
                Some(c) => {
                    if c == ' ' || c == '\r' || c == '\t' {
                        let _ = self.advance();
                    } else if c == '\n' {
                        let _ = self.advance();
                        self.line = self.line + 1;
                    } else if c == '/' {
                        let next = self.peek_next();
                        let is_comment = match next {
                            Some(n) => n == '/',
                            None => false,
                        };
                        if !is_comment {
                            return ;
                        }
                        proof {
                            assert(skip_ws_from(self.text(), self.cur(), self.cur_line(), false)
                                == skip_ws_from(
                                self.text(),
                                (self.cur() + 2) as nat,
                                self.cur_line(),
                                true,
                            ));
                        }
                        let _ = self.advance();
                        let _ = self.advance();
                        let ghost cur_mid = self.cur();
                        loop
                            invariant
                                self.wf(),
                                self.text() == old(self).text(),
                                self.tok_start() == old(self).tok_start(),
                                self.cur() >= cur_mid,
                                skip_ws_from(self.text(), self.cur(), self.cur_line(), true)
                                    == skip_ws_from(
                                    old(self).text(),
                                    old(self).cur(),
                                    old(self).cur_line(),
                                    false,
                                ),
                            ensures
                                self.cur() >= cur_mid,
                                self.wf(),
                                self.text() == old(self).text(),
                                self.tok_start() == old(self).tok_start(),
                                skip_ws_from(self.text(), self.cur(), self.cur_line(), true)
                                    == skip_ws_from(
                                    old(self).text(),
                                    old(self).cur(),
                                    old(self).cur_line(),
                                    false,
                                ),
                                self.cur() >= self.text().len() || self.text()[self.cur() as int]
                                    == '\n',
                            decreases self.text().len() - self.cur(),
                        {
                            let p = self.peek();
                            match p {
                                Some(pc) => {
                                    if pc == '\n' {
                                        break ;
                                    }
                                    let _ = self.advance();
                                },
                                None => {
                                    break ;
                                },
                            }
                        }
                        proof {
                            assert(skip_ws_from(self.text(), self.cur(), self.cur_line(), false)
                                == skip_ws_from(self.text(), self.cur(), self.cur_line(), true));
                        }
                    } else {
                        return ;
                    }
                },
                None => {
                    return ;
                },
            }
        }
    }
}

impl<'src> Scanner<'src> {
    /// Scans the rest of a number token whose first digit was consumed.
    fn number(&mut self) -> (tok: Token<'src>)
        requires
            old(self).wf(),
        ensures
            final(self).wf(),
            final(self).text() == old(self).text(),
            final(self).tok_start() == old(self).tok_start(),
            final(self).cur_line() == old(self).cur_line(),
            final(self).cur() == number_end(old(self).text(), old(self).cur()),
            tok.typ == TokenType::Number,
            tok.name@ == final(self).text().subrange(
                final(self).tok_start() as int,
                final(self).cur() as int,
            ),
            tok.line == final(self).cur_line(),
    {
        self.run_digits();
        let dot = self.peek();
        let dot_hit = match dot {
            Some(c) => c == '.',
            None => false,
        };
        let frac = self.peek_next();
        let frac_hit = match frac {
            Some(c) => digit_char(c),
            None => false,
        };
        if dot_hit && frac_hit {
            let _ = self.advance();
            let _ = self.advance();
            self.run_digits();
        }
        self.make_token(TokenType::Number)
    }

    /// Consumes digits until a non-digit or the end of the source.
    fn run_digits(&mut self)
        requires
            old(self).wf(),
        ensures
            final(self).wf(),
            final(self).text() == old(self).text(),
            final(self).tok_start() == old(self).tok_start(),
            final(self).cur_line() == old(self).cur_line(),
            final(self).cur() == digits_end(old(self).text(), old(self).cur()),
    {
        loop
            invariant
                self.wf(),
                self.text() == old(self).text(),
                self.tok_start() == old(self).tok_start(),
                self.cur_line() == old(self).cur_line(),
                digits_end(self.text(), self.cur()) == digits_end(old(self).text(), old(self).cur()),
            ensures
                self.wf(),
                self.text() == old(self).text(),
                self.tok_start() == old(self).tok_start(),
                self.cur_line() == old(self).cur_line(),
                self.cur() == digits_end(old(self).text(), old(self).cur()),
            decreases self.text().len() - self.cur(),
        {
            let p = self.peek();
            let go = match p {
                Some(c) => digit_char(c),
                None => false,
            };
            if !go {
                break ;
            }
            let _ = self.advance();
        }
    }

    /// Scans the rest of a string token whose opening quote was consumed:
    /// up to the closing quote, counting embedded newlines, or to the end of
    /// the source, which is an error.
    fn string(&mut self) -> (tok: Token<'src>)
        requires
            old(self).wf(),
        ensures
            final(self).wf(),
            final(self).text() == old(self).text(),
            final(self).tok_start() == old(self).tok_start(),
            ({
                let q = quote_end(old(self).text(), old(self).cur());
                let l = old(self).cur_line() + nl_count(old(self).text(), old(self).cur(), q);
                &&& final(self).cur_line() == l
                &&& tok.line == l
                &&& if q >= old(self).text().len() {
                    &&& final(self).cur() == q
                    &&& tok.typ == TokenType::Error
                    &&& tok.name@ == "Unterminated string."@
                } else {
                    &&& final(self).cur() == q + 1
                    &&& tok.typ == TokenType::String
                    &&& tok.name@ == final(self).text().subrange(
                        final(self).tok_start() as int,
                        q as int + 1,
                    )
                }
            }),
    {
        loop
            invariant
                self.wf(),
                self.text() == old(self).text(),
                self.tok_start() == old(self).tok_start(),
                old(self).cur() <= self.cur(),
                quote_end(self.text(), self.cur()) == quote_end(old(self).text(), old(self).cur()),
                self.cur_line() == old(self).cur_line() + nl_count(
                    old(self).text(),
                    old(self).cur(),
                    self.cur(),
                ),
            ensures
                self.wf(),
                self.text() == old(self).text(),
                self.tok_start() == old(self).tok_start(),
                self.cur() == quote_end(old(self).text(), old(self).cur()),
                self.cur_line() == old(self).cur_line() + nl_count(
                    old(self).text(),
                    old(self).cur(),
                    self.cur(),
                ),
            decreases self.text().len() - self.cur(),
        {
            let p = self.peek();
            match p {
                Some(c) => {
                    if c == '"' {
                        break ;
                    }
                    proof {
                        lemma_nl_snoc(self.text(), old(self).cur(), self.cur());
                    }
                    let _ = self.advance();
                    if c == '\n' {
                        self.line = self.line + 1;
                    }
                },
                None => {
                    break ;
                },
            }
        }
        if self.is_at_end() {
            return self.error_token("Unterminated string.");
        }
        let _ = self.advance();
        self.make_token(TokenType::String)
    }

    /// Scans the rest of an identifier whose first character was consumed,
    /// then decides whether it is a reserved word.
    fn identifier(&mut self) -> (tok: Token<'src>)
        requires
            old(self).wf(),
            old(self).tok_start() < old(self).cur(),
        ensures
            final(self).wf(),
            final(self).text() == old(self).text(),
            final(self).tok_start() == old(self).tok_start(),
            final(self).cur_line() == old(self).cur_line(),
            final(self).cur() == ident_end(old(self).text(), old(self).cur()),
            tok.typ == keyword_type(
                final(self).text().subrange(
                    final(self).tok_start() as int,
                    final(self).cur() as int,
                ),
            ),
            tok.name@ == final(self).text().subrange(
                final(self).tok_start() as int,
                final(self).cur() as int,
            ),
            tok.line == final(self).cur_line(),
    {
        loop
            invariant
                self.wf(),
                self.text() == old(self).text(),
                self.tok_start() == old(self).tok_start(),
                self.cur_line() == old(self).cur_line(),
                old(self).cur() <= self.cur(),
                ident_end(self.text(), self.cur()) == ident_end(old(self).text(), old(self).cur()),
            ensures
                self.wf(),
                self.text() == old(self).text(),
                self.tok_start() == old(self).tok_start(),
                self.cur_line() == old(self).cur_line(),
                old(self).cur() <= self.cur(),
                self.cur() == ident_end(old(self).text(), old(self).cur()),
            decreases self.text().len() - self.cur(),
        {
            let p = self.peek();
            let go = match p {
                Some(c) => alpha_char(c) || digit_char(c),
                None => false,
            };
            if !go {
                break ;
            }
            let _ = self.advance();
        }
        let typ = self.identifier_type();
        self.make_token(typ)
    }

    /// Checks whether the tail of the current lexeme, from offset `off`,
    /// is exactly `rest`, with nothing after it; returns `typ` when so and
    /// `Identifier` otherwise.
    fn check_keyword(&self, off: usize, length: usize, rest: &str, typ: TokenType) -> (r:
        TokenType)
        requires
            self.wf(),
            rest@.len() == length,
            off + length <= usize::MAX,
        ensures
            r == (if self.cur() - self.tok_start() == off + length && self.text().subrange(
                self.tok_start() + off,
                self.cur() as int,
            ) == rest@ {
                typ
            } else {
                TokenType::Identifier
            }),
    {
        if self.current - self.start != off + length {
            return TokenType::Identifier;
        }
        let base = self.start + off;
        let mut k: usize = 0;
        loop
            invariant
                self.wf(),
                base == self.tok_start() + off,
                base + length == self.cur(),
                self.cur() <= self.text().len(),
                rest@.len() == length,
                k <= length,
                forall|t: int| 0 <= t < k ==> self.text()[base + t] == rest@[t],
            ensures
                k <= length,
                forall|t: int| 0 <= t < k ==> self.text()[base + t] == rest@[t],
                k == length || self.text()[base + k] != rest@[k as int],
            decreases length - k,
        {
            if k >= length {
                break ;
            }
            let a = self.source.get_char(base + k);
            let b = rest.get_char(k);
            if a != b {
                break ;
            }
            k = k + 1;
        }
        if k == length {
            proof {
                assert(self.text().subrange(self.tok_start() + off, self.cur() as int) =~= rest@);
            }
            typ
        } else {
            proof {
                assert(self.text().subrange(self.tok_start() + off, self.cur() as int)[k as int]
                    == self.text()[base + k]);
            }
            TokenType::Identifier
        }
    }
}

impl<'src> Scanner<'src> {
    /// Decides whether the current lexeme is a reserved word, dispatching
    /// on its first characters and checking the remainder.
    fn identifier_type(&self) -> (r: TokenType)
        requires
            self.wf(),
            self.tok_start() < self.cur(),
        ensures
            r == keyword_type(self.text().subrange(self.tok_start() as int, self.cur() as int)),
    {
        let ghost lex = self.text().subrange(self.tok_start() as int, self.cur() as int);
        proof {
            reveal_strlit("and");
            reveal_strlit("class");
            reveal_strlit("else");
            reveal_strlit("false");
            reveal_strlit("for");
            reveal_strlit("fun");
            reveal_strlit("if");
            reveal_strlit("nil");
            reveal_strlit("or");
            reveal_strlit("print");
            reveal_strlit("return");
            reveal_strlit("super");
            reveal_strlit("this");
            reveal_strlit("true");
            reveal_strlit("var");
            reveal_strlit("while");
            reveal_strlit("nd");
            reveal_strlit("lass");
            reveal_strlit("lse");
            reveal_strlit("alse");
            reveal_strlit("r");
            reveal_strlit("n");
            reveal_strlit("f");
            reveal_strlit("il");
            reveal_strlit("rint");
            reveal_strlit("eturn");
            reveal_strlit("uper");
            reveal_strlit("is");
            reveal_strlit("ue");
            reveal_strlit("ar");
            reveal_strlit("hile");
            assert("and"@.subrange(1, 3) =~= "nd"@);
            assert("class"@.subrange(1, 5) =~= "lass"@);
            assert("else"@.subrange(1, 4) =~= "lse"@);
            assert("false"@.subrange(2, 5) =~= "lse"@);
            assert("for"@.subrange(2, 3) =~= "r"@);
            assert("fun"@.subrange(2, 3) =~= "n"@);
            assert("if"@.subrange(1, 2) =~= "f"@);
            assert("nil"@.subrange(1, 3) =~= "il"@);
            assert("or"@.subrange(1, 2) =~= "r"@);
            assert("print"@.subrange(1, 5) =~= "rint"@);
            assert("return"@.subrange(1, 6) =~= "eturn"@);
            assert("super"@.subrange(1, 5) =~= "uper"@);
            assert("this"@.subrange(2, 4) =~= "is"@);
            assert("true"@.subrange(2, 4) =~= "ue"@);
            assert("var"@.subrange(1, 3) =~= "ar"@);
            assert("while"@.subrange(1, 5) =~= "hile"@);
            assert(lex[0] == self.text()[self.tok_start() as int]);
            assert(lex.subrange(1, lex.len() as int) =~= self.text().subrange(
                self.tok_start() as int + 1,
                self.cur() as int,
            ));
            if lex.len() >= 2 {
                assert(lex[1] == self.text()[self.tok_start() as int + 1]);
                assert(lex.subrange(2, lex.len() as int) =~= self.text().subrange(
                    self.tok_start() as int + 2,
                    self.cur() as int,
                ));
            }
        }
        let c = self.source.get_char(self.start);
        match c {
            'a' => {
                let r = self.check_keyword(1, 2, "nd", TokenType::And);
                proof {
                    kw_case(lex, "and"@, "nd"@, 1);
                }
                r
            },
            'c' => {
                let r = self.check_keyword(1, 4, "lass", TokenType::Class);
                proof {
                    kw_case(lex, "class"@, "lass"@, 1);
                }
                r
            },
            'e' => {
                let r = self.check_keyword(1, 3, "lse", TokenType::Else);
                proof {
                    kw_case(lex, "else"@, "lse"@, 1);
                }
                r
            },
            'f' => {
                if self.current - self.start > 1 {
                    let c1 = self.source.get_char(self.start + 1);
                    match c1 {
                        'a' => {
                            let r = self.check_keyword(2, 3, "lse", TokenType::False);
                            proof {
                                kw_case(lex, "false"@, "lse"@, 2);
                            }
                            r
                        },
                        'o' => {
                            let r = self.check_keyword(2, 1, "r", TokenType::For);
                            proof {
                                kw_case(lex, "for"@, "r"@, 2);
                            }
                            r
                        },
                        'u' => {
                            let r = self.check_keyword(2, 1, "n", TokenType::Fun);
                            proof {
                                kw_case(lex, "fun"@, "n"@, 2);
                            }
                            r
                        },
                        _ => TokenType::Identifier,
                    }
                } else {
                    TokenType::Identifier
                }
            },
            'i' => {
                let r = self.check_keyword(1, 1, "f", TokenType::If);
                proof {
                    kw_case(lex, "if"@, "f"@, 1);
                }
                r
            },
            'n' => {
                let r = self.check_keyword(1, 2, "il", TokenType::Nil);
                proof {
                    kw_case(lex, "nil"@, "il"@, 1);
                }
                r
            },
            'o' => {
                let r = self.check_keyword(1, 1, "r", TokenType::Or);
                proof {
                    kw_case(lex, "or"@, "r"@, 1);
                }
                r
            },
            'p' => {
                let r = self.check_keyword(1, 4, "rint", TokenType::Print);
                proof {
                    kw_case(lex, "print"@, "rint"@, 1);
                }
                r
            },
            'r' => {
                let r = self.check_keyword(1, 5, "eturn", TokenType::Return);
                proof {
                    kw_case(lex, "return"@, "eturn"@, 1);
                }
                r
            },
            's' => {
                let r = self.check_keyword(1, 4, "uper", TokenType::Super);
                proof {
                    kw_case(lex, "super"@, "uper"@, 1);
                }
                r
            },
            't' => {
                if self.current - self.start > 1 {
                    let c1 = self.source.get_char(self.start + 1);
                    match c1 {
                        'h' => {
                            let r = self.check_keyword(2, 2, "is", TokenType::This);
                            proof {
                                kw_case(lex, "this"@, "is"@, 2);
                            }
                            r
                        },
                        'r' => {
                            let r = self.check_keyword(2, 2, "ue", TokenType::True);
                            proof {
                                kw_case(lex, "true"@, "ue"@, 2);
                            }
                            r
                        },
                        _ => TokenType::Identifier,
                    }
                } else {
                    TokenType::Identifier
                }
            },
            'v' => {
                let r = self.check_keyword(1, 2, "ar", TokenType::Var);
                proof {
                    kw_case(lex, "var"@, "ar"@, 1);
                }
                r
            },
            'w' => {
                let r = self.check_keyword(1, 4, "hile", TokenType::While);
                proof {
                    kw_case(lex, "while"@, "hile"@, 1);
                }
                r
            },
            _ => TokenType::Identifier,
        }
    }
}

impl<'src> Scanner<'src> {
    /// Produces the next token. After the end of the input it yields `Eof`
    /// tokens forever. Lexical faults are `Error` tokens whose text is the
    /// diagnostic message, never a stop.
    pub fn scan_token(&mut self) -> (tok: Token<'src>)
        requires
            old(self).wf(),
        ensures
            final(self).wf(),
            final(self).text() == old(self).text(),
            ({
                let r = spec_scan(old(self).text(), old(self).cur(), old(self).cur_line());
                &&& final(self).cur() == r.end
                &&& final(self).tok_start() == r.start
                &&& final(self).cur_line() == r.line
                &&& tok.typ == r.typ
                &&& tok.name@ == r.lex
                &&& tok.line == r.line
            }),
    {
        self.skip_whitespace();
        self.start = self.current;
        if self.is_at_end() {
            let tok = self.make_token(TokenType::Eof);
            proof {
                assert(tok.name@ =~= Seq::<char>::empty());
            }
            return tok;
        }
        let c = self.advance();
        if alpha_char(c) {
            return self.identifier();
        }
        if digit_char(c) {
            return self.number();
        }
        match c {
            '(' => self.make_token(TokenType::LeftParen),
            ')' => self.make_token(TokenType::RightParen),
            '{' => self.make_token(TokenType::LeftBrace),
            '}' => self.make_token(TokenType::RightBrace),
            ';' => self.make_token(TokenType::Semicolon),
            ',' => self.make_token(TokenType::Comma),
            '.' => self.make_token(TokenType::Dot),
            '-' => self.make_token(TokenType::Minus),
            '+' => self.make_token(TokenType::Plus),
            '/' => self.make_token(TokenType::Slash),
            '*' => self.make_token(TokenType::Star),
            '!' => {
                let t = if self.matches('=') {
                    TokenType::BangEqual
                } else {
                    TokenType::Bang
                };
                self.make_token(t)
            },
            '=' => {
                let t = if self.matches('=') {
                    TokenType::EqualEqual
                } else {
                    TokenType::Equal
                };
                self.make_token(t)
            },
            '<' => {
                let t = if self.matches('=') {
                    TokenType::LessEqual
                } else {
                    TokenType::Less
                };
                self.make_token(t)
            },
            '>' => {
                let t = if self.matches('=') {
                    TokenType::GreaterEqual
                } else {
                    TokenType::Greater
                };
                self.make_token(t)
            },
            '"' => self.string(),
            _ => self.error_token("Unexpected character."),
        }
    }
}

/// A lexeme whose first `off` characters match those of the reserved word
/// `kw` is `kw` exactly when its tail from `off` is the rest of `kw` and
/// nothing follows.
proof fn kw_case(lex: Seq<char>, kw: Seq<char>, rest: Seq<char>, off: int)
    requires
        0 < off,
        off + rest.len() == kw.len(),
        kw.subrange(off, kw.len() as int) == rest,
        forall|t: int| 0 <= t < off ==> 0 <= t < lex.len() && lex[t] == kw[t],
    ensures
        (lex.len() == off + rest.len() && lex.subrange(off, lex.len() as int) == rest) <==> lex
            == kw,
{
    if lex.len() == off + rest.len() && lex.subrange(off, lex.len() as int) == rest {
        assert forall|t: int| 0 <= t < kw.len() implies lex[t] == kw[t] by {
            if t >= off {
                assert(lex[t] == lex.subrange(off, lex.len() as int)[t - off]);
                assert(kw[t] == kw.subrange(off, kw.len() as int)[t - off]);
            }
        }
        assert(lex =~= kw);
    }
    if lex == kw {
        assert(lex.subrange(off, lex.len() as int) =~= rest);
    }
}

/// Decimal digit, executable form.
fn digit_char(c: char) -> (r: bool)
    ensures
        r == is_digit_c(c),
{
    let n = c as u32;
    48 <= n && n <= 57
}

/// Letter or underscore, executable form.
fn alpha_char(c: char) -> (r: bool)
    ensures
        r == is_alpha_c(c),
{
    let n = c as u32;
    (97 <= n && n <= 122) || (65 <= n && n <= 90) || n == 95
}

/// Extending a range on the right adds the newline count of the one new
/// character.
proof fn lemma_nl_snoc(s: Seq<char>, i: nat, j: nat)
    requires
        i <= j < s.len(),
    ensures
        nl_count(s, i, (j + 1) as nat) == nl_count(s, i, j) + (if s[j as int] == '\n' {
            1nat
        } else {
            0nat
        }),
    decreases j - i,
{
    if i < j {
        lemma_nl_snoc(s, (i + 1) as nat, j);
        assert(nl_count(s, i, (j + 1) as nat) == (if s[i as int] == '\n' {
            1nat
        } else {
            0nat
        }) + nl_count(s, (i + 1) as nat, (j + 1) as nat));
        assert(nl_count(s, i, j) == (if s[i as int] == '\n' {
            1nat
        } else {
            0nat
        }) + nl_count(s, (i + 1) as nat, j));
    } else {
        assert(nl_count(s, i, (j + 1) as nat) == (if s[i as int] == '\n' {
            1nat
        } else {
            0nat
        }) + nl_count(s, (i + 1) as nat, (j + 1) as nat));
        assert(nl_count(s, (i + 1) as nat, (j + 1) as nat) == 0);
    }
}

/// Skipping whitespace stays within the source, never moves backward, and
/// never decreases the line counter.
pub proof fn lemma_skip_ws_bounds(s: Seq<char>, i: nat, line: nat, in_comment: bool)
    requires
        i <= s.len(),
    ensures
        ({
            let (j, l) = skip_ws_from(s, i, line, in_comment);
            i <= j <= s.len() && line <= l
        }),
    decreases s.len() - i, (if in_comment { 1int } else { 0int }),
{
    if i >= s.len() {
    } else if in_comment {
        if s[i as int] == '\n' {
            lemma_skip_ws_bounds(s, i, line, false);
        } else {
            lemma_skip_ws_bounds(s, (i + 1) as nat, line, true);
        }
    } else {
        let c = s[i as int];
        if c == ' ' || c == '\r' || c == '\t' {
            lemma_skip_ws_bounds(s, (i + 1) as nat, line, false);
        } else if c == '\n' {
            lemma_skip_ws_bounds(s, (i + 1) as nat, (line + 1) as nat, false);
        } else if c == '/' && i + 1 < s.len() && s[i as int + 1] == '/' {
            lemma_skip_ws_bounds(s, (i + 2) as nat, line, true);
        }
    }
}

/// A digit run stays within the source and never moves backward.
pub proof fn lemma_digits_end_bounds(s: Seq<char>, i: nat)
    requires
        i <= s.len(),
    ensures
        i <= digits_end(s, i) <= s.len(),
    decreases s.len() - i,
{
    if i < s.len() && is_digit_c(s[i as int]) {
        lemma_digits_end_bounds(s, (i + 1) as nat);
    }
}

/// An identifier run stays within the source and never moves backward.
pub proof fn lemma_ident_end_bounds(s: Seq<char>, i: nat)
    requires
        i <= s.len(),
    ensures
        i <= ident_end(s, i) <= s.len(),
    decreases s.len() - i,
{
    if i < s.len() && is_alnum_c(s[i as int]) {
        lemma_ident_end_bounds(s, (i + 1) as nat);
    }
}

/// The search for a closing quote stays within the source.
pub proof fn lemma_quote_end_bounds(s: Seq<char>, i: nat)
    requires
        i <= s.len(),
    ensures
        i <= quote_end(s, i) <= s.len(),
    decreases s.len() - i,
{
    if i < s.len() && s[i as int] != '"' {
        lemma_quote_end_bounds(s, (i + 1) as nat);
    }
}

/// Every token lies within the source and ends no earlier than it starts;
/// a token that is not `Eof` is nonempty, and an `Eof` token stands at the
/// very end of the source.
pub proof fn lemma_scan_bounds(s: Seq<char>, pos: nat, line: nat)
    requires
        pos <= s.len(),
    ensures
        ({
            let r = spec_scan(s, pos, line);
            &&& pos <= r.start
            &&& r.start <= r.end <= s.len()
            &&& line <= r.line
            &&& (r.typ == TokenType::Eof <==> r.start >= s.len())
            &&& (r.typ == TokenType::Eof ==> r.end == s.len())
            &&& (r.typ != TokenType::Eof ==> r.start < r.end)
        }),
{
    lemma_skip_ws_bounds(s, pos, line, false);
    let (i, l) = skip_ws_from(s, pos, line, false);
    if i < s.len() {
        let c = s[i as int];
        if is_alpha_c(c) {
            lemma_ident_end_bounds(s, (i + 1) as nat);
        } else if is_digit_c(c) {
            lemma_digits_end_bounds(s, (i + 1) as nat);
            let d = digits_end(s, (i + 1) as nat);
            if d + 1 < s.len() && s[d as int] == '.' && is_digit_c(s[d as int + 1]) {
                lemma_digits_end_bounds(s, (d + 2) as nat);
            }
        } else if c == '"' {
            lemma_quote_end_bounds(s, (i + 1) as nat);
        }
    }
}


/// Every character before the end of a digit run is a digit.
pub proof fn lemma_digits_range(s: Seq<char>, i: nat)
    requires
        i <= s.len(),
    ensures
        forall|j: int| i <= j < digits_end(s, i) ==> is_digit_c(s[j]),
    decreases s.len() - i,
{
    if i < s.len() && is_digit_c(s[i as int]) {
        lemma_digits_range(s, (i + 1) as nat);
    }
}

/// The shapes of token texts: a number token's text is a number lexeme,
/// and a string token's text keeps its two quotes.
pub proof fn lemma_scan_token_shape(s: Seq<char>, pos: nat, line: nat)
    requires
        pos <= s.len(),
    ensures
        ({
            let r = spec_scan(s, pos, line);
            &&& (r.typ == TokenType::Number ==> is_number_lexeme(r.lex))
            &&& (r.typ == TokenType::String ==> r.lex.len() >= 2)
        }),
{
    lemma_skip_ws_bounds(s, pos, line, false);
    let (i, l) = skip_ws_from(s, pos, line, false);
    let r = spec_scan(s, pos, line);
    if i < s.len() {
        let c = s[i as int];
        if is_alpha_c(c) {
        } else if is_digit_c(c) {
            lemma_digits_end_bounds(s, (i + 1) as nat);
            lemma_digits_range(s, (i + 1) as nat);
            let d = digits_end(s, (i + 1) as nat);
            let e = number_end(s, (i + 1) as nat);
            let lex = s.subrange(i as int, e as int);
            if d + 1 < s.len() && s[d as int] == '.' && is_digit_c(s[d as int + 1]) {
                lemma_digits_end_bounds(s, (d + 2) as nat);
                lemma_digits_range(s, (d + 2) as nat);
                let k = d - i;
                assert(lex.subrange(0, k as int).len() >= 0);
                assert(1 <= k <= lex.len());
                assert forall|t: int| 0 <= t < k implies is_digit_c(lex[t]) by {
                    assert(lex[t] == s[i + t]);
                }
                assert(lex[k as int] == s[d as int]);
                assert forall|t: int| k + 1 <= t < lex.len() implies is_digit_c(lex[t]) by {
                    assert(lex[t] == s[i + t]);
                }
                assert(is_number_lexeme(lex));
            } else {
                let k = e - i;
                assert(lex.subrange(0, k as int).len() >= 0);
                assert(1 <= k <= lex.len());
                assert forall|t: int| 0 <= t < k implies is_digit_c(lex[t]) by {
                    assert(lex[t] == s[i + t]);
                }
                assert(is_number_lexeme(lex));
            }
        } else if c == '"' {
            lemma_quote_end_bounds(s, (i + 1) as nat);
        }
    }
}

} // verus!
