use vstd::prelude::*;
use vstd::string::{StrSliceExecFns, StringExecFns};
use crate::chunk::{chunk_wf, op_wf, Chunk, OpCode};
use crate::num::{decimal_string, spec_decimal};
use crate::scanner::{lemma_scan_bounds, spec_scan, Scanner, Token, TokenType};
use crate::table::{table_wf, Table};
use crate::value::Value;

verus! {

/// The precedence ladder of the Pratt parser, lowest first.
#[derive(Debug, Clone, Copy)]
pub enum Precedence {
    NoPrec,
    Assignment,
    Or,
    And,
    Equality,
    Comparison,
    Term,
    Factor,
    Unary,
    Call,
    Primary,
}

/// The rung of a precedence, for comparing precedences.
pub open spec fn spec_prec_rank(p: Precedence) -> int {
    match p {
        Precedence::NoPrec => 0,
        Precedence::Assignment => 1,
        Precedence::Or => 2,
        Precedence::And => 3,
        Precedence::Equality => 4,
        Precedence::Comparison => 5,
        Precedence::Term => 6,
        Precedence::Factor => 7,
        Precedence::Unary => 8,
        Precedence::Call => 9,
        Precedence::Primary => 10,
    }
}

fn prec_rank(p: Precedence) -> (r: u8)
    ensures
        r as int == spec_prec_rank(p),
{
    match p {
        Precedence::NoPrec => 0,
        Precedence::Assignment => 1,
        Precedence::Or => 2,
        Precedence::And => 3,
        Precedence::Equality => 4,
        Precedence::Comparison => 5,
        Precedence::Term => 6,
        Precedence::Factor => 7,
        Precedence::Unary => 8,
        Precedence::Call => 9,
        Precedence::Primary => 10,
    }
}

impl Precedence {
    /// The immediately higher rung; `Primary` saturates.
    pub fn next(&self) -> (r: Precedence)
        ensures
            spec_prec_rank(r) == (if spec_prec_rank(*self) < 10 {
                spec_prec_rank(*self) + 1
            } else {
                10int
            }),
    {
        match *self {
            Precedence::NoPrec => Precedence::Assignment,
            Precedence::Assignment => Precedence::Or,
            Precedence::Or => Precedence::And,
            Precedence::And => Precedence::Equality,
            Precedence::Equality => Precedence::Comparison,
            Precedence::Comparison => Precedence::Term,
            Precedence::Term => Precedence::Factor,
            Precedence::Factor => Precedence::Unary,
            Precedence::Unary => Precedence::Call,
            Precedence::Call => Precedence::Primary,
            Precedence::Primary => Precedence::Primary,
        }
    }
}

/// The parse functions a token can carry in the rule table.
#[derive(Debug, Clone, Copy)]
pub enum ParseFnId {
    Grouping,
    Unary,
    Binary,
    NumberLit,
    StringLit,
    Literal,
    Variable,
}

/// One row of the rule table: the prefix and infix handlers of a token
/// type, and its infix precedence.
#[derive(Debug, Clone, Copy)]
pub struct ParseRule {
    pub prefix: Option<ParseFnId>,
    pub infix: Option<ParseFnId>,
    pub precedence: Precedence,
}

/// The flat parse-rule table, indexed by token type: which prefix and infix
/// handler each token carries, and its infix precedence.
pub open spec fn spec_rule(typ: TokenType) -> ParseRule {
    match typ {
        TokenType::LeftParen => ParseRule {
            prefix: Some(ParseFnId::Grouping),
            infix: None,
            precedence: Precedence::NoPrec,
        },
        TokenType::Minus => ParseRule {
            prefix: Some(ParseFnId::Unary),
            infix: Some(ParseFnId::Binary),
            precedence: Precedence::Term,
        },
        TokenType::Plus => ParseRule {
            prefix: None,
            infix: Some(ParseFnId::Binary),
            precedence: Precedence::Term,
        },
        TokenType::Slash => ParseRule {
            prefix: None,
            infix: Some(ParseFnId::Binary),
            precedence: Precedence::Factor,
        },
        TokenType::Star => ParseRule {
            prefix: None,
            infix: Some(ParseFnId::Binary),
            precedence: Precedence::Factor,
        },
        TokenType::Bang => ParseRule {
            prefix: Some(ParseFnId::Unary),
            infix: None,
            precedence: Precedence::NoPrec,
        },
        TokenType::BangEqual => ParseRule {
            prefix: None,
            infix: Some(ParseFnId::Binary),
            precedence: Precedence::Equality,
        },
        TokenType::EqualEqual => ParseRule {
            prefix: None,
            infix: Some(ParseFnId::Binary),
            precedence: Precedence::Equality,
        },
        TokenType::Greater => ParseRule {
            prefix: None,
            infix: Some(ParseFnId::Binary),
            precedence: Precedence::Comparison,
        },
        TokenType::GreaterEqual => ParseRule {
            prefix: None,
            infix: Some(ParseFnId::Binary),
            precedence: Precedence::Comparison,
        },
        TokenType::Less => ParseRule {
            prefix: None,
            infix: Some(ParseFnId::Binary),
            precedence: Precedence::Comparison,
        },
        TokenType::LessEqual => ParseRule {
            prefix: None,
            infix: Some(ParseFnId::Binary),
            precedence: Precedence::Comparison,
        },
        TokenType::Identifier => ParseRule {
            prefix: Some(ParseFnId::Variable),
            infix: None,
            precedence: Precedence::NoPrec,
        },
        TokenType::String => ParseRule {
            prefix: Some(ParseFnId::StringLit),
            infix: None,
            precedence: Precedence::NoPrec,
        },
        TokenType::Number => ParseRule {
            prefix: Some(ParseFnId::NumberLit),
            infix: None,
            precedence: Precedence::NoPrec,
        },
        TokenType::False => ParseRule {
            prefix: Some(ParseFnId::Literal),
            infix: None,
            precedence: Precedence::NoPrec,
        },
        TokenType::Nil => ParseRule {
            prefix: Some(ParseFnId::Literal),
            infix: None,
            precedence: Precedence::NoPrec,
        },
        TokenType::True => ParseRule {
            prefix: Some(ParseFnId::Literal),
            infix: None,
            precedence: Precedence::NoPrec,
        },
        _ => ParseRule { prefix: None, infix: None, precedence: Precedence::NoPrec },
    }
}

/// A local variable at compile time: its name token and its scope depth,
/// `None` while it is declared but its initializer is still compiling.
#[derive(Debug, Clone, Copy)]
pub struct Local<'src> {
    pub name: Token<'src>,
    pub depth: Option<usize>,
}

/// The parser state: one token of lookahead, the token before it, and the
/// error flags.
pub struct Parser<'src> {
    pub current: Option<Token<'src>>,
    pub previous: Option<Token<'src>>,
    pub had_error: bool,
    pub panic_mode: bool,
}

impl<'src> Parser<'src> {
    pub fn new() -> (r: Parser<'src>)
        ensures
            r.current is None,
            r.previous is None,
            !r.had_error,
            !r.panic_mode,
    {
        Parser { current: None, previous: None, had_error: false, panic_mode: false }
    }
}

/// The scope frame: the stack of locals and the current block depth.
pub struct Compiler2<'src> {
    pub locals: Vec<Local<'src>>,
    pub scope_depth: usize,
}

impl<'src> Compiler2<'src> {
    pub fn new() -> (r: Compiler2<'src>)
        ensures
            r.locals@ =~= Seq::<Local<'src>>::empty(),
            r.scope_depth == 0,
    {
        Compiler2 { locals: Vec::new(), scope_depth: 0 }
    }
}

/// A failed compilation; the diagnostics say why.
#[derive(Debug, Clone, Copy, PartialEq, Eq, Structural)]
pub struct CompileError;

/// The single-pass compiler: it drives the scanner, emits into its chunk,
/// interns strings into its table, and collects diagnostics.
pub struct Compiler<'src> {
    scanner: Scanner<'src>,
    parser: Parser<'src>,
    current: Compiler2<'src>,
    chunk: Chunk,
    strings: Table,
    diagnostics: Vec<String>,
}

/// What scanning guarantees of a token's text: a number token's text is a
/// number lexeme (so it parses), and a string token's text keeps its two
/// quotes.
pub open spec fn token_shape_ok<'a>(t: Token<'a>) -> bool {
    &&& (t.typ == TokenType::Number ==> crate::scanner::is_number_lexeme(t.name@))
    &&& (t.typ == TokenType::String ==> t.name@.len() >= 2)
}

/// Every global-access opcode names a string constant whose handle is
/// live in the table: what `GetGlobal`, `DefineGlobal` and `SetGlobal`
/// look up at run time is always an interned name.
pub open spec fn global_ops_stringly(code: Seq<OpCode>, consts: Seq<Value>, pool: Seq<Seq<char>>) -> bool {
    forall|pc: int|
        0 <= pc < code.len() ==> ({
            &&& ((#[trigger] code[pc]) matches OpCode::GetGlobal(g) ==> ((g as int)
                < consts.len() && (consts[g as int] matches Value::Str(h) && (h as int)
                < pool.len())))
            &&& (code[pc] matches OpCode::DefineGlobal(g) ==> ((g as int) < consts.len() && (
            consts[g as int] matches Value::Str(h) && (h as int) < pool.len())))
            &&& (code[pc] matches OpCode::SetGlobal(g) ==> ((g as int) < consts.len() && (
            consts[g as int] matches Value::Str(h) && (h as int) < pool.len())))
        })
}

/// Every string constant of the chunk is a live handle into the table.
pub open spec fn strings_valid(c: Chunk, t: Table) -> bool {
    forall|i: int|
        0 <= i < c.constants.values@.len() ==> ((#[trigger] c.constants.values@[i]) matches
        Value::Str(h) ==> (h as int) < t@.len())
}

/// The text of one compile diagnostic: the line, where the error stood
/// (the lexeme, `at end`, or nothing for lexical error tokens), and the
/// message.
pub open spec fn spec_diag(typ: TokenType, name: Seq<char>, line: nat, msg: Seq<char>) -> Seq<
    char,
> {
    "[line "@ + spec_decimal(line) + "] Error"@ + (if typ == TokenType::Eof {
        " at end"@
    } else if typ == TokenType::Error {
        Seq::<char>::empty()
    } else {
        " at "@ + name
    }) + ": "@ + msg
}

impl<'src> Compiler<'src> {
    pub closed spec fn sc(self) -> Scanner<'src> {
        self.scanner
    }

    pub closed spec fn ps(self) -> Parser<'src> {
        self.parser
    }

    pub closed spec fn frame(self) -> Compiler2<'src> {
        self.current
    }

    pub closed spec fn ch(self) -> Chunk {
        self.chunk
    }

    pub closed spec fn tbl(self) -> Table {
        self.strings
    }

    pub closed spec fn diags(self) -> Seq<Seq<char>> {
        self.diagnostics@.map(|i: int, s: String| s@)
    }

    /// The compiler invariant: the scanner is sound, the chunk and the
    /// interning table are well formed and every string constant points
    /// into the table, at most 256 locals exist, the block depth stays
    /// below the position of the buffered token, number and string tokens
    /// have the shapes scanning promises, the error flag agrees with the
    /// diagnostics, and a buffered `Eof` token means the scanner is done.
    pub open spec fn wf(self) -> bool {
        &&& self.sc().wf()
        &&& chunk_wf(self.ch())
        &&& table_wf(self.tbl())
        &&& self.frame().locals@.len() <= 256
        &&& self.frame().scope_depth <= self.sc().tok_start()
        &&& strings_valid(self.ch(), self.tbl())
        &&& (self.ps().had_error || global_ops_stringly(
            self.ch().code@,
            self.ch().constants.values@,
            self.tbl()@,
        ))
        &&& (match self.ps().current {
            Some(t) => token_shape_ok(t),
            None => true,
        }
        )
        &&& (match self.ps().previous {
            Some(t) => token_shape_ok(t),
            None => true,
        }
        )
        &&& (match self.ps().current {
            Some(t) => t.typ != TokenType::Eof ==> self.sc().tok_start() < self.sc().cur(),
            None => true,
        }
        )
        &&& (self.ps().had_error <==> self.diags().len() > 0)
        &&& (self.ps().panic_mode ==> self.ps().had_error)
        &&& (match self.ps().current {
            Some(t) => t.typ == TokenType::Eof ==> self.sc().cur() == self.sc().text().len(),
            None => true,
        })
    }

    /// The termination measure of the parse: characters not yet scanned,
    /// plus one for a buffered token that is not `Eof`.
    pub open spec fn measure(self) -> int {
        self.sc().text().len() - self.sc().cur() + (match self.ps().current {
            Some(t) => if t.typ == TokenType::Eof {
                0int
            } else {
                1int
            },
            None => 0int,
        })
    }

    /// What every step of the parse preserves: the source and the
    /// invariant; the measure never grows and errors are never forgotten;
    /// emitted code, constants and interned strings are never rewritten,
    /// only extended (a jump patch touches only code emitted after `o`);
    /// the block depth is restored; and the token buffers stay filled.
    pub open spec fn evolves_from(self, o: Compiler<'src>) -> bool {
        &&& self.wf()
        &&& self.sc().text() == o.sc().text()
        &&& self.measure() <= o.measure()
        &&& (o.ps().had_error ==> self.ps().had_error)
        &&& o.ch().code@.len() <= self.ch().code@.len()
        &&& (forall|i: int|
            0 <= i < o.ch().code@.len() ==> self.ch().code@[i] == o.ch().code@[i])
        &&& o.ch().constants.values@.len() <= self.ch().constants.values@.len()
        &&& (forall|i: int|
            0 <= i < o.ch().constants.values@.len() ==> self.ch().constants.values@[i]
                == o.ch().constants.values@[i])
        &&& o.tbl()@.len() <= self.tbl()@.len()
        &&& (forall|i: int| 0 <= i < o.tbl()@.len() ==> self.tbl()@[i] == o.tbl()@[i])
        &&& self.frame().scope_depth == o.frame().scope_depth
        &&& self.ps().current is Some
        &&& self.ps().previous is Some
    }

    pub fn new(source: &'src str, strings: Table) -> (r: Compiler<'src>)
        requires
            source@.len() < usize::MAX,
            table_wf(strings),
        ensures
            r.wf(),
            r.sc().text() == source@,
            r.sc().cur() == 0,
            r.sc().cur_line() == 1,
            r.ps().current is None,
            r.ps().previous is None,
            !r.ps().had_error,
            r.ch().code@ =~= Seq::<OpCode>::empty(),
            r.ch().constants.values@ =~= Seq::<Value>::empty(),
            r.ch().lines@ =~= Seq::<usize>::empty(),
            r.tbl() == strings,
            r.diags() =~= Seq::<Seq<char>>::empty(),
            r.frame().scope_depth == 0,
            r.frame().locals@.len() == 0,
    {
        Compiler {
            scanner: Scanner::new(source),
            parser: Parser::new(),
            current: Compiler2::new(),
            chunk: Chunk::new(),
            strings,
            diagnostics: Vec::new(),
        }
    }

    /// Hands back the compiled chunk, the interning table, and the
    /// diagnostics.
    pub fn into_parts(self) -> (r: (Chunk, Table, Vec<String>))
        ensures
            r.0 == self.ch(),
            r.1 == self.tbl(),
            r.2@.map(|i: int, s: String| s@) == self.diags(),
    {
        (self.chunk, self.strings, self.diagnostics)
    }

    /// Reports a diagnostic at a token, unless the compiler is already in
    /// panic mode; enters panic mode either way.
    fn error_at(&mut self, token: Token<'src>, message: &str)
        requires
            old(self).wf(),
        ensures
            final(self).wf(),
            final(self).scanner == old(self).scanner,
            final(self).parser.current == old(self).parser.current,
            final(self).parser.previous == old(self).parser.previous,
            final(self).chunk == old(self).chunk,
            final(self).current == old(self).current,
            final(self).strings == old(self).strings,
            final(self).parser.panic_mode,
            final(self).parser.had_error,
            old(self).parser.panic_mode ==> final(self).diags() == old(self).diags(),
            !old(self).parser.panic_mode ==> final(self).diags() == old(self).diags().push(
                spec_diag(token.typ, token.name@, token.line as nat, message@),
            ),
    {
        if self.parser.panic_mode {
            proof {
                assert(self.diagnostics@.map(|i: int, s: String| s@) == old(self).diagnostics@.map(|i: int, s: String| s@));
            }
            return ;
        }
        self.parser.panic_mode = true;
        self.parser.had_error = true;
        let mut d = String::new();
        d.append("[line ");
        let num = decimal_string(token.line);
        d.append(num.as_str());
        d.append("] Error");
        match token.typ {
            TokenType::Eof => {
                d.append(" at end");
            },
            TokenType::Error => {},
            _ => {
                d.append(" at ");
                d.append(token.name);
            },
        }
        d.append(": ");
        d.append(message);
        proof {
            assert(d@ =~= spec_diag(token.typ, token.name@, token.line as nat, message@));
        }
        let ghost before = self.diagnostics@;
        self.diagnostics.push(d);
        proof {
            assert(self.diagnostics@.map(|i: int, s: String| s@) =~= before.map(
                |i: int, s: String| s@,
            ).push(d@));
        }
    }

    /// Reports a diagnostic at the lookahead token.
    fn error_at_current(&mut self, message: &str)
        requires
            old(self).wf(),
            old(self).parser.current is Some,
        ensures
            final(self).wf(),
            final(self).scanner == old(self).scanner,
            final(self).parser.current == old(self).parser.current,
            final(self).parser.previous == old(self).parser.previous,
            final(self).chunk == old(self).chunk,
            final(self).current == old(self).current,
            final(self).strings == old(self).strings,
            final(self).parser.panic_mode,
            final(self).parser.had_error,
            old(self).parser.panic_mode ==> final(self).diags() == old(self).diags(),
            !old(self).parser.panic_mode ==> final(self).diags() == old(self).diags().push(
                spec_diag(
                    old(self).parser.current.unwrap().typ,
                    old(self).parser.current.unwrap().name@,
                    old(self).parser.current.unwrap().line as nat,
                    message@,
                ),
            ),
    {
        let token = self.parser.current.unwrap();
        self.error_at(token, message);
    }

    /// Reports a diagnostic at the token just consumed.
    fn error(&mut self, message: &str)
        requires
            old(self).wf(),
            old(self).parser.previous is Some,
        ensures
            final(self).wf(),
            final(self).scanner == old(self).scanner,
            final(self).parser.current == old(self).parser.current,
            final(self).parser.previous == old(self).parser.previous,
            final(self).chunk == old(self).chunk,
            final(self).current == old(self).current,
            final(self).strings == old(self).strings,
            final(self).parser.panic_mode,
            final(self).parser.had_error,
            old(self).parser.panic_mode ==> final(self).diags() == old(self).diags(),
            !old(self).parser.panic_mode ==> final(self).diags() == old(self).diags().push(
                spec_diag(
                    old(self).parser.previous.unwrap().typ,
                    old(self).parser.previous.unwrap().name@,
                    old(self).parser.previous.unwrap().line as nat,
                    message@,
                ),
            ),
    {
        let token = self.parser.previous.unwrap();
        self.error_at(token, message);
    }

    /// Scans one token into the lookahead slot.
    fn scan_into_current(&mut self)
        requires
            old(self).wf(),
        ensures
            final(self).wf(),
            final(self).scanner.text() == old(self).scanner.text(),
            final(self).parser.previous == old(self).parser.previous,
            final(self).parser.had_error == old(self).parser.had_error,
            final(self).parser.panic_mode == old(self).parser.panic_mode,
            final(self).chunk == old(self).chunk,
            final(self).current == old(self).current,
            final(self).strings == old(self).strings,
            final(self).diagnostics == old(self).diagnostics,
            final(self).parser.current is Some,
            final(self).measure() <= old(self).measure(),
            final(self).scanner.tok_start() >= old(self).scanner.cur(),
            final(self).scanner.tok_start() >= old(self).scanner.tok_start(),
            (old(self).parser.current matches Some(t) && t.typ != TokenType::Eof) ==> final(self).measure() < old(self).measure(),
            ({
                let r = spec_scan(
                    old(self).scanner.text(),
                    old(self).scanner.cur(),
                    old(self).scanner.cur_line(),
                );
                &&& (final(self).parser.current matches Some(t) && t.typ == r.typ && t.name@
                    == r.lex && t.line == r.line)
                &&& final(self).scanner.cur() == r.end
                &&& final(self).scanner.tok_start() == r.start
                &&& final(self).scanner.cur_line() == r.line
            }),
    {
        proof {
            lemma_scan_bounds(self.scanner.text(), self.scanner.cur(), self.scanner.cur_line());
            crate::scanner::lemma_scan_token_shape(
                self.scanner.text(),
                self.scanner.cur(),
                self.scanner.cur_line(),
            );
        }
        let tok = self.scanner.scan_token();
        self.parser.current = Some(tok);
    }

    /// Advances one token: the lookahead becomes the previous token, and
    /// the next non-error token becomes the lookahead. Lexical error
    /// tokens are consumed here and reported as diagnostics.
    fn advance(&mut self)
        requires
            old(self).wf(),
        ensures
            final(self).wf(),
            final(self).scanner.text() == old(self).scanner.text(),
            final(self).parser.previous == old(self).parser.current,
            final(self).parser.current matches Some(t) && t.typ != TokenType::Error,
            final(self).chunk == old(self).chunk,
            final(self).current == old(self).current,
            final(self).strings == old(self).strings,
            (old(self).parser.had_error ==> final(self).parser.had_error),
            final(self).measure() <= old(self).measure(),
            final(self).scanner.tok_start() >= old(self).scanner.cur(),
            (old(self).parser.current matches Some(t) && t.typ != TokenType::Eof) ==> final(self).measure() < old(self).measure(),
            (old(self).parser.current matches Some(t) && t.typ == TokenType::Eof) ==> (final(self).parser.current matches Some(t2) && t2.typ == TokenType::Eof),
            final(self).diags().len() >= old(self).diags().len(),
            final(self).parser.panic_mode ==> (old(self).parser.panic_mode || final(self).diags().len() > old(self).diags().len()),
            ({
                let r = spec_scan(
                    old(self).scanner.text(),
                    old(self).scanner.cur(),
                    old(self).scanner.cur_line(),
                );
                r.typ != TokenType::Error ==> ({
                    &&& final(self).diagnostics == old(self).diagnostics
                    &&& final(self).parser.panic_mode == old(self).parser.panic_mode
                    &&& final(self).parser.had_error == old(self).parser.had_error
                    &&& (final(self).parser.current matches Some(t2) && t2.typ == r.typ
                        && t2.name@ == r.lex && t2.line == r.line)
                    &&& final(self).scanner.cur() == r.end
                    &&& final(self).scanner.cur_line() == r.line
                })
            }),
    {
        self.parser.previous = self.parser.current;
        let ghost r0 = spec_scan(self.scanner.text(), self.scanner.cur(), self.scanner.cur_line());
        self.scan_into_current();
        let ghost m1 = self.measure();
        let ghost d1 = self.diags();
        loop
            invariant
                self.wf(),
                self.scanner.text() == old(self).scanner.text(),
                self.parser.previous == old(self).parser.current,
                self.parser.current is Some,
                self.chunk == old(self).chunk,
                self.current == old(self).current,
                self.strings == old(self).strings,
                (old(self).parser.had_error ==> self.parser.had_error),
                self.measure() <= m1,
                self.scanner.tok_start() >= old(self).scanner.cur(),
                (old(self).parser.current matches Some(t) && t.typ == TokenType::Eof) ==> (
                self.parser.current matches Some(t2) && t2.typ == TokenType::Eof),
                self.diags().len() >= old(self).diags().len(),
                self.parser.panic_mode ==> (old(self).parser.panic_mode || self.diags().len()
                    > old(self).diags().len()),
                r0.typ != TokenType::Error ==> ({
                    &&& self.diagnostics == old(self).diagnostics
                    &&& self.parser.panic_mode == old(self).parser.panic_mode
                    &&& self.parser.had_error == old(self).parser.had_error
                    &&& (self.parser.current matches Some(t2) && t2.typ == r0.typ && t2.name@
                        == r0.lex && t2.line == r0.line)
                    &&& self.scanner.cur() == r0.end
                    &&& self.scanner.cur_line() == r0.line
                }),
            ensures
                self.wf(),
                self.scanner.text() == old(self).scanner.text(),
                self.parser.previous == old(self).parser.current,
                self.parser.current matches Some(t) && t.typ != TokenType::Error,
                self.chunk == old(self).chunk,
                self.current == old(self).current,
                self.strings == old(self).strings,
                (old(self).parser.had_error ==> self.parser.had_error),
                self.measure() <= m1,
                self.scanner.tok_start() >= old(self).scanner.cur(),
                (old(self).parser.current matches Some(t) && t.typ == TokenType::Eof) ==> (
                self.parser.current matches Some(t2) && t2.typ == TokenType::Eof),
                self.diags().len() >= old(self).diags().len(),
                self.parser.panic_mode ==> (old(self).parser.panic_mode || self.diags().len()
                    > old(self).diags().len()),
                r0.typ != TokenType::Error ==> ({
                    &&& self.diagnostics == old(self).diagnostics
                    &&& self.parser.panic_mode == old(self).parser.panic_mode
                    &&& self.parser.had_error == old(self).parser.had_error
                    &&& (self.parser.current matches Some(t2) && t2.typ == r0.typ && t2.name@
                        == r0.lex && t2.line == r0.line)
                    &&& self.scanner.cur() == r0.end
                    &&& self.scanner.cur_line() == r0.line
                }),
            decreases self.measure(),
        {
            let tok = self.parser.current.unwrap();
            if !matches!(tok.typ, TokenType::Error) {
                break ;
            }
            let ghost dpre = self.diags();
            self.error_at(tok, tok.name);
            proof {
                assert(self.diagnostics@.map(|i: int, t: String| t@).len() >= dpre.len());
            }
            self.scan_into_current();
        }
    }

    /// Whether the lookahead token has the given type.
    fn check(&self, typ: TokenType) -> (r: bool)
        requires
            self.wf(),
            self.parser.current is Some,
        ensures
            r == (self.parser.current matches Some(t) && t.typ == typ),
    {
        let tok = self.parser.current.unwrap();
        tok.typ == typ
    }

    /// Consumes the lookahead token when it has the given type.
    fn matches(&mut self, typ: TokenType) -> (r: bool)
        requires
            old(self).wf(),
            old(self).parser.current is Some,
        ensures
            final(self).wf(),
            final(self).scanner.text() == old(self).scanner.text(),
            final(self).chunk == old(self).chunk,
            final(self).current == old(self).current,
            final(self).strings == old(self).strings,
            (old(self).parser.had_error ==> final(self).parser.had_error),
            final(self).measure() <= old(self).measure(),
            r == (old(self).parser.current matches Some(t) && t.typ == typ),
            r ==> final(self).parser.previous == old(self).parser.current,
            r ==> (final(self).parser.current matches Some(t) && t.typ != TokenType::Error),
            r ==> final(self).scanner.tok_start() >= old(self).scanner.cur(),
            (r && typ != TokenType::Eof) ==> final(self).measure() < old(self).measure(),
            (r && typ == TokenType::Eof) ==> (final(self).parser.current matches Some(t2)
                && t2.typ == TokenType::Eof),
            (r && spec_scan(old(self).sc().text(), old(self).sc().cur(), old(self).sc().cur_line()).typ
                != TokenType::Error) ==> ({
                let nxt = spec_scan(old(self).sc().text(), old(self).sc().cur(), old(self).sc().cur_line());
                &&& final(self).diagnostics == old(self).diagnostics
                &&& final(self).parser.had_error == old(self).parser.had_error
                &&& final(self).parser.panic_mode == old(self).parser.panic_mode
                &&& (final(self).parser.current matches Some(t2) && t2.typ == nxt.typ
                    && t2.name@ == nxt.lex && t2.line == nxt.line)
                &&& final(self).scanner.cur() == nxt.end
                &&& final(self).scanner.cur_line() == nxt.line
            }),
            !r ==> *final(self) == *old(self),
            final(self).parser.current is Some,
    {
        if !self.check(typ) {
            return false;
        }
        self.advance();
        true
    }

    /// Consumes the lookahead token when it has the given type; reports
    /// the message at it otherwise.
    fn consume(&mut self, typ: TokenType, message: &str)
        requires
            old(self).wf(),
            old(self).parser.current is Some,
        ensures
            final(self).wf(),
            final(self).scanner.text() == old(self).scanner.text(),
            final(self).chunk == old(self).chunk,
            final(self).current == old(self).current,
            final(self).strings == old(self).strings,
            (old(self).parser.had_error ==> final(self).parser.had_error),
            final(self).measure() <= old(self).measure(),
            final(self).parser.current is Some,
            (old(self).parser.current matches Some(t) && t.typ == typ) ==> (final(self).parser.previous == old(self).parser.current && (typ != TokenType::Eof ==> final(self).measure() < old(self).measure())),
            !(old(self).parser.current matches Some(t) && t.typ == typ) ==> (final(self).parser.had_error && final(self).parser.previous == old(self).parser.previous
                && final(self).parser.current == old(self).parser.current),
            ((old(self).parser.current matches Some(t) && t.typ == typ) && spec_scan(
                old(self).sc().text(),
                old(self).sc().cur(),
                old(self).sc().cur_line(),
            ).typ != TokenType::Error) ==> ({
                let nxt = spec_scan(old(self).sc().text(), old(self).sc().cur(), old(self).sc().cur_line());
                &&& final(self).diagnostics == old(self).diagnostics
                &&& final(self).parser.had_error == old(self).parser.had_error
                &&& final(self).parser.panic_mode == old(self).parser.panic_mode
                &&& (final(self).parser.current matches Some(t2) && t2.typ == nxt.typ
                    && t2.name@ == nxt.lex && t2.line == nxt.line)
                &&& final(self).scanner.cur() == nxt.end
                &&& final(self).scanner.cur_line() == nxt.line
            }),
            (!(old(self).parser.current matches Some(t) && t.typ == typ) && !old(self).parser.panic_mode) ==> final(self).diags() == old(self).diags().push(
                spec_diag(
                    old(self).parser.current.unwrap().typ,
                    old(self).parser.current.unwrap().name@,
                    old(self).parser.current.unwrap().line as nat,
                    message@,
                ),
            ),
    {
        let go = match &self.parser.current {
            Some(tok) => tok.typ == typ,
            None => false,
        };
        if go {
            self.advance();
            return ;
        }
        self.error_at_current(message);
    }

    /// Appends one opcode, recording the line of the token just consumed.
    fn emit_byte(&mut self, byte: OpCode)
        requires
            old(self).wf(),
            old(self).parser.previous is Some,
            op_wf(
                byte,
                old(self).chunk.code@.len() as int,
                old(self).chunk.code@.len() as int + 1,
                old(self).chunk.constants.values@.len() as int,
            ),
            (byte matches OpCode::GetGlobal(g) ==> (old(self).parser.had_error || ((g as int)
                < old(self).chunk.constants.values@.len() && (old(self).chunk.constants.values@[g as int]
                matches Value::Str(h) && (h as int) < old(self).strings@.len())))),
            (byte matches OpCode::DefineGlobal(g) ==> (old(self).parser.had_error || ((g as int)
                < old(self).chunk.constants.values@.len() && (old(self).chunk.constants.values@[g as int]
                matches Value::Str(h) && (h as int) < old(self).strings@.len())))),
            (byte matches OpCode::SetGlobal(g) ==> (old(self).parser.had_error || ((g as int)
                < old(self).chunk.constants.values@.len() && (old(self).chunk.constants.values@[g as int]
                matches Value::Str(h) && (h as int) < old(self).strings@.len())))),
        ensures
            final(self).wf(),
            final(self).scanner == old(self).scanner,
            final(self).parser == old(self).parser,
            final(self).current == old(self).current,
            final(self).strings == old(self).strings,
            final(self).diagnostics == old(self).diagnostics,
            final(self).chunk.constants == old(self).chunk.constants,
            final(self).chunk.code@ == old(self).chunk.code@.push(byte),
            final(self).chunk.lines@ == old(self).chunk.lines@.push(
                old(self).parser.previous.unwrap().line,
            ),
            final(self).chunk.lines@.len() == final(self).chunk.code@.len(),
    {
        let line = self.parser.previous.unwrap().line;
        let ghost oldc = self.chunk;
        self.chunk.write_chunk(byte, line);
        proof {
            crate::chunk::lemma_chunk_wf_grow(oldc, self.chunk);
        }
    }

    /// Appends two opcodes with the same line.
    fn emit_bytes(&mut self, first: OpCode, second: OpCode)
        requires
            old(self).wf(),
            old(self).parser.previous is Some,
            op_wf(
                first,
                old(self).chunk.code@.len() as int,
                old(self).chunk.code@.len() as int + 1,
                old(self).chunk.constants.values@.len() as int,
            ),
            op_wf(
                second,
                old(self).chunk.code@.len() as int + 1,
                old(self).chunk.code@.len() as int + 2,
                old(self).chunk.constants.values@.len() as int,
            ),
            !(first matches OpCode::GetGlobal(_)) && !(first matches OpCode::DefineGlobal(_))
                && !(first matches OpCode::SetGlobal(_)),
            !(second matches OpCode::GetGlobal(_)) && !(second matches OpCode::DefineGlobal(_))
                && !(second matches OpCode::SetGlobal(_)),
        ensures
            final(self).wf(),
            final(self).scanner == old(self).scanner,
            final(self).parser == old(self).parser,
            final(self).current == old(self).current,
            final(self).strings == old(self).strings,
            final(self).diagnostics == old(self).diagnostics,
            final(self).chunk.constants == old(self).chunk.constants,
            final(self).chunk.code@ == old(self).chunk.code@.push(first).push(second),
    {
        self.emit_byte(first);
        self.emit_byte(second);
    }

    /// Appends a `Return` opcode.
    fn emit_return(&mut self)
        requires
            old(self).wf(),
            old(self).parser.previous is Some,
        ensures
            final(self).wf(),
            final(self).scanner == old(self).scanner,
            final(self).parser == old(self).parser,
            final(self).current == old(self).current,
            final(self).strings == old(self).strings,
            final(self).diagnostics == old(self).diagnostics,
            final(self).chunk.constants == old(self).chunk.constants,
            final(self).chunk.code@ == old(self).chunk.code@.push(OpCode::Return),
    {
        self.emit_byte(OpCode::Return);
    }

    /// Appends a value to the constant pool and yields its byte index;
    /// reports `Too many constants in one chunk.` when the pool has
    /// outgrown what a byte operand can name.
    fn make_constant(&mut self, value: Value) -> (idx: u8)
        requires
            old(self).wf(),
            old(self).parser.previous is Some,
            value matches Value::Str(h) ==> (h as int) < old(self).strings@.len(),
        ensures
            final(self).wf(),
            final(self).scanner == old(self).scanner,
            final(self).parser.current == old(self).parser.current,
            final(self).parser.previous == old(self).parser.previous,
            final(self).current == old(self).current,
            final(self).strings == old(self).strings,
            final(self).chunk.code == old(self).chunk.code,
            final(self).chunk.lines == old(self).chunk.lines,
            final(self).chunk.constants.values@ == old(self).chunk.constants.values@.push(value),
            (idx as int) < final(self).chunk.constants.values@.len(),
            (old(self).parser.had_error ==> final(self).parser.had_error),
            old(self).chunk.constants.values@.len() <= 255 ==> (idx as int == old(self).chunk.constants.values@.len() && final(self).parser == old(self).parser && final(self).diagnostics == old(self).diagnostics),
            old(self).chunk.constants.values@.len() > 255 ==> (idx == 0 && final(self).parser.had_error),
    {
        let ghost oldc = self.chunk;
        let constant = self.chunk.add_constant(value);
        proof {
            crate::chunk::lemma_chunk_wf_grow(oldc, self.chunk);
        }
        if constant > 255 {
            self.error("Too many constants in one chunk.");
            return 0;
        }
        constant as u8
    }

    /// Appends the constant and the opcode loading it.
    fn emit_constant(&mut self, value: Value)
        requires
            old(self).wf(),
            old(self).parser.previous is Some,
            value matches Value::Str(h) ==> (h as int) < old(self).strings@.len(),
        ensures
            final(self).wf(),
            final(self).scanner == old(self).scanner,
            final(self).parser.current == old(self).parser.current,
            final(self).parser.previous == old(self).parser.previous,
            final(self).current == old(self).current,
            final(self).strings == old(self).strings,
            (old(self).parser.had_error ==> final(self).parser.had_error),
            final(self).chunk.constants.values@ == old(self).chunk.constants.values@.push(value),
            final(self).chunk.code@.len() == old(self).chunk.code@.len() as int + 1,
            final(self).chunk.code@.last() matches OpCode::Constant(_),
            old(self).chunk.constants.values@.len() <= 255 ==> final(self).chunk.code@.last()
                == OpCode::Constant(old(self).chunk.constants.values@.len() as u8),
            old(self).chunk.constants.values@.len() <= 255 ==> (final(self).chunk.code@ == old(self).chunk.code@.push(
                OpCode::Constant(old(self).chunk.constants.values@.len() as u8),
            ) && final(self).parser == old(self).parser && final(self).diagnostics == old(self).diagnostics
                && final(self).chunk.lines@ == old(self).chunk.lines@.push(
                old(self).parser.previous.unwrap().line,
            )),
            forall|i: int|
                0 <= i < old(self).chunk.code@.len() ==> final(self).chunk.code@[i] == old(self).chunk.code@[i],
    {
        let constant = self.make_constant(value);
        self.emit_byte(OpCode::Constant(constant));
        proof {
            if old(self).chunk.constants.values@.len() <= 255 {
                assert(self.chunk.code@ =~= old(self).chunk.code@.push(
                    OpCode::Constant(old(self).chunk.constants.values@.len() as u8),
                ));
            }
        }
    }

    /// Appends a jump opcode with a placeholder operand and returns its
    /// position, to be patched once the jump target is known.
    fn emit_jump(&mut self, instruction: OpCode) -> (at: usize)
        requires
            old(self).wf(),
            old(self).parser.previous is Some,
            instruction == OpCode::Jump(0u16) || instruction == OpCode::JumpIfFalse(0u16),
        ensures
            final(self).wf(),
            final(self).scanner == old(self).scanner,
            final(self).parser == old(self).parser,
            final(self).current == old(self).current,
            final(self).strings == old(self).strings,
            final(self).diagnostics == old(self).diagnostics,
            final(self).chunk.constants == old(self).chunk.constants,
            final(self).chunk.code@ == old(self).chunk.code@.push(instruction),
            at == old(self).chunk.code@.len(),
            final(self).chunk.code@[at as int] == instruction,
    {
        self.emit_byte(instruction);
        self.chunk.code.len() - 1
    }

    /// Rewrites the operand of the jump at `at` so that it lands just past
    /// the opcode emitted last; reports `Too much code to jump over.` when
    /// the distance does not fit the 16-bit operand, patching the largest
    /// representable distance instead.
    fn patch_jump(&mut self, at: usize)
        requires
            old(self).wf(),
            old(self).parser.previous is Some,
            at < old(self).chunk.code@.len(),
            old(self).chunk.code@[at as int] matches OpCode::Jump(_) || old(self).chunk.code@[at as int] matches OpCode::JumpIfFalse(_),
        ensures
            final(self).wf(),
            final(self).scanner == old(self).scanner,
            final(self).parser.current == old(self).parser.current,
            final(self).parser.previous == old(self).parser.previous,
            final(self).current == old(self).current,
            final(self).strings == old(self).strings,
            final(self).chunk.constants == old(self).chunk.constants,
            final(self).chunk.lines == old(self).chunk.lines,
            (old(self).parser.had_error ==> final(self).parser.had_error),
            final(self).chunk.code@.len() == old(self).chunk.code@.len(),
            forall|i: int|
                0 <= i < old(self).chunk.code@.len() && i != at ==> final(self).chunk.code@[i]
                    == old(self).chunk.code@[i],
            ({
                let dist = old(self).chunk.code@.len() - at - 1;
                let patched = if dist > 0xffff {
                    0xffff as u16
                } else {
                    dist as u16
                };
                &&& (old(self).chunk.code@[at as int] matches OpCode::Jump(_) ==> final(self).chunk.code@[at as int] == OpCode::Jump(patched))
                &&& (old(self).chunk.code@[at as int] matches OpCode::JumpIfFalse(_) ==> final(self).chunk.code@[at as int] == OpCode::JumpIfFalse(patched))
                &&& (dist > 0xffff ==> final(self).parser.had_error)
                &&& (dist <= 0xffff ==> (final(self).parser == old(self).parser && final(self).diagnostics == old(self).diagnostics))
            }),
    {
        let len = self.chunk.code.len();
        let dist = len - at - 1;
        let operand: u16 = if dist > 0xffff {
            self.error("Too much code to jump over.");
            0xffff
        } else {
            dist as u16
        };
        let kind_conditional = match self.chunk.code[at] {
            OpCode::JumpIfFalse(_) => true,
            _ => false,
        };
        let ghost oldcode = self.chunk.code@;
        if kind_conditional {
            self.chunk.code[at] = OpCode::JumpIfFalse(operand);
        } else {
            self.chunk.code[at] = OpCode::Jump(operand);
        }
        proof {
            assert forall|pc: int| 0 <= pc < self.chunk.code@.len() implies op_wf(
                #[trigger] self.chunk.code@[pc],
                pc,
                self.chunk.code@.len() as int,
                self.chunk.constants.values@.len() as int,
            ) by {
                if pc != at {
                    assert(self.chunk.code@[pc] == oldcode[pc]);
                    assert(op_wf(
                        oldcode[pc],
                        pc,
                        oldcode.len() as int,
                        self.chunk.constants.values@.len() as int,
                    ));
                }
            }
        }
    }

    /// Opens a block scope.
    fn begin_scope(&mut self)
        requires
            old(self).wf(),
            old(self).current.scope_depth < old(self).scanner.tok_start(),
        ensures
            final(self).wf(),
            final(self).scanner == old(self).scanner,
            final(self).parser == old(self).parser,
            final(self).chunk == old(self).chunk,
            final(self).strings == old(self).strings,
            final(self).diagnostics == old(self).diagnostics,
            final(self).current.locals == old(self).current.locals,
            final(self).current.scope_depth == old(self).current.scope_depth + 1,
    {
        self.current.scope_depth = self.current.scope_depth + 1;
    }

    /// Closes a block scope, popping its locals and one stack slot each.
    fn end_scope(&mut self)
        requires
            old(self).wf(),
            old(self).parser.previous is Some,
            old(self).current.scope_depth >= 1,
        ensures
            final(self).wf(),
            final(self).scanner == old(self).scanner,
            final(self).parser == old(self).parser,
            final(self).strings == old(self).strings,
            final(self).diagnostics == old(self).diagnostics,
            final(self).chunk.constants == old(self).chunk.constants,
            final(self).current.scope_depth == old(self).current.scope_depth - 1,
            final(self).current.locals@.len() <= old(self).current.locals@.len(),
            final(self).current.locals@ == old(self).current.locals@.subrange(
                0,
                final(self).current.locals@.len() as int,
            ),
            final(self).chunk.code@.len() == old(self).chunk.code@.len() + (old(self).current.locals@.len() - final(self).current.locals@.len()),
            forall|i: int|
                0 <= i < old(self).chunk.code@.len() ==> final(self).chunk.code@[i] == old(self).chunk.code@[i],
            forall|i: int|
                old(self).chunk.code@.len() <= i < final(self).chunk.code@.len() ==> final(self).chunk.code@[i] == OpCode::Pop,
    {
        self.current.scope_depth = self.current.scope_depth - 1;
        loop
            invariant
                self.wf(),
                self.scanner == old(self).scanner,
                self.parser == old(self).parser,
                self.parser.previous is Some,
                self.strings == old(self).strings,
                self.diagnostics == old(self).diagnostics,
                self.chunk.constants == old(self).chunk.constants,
                self.current.scope_depth == old(self).current.scope_depth - 1,
                self.current.locals@.len() <= old(self).current.locals@.len(),
                self.current.locals@ == old(self).current.locals@.subrange(
                    0,
                    self.current.locals@.len() as int,
                ),
                self.chunk.code@.len() == old(self).chunk.code@.len() + (old(self).current.locals@.len() - self.current.locals@.len()),
                forall|i: int|
                    0 <= i < old(self).chunk.code@.len() ==> self.chunk.code@[i] == old(self).chunk.code@[i],
                forall|i: int|
                    old(self).chunk.code@.len() <= i < self.chunk.code@.len()
                        ==> self.chunk.code@[i] == OpCode::Pop,
            decreases self.current.locals@.len(),
        {
            let n = self.current.locals.len();
            if n == 0 {
                break ;
            }
            let keep = match self.current.locals[n - 1].depth {
                Some(d) => d <= self.current.scope_depth,
                None => true,
            };
            if keep {
                break ;
            }
            self.emit_byte(OpCode::Pop);
            let _ = self.current.locals.pop();
        }
    }

    /// Whether two tokens carry the same identifier text.
    fn identifiers_equal(&self, a: &Token<'src>, b: &Token<'src>) -> (r: bool)
        ensures
            r == (a.name@ == b.name@),
    {
        str_content_eq(a.name, b.name)
    }
}

/// Whether the walk from the top of the locals down to the enclosing
/// scope meets a local with this name: the walk stops at the first local
/// whose depth is set and smaller than `depth`.
pub open spec fn scan_dup<'a>(locals: Seq<Local<'a>>, depth: usize, name: Seq<char>) -> bool
    decreases locals.len(),
{
    if locals.len() == 0 {
        false
    } else {
        let top = locals.last();
        if (top.depth matches Some(d) && d < depth) {
            false
        } else if top.name.name@ == name {
            true
        } else {
            scan_dup(locals.drop_last(), depth, name)
        }
    }
}

/// The rule-table lookup, executable form.
fn get_rule(typ: TokenType) -> (r: ParseRule)
    ensures
        r == spec_rule(typ),
{
    match typ {
        TokenType::LeftParen => ParseRule {
            prefix: Some(ParseFnId::Grouping),
            infix: None,
            precedence: Precedence::NoPrec,
        },
        TokenType::Minus => ParseRule {
            prefix: Some(ParseFnId::Unary),
            infix: Some(ParseFnId::Binary),
            precedence: Precedence::Term,
        },
        TokenType::Plus => ParseRule {
            prefix: None,
            infix: Some(ParseFnId::Binary),
            precedence: Precedence::Term,
        },
        TokenType::Slash => ParseRule {
            prefix: None,
            infix: Some(ParseFnId::Binary),
            precedence: Precedence::Factor,
        },
        TokenType::Star => ParseRule {
            prefix: None,
            infix: Some(ParseFnId::Binary),
            precedence: Precedence::Factor,
        },
        TokenType::Bang => ParseRule {
            prefix: Some(ParseFnId::Unary),
            infix: None,
            precedence: Precedence::NoPrec,
        },
        TokenType::BangEqual => ParseRule {
            prefix: None,
            infix: Some(ParseFnId::Binary),
            precedence: Precedence::Equality,
        },
        TokenType::EqualEqual => ParseRule {
            prefix: None,
            infix: Some(ParseFnId::Binary),
            precedence: Precedence::Equality,
        },
        TokenType::Greater => ParseRule {
            prefix: None,
            infix: Some(ParseFnId::Binary),
            precedence: Precedence::Comparison,
        },
        TokenType::GreaterEqual => ParseRule {
            prefix: None,
            infix: Some(ParseFnId::Binary),
            precedence: Precedence::Comparison,
        },
        TokenType::Less => ParseRule {
            prefix: None,
            infix: Some(ParseFnId::Binary),
            precedence: Precedence::Comparison,
        },
        TokenType::LessEqual => ParseRule {
            prefix: None,
            infix: Some(ParseFnId::Binary),
            precedence: Precedence::Comparison,
        },
        TokenType::Identifier => ParseRule {
            prefix: Some(ParseFnId::Variable),
            infix: None,
            precedence: Precedence::NoPrec,
        },
        TokenType::String => ParseRule {
            prefix: Some(ParseFnId::StringLit),
            infix: None,
            precedence: Precedence::NoPrec,
        },
        TokenType::Number => ParseRule {
            prefix: Some(ParseFnId::NumberLit),
            infix: None,
            precedence: Precedence::NoPrec,
        },
        TokenType::False => ParseRule {
            prefix: Some(ParseFnId::Literal),
            infix: None,
            precedence: Precedence::NoPrec,
        },
        TokenType::Nil => ParseRule {
            prefix: Some(ParseFnId::Literal),
            infix: None,
            precedence: Precedence::NoPrec,
        },
        TokenType::True => ParseRule {
            prefix: Some(ParseFnId::Literal),
            infix: None,
            precedence: Precedence::NoPrec,
        },
        _ => ParseRule { prefix: None, infix: None, precedence: Precedence::NoPrec },
    }
}

impl<'src> Compiler<'src> {
    /// Pushes a new, not yet initialized local; reports `Too many local
    /// variables in function.` when all 256 slots are taken.
    fn add_local(&mut self, name: Token<'src>)
        requires
            old(self).wf(),
            old(self).parser.previous is Some,
        ensures
            final(self).wf(),
            final(self).scanner == old(self).scanner,
            final(self).parser.current == old(self).parser.current,
            final(self).parser.previous == old(self).parser.previous,
            final(self).chunk == old(self).chunk,
            final(self).strings == old(self).strings,
            final(self).current.scope_depth == old(self).current.scope_depth,
            (old(self).parser.had_error ==> final(self).parser.had_error),
            old(self).current.locals@.len() < 256 ==> (final(self).current.locals@ == old(self).current.locals@.push(Local { name, depth: None }) && final(self).parser == old(self).parser && final(self).diagnostics == old(self).diagnostics),
            old(self).current.locals@.len() >= 256 ==> (final(self).current.locals == old(self).current.locals && final(self).parser.had_error),
    {
        if self.current.locals.len() >= 256 {
            self.error("Too many local variables in function.");
            return ;
        }
        self.current.locals.push(Local { name, depth: None });
    }

    /// In a local scope, declares the variable named by the token just
    /// consumed: reports `Already a variable with this name in this
    /// scope.` when the current scope already has one, then records the
    /// new local as declared but uninitialized. Globals need no
    /// declaration.
    fn declare_variable(&mut self)
        requires
            old(self).wf(),
            old(self).parser.previous is Some,
        ensures
            final(self).wf(),
            final(self).scanner == old(self).scanner,
            final(self).parser.current == old(self).parser.current,
            final(self).parser.previous == old(self).parser.previous,
            final(self).chunk == old(self).chunk,
            final(self).strings == old(self).strings,
            final(self).current.scope_depth == old(self).current.scope_depth,
            (old(self).parser.had_error ==> final(self).parser.had_error),
            old(self).current.scope_depth == 0 ==> *final(self) == *old(self),
            old(self).current.scope_depth > 0 ==> ({
                let name = old(self).parser.previous.unwrap().name@;
                &&& (scan_dup(old(self).current.locals@, old(self).current.scope_depth, name)
                    ==> final(self).parser.had_error)
                &&& (!scan_dup(old(self).current.locals@, old(self).current.scope_depth, name)
                    && old(self).current.locals@.len() < 256 ==> (final(self).diagnostics
                    == old(self).diagnostics && final(self).parser.had_error == old(self).parser.had_error
                    && final(self).parser.panic_mode == old(self).parser.panic_mode))
                &&& (old(self).current.locals@.len() < 256 ==> final(self).current.locals@
                    == old(self).current.locals@.push(
                    Local { name: old(self).parser.previous.unwrap(), depth: None },
                ))
            }),
    {
        if self.current.scope_depth == 0 {
            return ;
        }
        let name = self.parser.previous.unwrap();
        let ghost locals0 = self.current.locals@;
        let ghost depth = self.current.scope_depth;
        let mut j: usize = self.current.locals.len();
        proof {
            assert(locals0.subrange(0, locals0.len() as int) =~= locals0);
        }
        loop
            invariant
                self.wf(),
                self.scanner == old(self).scanner,
                self.parser.current == old(self).parser.current,
                self.parser.previous == old(self).parser.previous,
                self.parser.previous is Some,
                self.chunk == old(self).chunk,
                self.strings == old(self).strings,
                self.current.locals@ == locals0,
                self.current.scope_depth == depth,
                name == old(self).parser.previous.unwrap(),
                (old(self).parser.had_error ==> self.parser.had_error),
                j <= locals0.len(),
                scan_dup(locals0, depth, name.name@) == scan_dup(
                    locals0.subrange(0, j as int),
                    depth,
                    name.name@,
                ),
                !scan_dup(locals0, depth, name.name@) ==> (self.diagnostics == old(self).diagnostics
                    && self.parser.had_error == old(self).parser.had_error
                    && self.parser.panic_mode == old(self).parser.panic_mode),
            ensures
                self.wf(),
                self.scanner == old(self).scanner,
                self.parser.current == old(self).parser.current,
                self.parser.previous == old(self).parser.previous,
                self.chunk == old(self).chunk,
                self.strings == old(self).strings,
                self.current.locals@ == locals0,
                self.current.scope_depth == depth,
                (old(self).parser.had_error ==> self.parser.had_error),
                (scan_dup(locals0, depth, name.name@) ==> self.parser.had_error),
                !scan_dup(locals0, depth, name.name@) ==> (self.diagnostics == old(self).diagnostics
                    && self.parser.had_error == old(self).parser.had_error
                    && self.parser.panic_mode == old(self).parser.panic_mode),
            decreases j,
        {
            if j == 0 {
                proof {
                    assert(locals0.subrange(0, 0) =~= Seq::<Local<'src>>::empty());
                }
                break ;
            }
            let loc = self.current.locals[j - 1];
            proof {
                assert(locals0.subrange(0, j as int).last() == locals0[j - 1]);
                assert(locals0.subrange(0, j as int).drop_last() =~= locals0.subrange(
                    0,
                    j as int - 1,
                ));
            }
            let stop = match loc.depth {
                Some(d) => d < self.current.scope_depth,
                None => false,
            };
            if stop {
                break ;
            }
            if self.identifiers_equal(&name, &loc.name) {
                self.error("Already a variable with this name in this scope.");
                break ;
            }
            j = j - 1;
        }
        self.add_local(name);
    }

    /// Marks the newest local as initialized at the current depth.
    fn mark_initialized(&mut self)
        requires
            old(self).wf(),
        ensures
            final(self).wf(),
            final(self).scanner == old(self).scanner,
            final(self).parser == old(self).parser,
            final(self).chunk == old(self).chunk,
            final(self).strings == old(self).strings,
            final(self).diagnostics == old(self).diagnostics,
            final(self).current.scope_depth == old(self).current.scope_depth,
            final(self).current.locals@.len() == old(self).current.locals@.len(),
            old(self).current.locals@.len() > 0 ==> final(self).current.locals@ == old(self).current.locals@.update(
                old(self).current.locals@.len() - 1,
                Local {
                    name: old(self).current.locals@.last().name,
                    depth: Some(old(self).current.scope_depth),
                },
            ),
    {
        let n = self.current.locals.len();
        if n == 0 {
            return ;
        }
        let name = self.current.locals[n - 1].name;
        self.current.locals[n - 1] = Local { name, depth: Some(self.current.scope_depth) };
    }

    /// Defines the declared variable: a local is marked initialized (its
    /// value already sits in its stack slot); a global gets a
    /// `DefineGlobal` of its interned name.
    fn define_variable(&mut self, global: u8)
        requires
            old(self).wf(),
            old(self).parser.previous is Some,
            old(self).current.scope_depth == 0 ==> (global as int) < old(self).chunk.constants.values@.len(),
            old(self).current.scope_depth == 0 ==> (old(self).parser.had_error || (old(self).chunk.constants.values@[global as int] matches Value::Str(h)
                && (h as int) < old(self).strings@.len())),
        ensures
            final(self).wf(),
            final(self).scanner == old(self).scanner,
            final(self).parser == old(self).parser,
            final(self).strings == old(self).strings,
            final(self).diagnostics == old(self).diagnostics,
            final(self).current.scope_depth == old(self).current.scope_depth,
            final(self).chunk.constants == old(self).chunk.constants,
            old(self).current.scope_depth > 0 ==> (final(self).chunk == old(self).chunk && final(self).current.locals@.len() == old(self).current.locals@.len()),
            (old(self).current.scope_depth > 0 && old(self).current.locals@.len() > 0) ==> (
            final(self).current.locals@.last().depth == Some(old(self).current.scope_depth)
                && final(self).current.locals@.last().name == old(self).current.locals@.last().name),
            old(self).current.scope_depth == 0 ==> (final(self).chunk.code@ == old(self).chunk.code@.push(OpCode::DefineGlobal(global)) && final(self).current == old(self).current),
    {
        if self.current.scope_depth > 0 {
            self.mark_initialized();
            return ;
        }
        self.emit_byte(OpCode::DefineGlobal(global));
    }

    /// Interns the token's text and appends it to the constant pool as a
    /// string value, yielding the constant's byte index.
    fn identifier_constant(&mut self, name: Token<'src>) -> (idx: u8)
        requires
            old(self).wf(),
            old(self).parser.previous is Some,
        ensures
            final(self).wf(),
            final(self).scanner == old(self).scanner,
            final(self).parser.current == old(self).parser.current,
            final(self).parser.previous == old(self).parser.previous,
            final(self).current == old(self).current,
            final(self).chunk.code == old(self).chunk.code,
            final(self).chunk.lines == old(self).chunk.lines,
            (old(self).parser.had_error ==> final(self).parser.had_error),
            final(self).strings@ == crate::table::spec_intern_pool(old(self).strings@, name.name@),
            final(self).chunk.constants.values@ == old(self).chunk.constants.values@.push(
                Value::Str(crate::table::spec_intern_index(old(self).strings@, name.name@) as usize),
            ),
            (idx as int) < final(self).chunk.constants.values@.len(),
            old(self).chunk.constants.values@.len() <= 255 ==> (idx as int == old(self).chunk.constants.values@.len() && final(self).parser == old(self).parser && final(self).diagnostics == old(self).diagnostics),
            old(self).chunk.constants.values@.len() > 255 ==> final(self).parser.had_error,
            old(self).chunk.constants.values@.len() <= 255 ==> (final(self).chunk.constants.values@[idx as int] matches Value::Str(h)
                && (h as int) < final(self).strings@.len() && final(self).strings@[h as int]
                == name.name@),
    {
        let owned = name.name.to_owned();
        let handle = self.strings.intern(owned);
        self.make_constant(Value::Str(handle))
    }

    /// Resolves an identifier against the locals, topmost first. A hit
    /// yields the local's stack slot; a hit on a local still compiling its
    /// own initializer reports `Can't read local variable in its own
    /// initializer.`
    fn resolve_local(&mut self, name: &Token<'src>) -> (r: Option<u8>)
        requires
            old(self).wf(),
            old(self).parser.previous is Some,
        ensures
            final(self).wf(),
            final(self).scanner == old(self).scanner,
            final(self).parser.current == old(self).parser.current,
            final(self).parser.previous == old(self).parser.previous,
            final(self).chunk == old(self).chunk,
            final(self).strings == old(self).strings,
            final(self).current == old(self).current,
            (old(self).parser.had_error ==> final(self).parser.had_error),
            (r matches Some(s) ==> ({
                let locals = old(self).current.locals@;
                &&& (s as int) < locals.len()
                &&& locals[s as int].name.name@ == name.name@
                &&& (forall|k: int| s < k < locals.len() ==> locals[k].name.name@ != name.name@)
                &&& (locals[s as int].depth is None ==> final(self).parser.had_error)
            })),
            (r is None ==> (forall|k: int|
                0 <= k < old(self).current.locals@.len() ==> old(self).current.locals@[k].name.name@ != name.name@)),
            (r is None ==> *final(self) == *old(self)),
    {
        let n = self.current.locals.len();
        let mut j: usize = n;
        loop
            invariant
                self.wf(),
                *self == *old(self),
                n == self.current.locals@.len(),
                j <= n,
                forall|k: int|
                    j <= k < n ==> self.current.locals@[k].name.name@ != name.name@,
            ensures
                self.wf(),
                *self == *old(self),
                j <= n,
                forall|k: int|
                    j <= k < n ==> self.current.locals@[k].name.name@ != name.name@,
                j == 0 || self.current.locals@[j - 1].name.name@ == name.name@,
            decreases j,
        {
            if j == 0 {
                break ;
            }
            let loc = self.current.locals[j - 1];
            if self.identifiers_equal(name, &loc.name) {
                break ;
            }
            j = j - 1;
        }
        if j == 0 {
            return None;
        }
        let loc = self.current.locals[j - 1];
        if loc.depth.is_none() {
            self.error("Can't read local variable in its own initializer.");
        }
        Some((j - 1) as u8)
    }

    /// Consumes a variable name. A local is declared here and addressed by
    /// slot, so no constant is made; a global's name is interned into the
    /// constant pool and its index returned.
    fn parse_variable(&mut self, error_message: &str) -> (idx: u8)
        requires
            old(self).wf(),
            old(self).parser.current is Some,
            old(self).parser.previous is Some,
        ensures
            final(self).wf(),
            final(self).scanner.text() == old(self).scanner.text(),
            final(self).parser.current is Some,
            final(self).parser.previous is Some,
            final(self).measure() <= old(self).measure(),
            (old(self).parser.had_error ==> final(self).parser.had_error),
            final(self).current.scope_depth == old(self).current.scope_depth,
            final(self).chunk.code == old(self).chunk.code,
            final(self).chunk.lines == old(self).chunk.lines,
            old(self).chunk.constants.values@.len() <= final(self).chunk.constants.values@.len(),
            forall|i: int|
                0 <= i < old(self).chunk.constants.values@.len() ==> final(self).chunk.constants.values@[i] == old(self).chunk.constants.values@[i],
            old(self).strings@.len() <= final(self).strings@.len(),
            forall|i: int|
                0 <= i < old(self).strings@.len() ==> final(self).strings@[i] == old(self).strings@[i],
            old(self).current.scope_depth == 0 ==> (idx as int) < final(self).chunk.constants.values@.len(),
            old(self).current.scope_depth == 0 ==> final(self).current == old(self).current,
            old(self).current.scope_depth == 0 ==> (final(self).parser.had_error || (final(self).chunk.constants.values@[idx as int] matches Value::Str(h)
                && (h as int) < final(self).strings@.len())),
            ({
                let named = old(self).parser.current.unwrap();
                (old(self).current.scope_depth > 0 && old(self).current.locals@.len() < 256
                    && named.typ == TokenType::Identifier) ==> (final(self).current.locals@
                    == old(self).current.locals@.push(Local { name: named, depth: None }))
            }),
    {
        self.consume(TokenType::Identifier, error_message);
        self.declare_variable();
        if self.current.scope_depth > 0 {
            return 0;
        }
        let p = self.parser.previous.unwrap();
        self.identifier_constant(p)
    }
}

/// A lookahead shape the parser resolves in one step: the token to parse
/// is a number literal, what follows starts no infix rule (and is not a
/// lexical error or a stray `=`), the compiler is not in panic mode, and
/// the constant pool still has room.
pub open spec fn lone_number_expr<'a>(c: Compiler<'a>) -> bool {
    &&& (c.ps().current matches Some(t) && t.typ == TokenType::Number)
    &&& ({
        let nxt = spec_scan(c.sc().text(), c.sc().cur(), c.sc().cur_line());
        &&& spec_prec_rank(spec_rule(nxt.typ).precedence) == 0
        &&& nxt.typ != TokenType::Equal
        &&& nxt.typ != TokenType::Error
    })
    &&& !c.ps().panic_mode
    &&& c.ch().constants.values@.len() <= 255
}

/// What parsing a lone number literal does: one constant is appended
/// holding the literal's value, one `Constant` opcode loading it is
/// emitted on the literal's line, no diagnostic is raised, and the parse
/// stands exactly on the following token.
pub open spec fn lone_number_result<'a>(o: Compiler<'a>, f: Compiler<'a>) -> bool {
    let t = o.ps().current.unwrap();
    let nxt = spec_scan(o.sc().text(), o.sc().cur(), o.sc().cur_line());
    &&& f.ch().code@ == o.ch().code@.push(
        OpCode::Constant(o.ch().constants.values@.len() as u8),
    )
    &&& f.ch().lines@ == o.ch().lines@.push(t.line)
    &&& f.ch().constants.values@ == o.ch().constants.values@.push(
        Value::Number(crate::num::number_bits(t.name@).unwrap()),
    )
    &&& f.diags() == o.diags()
    &&& f.ps().had_error == o.ps().had_error
    &&& f.ps().panic_mode == o.ps().panic_mode
    &&& f.ps().previous == o.ps().current
    &&& (f.ps().current matches Some(t2) && t2.typ == nxt.typ && t2.name@ == nxt.lex
        && t2.line == nxt.line)
    &&& f.sc().cur() == nxt.end
    &&& f.sc().cur_line() == nxt.line
    &&& f.tbl() == o.tbl()
}

impl<'src> Compiler<'src> {
    /// The prefix handler of number tokens: parses the literal and loads
    /// it as a constant. The scanner's token shape guarantees the parse
    /// succeeds.
    fn number(&mut self, _can_assign: bool)
        requires
            old(self).wf(),
            old(self).parser.current is Some,
            old(self).parser.previous matches Some(t) && t.typ == TokenType::Number,
        ensures
            final(self).evolves_from(*old(self)),
            (final(self).ps().previous matches Some(p) && p.typ == TokenType::Equal) ==> (
            final(self).ps().had_error || (old(self).ps().previous matches Some(q) && q.typ
                == TokenType::Equal)),
            final(self).current.locals@ == old(self).current.locals@,
            final(self).ch().code@.len() > old(self).ch().code@.len(),
            final(self).ch().code@.last() matches OpCode::Constant(_),
            final(self).ch().constants.values@ == old(self).ch().constants.values@.push(
                Value::Number(
                    crate::num::number_bits(old(self).parser.previous.unwrap().name@).unwrap(),
                ),
            ),
            old(self).ch().constants.values@.len() <= 255 ==> final(self).ch().code@.last()
                == OpCode::Constant(old(self).ch().constants.values@.len() as u8),
            old(self).ch().constants.values@.len() <= 255 ==> (final(self).ch().code@ == old(self).ch().code@.push(
                OpCode::Constant(old(self).ch().constants.values@.len() as u8),
            ) && final(self).parser == old(self).parser && final(self).diagnostics == old(self).diagnostics
                && final(self).scanner == old(self).scanner && final(self).strings == old(self).strings
                && final(self).ch().lines@ == old(self).ch().lines@.push(
                old(self).parser.previous.unwrap().line,
            )),
    {
        let tok = self.parser.previous.unwrap();
        let parsed = crate::num::parse_number(tok.name);
        match parsed {
            Some(bits) => self.emit_constant(Value::Number(bits)),
            None => {
                proof {
                    assert(false);
                }
            },
        }
    }

    /// The prefix handler of string tokens: strips the quotes, interns the
    /// text, and loads the interned string as a constant.
    fn string(&mut self, _can_assign: bool)
        requires
            old(self).wf(),
            old(self).parser.current is Some,
            old(self).parser.previous matches Some(t) && t.typ == TokenType::String,
        ensures
            final(self).evolves_from(*old(self)),
            (final(self).ps().previous matches Some(p) && p.typ == TokenType::Equal) ==> (
            final(self).ps().had_error || (old(self).ps().previous matches Some(q) && q.typ
                == TokenType::Equal)),
            final(self).current.locals@ == old(self).current.locals@,
            final(self).ch().code@.len() > old(self).ch().code@.len(),
            final(self).ch().code@.last() matches OpCode::Constant(_),
            ({
                let inner = old(self).parser.previous.unwrap().name@.subrange(
                    1,
                    old(self).parser.previous.unwrap().name@.len() - 1,
                );
                &&& final(self).tbl()@ == crate::table::spec_intern_pool(old(self).tbl()@, inner)
                &&& final(self).ch().constants.values@ == old(self).ch().constants.values@.push(
                    Value::Str(crate::table::spec_intern_index(old(self).tbl()@, inner) as usize),
                )
            }),
            old(self).ch().constants.values@.len() <= 255 ==> final(self).ch().code@.last()
                == OpCode::Constant(old(self).ch().constants.values@.len() as u8),
    {
        let tok = self.parser.previous.unwrap();
        let n = tok.name.unicode_len();
        let inner = tok.name.substring_char(1, n - 1);
        let handle = self.strings.intern(inner.to_owned());
        self.emit_constant(Value::Str(handle));
    }

    /// The prefix handler of `nil`, `true` and `false`.
    fn literal(&mut self, _can_assign: bool)
        requires
            old(self).wf(),
            old(self).parser.current is Some,
            old(self).parser.previous matches Some(t) && (t.typ == TokenType::False || t.typ
                == TokenType::Nil || t.typ == TokenType::True),
        ensures
            final(self).evolves_from(*old(self)),
            (final(self).ps().previous matches Some(p) && p.typ == TokenType::Equal) ==> (
            final(self).ps().had_error || (old(self).ps().previous matches Some(q) && q.typ
                == TokenType::Equal)),
            final(self).current.locals@ == old(self).current.locals@,
            final(self).ch().code@.len() > old(self).ch().code@.len(),
            old(self).parser.previous.unwrap().typ == TokenType::False ==> final(self).ch().code@.last() == OpCode::False,
            old(self).parser.previous.unwrap().typ == TokenType::Nil ==> final(self).ch().code@.last() == OpCode::Nil,
            old(self).parser.previous.unwrap().typ == TokenType::True ==> final(self).ch().code@.last() == OpCode::True,
    {
        match self.parser.previous.unwrap().typ {
            TokenType::False => self.emit_byte(OpCode::False),
            TokenType::Nil => self.emit_byte(OpCode::Nil),
            TokenType::True => self.emit_byte(OpCode::True),
            _ => {
                proof {
                    assert(false);
                }
            },
        }
    }

    /// The prefix handler of `(`: a parenthesized expression.
    fn grouping(&mut self, _can_assign: bool)
        requires
            old(self).wf(),
            old(self).parser.current is Some,
            old(self).parser.previous is Some,
        ensures
            final(self).evolves_from(*old(self)),
            (final(self).ps().previous matches Some(p) && p.typ == TokenType::Equal) ==> (
            final(self).ps().had_error || (old(self).ps().previous matches Some(q) && q.typ
                == TokenType::Equal)),
            final(self).current.locals@ == old(self).current.locals@,
            final(self).ch().code@.len() > old(self).ch().code@.len() || final(self).ps().had_error,
        decreases old(self).measure(), 2int,
    {
        self.expression();
        self.consume(TokenType::RightParen, "Expect ')' after expression.");
    }

    /// The prefix handler of `-` and `!`: compiles the operand at unary
    /// precedence, then emits the operator.
    fn unary(&mut self, _can_assign: bool)
        requires
            old(self).wf(),
            old(self).parser.current is Some,
            old(self).parser.previous matches Some(t) && (t.typ == TokenType::Bang || t.typ
                == TokenType::Minus),
        ensures
            final(self).evolves_from(*old(self)),
            (final(self).ps().previous matches Some(p) && p.typ == TokenType::Equal) ==> (
            final(self).ps().had_error || (old(self).ps().previous matches Some(q) && q.typ
                == TokenType::Equal)),
            final(self).current.locals@ == old(self).current.locals@,
            final(self).ch().code@.len() > old(self).ch().code@.len(),
            !final(self).ps().had_error ==> final(self).ch().code@.len() >= old(self).ch().code@.len() + 2,
            old(self).parser.previous.unwrap().typ == TokenType::Bang ==> final(self).ch().code@.last() == OpCode::Not,
            old(self).parser.previous.unwrap().typ == TokenType::Minus ==> final(self).ch().code@.last() == OpCode::Negate,
        decreases old(self).measure(), 2int,
    {
        let tok = self.parser.previous.unwrap();
        self.parse_precedence(Precedence::Unary);
        match tok.typ {
            TokenType::Bang => self.emit_byte(OpCode::Not),
            TokenType::Minus => self.emit_byte(OpCode::Negate),
            _ => {
                proof {
                    assert(false);
                }
            },
        }
    }

    /// The infix handler of the binary operators: compiles the right
    /// operand one rung higher (left associativity), then emits the
    /// operator, comparisons other than `<` and `>` as a pair.
    fn binary(&mut self, _can_assign: bool)
        requires
            old(self).wf(),
            old(self).parser.current is Some,
            old(self).parser.previous matches Some(t) && (t.typ == TokenType::BangEqual || t.typ
                == TokenType::EqualEqual || t.typ == TokenType::Greater || t.typ
                == TokenType::GreaterEqual || t.typ == TokenType::Less || t.typ
                == TokenType::LessEqual || t.typ == TokenType::Plus || t.typ == TokenType::Minus
                || t.typ == TokenType::Star || t.typ == TokenType::Slash),
        ensures
            final(self).evolves_from(*old(self)),
            (final(self).ps().previous matches Some(p) && p.typ == TokenType::Equal) ==> (
            final(self).ps().had_error || (old(self).ps().previous matches Some(q) && q.typ
                == TokenType::Equal)),
            final(self).current.locals@ == old(self).current.locals@,
            ({
                let t = old(self).parser.previous.unwrap().typ;
                let c = final(self).ch().code@;
                &&& c.len() > old(self).ch().code@.len()
                &&& (!final(self).ps().had_error ==> ((t == TokenType::BangEqual || t
                    == TokenType::GreaterEqual || t == TokenType::LessEqual) ==> c.len() >= old(self).ch().code@.len() + 3))
                &&& (!final(self).ps().had_error ==> c.len() >= old(self).ch().code@.len() + 2)
                &&& (t == TokenType::Plus ==> c.last() == OpCode::Add)
                &&& (t == TokenType::Minus ==> c.last() == OpCode::Subtract)
                &&& (t == TokenType::Star ==> c.last() == OpCode::Multiply)
                &&& (t == TokenType::Slash ==> c.last() == OpCode::Divide)
                &&& (t == TokenType::EqualEqual ==> c.last() == OpCode::Equal)
                &&& (t == TokenType::Greater ==> c.last() == OpCode::Greater)
                &&& (t == TokenType::Less ==> c.last() == OpCode::Less)
                &&& (t == TokenType::BangEqual ==> c.len() >= 2 && c[c.len() - 2]
                    == OpCode::Equal && c.last() == OpCode::Not)
                &&& (t == TokenType::GreaterEqual ==> c.len() >= 2 && c[c.len() - 2]
                    == OpCode::Less && c.last() == OpCode::Not)
                &&& (t == TokenType::LessEqual ==> c.len() >= 2 && c[c.len() - 2]
                    == OpCode::Greater && c.last() == OpCode::Not)
            }),
        decreases old(self).measure(), 2int,
    {
        let tok = self.parser.previous.unwrap();
        let rule = get_rule(tok.typ);
        self.parse_precedence(rule.precedence.next());
        match tok.typ {
            TokenType::BangEqual => self.emit_bytes(OpCode::Equal, OpCode::Not),
            TokenType::EqualEqual => self.emit_byte(OpCode::Equal),
            TokenType::Greater => self.emit_byte(OpCode::Greater),
            TokenType::GreaterEqual => self.emit_bytes(OpCode::Less, OpCode::Not),
            TokenType::Less => self.emit_byte(OpCode::Less),
            TokenType::LessEqual => self.emit_bytes(OpCode::Greater, OpCode::Not),
            TokenType::Plus => self.emit_byte(OpCode::Add),
            TokenType::Minus => self.emit_byte(OpCode::Subtract),
            TokenType::Star => self.emit_byte(OpCode::Multiply),
            TokenType::Slash => self.emit_byte(OpCode::Divide),
            _ => {
                proof {
                    assert(false);
                }
            },
        }
    }

    /// The prefix handler of identifiers.
    fn variable(&mut self, can_assign: bool)
        requires
            old(self).wf(),
            old(self).parser.current is Some,
            old(self).parser.previous is Some,
        ensures
            final(self).evolves_from(*old(self)),
            (final(self).ps().previous matches Some(p) && p.typ == TokenType::Equal) ==> (
            final(self).ps().had_error || (old(self).ps().previous matches Some(q) && q.typ
                == TokenType::Equal)),
            final(self).current.locals@ == old(self).current.locals@,
            final(self).ch().code@.len() > old(self).ch().code@.len(),
        decreases old(self).measure(), 2int,
    {
        let tok = self.parser.previous.unwrap();
        self.named_variable(tok, can_assign);
    }

    /// Compiles a read or, when an `=` follows an assignable position, a
    /// write of the named variable: locals by stack slot, globals by
    /// interned-name constant.
    fn named_variable(&mut self, name: Token<'src>, can_assign: bool)
        requires
            old(self).wf(),
            old(self).parser.current is Some,
            old(self).parser.previous is Some,
        ensures
            final(self).evolves_from(*old(self)),
            (final(self).ps().previous matches Some(p) && p.typ == TokenType::Equal) ==> (
            final(self).ps().had_error || (old(self).ps().previous matches Some(q) && q.typ
                == TokenType::Equal)),
            final(self).current.locals@ == old(self).current.locals@,
            final(self).ch().code@.len() > old(self).ch().code@.len(),
            ({
                let c = final(self).ch();
                let locals = old(self).current.locals@;
                &&& (c.code@.last() matches OpCode::GetLocal(s) ==> ((s as int) < locals.len()
                    && locals[s as int].name.name@ == name.name@ && (forall|k: int|
                    s < k < locals.len() ==> locals[k].name.name@ != name.name@)))
                &&& (c.code@.last() matches OpCode::SetLocal(s) ==> ((s as int) < locals.len()
                    && locals[s as int].name.name@ == name.name@ && (forall|k: int|
                    s < k < locals.len() ==> locals[k].name.name@ != name.name@)))
                &&& (!final(self).ps().had_error ==> (c.code@.last() matches OpCode::GetGlobal(
                    g,
                ) ==> ((g as int) < c.constants.values@.len() && (c.constants.values@[g as int]
                    matches Value::Str(h) && (h as int) < final(self).tbl()@.len() && final(self).tbl()@[h as int]
                    == name.name@))))
                &&& (!final(self).ps().had_error ==> (c.code@.last() matches OpCode::SetGlobal(
                    g,
                ) ==> ((g as int) < c.constants.values@.len() && (c.constants.values@[g as int]
                    matches Value::Str(h) && (h as int) < final(self).tbl()@.len() && final(self).tbl()@[h as int]
                    == name.name@))))
                &&& (c.code@.last() matches OpCode::GetLocal(_) || c.code@.last() matches
                    OpCode::SetLocal(_) || c.code@.last() matches OpCode::GetGlobal(_)
                    || c.code@.last() matches OpCode::SetGlobal(_))
            }),
        decreases old(self).measure(), 1int,
    {
        let resolved = self.resolve_local(&name);
        let ops: (OpCode, OpCode) = match resolved {
            Some(a) => (OpCode::GetLocal(a), OpCode::SetLocal(a)),
            None => {
                let ghost nc = self.chunk.constants.values@.len();
                let c = self.identifier_constant(name);
                proof {
                    assert(nc > 255 ==> self.parser.had_error);
                    assert(nc <= 255 ==> (c as int == nc
                        && (self.chunk.constants.values@[c as int] matches Value::Str(h)
                        && (h as int) < self.strings@.len() && self.strings@[h as int]
                        == name.name@)));
                }
                (OpCode::GetGlobal(c), OpCode::SetGlobal(c))
            },
        };
        let get_op = ops.0;
        let set_op = ops.1;
        let ghost mid = *self;
        let ghost nc0 = self.chunk.constants.values@.len();
        proof {
            assert(get_op matches OpCode::GetGlobal(i) ==> (i as int) < nc0);
            assert(set_op matches OpCode::SetGlobal(i) ==> (i as int) < nc0);
        }
        if can_assign && self.matches(TokenType::Equal) {
            self.expression();
            proof {
                if !self.parser.had_error {
                    assert(set_op matches OpCode::SetGlobal(g) ==> ((g as int)
                        < self.chunk.constants.values@.len()
                        && self.chunk.constants.values@[g as int] == mid.chunk.constants.values@[g as int]
                        && (self.chunk.constants.values@[g as int] matches Value::Str(h)
                        && (h as int) < self.strings@.len() && self.strings@[h as int]
                        == name.name@)));
                }
            }
            self.emit_byte(set_op);
        } else {
            self.emit_byte(get_op);
        }
    }

    /// The Pratt core: consume one token and run its prefix handler, then
    /// fold infix operators while the lookahead binds at least as tightly
    /// as `precedence`. A leftover `=` after a non-assignable expression
    /// is `Invalid assignment target.`
    fn parse_precedence(&mut self, precedence: Precedence)
        requires
            old(self).wf(),
            old(self).parser.current is Some,
            spec_prec_rank(precedence) >= 1,
        ensures
            final(self).evolves_from(*old(self)),
            (final(self).ps().previous matches Some(p) && p.typ == TokenType::Equal) ==> final(self).ps().had_error,
            final(self).current.locals@ == old(self).current.locals@,
            (old(self).parser.current matches Some(t) && t.typ != TokenType::Eof) ==> final(self).measure() < old(self).measure(),
            final(self).ch().code@.len() > old(self).ch().code@.len() || final(self).ps().had_error,
            lone_number_expr(*old(self)) ==> lone_number_result(*old(self), *final(self)),
            old(self).parser.current matches Some(t) ==> ({
                &&& (spec_rule(t.typ).prefix is None ==> (final(self).ps().had_error && final(self).ch() == old(self).ch()))
                &&& ((spec_rule(t.typ).prefix is None && !old(self).ps().panic_mode && spec_scan(
                    old(self).sc().text(),
                    old(self).sc().cur(),
                    old(self).sc().cur_line(),
                ).typ != TokenType::Error) ==> final(self).diags() == old(self).diags().push(
                    spec_diag(t.typ, t.name@, t.line as nat, "Expect expression."@),
                ))
            }),
        decreases old(self).measure(), 0int,
    {
        self.advance();
        let prev = self.parser.previous.unwrap();
        let rule = get_rule(prev.typ);
        let can_assign = prec_rank(precedence) <= prec_rank(Precedence::Assignment);
        match rule.prefix {
            Some(ParseFnId::Grouping) => self.grouping(can_assign),
            Some(ParseFnId::Unary) => self.unary(can_assign),
            Some(ParseFnId::NumberLit) => self.number(can_assign),
            Some(ParseFnId::StringLit) => self.string(can_assign),
            Some(ParseFnId::Literal) => self.literal(can_assign),
            Some(ParseFnId::Variable) => self.variable(can_assign),
            Some(ParseFnId::Binary) => {
                proof {
                    assert(false);
                }
            },
            None => {
                let ghost dmid = self.diags();
                let ghost pmid = self.parser.panic_mode;
                self.error("Expect expression.");
                proof {
                    if !pmid {
                        assert(self.diags() =~= dmid.push(
                            spec_diag(prev.typ, prev.name@, prev.line as nat, "Expect expression."@),
                        ));
                    }
                }
                return ;
            },
        }
        let ghost mid = *self;
        loop
            invariant
                lone_number_expr(*old(self)) ==> (*self == mid && (mid.parser.current matches
                Some(t2) && spec_prec_rank(spec_rule(t2.typ).precedence) == 0 && t2.typ
                    != TokenType::Equal)),
                self.evolves_from(*old(self)),
                (old(self).parser.current matches Some(t) && t.typ != TokenType::Eof)
                    ==> self.measure() < old(self).measure(),
                spec_prec_rank(precedence) >= 1,
                self.ch().code@.len() > old(self).ch().code@.len() || self.ps().had_error,
                self.current.locals@ == old(self).current.locals@,
                (self.parser.previous matches Some(p) && p.typ == TokenType::Equal)
                    ==> self.parser.had_error,
            ensures
                self.evolves_from(*old(self)),
                (old(self).parser.current matches Some(t) && t.typ != TokenType::Eof)
                    ==> self.measure() < old(self).measure(),
                self.ch().code@.len() > old(self).ch().code@.len() || self.ps().had_error,
                self.current.locals@ == old(self).current.locals@,
                (self.parser.previous matches Some(p) && p.typ == TokenType::Equal)
                    ==> self.parser.had_error,
                lone_number_expr(*old(self)) ==> (*self == mid && (mid.parser.current matches
                Some(t2) && t2.typ != TokenType::Equal)),
            decreases self.measure(),
        {
            let cur = self.parser.current.unwrap();
            let crule = get_rule(cur.typ);
            if prec_rank(precedence) > prec_rank(crule.precedence) {
                break ;
            }
            proof {
                assert(cur.typ != TokenType::Eof);
            }
            self.advance();
            let prev2 = self.parser.previous.unwrap();
            let rule2 = get_rule(prev2.typ);
            match rule2.infix {
                Some(ParseFnId::Binary) => self.binary(can_assign),
                Some(_) => {
                    proof {
                        assert(false);
                    }
                },
                None => {},
            }
        }
        if can_assign {
            if self.matches(TokenType::Equal) {
                self.error("Invalid assignment target.");
            }
        }
    }

    /// Compiles one expression.
    fn expression(&mut self)
        requires
            old(self).wf(),
            old(self).parser.current is Some,
        ensures
            final(self).evolves_from(*old(self)),
            (final(self).ps().previous matches Some(p) && p.typ == TokenType::Equal) ==> final(self).ps().had_error,
            final(self).current.locals@ == old(self).current.locals@,
            (old(self).parser.current matches Some(t) && t.typ != TokenType::Eof) ==> final(self).measure() < old(self).measure(),
            final(self).ch().code@.len() > old(self).ch().code@.len() || final(self).ps().had_error,
            lone_number_expr(*old(self)) ==> lone_number_result(*old(self), *final(self)),
        decreases old(self).measure(), 1int,
    {
        self.parse_precedence(Precedence::Assignment);
    }
}

/// A statement the parser resolves in one straight line: the lookahead
/// is a number literal, a `;` follows it, and what comes after that is
/// not a lexical error; no panic, and room in the constant pool.
pub open spec fn print_number_stmt<'a>(c: Compiler<'a>) -> bool {
    let t3 = spec_scan(c.sc().text(), c.sc().cur(), c.sc().cur_line());
    let t4 = spec_scan(c.sc().text(), t3.end, t3.line);
    &&& (c.ps().current matches Some(n) && n.typ == TokenType::Number)
    &&& t3.typ == TokenType::Semicolon
    &&& t4.typ != TokenType::Error
    &&& !c.ps().panic_mode
    &&& c.ch().constants.values@.len() <= 255
}

/// What compiling `print <number literal> ;` does, from the state where
/// the literal is the lookahead: the constant is appended, `Constant`
/// then `Print` are emitted, no diagnostic is raised, and the parse
/// stands on the token after the `;`.
pub open spec fn print_number_result<'a>(o: Compiler<'a>, f: Compiler<'a>) -> bool {
    let n = o.ps().current.unwrap();
    let t3 = spec_scan(o.sc().text(), o.sc().cur(), o.sc().cur_line());
    let t4 = spec_scan(o.sc().text(), t3.end, t3.line);
    &&& f.ch().code@ == o.ch().code@.push(
        OpCode::Constant(o.ch().constants.values@.len() as u8),
    ).push(OpCode::Print)
    &&& f.ch().constants.values@ == o.ch().constants.values@.push(
        Value::Number(crate::num::number_bits(n.name@).unwrap()),
    )
    &&& f.diags() == o.diags()
    &&& f.ps().had_error == o.ps().had_error
    &&& f.ps().panic_mode == o.ps().panic_mode
    &&& (f.ps().current matches Some(t2) && t2.typ == t4.typ && t2.name@ == t4.lex
        && t2.line == t4.line)
    &&& f.sc().cur() == t4.end
    &&& f.sc().cur_line() == t4.line
    &&& f.tbl() == o.tbl()
}

/// A declaration the parser resolves in one straight line: `print`, a
/// number literal, `;`, and then anything but a lexical error.
pub open spec fn print_number_decl<'a>(c: Compiler<'a>) -> bool {
    let t2 = spec_scan(c.sc().text(), c.sc().cur(), c.sc().cur_line());
    let t3 = spec_scan(c.sc().text(), t2.end, t2.line);
    let t4 = spec_scan(c.sc().text(), t3.end, t3.line);
    &&& (c.ps().current matches Some(t) && t.typ == TokenType::Print)
    &&& t2.typ == TokenType::Number
    &&& t3.typ == TokenType::Semicolon
    &&& t4.typ != TokenType::Error
    &&& !c.ps().panic_mode
    &&& c.ch().constants.values@.len() <= 255
}

/// What compiling the declaration `print <number literal> ;` does, from
/// the state where `print` is the lookahead.
pub open spec fn print_number_decl_result<'a>(o: Compiler<'a>, f: Compiler<'a>) -> bool {
    let t2 = spec_scan(o.sc().text(), o.sc().cur(), o.sc().cur_line());
    let t3 = spec_scan(o.sc().text(), t2.end, t2.line);
    let t4 = spec_scan(o.sc().text(), t3.end, t3.line);
    &&& f.ch().code@ == o.ch().code@.push(
        OpCode::Constant(o.ch().constants.values@.len() as u8),
    ).push(OpCode::Print)
    &&& f.ch().constants.values@ == o.ch().constants.values@.push(
        Value::Number(crate::num::number_bits(t2.lex).unwrap()),
    )
    &&& f.diags() == o.diags()
    &&& f.ps().had_error == o.ps().had_error
    &&& f.ps().panic_mode == o.ps().panic_mode
    &&& (f.ps().current matches Some(c2) && c2.typ == t4.typ && c2.name@ == t4.lex
        && c2.line == t4.line)
    &&& f.sc().cur() == t4.end
    &&& f.sc().cur_line() == t4.line
    &&& f.tbl() == o.tbl()
}

/// A whole program the compiler resolves in one straight line:
/// `print <number literal> ;` and nothing else.
pub open spec fn print_number_program<'a>(c: Compiler<'a>) -> bool {
    let t1 = spec_scan(c.sc().text(), c.sc().cur(), c.sc().cur_line());
    let t2 = spec_scan(c.sc().text(), t1.end, t1.line);
    let t3 = spec_scan(c.sc().text(), t2.end, t2.line);
    let t4 = spec_scan(c.sc().text(), t3.end, t3.line);
    &&& t1.typ == TokenType::Print
    &&& t2.typ == TokenType::Number
    &&& t3.typ == TokenType::Semicolon
    &&& t4.typ == TokenType::Eof
    &&& !c.ps().had_error
    &&& !c.ps().panic_mode
    &&& c.ch().constants.values@.len() <= 255
}

impl<'src> Compiler<'src> {
    /// A `var` declaration: name, optional initializer (else `nil`), `;`,
    /// then the variable is defined.
    fn var_declaration(&mut self)
        requires
            old(self).wf(),
            old(self).parser.current is Some,
            old(self).parser.previous is Some,
        ensures
            final(self).evolves_from(*old(self)),
            old(self).current.scope_depth == 0 ==> (final(self).ch().code@.len() > old(self).ch().code@.len() && final(self).ch().code@.last() matches OpCode::DefineGlobal(_)),
            ({
                let named = old(self).parser.current.unwrap();
                (old(self).current.scope_depth > 0 && old(self).current.locals@.len() < 256
                    && named.typ == TokenType::Identifier) ==> (final(self).current.locals@.len()
                    == old(self).current.locals@.len() + 1
                    && final(self).current.locals@.last().name == named
                    && final(self).current.locals@.last().depth == Some(
                    old(self).current.scope_depth,
                ))
            }),
    {
        let global = self.parse_variable("Expect variable name.");
        let ghost depth0 = self.current.scope_depth;
        let ghost nc0 = self.chunk.constants.values@.len();
        if self.matches(TokenType::Equal) {
            self.expression();
        } else {
            self.emit_byte(OpCode::Nil);
        }
        self.consume(TokenType::Semicolon, "Expect ';' after variable declaration");
        self.define_variable(global);
    }

    /// An expression statement: the expression, `;`, and a `Pop` of its
    /// value.
    fn expression_statement(&mut self)
        requires
            old(self).wf(),
            old(self).parser.current is Some,
        ensures
            final(self).evolves_from(*old(self)),
            (old(self).parser.current matches Some(t) && t.typ != TokenType::Eof) ==> final(self).measure() < old(self).measure(),
            final(self).ch().code@.len() > old(self).ch().code@.len(),
            final(self).ch().code@.last() == OpCode::Pop,
    {
        self.expression();
        self.consume(TokenType::Semicolon, "Expect ';' after expression.");
        self.emit_byte(OpCode::Pop);
    }

    /// A `print` statement: the expression, `;`, and a `Print`.
    fn print_statement(&mut self)
        requires
            old(self).wf(),
            old(self).parser.current is Some,
        ensures
            final(self).evolves_from(*old(self)),
            final(self).ch().code@.len() > old(self).ch().code@.len(),
            final(self).ch().code@.last() == OpCode::Print,
            print_number_stmt(*old(self)) ==> print_number_result(*old(self), *final(self)),
    {
        self.expression();
        self.consume(TokenType::Semicolon, "Expect ';' after value.");
        self.emit_byte(OpCode::Print);
    }

    /// An `if` statement: condition in parentheses, a conditional jump
    /// over the then branch, then the branch. The condition value is
    /// popped on both paths: the then branch pops it before running, and
    /// a plain jump routes the false case over the then branch to a pop
    /// of its own.
    fn if_statement(&mut self)
        requires
            old(self).wf(),
            old(self).parser.current is Some,
            old(self).parser.previous is Some,
        ensures
            final(self).evolves_from(*old(self)),
            !final(self).ps().had_error ==> (final(self).ch().code@.len() >= old(self).ch().code@.len() + 5
                && final(self).ch().code@.last() == OpCode::Pop),
        decreases old(self).measure(), 1int,
    {
        self.consume(TokenType::LeftParen, "Expect '(' after 'if'.");
        self.expression();
        self.consume(TokenType::RightParen, "Expect ')' after condition.");
        let then_jump = self.emit_jump(OpCode::JumpIfFalse(0));
        self.emit_byte(OpCode::Pop);
        self.statement();
        let else_jump = self.emit_jump(OpCode::Jump(0));
        self.patch_jump(then_jump);
        self.emit_byte(OpCode::Pop);
        self.patch_jump(else_jump);
    }

    /// A brace-delimited sequence of declarations.
    fn block(&mut self)
        requires
            old(self).wf(),
            old(self).parser.current is Some,
            old(self).parser.previous is Some,
        ensures
            final(self).evolves_from(*old(self)),
        decreases old(self).measure(), 2int,
    {
        loop
            invariant
                self.evolves_from(*old(self)),
            ensures
                self.evolves_from(*old(self)),
                (self.parser.current matches Some(t) && (t.typ == TokenType::RightBrace || t.typ
                    == TokenType::Eof)),
            decreases self.measure(),
        {
            if self.check(TokenType::RightBrace) || self.check(TokenType::Eof) {
                break ;
            }
            self.declaration();
        }
        self.consume(TokenType::RightBrace, "Expect '}' after block.");
    }

    /// One statement: `print`, `if`, a block, or an expression statement.
    fn statement(&mut self)
        requires
            old(self).wf(),
            old(self).parser.current is Some,
        ensures
            final(self).evolves_from(*old(self)),
            (old(self).parser.current matches Some(t) && t.typ != TokenType::Eof) ==> final(self).measure() < old(self).measure(),
            old(self).parser.current matches Some(t) ==> ({
                let c = final(self).ch().code@;
                &&& (t.typ == TokenType::Print ==> (c.len() > old(self).ch().code@.len()
                    && c.last() == OpCode::Print))
                &&& ((t.typ == TokenType::If && !final(self).ps().had_error) ==> (c.len()
                    >= old(self).ch().code@.len() + 5 && c.last() == OpCode::Pop))
                &&& ((t.typ != TokenType::Print && t.typ != TokenType::If && t.typ
                    != TokenType::LeftBrace) ==> (c.len() > old(self).ch().code@.len()
                    && c.last() == OpCode::Pop))
            }),
            print_number_decl(*old(self)) ==> print_number_decl_result(*old(self), *final(self)),
        decreases old(self).measure(), 0int,
    {
        if self.matches(TokenType::Print) {
            self.print_statement();
        } else if self.matches(TokenType::If) {
            self.if_statement();
        } else if self.matches(TokenType::LeftBrace) {
            self.begin_scope();
            self.block();
            self.end_scope();
        } else {
            self.expression_statement();
        }
    }

    /// One declaration: a `var` declaration or a statement; after a parse
    /// error, skip ahead to a statement boundary.
    fn declaration(&mut self)
        requires
            old(self).wf(),
            old(self).parser.current is Some,
        ensures
            final(self).evolves_from(*old(self)),
            (old(self).parser.current matches Some(t) && t.typ != TokenType::Eof) ==> final(self).measure() < old(self).measure(),
            old(self).parser.current matches Some(t) ==> ({
                let c = final(self).ch().code@;
                &&& ((t.typ == TokenType::Var && old(self).frame().scope_depth == 0) ==> (c.len()
                    > old(self).ch().code@.len() && c.last() matches OpCode::DefineGlobal(_)))
                &&& (t.typ == TokenType::Print ==> (c.len() > old(self).ch().code@.len()
                    && c.last() == OpCode::Print))
                &&& ((t.typ != TokenType::Print && t.typ != TokenType::If && t.typ
                    != TokenType::LeftBrace && t.typ != TokenType::Var) ==> (c.len() > old(self).ch().code@.len()
                    && c.last() == OpCode::Pop))
            }),
            print_number_decl(*old(self)) ==> print_number_decl_result(*old(self), *final(self)),
        decreases old(self).measure(), 1int,
    {
        if self.matches(TokenType::Var) {
            self.var_declaration();
        } else {
            self.statement();
        }
        if self.parser.panic_mode {
            self.synchronize();
        }
    }

    /// Leaves panic mode and skips tokens until just after a `;` or just
    /// before a token that can begin a statement, so one mistake yields
    /// one diagnostic.
    fn synchronize(&mut self)
        requires
            old(self).wf(),
            old(self).parser.current is Some,
            old(self).parser.previous is Some,
        ensures
            final(self).evolves_from(*old(self)),
            final(self).ch() == old(self).ch(),
            final(self).diags().len() == old(self).diags().len() ==> !final(self).ps().panic_mode,
            ({
                let c = final(self).ps().current.unwrap();
                ||| c.typ == TokenType::Eof
                ||| (final(self).ps().previous matches Some(p) && p.typ == TokenType::Semicolon)
                ||| c.typ == TokenType::Class
                ||| c.typ == TokenType::Fun
                ||| c.typ == TokenType::Var
                ||| c.typ == TokenType::For
                ||| c.typ == TokenType::If
                ||| c.typ == TokenType::While
                ||| c.typ == TokenType::Print
                ||| c.typ == TokenType::Return
            }),
    {
        self.parser.panic_mode = false;
        loop
            invariant
                self.evolves_from(*old(self)),
                self.chunk == old(self).chunk,
                self.diags().len() >= old(self).diags().len(),
                self.parser.panic_mode ==> self.diags().len() > old(self).diags().len(),
            ensures
                self.evolves_from(*old(self)),
                self.chunk == old(self).chunk,
                self.diags().len() >= old(self).diags().len(),
                self.parser.panic_mode ==> self.diags().len() > old(self).diags().len(),
            decreases self.measure(),
        {
            let cur = self.parser.current.unwrap();
            if cur.typ == TokenType::Eof {
                return ;
            }
            let prev = self.parser.previous.unwrap();
            if prev.typ == TokenType::Semicolon {
                return ;
            }
            match cur.typ {
                TokenType::Class | TokenType::Fun | TokenType::Var | TokenType::For
                    | TokenType::If | TokenType::While | TokenType::Print | TokenType::Return => {
                    return ;
                },
                _ => {},
            }
            self.advance();
        }
    }

    /// Finishes the chunk with a `Return`.
    fn end_compiler(&mut self)
        requires
            old(self).wf(),
            old(self).parser.previous is Some,
        ensures
            final(self).wf(),
            final(self).scanner == old(self).scanner,
            final(self).parser == old(self).parser,
            final(self).current == old(self).current,
            final(self).strings == old(self).strings,
            final(self).diagnostics == old(self).diagnostics,
            final(self).chunk.constants == old(self).chunk.constants,
            final(self).chunk.code@ == old(self).chunk.code@.push(OpCode::Return),
    {
        self.emit_return();
    }

    /// Compiles the whole source into the chunk. Success means no
    /// diagnostic was reported; the chunk then is well formed - every
    /// constant operand in range, every jump landing inside the code, one
    /// line per opcode - and ends with `Return`.
    pub fn compile(&mut self) -> (r: Result<(), CompileError>)
        requires
            old(self).wf(),
        ensures
            final(self).wf(),
            r is Ok <==> !final(self).ps().had_error,
            r is Ok <==> final(self).diags().len() == 0,
            (old(self).ps().had_error ==> final(self).ps().had_error),
            chunk_wf(final(self).ch()),
            final(self).ch().code@.len() == final(self).ch().lines@.len(),
            final(self).ch().code@.len() >= 1,
            final(self).ch().code@.last() == OpCode::Return,
            table_wf(final(self).tbl()),
            strings_valid(final(self).ch(), final(self).tbl()),
            !final(self).ps().had_error ==> global_ops_stringly(
                final(self).ch().code@,
                final(self).ch().constants.values@,
                final(self).tbl()@,
            ),
            old(self).tbl()@.len() <= final(self).tbl()@.len(),
            forall|i: int| 0 <= i < old(self).tbl()@.len() ==> final(self).tbl()@[i] == old(self).tbl()@[i],
            final(self).ps().current matches Some(t) && t.typ == TokenType::Eof,
            final(self).sc().cur() == final(self).sc().text().len(),
            final(self).sc().text() == old(self).sc().text(),
            print_number_program(*old(self)) ==> ({
                let t1 = spec_scan(old(self).sc().text(), old(self).sc().cur(), old(self).sc().cur_line());
                let t2 = spec_scan(old(self).sc().text(), t1.end, t1.line);
                &&& final(self).ch().code@ == old(self).ch().code@.push(
                    OpCode::Constant(old(self).ch().constants.values@.len() as u8),
                ).push(OpCode::Print).push(OpCode::Return)
                &&& final(self).ch().constants.values@ == old(self).ch().constants.values@.push(
                    Value::Number(crate::num::number_bits(t2.lex).unwrap()),
                )
                &&& final(self).diags() == old(self).diags()
                &&& !final(self).ps().had_error
            }),
            ({
                let first = spec_scan(old(self).sc().text(), old(self).sc().cur(), old(self).sc().cur_line());
                (first.typ == TokenType::Eof && !old(self).ps().had_error) ==> (!final(self).ps().had_error
                    && final(self).diags() == old(self).diags()
                    && final(self).ch().code@ == old(self).ch().code@.push(OpCode::Return))
            }),
            ({
                let first = spec_scan(old(self).sc().text(), old(self).sc().cur(), old(self).sc().cur_line());
                let c = final(self).ch().code@;
                &&& (first.typ == TokenType::Print ==> (exists|i: int|
                    0 <= i < c.len() && c[i] == OpCode::Print))
                &&& ((first.typ == TokenType::Var && old(self).frame().scope_depth == 0) ==> (
                exists|i: int| 0 <= i < c.len() && (#[trigger] c[i]) matches OpCode::DefineGlobal(
                    _,
                )))
                &&& ((first.typ != TokenType::Print && first.typ != TokenType::If && first.typ
                    != TokenType::LeftBrace && first.typ != TokenType::Var && first.typ
                    != TokenType::Eof && first.typ != TokenType::Error) ==> (exists|i: int|
                    0 <= i < c.len() && c[i] == OpCode::Pop))
            }),
    {
        let ghost first = spec_scan(self.scanner.text(), self.scanner.cur(), self.scanner.cur_line());
        let ghost depth0 = self.current.scope_depth;
        self.advance();
        let ghost post_cur = self.parser.current;
        let ghost post_code = self.chunk.code@;
        loop
            invariant_except_break
                (first.typ == TokenType::Eof && !old(self).parser.had_error) ==> (
                !self.parser.had_error && self.diagnostics == old(self).diagnostics
                    && self.chunk.code@ == old(self).chunk.code@ && self.parser.current
                    == post_cur),
            invariant
                self.wf(),
                self.parser.current is Some,
                (old(self).parser.had_error ==> self.parser.had_error),
                old(self).strings@.len() <= self.strings@.len(),
                forall|i: int| 0 <= i < old(self).strings@.len() ==> self.strings@[i] == old(self).strings@[i],
                self.scanner.text() == old(self).scanner.text(),
                self.current.scope_depth == depth0,
                first == spec_scan(
                    old(self).scanner.text(),
                    old(self).scanner.cur(),
                    old(self).scanner.cur_line(),
                ),
                first.typ != TokenType::Error ==> (post_cur matches Some(t) && t.typ
                    == first.typ),
                print_number_program(*old(self)) ==> ({
                    let t1 = spec_scan(old(self).scanner.text(), old(self).scanner.cur(), old(self).scanner.cur_line());
                    let t2 = spec_scan(old(self).scanner.text(), t1.end, t1.line);
                    &&& post_code == old(self).chunk.code@
                    &&& ((self.parser.current == post_cur && self.chunk.code@ == post_code
                        && self.chunk.constants.values@ == old(self).chunk.constants.values@
                        && self.diags() == old(self).diags() && !self.parser.had_error
                        && !self.parser.panic_mode && self.scanner.cur() == t1.end
                        && self.scanner.cur_line() == t1.line) || (self.chunk.code@ == old(self).chunk.code@.push(
                        OpCode::Constant(old(self).chunk.constants.values@.len() as u8),
                    ).push(OpCode::Print) && self.chunk.constants.values@ == old(self).chunk.constants.values@.push(
                        Value::Number(crate::num::number_bits(t2.lex).unwrap()),
                    ) && self.diags() == old(self).diags() && !self.parser.had_error
                        && !self.parser.panic_mode && (self.parser.current matches Some(x)
                        && x.typ == TokenType::Eof)))
                }),
                first.typ == TokenType::Print ==> ((self.parser.current == post_cur
                    && self.chunk.code@ == post_code) || (exists|i: int|
                    0 <= i < self.chunk.code@.len() && self.chunk.code@[i] == OpCode::Print)),
                (first.typ == TokenType::Var && depth0 == 0) ==> ((self.parser.current == post_cur
                    && self.chunk.code@ == post_code) || (exists|i: int|
                    0 <= i < self.chunk.code@.len() && (#[trigger] self.chunk.code@[i]) matches
                    OpCode::DefineGlobal(_))),
                (first.typ != TokenType::Print && first.typ != TokenType::If && first.typ
                    != TokenType::LeftBrace && first.typ != TokenType::Var && first.typ
                    != TokenType::Eof && first.typ != TokenType::Error) ==> ((self.parser.current
                    == post_cur && self.chunk.code@ == post_code) || (exists|i: int|
                    0 <= i < self.chunk.code@.len() && self.chunk.code@[i] == OpCode::Pop)),
            ensures
                self.wf(),
                self.parser.previous is Some,
                (old(self).parser.had_error ==> self.parser.had_error),
                old(self).strings@.len() <= self.strings@.len(),
                forall|i: int| 0 <= i < old(self).strings@.len() ==> self.strings@[i] == old(self).strings@[i],
                self.scanner.text() == old(self).scanner.text(),
                self.parser.current matches Some(t) && t.typ == TokenType::Eof,
                (first.typ == TokenType::Eof && !old(self).parser.had_error) ==> (
                !self.parser.had_error && self.diagnostics == old(self).diagnostics
                    && self.chunk.code@ == old(self).chunk.code@),
                print_number_program(*old(self)) ==> ({
                    let t1 = spec_scan(old(self).scanner.text(), old(self).scanner.cur(), old(self).scanner.cur_line());
                    let t2 = spec_scan(old(self).scanner.text(), t1.end, t1.line);
                    &&& self.chunk.code@ == old(self).chunk.code@.push(
                        OpCode::Constant(old(self).chunk.constants.values@.len() as u8),
                    ).push(OpCode::Print)
                    &&& self.chunk.constants.values@ == old(self).chunk.constants.values@.push(
                        Value::Number(crate::num::number_bits(t2.lex).unwrap()),
                    )
                    &&& self.diags() == old(self).diags()
                    &&& !self.parser.had_error
                }),
                first.typ == TokenType::Print ==> (exists|i: int|
                    0 <= i < self.chunk.code@.len() && self.chunk.code@[i] == OpCode::Print),
                (first.typ == TokenType::Var && depth0 == 0) ==> (exists|i: int|
                    0 <= i < self.chunk.code@.len() && (#[trigger] self.chunk.code@[i]) matches
                    OpCode::DefineGlobal(_)),
                (first.typ != TokenType::Print && first.typ != TokenType::If && first.typ
                    != TokenType::LeftBrace && first.typ != TokenType::Var && first.typ
                    != TokenType::Eof && first.typ != TokenType::Error) ==> (exists|i: int|
                    0 <= i < self.chunk.code@.len() && self.chunk.code@[i] == OpCode::Pop),
            decreases self.measure(),
        {
            if self.matches(TokenType::Eof) {
                break ;
            }
            let ghost pre_code = self.chunk.code@;
            let ghost pre_cur = self.parser.current;
            let ghost pre = *self;
            self.declaration();
            proof {
                if print_number_program(*old(self)) {
                    let t1 = spec_scan(
                        old(self).scanner.text(),
                        old(self).scanner.cur(),
                        old(self).scanner.cur_line(),
                    );
                    let t2 = spec_scan(old(self).scanner.text(), t1.end, t1.line);
                    assert(pre.parser.current == post_cur && pre.chunk.code@ == post_code
                        && pre.chunk.constants.values@ == old(self).chunk.constants.values@
                        && pre.diags() == old(self).diags() && !pre.parser.had_error
                        && !pre.parser.panic_mode && pre.scanner.cur() == t1.end
                        && pre.scanner.cur_line() == t1.line);
                    assert(print_number_decl(pre));
                    assert(print_number_decl_result(pre, *self));
                }
                if pre_cur == post_cur && pre_code == post_code && first.typ
                    != TokenType::Error {
                } else {
                    if exists|i: int|
                        0 <= i < pre_code.len() && pre_code[i] == OpCode::Print {
                        let i = choose|i: int|
                            0 <= i < pre_code.len() && pre_code[i] == OpCode::Print;
                        assert(self.chunk.code@[i] == OpCode::Print);
                    }
                    if exists|i: int|
                        0 <= i < pre_code.len() && (#[trigger] pre_code[i]) matches
                        OpCode::DefineGlobal(_) {
                        let i = choose|i: int|
                            0 <= i < pre_code.len() && (#[trigger] pre_code[i]) matches
                            OpCode::DefineGlobal(_);
                        assert(self.chunk.code@[i] == pre_code[i]);
                    }
                    if exists|i: int|
                        0 <= i < pre_code.len() && pre_code[i] == OpCode::Pop {
                        let i = choose|i: int|
                            0 <= i < pre_code.len() && pre_code[i] == OpCode::Pop;
                        assert(self.chunk.code@[i] == OpCode::Pop);
                    }
                }
            }
        }
        let ghost loop_code = self.chunk.code@;
        self.end_compiler();
        proof {
            if exists|i: int| 0 <= i < loop_code.len() && loop_code[i] == OpCode::Print {
                let i = choose|i: int|
                    0 <= i < loop_code.len() && loop_code[i] == OpCode::Print;
                assert(self.chunk.code@[i] == OpCode::Print);
            }
            if exists|i: int|
                0 <= i < loop_code.len() && (#[trigger] loop_code[i]) matches
                OpCode::DefineGlobal(_) {
                let i = choose|i: int|
                    0 <= i < loop_code.len() && (#[trigger] loop_code[i]) matches
                    OpCode::DefineGlobal(_);
                assert(self.chunk.code@[i] == loop_code[i]);
            }
            if exists|i: int| 0 <= i < loop_code.len() && loop_code[i] == OpCode::Pop {
                let i = choose|i: int|
                    0 <= i < loop_code.len() && loop_code[i] == OpCode::Pop;
                assert(self.chunk.code@[i] == OpCode::Pop);
            }
        }
        if self.parser.had_error {
            Err(CompileError)
        } else {
            Ok(())
        }
    }
}

/// Whether two string slices hold the same characters.
fn str_content_eq(a: &str, b: &str) -> (r: bool)
    ensures
        r == (a@ == b@),
{
    let an = a.unicode_len();
    let bn = b.unicode_len();
    if an != bn {
        return false;
    }
    let mut k: usize = 0;
    loop
        invariant
            an == a@.len(),
            bn == b@.len(),
            an == bn,
            k <= an,
            forall|t: int| 0 <= t < k ==> a@[t] == b@[t],
        ensures
            k <= an,
            forall|t: int| 0 <= t < k ==> a@[t] == b@[t],
            k == an || a@[k as int] != b@[k as int],
        decreases an - k,
    {
        if k >= an {
            break ;
        }
        if a.get_char(k) != b.get_char(k) {
            break ;
        }
        k = k + 1;
    }
    if k == an {
        proof {
            assert(a@ =~= b@);
        }
        true
    } else {
        false
    }
}

} // verus!
