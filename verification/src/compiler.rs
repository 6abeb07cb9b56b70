//! The compiler: a precedence-climbing (Pratt) parser that drives the
//! scanner token by token and emits bytecode into a chunk as a byproduct
//! of parsing — no syntax tree is built at run time. The whole parse is
//! modelled by the spec functions [`sp_parse`] and [`sp_infix`], which
//! read tokens straight off [`spec_scan`] and build a ghost [`Expr`];
//! [`Compiler::compile`] is proved to succeed exactly where that model
//! does, and to emit exactly the code and constants of the expression the
//! model parses.

use crate::chunk::{Chunk, OpCode, MAX_CONSTANTS};
use crate::expr::{code_of, consts_values, lemma_consts_of_len, lemma_nlit_pos, nlit, opcode_of, BinOp, Expr};
use crate::scanner::{lemma_number_token_lexeme, lemma_scan_bounds, scan_err_msg, spec_scan, token_from, Scanner, Token, TokenType};
use crate::value::{float_bits_of, parse_float_bits, Value};
use vstd::prelude::*;

verus! {

/// Precedence ranks, lowest to highest binding. An operator's right
/// operand is parsed one rank above the operator's own, which makes
/// binary operators left-associative.
pub const PREC_NONE: u8 = 0;

pub const PREC_ASSIGNMENT: u8 = 1;

pub const PREC_OR: u8 = 2;

pub const PREC_AND: u8 = 3;

pub const PREC_EQUALITY: u8 = 4;

pub const PREC_COMPARISON: u8 = 5;

pub const PREC_TERM: u8 = 6;

pub const PREC_FACTOR: u8 = 7;

pub const PREC_UNARY: u8 = 8;

pub const PREC_CALL: u8 = 9;

pub const PREC_PRIMARY: u8 = 10;

/// The infix precedence rank of a token: the terms bind below the
/// factors; everything else takes no infix position.
pub open spec fn infix_prec(t: TokenType) -> int {
    match t {
        TokenType::TOKEN_PLUS => PREC_TERM as int,
        TokenType::TOKEN_MINUS => PREC_TERM as int,
        TokenType::TOKEN_STAR => PREC_FACTOR as int,
        TokenType::TOKEN_SLASH => PREC_FACTOR as int,
        _ => PREC_NONE as int,
    }
}

/// The operator a binary-operator token stands for.
pub open spec fn binop_of(t: TokenType) -> BinOp {
    match t {
        TokenType::TOKEN_PLUS => BinOp::Add,
        TokenType::TOKEN_MINUS => BinOp::Sub,
        TokenType::TOKEN_STAR => BinOp::Mul,
        _ => BinOp::Div,
    }
}

/// What one parse yields: the expression, and the position and line the
/// next token starts scanning from.
pub struct POut {
    pub e: Expr,
    pub pos: nat,
    pub line: nat,
}

/// The precedence-climbing parse of one expression at binding strength
/// `min`, reading tokens straight off the scan model from position `pos`
/// on line `line`. The token there must open an expression (a number, a
/// unary minus, or a group); what follows is folded in by [`sp_infix`].
/// An error token anywhere, a number that does not parse, a group missing
/// its closing parenthesis, or a token that opens no expression all yield
/// nothing. The inner position guards mirror the fact, proved in
/// [`lemma_scan_bounds`], that every token but EOF spans at least one
/// character; they keep the definition visibly well-founded.
pub open spec fn sp_parse(src: Seq<char>, pos: nat, line: nat, min: int) -> Option<POut>
    decreases src.len() - pos, 0int,
{
    let o = spec_scan(src, pos, line);
    if o.kind == TokenType::TOKEN_NUMBER {
        match float_bits_of(src.subrange(o.start as int, o.end as int)) {
            Some(b) => {
                if pos < o.end && o.end <= src.len() {
                    sp_infix(src, o.end, o.nline, Expr::Num(b), min)
                } else {
                    None
                }
            },
            None => None,
        }
    } else if o.kind == TokenType::TOKEN_MINUS {
        if pos < o.end && o.end <= src.len() {
            match sp_parse(src, o.end, o.nline, PREC_UNARY as int) {
                Some(p) => {
                    if pos < p.pos && p.pos <= src.len() {
                        sp_infix(src, p.pos, p.line, Expr::Neg(Box::new(p.e)), min)
                    } else {
                        None
                    }
                },
                None => None,
            }
        } else {
            None
        }
    } else if o.kind == TokenType::TOKEN_LEFT_PAREN {
        if pos < o.end && o.end <= src.len() {
            match sp_parse(src, o.end, o.nline, PREC_ASSIGNMENT as int) {
                Some(p) => {
                    let c = spec_scan(src, p.pos, p.line);
                    if c.kind == TokenType::TOKEN_RIGHT_PAREN && pos < c.end && c.end
                        <= src.len() {
                        sp_infix(src, c.end, c.nline, p.e, min)
                    } else {
                        None
                    }
                },
                None => None,
            }
        } else {
            None
        }
    } else {
        None
    }
}

/// The infix half of the climb: while the next token is an operator
/// binding at least as strongly as `min`, its right operand is parsed one
/// rank higher and folded into `left`; a weaker token ends the expression
/// without being consumed. An error token in operand position ends the
/// whole parse with nothing.
pub open spec fn sp_infix(src: Seq<char>, pos: nat, line: nat, left: Expr, min: int) -> Option<
    POut,
>
    decreases src.len() - pos, 1int,
{
    let o = spec_scan(src, pos, line);
    if o.kind == TokenType::TOKEN_ERROR {
        None
    } else if infix_prec(o.kind) >= min && min >= 1 {
        if pos < o.end && o.end <= src.len() {
            match sp_parse(src, o.end, o.nline, infix_prec(o.kind) + 1) {
                Some(p) => {
                    if pos < p.pos && p.pos <= src.len() {
                        sp_infix(
                            src,
                            p.pos,
                            p.line,
                            Expr::Bin(binop_of(o.kind), Box::new(left), Box::new(p.e)),
                            min,
                        )
                    } else {
                        None
                    }
                },
                None => None,
            }
        } else {
            None
        }
    } else {
        Some(POut { e: left, pos: pos, line: line })
    }
}

/// The parse of a whole source: one expression at the lowest binding
/// strength, then the end of input. Trailing tokens after the expression
/// fail the parse.
pub open spec fn sp_compile(src: Seq<char>, pos: nat, line: nat) -> Option<POut> {
    match sp_parse(src, pos, line, PREC_ASSIGNMENT as int) {
        Some(p) => {
            if spec_scan(src, p.pos, p.line).kind == TokenType::TOKEN_EOF {
                Some(p)
            } else {
                None
            }
        },
        None => None,
    }
}

/// Whether compilation of the source starting at `pos` succeeds: the
/// parse goes through and the expression's literals fit the one-byte
/// operand encoding of the constant pool.
pub open spec fn compiles(src: Seq<char>, pos: nat, line: nat) -> bool {
    sp_compile(src, pos, line) matches Some(p) && nlit(p.e) <= MAX_CONSTANTS
}

/// A successful chain of infix steps never loses literals: the result
/// grows from `left` by whole operands.
pub proof fn lemma_sp_infix_nlit(src: Seq<char>, pos: nat, line: nat, left: Expr, min: int)
    ensures
        (sp_infix(src, pos, line, left, min) matches Some(p) ==> nlit(p.e) >= nlit(left)),
    decreases src.len() - pos, 1int,
{
    let o = spec_scan(src, pos, line);
    if o.kind == TokenType::TOKEN_ERROR {
    } else if infix_prec(o.kind) >= min && min >= 1 {
        if pos < o.end && o.end <= src.len() {
            match sp_parse(src, o.end, o.nline, infix_prec(o.kind) + 1) {
                Some(p) => {
                    if pos < p.pos && p.pos <= src.len() {
                        lemma_sp_infix_nlit(
                            src,
                            p.pos,
                            p.line,
                            Expr::Bin(binop_of(o.kind), Box::new(left), Box::new(p.e)),
                            min,
                        );
                    }
                },
                None => {},
            }
        }
    }
}

/// Unfolds one failing infix step: an error token in operand position
/// ends the climb with nothing.
proof fn lemma_infix_step_err(src: Seq<char>, q: (nat, nat), left: Expr, min: int)
    requires
        min >= 1,
        q.0 <= src.len(),
        infix_prec(spec_scan(src, q.0, q.1).kind) >= min,
        spec_scan(
            src,
            spec_scan(src, q.0, q.1).end,
            spec_scan(src, q.0, q.1).nline,
        ).kind == TokenType::TOKEN_ERROR,
    ensures
        sp_infix(src, q.0, q.1, left, min) is None,
{
    reveal_with_fuel(sp_parse, 2);
    reveal_with_fuel(sp_infix, 2);
    lemma_scan_bounds(src, q.0, q.1);
    let oq = spec_scan(src, q.0, q.1);
    assert(sp_parse(src, oq.end, oq.nline, infix_prec(oq.kind) + 1) is None);
}

/// A successful infix climb that starts at an operator has a right
/// operand: the operand parse went through and moved forward.
proof fn lemma_infix_some_inner(src: Seq<char>, q: (nat, nat), left: Expr, min: int)
    requires
        min >= 1,
        q.0 <= src.len(),
        infix_prec(spec_scan(src, q.0, q.1).kind) >= min,
        sp_infix(src, q.0, q.1, left, min) is Some,
    ensures
        ({
            let oq = spec_scan(src, q.0, q.1);
            sp_parse(src, oq.end, oq.nline, infix_prec(oq.kind) + 1) matches Some(p) && q.0 < p.pos
                && p.pos <= src.len()
        }),
{
    lemma_scan_bounds(src, q.0, q.1);
}

/// Unfolds one successful infix step: the operator folds its operand into
/// `left` and the climb goes on from behind the operand.
proof fn lemma_infix_step(src: Seq<char>, q: (nat, nat), left: Expr, min: int)
    requires
        min >= 1,
        q.0 <= src.len(),
        infix_prec(spec_scan(src, q.0, q.1).kind) >= min,
        ({
            let oq = spec_scan(src, q.0, q.1);
            sp_parse(src, oq.end, oq.nline, infix_prec(oq.kind) + 1) matches Some(p) && q.0 < p.pos
                && p.pos <= src.len()
        }),
    ensures
        ({
            let oq = spec_scan(src, q.0, q.1);
            let p = sp_parse(src, oq.end, oq.nline, infix_prec(oq.kind) + 1)->Some_0;
            sp_infix(src, q.0, q.1, left, min) == sp_infix(
                src,
                p.pos,
                p.line,
                Expr::Bin(binop_of(oq.kind), Box::new(left), Box::new(p.e)),
                min,
            )
        }),
{
    lemma_scan_bounds(src, q.0, q.1);
}

/// How code and constants grow when an operator folds a right operand
/// into the left one: exactly by the operand's code and the operator's
/// opcode, and by the operand's constants.
proof fn lemma_bin_build(c0: Seq<OpCode>, k0: Seq<Value>, op: BinOp, l: Expr, r: Expr, base: nat)
    ensures
        c0 + code_of(l, base) + code_of(r, base + nlit(l)) + seq![opcode_of(op)] == c0 + code_of(
            Expr::Bin(op, Box::new(l), Box::new(r)),
            base,
        ),
        k0 + consts_values(l) + consts_values(r) == k0 + consts_values(
            Expr::Bin(op, Box::new(l), Box::new(r)),
        ),
        nlit(Expr::Bin(op, Box::new(l), Box::new(r))) == nlit(l) + nlit(r),
{
    let e = Expr::Bin(op, Box::new(l), Box::new(r));
    assert(code_of(e, base) == code_of(l, base) + code_of(r, base + nlit(l)) + seq![
        opcode_of(op),
    ]);
    assert(c0 + code_of(l, base) + code_of(r, base + nlit(l)) + seq![opcode_of(op)] =~= c0
        + (code_of(l, base) + code_of(r, base + nlit(l)) + seq![opcode_of(op)]));
    assert(consts_values(e) =~= consts_values(l) + consts_values(r));
    assert(k0 + consts_values(l) + consts_values(r) =~= k0 + (consts_values(l) + consts_values(
        r,
    )));
}

/// Whether two tokens carry the same information (their lexeme strings
/// may be distinct allocations with equal text).
pub open spec fn token_eqv(a: Token, b: Token) -> bool {
    &&& a.token_type == b.token_type
    &&& a.line == b.line
    &&& a.start == b.start
    &&& a.length == b.length
    &&& (a.option_string is Some <==> b.option_string is Some)
    &&& (a.option_string matches Some(s) ==> (b.option_string matches Some(t) && s@ == t@))
}

/// A compile-time diagnostic: the line of the offending token, whether it
/// was the end of input, and the message.
#[derive(Debug)]
pub struct Diagnostic {
    pub line: usize,
    pub at_end: bool,
    pub message: String,
}

/// The parser's token window and error flags: the token under
/// consideration, the one before it, whether any error was reported, and
/// the sticky suppression flag that keeps one error from cascading.
pub struct Parser {
    pub current: Token,
    pub previous: Token,
    pub had_error: bool,
    pub panic_mode: bool,
}

/// The compiler: it owns the scanner it pulls tokens from and the chunk
/// it emits into, hands the chunk over whole when compilation is done,
/// and keeps the first diagnostic of a failed compile. The ghost cursor
/// is the scan position the current token was read from: the hinge
/// between the running state and the spec parse.
pub struct Compiler {
    pub scanner: Scanner,
    pub parser: Parser,
    pub chunk: Chunk,
    pub cursor: Ghost<(nat, nat)>,
    pub diagnostic: Option<Diagnostic>,
}

impl Compiler {
    /// The source text being compiled.
    pub open spec fn src(self) -> Seq<char> {
        self.scanner.src()
    }

    /// The compiler's invariant while parsing: the current token is the
    /// one the scan model yields at the ghost cursor, it is not an error
    /// token, and the scanner stands right behind it.
    pub open spec fn wf(self) -> bool {
        let o = spec_scan(self.src(), self.cursor@.0, self.cursor@.1);
        &&& self.scanner.wf()
        &&& self.cursor@.0 <= self.src().len()
        &&& token_from(self.src(), o, self.parser.current)
        &&& o.kind != TokenType::TOKEN_ERROR
        &&& self.scanner.current == o.end
        &&& self.scanner.line == o.nline
        &&& self.chunk.wf()
    }

    /// A fresh compiler over the source, its scanner at the first
    /// character and nothing compiled yet.
    pub fn init(source_code: &String) -> (r: Compiler)
        requires
            source_code@.len() < usize::MAX,
        ensures
            r.scanner.wf(),
            r.src() == source_code@,
            r.scanner.current == 0,
            r.scanner.line == 1,
            r.chunk.wf(),
            !r.parser.had_error,
            !r.parser.panic_mode,
            r.diagnostic is None,
    {
        Compiler {
            scanner: Scanner::init(source_code),
            parser: Parser {
                current: Token {
                    token_type: TokenType::TOKEN_EOF,
                    line: 0,
                    start: 0,
                    length: 0,
                    option_string: None,
                },
                previous: Token {
                    token_type: TokenType::TOKEN_EOF,
                    line: 0,
                    start: 0,
                    length: 0,
                    option_string: None,
                },
                had_error: false,
                panic_mode: false,
            },
            chunk: Chunk::init(),
            cursor: Ghost((0nat, 1nat)),
            diagnostic: None,
        }
    }

    /// Hands the compiled chunk over to its one consumer: ownership moves
    /// linearly from the finished compile to the virtual machine.
    pub fn current_chunk(self) -> (r: Chunk)
        ensures
            r == self.chunk,
    {
        self.chunk
    }

    /// Records a diagnostic and marks the compile failed. While the
    /// suppression flag is set from an earlier report, the new one is
    /// dropped: one root error reports once.
    fn report_error(&mut self, line: usize, at_end_tok: bool, message: String)
        requires
            old(self).parser.panic_mode ==> (old(self).parser.had_error && old(self).diagnostic is Some),
        ensures
            final(self).parser.had_error,
            final(self).parser.panic_mode,
            final(self).diagnostic is Some,
            (!old(self).parser.panic_mode ==> (final(self).diagnostic matches Some(d) && d.line
                == line && d.at_end == at_end_tok && d.message == message)),
            final(self).scanner == old(self).scanner,
            final(self).chunk == old(self).chunk,
            final(self).cursor == old(self).cursor,
            final(self).parser.current == old(self).parser.current,
            final(self).parser.previous == old(self).parser.previous,
    {
        if self.parser.panic_mode {
            return ;
        }
        self.parser.panic_mode = true;
        self.parser.had_error = true;
        self.diagnostic = Some(Diagnostic { line, at_end: at_end_tok, message });
    }

    /// Reports an error anchored at the token before the window.
    fn error(&mut self, message: &str)
        requires
            old(self).parser.panic_mode ==> (old(self).parser.had_error && old(self).diagnostic is Some),
        ensures
            final(self).parser.had_error,
            final(self).parser.panic_mode,
            final(self).diagnostic is Some,
            final(self).scanner == old(self).scanner,
            final(self).chunk == old(self).chunk,
            final(self).cursor == old(self).cursor,
            final(self).parser.current == old(self).parser.current,
            final(self).parser.previous == old(self).parser.previous,
    {
        let line = self.parser.previous.line;
        let at_end_tok = self.parser.previous.token_type == TokenType::TOKEN_EOF;
        self.report_error(line, at_end_tok, String::from_str(message));
    }

    /// Reports an error anchored at the current token.
    fn error_at_current(&mut self, message: &str)
        requires
            old(self).parser.panic_mode ==> (old(self).parser.had_error && old(self).diagnostic is Some),
        ensures
            final(self).parser.had_error,
            final(self).parser.panic_mode,
            final(self).diagnostic is Some,
            final(self).scanner == old(self).scanner,
            final(self).chunk == old(self).chunk,
            final(self).cursor == old(self).cursor,
            final(self).parser.current == old(self).parser.current,
            final(self).parser.previous == old(self).parser.previous,
    {
        let line = self.parser.current.line;
        let at_end_tok = self.parser.current.token_type == TokenType::TOKEN_EOF;
        self.report_error(line, at_end_tok, String::from_str(message));
    }

    /// Shifts the token window: the current token becomes the previous
    /// one, and the next token is pulled from the scanner. An error token
    /// there is reported and fails the pull; its diagnostic carries the
    /// line the scanner anchored it to.
    fn advance(&mut self) -> (r: Result<(), ()>)
        requires
            old(self).scanner.wf(),
            old(self).parser.panic_mode ==> (old(self).parser.had_error && old(self).diagnostic is Some),
        ensures
            final(self).scanner.src() == old(self).scanner.src(),
            final(self).chunk == old(self).chunk,
            final(self).scanner.wf(),
            ({
                let o = spec_scan(
                    old(self).scanner.src(),
                    old(self).scanner.current as nat,
                    old(self).scanner.line as nat,
                );
                &&& (r is Ok ==> token_eqv(final(self).parser.previous, old(self).parser.current))
                &&& (r is Ok ==> (o.kind != TokenType::TOKEN_ERROR && token_from(
                    final(self).src(),
                    o,
                    final(self).parser.current,
                ) && final(self).scanner.current == o.end && final(self).scanner.line == o.nline
                    && final(self).cursor@ == (
                    old(self).scanner.current as nat,
                    old(self).scanner.line as nat,
                ) && final(self).diagnostic == old(self).diagnostic && final(self).parser.panic_mode
                    == old(self).parser.panic_mode && final(self).parser.had_error == old(self).parser.had_error))
                &&& (r is Err ==> (o.kind == TokenType::TOKEN_ERROR && final(self).parser.had_error && final(self).diagnostic is Some && final(self).cursor == old(self).cursor))
                &&& (r is Err && !old(self).parser.panic_mode ==> (final(self).diagnostic matches Some(d) && d.line == o.tline && d.message@ == scan_err_msg(old(self).scanner.src(), o)))
            }),
    {
        let ghost c0 = (self.scanner.current as nat, self.scanner.line as nat);
        let tok = self.scanner.scan_token();
        if tok.token_type == TokenType::TOKEN_ERROR {
            let line = tok.line;
            let msg = match tok.option_string {
                Some(s) => s,
                None => String::new(),
            };
            self.report_error(line, false, msg);
            return Err(());
        }
        self.parser.previous = self.parser.current.duplicate();
        self.parser.current = tok;
        self.cursor = Ghost(c0);
        Ok(())
    }

    /// Appends one entry to the chunk, tagged with the previous token's
    /// line.
    fn emit_byte(&mut self, byte: OpCode)
        requires
            old(self).chunk.wf(),
        ensures
            final(self).chunk.wf(),
            final(self).chunk.code@ == old(self).chunk.code@.push(byte),
            final(self).chunk.consts() == old(self).chunk.consts(),
            final(self).scanner == old(self).scanner,
            final(self).parser == old(self).parser,
            final(self).cursor == old(self).cursor,
            final(self).diagnostic == old(self).diagnostic,
    {
        let line = self.parser.previous.line;
        self.chunk.write_chunk(byte, line);
    }

    /// Appends two entries: an opcode and its operand.
    fn emit_bytes(&mut self, byte1: OpCode, byte2: OpCode)
        requires
            old(self).chunk.wf(),
        ensures
            final(self).chunk.wf(),
            final(self).chunk.code@ == old(self).chunk.code@.push(byte1).push(byte2),
            final(self).chunk.consts() == old(self).chunk.consts(),
            final(self).scanner == old(self).scanner,
            final(self).parser == old(self).parser,
            final(self).cursor == old(self).cursor,
            final(self).diagnostic == old(self).diagnostic,
    {
        self.emit_byte(byte1);
        self.emit_byte(byte2);
    }

    /// Appends the terminal return instruction.
    fn emit_return(&mut self)
        requires
            old(self).chunk.wf(),
        ensures
            final(self).chunk.wf(),
            final(self).chunk.code@ == old(self).chunk.code@.push(OpCode::OpReturn),
            final(self).chunk.consts() == old(self).chunk.consts(),
            final(self).scanner == old(self).scanner,
            final(self).parser == old(self).parser,
            final(self).cursor == old(self).cursor,
            final(self).diagnostic == old(self).diagnostic,
    {
        self.emit_byte(OpCode::OpReturn);
    }

    /// Ends the compile by emitting the terminal return.
    fn end_compiler(&mut self)
        requires
            old(self).chunk.wf(),
        ensures
            final(self).chunk.wf(),
            final(self).chunk.code@ == old(self).chunk.code@.push(OpCode::OpReturn),
            final(self).chunk.consts() == old(self).chunk.consts(),
            final(self).scanner == old(self).scanner,
            final(self).parser == old(self).parser,
            final(self).cursor == old(self).cursor,
            final(self).diagnostic == old(self).diagnostic,
    {
        self.emit_return();
    }

    /// Adds a value to the constant pool; a full pool is a compile error,
    /// since its index could not be encoded in the one operand byte.
    fn make_constant(&mut self, value: Value) -> (r: Result<u8, ()>)
        requires
            old(self).chunk.wf(),
            old(self).parser.panic_mode ==> (old(self).parser.had_error && old(self).diagnostic is Some),
        ensures
            final(self).chunk.wf(),
            final(self).scanner == old(self).scanner,
            final(self).cursor == old(self).cursor,
            final(self).parser.current == old(self).parser.current,
            final(self).parser.previous == old(self).parser.previous,
            final(self).chunk.code@ == old(self).chunk.code@,
            (r matches Ok(idx) ==> (old(self).chunk.consts().len() < MAX_CONSTANTS && idx == old(self).chunk.consts().len() && final(self).chunk.consts() == old(self).chunk.consts().push(
                value,
            ) && final(self).parser == old(self).parser && final(self).diagnostic == old(self).diagnostic)),
            (r is Err ==> (old(self).chunk.consts().len() >= MAX_CONSTANTS && final(self).chunk.consts() == old(self).chunk.consts() && final(self).parser.had_error && final(self).diagnostic is Some)),
    {
        match self.chunk.add_constant(value) {
            Some(idx) => Ok(idx),
            None => {
                self.error("Too many constants in one chunk.");
                Err(())
            },
        }
    }

    /// Emits a load of `value`: the constant goes to the pool, the opcode
    /// and the pool index into the code.
    fn emit_constant(&mut self, value: Value) -> (r: Result<(), ()>)
        requires
            old(self).chunk.wf(),
            old(self).parser.panic_mode ==> (old(self).parser.had_error && old(self).diagnostic is Some),
        ensures
            final(self).chunk.wf(),
            final(self).scanner == old(self).scanner,
            final(self).cursor == old(self).cursor,
            final(self).parser.current == old(self).parser.current,
            final(self).parser.previous == old(self).parser.previous,
            (r is Ok ==> (old(self).chunk.consts().len() < MAX_CONSTANTS && final(self).chunk.code@ == old(self).chunk.code@.push(OpCode::OpConstant).push(
                OpCode::Byte(old(self).chunk.consts().len() as u8),
            ) && final(self).chunk.consts() == old(self).chunk.consts().push(value) && final(self).parser == old(self).parser && final(self).diagnostic == old(self).diagnostic)),
            (r is Err ==> (old(self).chunk.consts().len() >= MAX_CONSTANTS && final(self).parser.had_error && final(self).diagnostic is Some)),
    {
        let idx = match self.make_constant(value) {
            Ok(idx) => idx,
            Err(_) => {
                return Err(());
            },
        };
        self.emit_bytes(OpCode::OpConstant, OpCode::Byte(idx));
        Ok(())
    }

    /// The infix precedence rank of a token.
    fn token_prec(t: TokenType) -> (r: u8)
        ensures
            r as int == infix_prec(t),
            r <= 7,
    {
        match t {
            TokenType::TOKEN_PLUS => PREC_TERM,
            TokenType::TOKEN_MINUS => PREC_TERM,
            TokenType::TOKEN_STAR => PREC_FACTOR,
            TokenType::TOKEN_SLASH => PREC_FACTOR,
            _ => PREC_NONE,
        }
    }

    /// Consumes the current token when it is of the given category;
    /// anything else there is a compile error carrying `message`.
    fn consume(&mut self, token_type: TokenType, message: &str) -> (r: Result<(), ()>)
        requires
            old(self).wf(),
            !old(self).parser.had_error,
            !old(self).parser.panic_mode,
        ensures
            final(self).src() == old(self).src(),
            final(self).chunk == old(self).chunk,
            ({
                let o = spec_scan(old(self).src(), old(self).cursor@.0, old(self).cursor@.1);
                let n = spec_scan(old(self).src(), o.end, o.nline);
                &&& (r is Ok ==> (o.kind == token_type && final(self).wf() && !final(self).parser.had_error && !final(self).parser.panic_mode && final(self).diagnostic
                    == old(self).diagnostic && final(self).cursor@ == (o.end, o.nline)))
                &&& (r is Err ==> (final(self).parser.had_error && final(self).diagnostic is Some
                    && (o.kind != token_type || n.kind == TokenType::TOKEN_ERROR)))
            }),
    {
        if self.parser.current.token_type == token_type {
            match self.advance() {
                Ok(_) => Ok(()),
                Err(_) => Err(()),
            }
        } else {
            self.error_at_current(message);
            Err(())
        }
    }

    /// The prefix handler of a number token: its lexeme is parsed to a
    /// binary64 value and a load of it is emitted.
    fn number(&mut self, Ghost(pl): Ghost<(nat, nat)>) -> (r: Result<Ghost<Expr>, ()>)
        requires
            old(self).chunk.wf(),
            !old(self).parser.had_error,
            !old(self).parser.panic_mode,
            pl.0 <= old(self).src().len(),
            spec_scan(old(self).src(), pl.0, pl.1).kind == TokenType::TOKEN_NUMBER,
            token_from(
                old(self).src(),
                spec_scan(old(self).src(), pl.0, pl.1),
                old(self).parser.previous,
            ),
        ensures
            final(self).scanner == old(self).scanner,
            final(self).cursor == old(self).cursor,
            final(self).parser.current == old(self).parser.current,
            ({
                let o = spec_scan(old(self).src(), pl.0, pl.1);
                let fb = float_bits_of(old(self).src().subrange(o.start as int, o.end as int));
                &&& (r matches Ok(g) ==> (fb is Some && g@ == Expr::Num(fb->Some_0) && final(self).chunk.wf() && final(self).chunk.code@ == old(self).chunk.code@ + code_of(
                    g@,
                    old(self).chunk.consts().len() as nat,
                ) && final(self).chunk.consts() == old(self).chunk.consts() + consts_values(g@)
                    && old(self).chunk.consts().len() + nlit(g@) <= MAX_CONSTANTS && final(self).parser == old(self).parser && final(self).diagnostic == old(self).diagnostic))
                &&& (r is Err ==> (final(self).parser.had_error && final(self).diagnostic is Some
                    && old(self).chunk.consts().len() >= MAX_CONSTANTS && final(self).chunk.wf()))
            }),
    {
        proof {
            lemma_number_token_lexeme(old(self).src(), pl.0, pl.1);
        }
        let bits_opt = match &self.parser.previous.option_string {
            Some(s) => parse_float_bits(s.as_str()),
            None => None,
        };
        let bits = match bits_opt {
            Some(b) => b,
            None => {
                self.error("Invalid number literal.");
                return Err(());
            },
        };
        match self.emit_constant(Value::num_val(bits)) {
            Ok(_) => {},
            Err(_) => {
                return Err(());
            },
        }
        let ghost e = Expr::Num(bits);
        proof {
            let base = old(self).chunk.consts().len() as nat;
            assert(code_of(e, base) =~= seq![OpCode::OpConstant, OpCode::Byte(base as u8)]);
            assert(old(self).chunk.code@ + code_of(e, base) =~= old(self).chunk.code@.push(
                OpCode::OpConstant,
            ).push(OpCode::Byte(base as u8)));
            assert(consts_values(e) =~= seq![Value::Number(bits)]);
            assert(old(self).chunk.consts() + consts_values(e) =~= old(self).chunk.consts().push(
                Value::Number(bits),
            ));
        }
        Ok(Ghost(e))
    }

    /// The infix precedence rank of the current token.
    fn current_prec(&self) -> (r: u8)
        ensures
            r as int == infix_prec(self.parser.current.token_type),
    {
        match self.parser.current.token_type {
            TokenType::TOKEN_PLUS => PREC_TERM,
            TokenType::TOKEN_MINUS => PREC_TERM,
            TokenType::TOKEN_STAR => PREC_FACTOR,
            TokenType::TOKEN_SLASH => PREC_FACTOR,
            _ => PREC_NONE,
        }
    }
}

impl Compiler {
    /// The prefix handler of a unary minus: its operand is parsed at the
    /// unary rank (tighter than any binary operator), then the negation
    /// opcode is emitted after it.
    fn unary(&mut self, Ghost(pl): Ghost<(nat, nat)>) -> (r: Result<Ghost<Expr>, ()>)
        requires
            old(self).wf(),
            !old(self).parser.had_error,
            !old(self).parser.panic_mode,
            pl.0 <= old(self).src().len(),
            spec_scan(old(self).src(), pl.0, pl.1).kind == TokenType::TOKEN_MINUS,
            old(self).cursor@ == (
                spec_scan(old(self).src(), pl.0, pl.1).end,
                spec_scan(old(self).src(), pl.0, pl.1).nline,
            ),
        ensures
            final(self).src() == old(self).src(),
            ({
                let o = spec_scan(old(self).src(), pl.0, pl.1);
                let inner = sp_parse(old(self).src(), o.end, o.nline, PREC_UNARY as int);
                let base = old(self).chunk.consts().len() as nat;
                &&& (r matches Ok(g) ==> ((inner matches Some(p) && g@ == Expr::Neg(Box::new(p.e))
                    && final(self).cursor@ == (p.pos, p.line)) && final(self).wf()
                    && !final(self).parser.had_error && !final(self).parser.panic_mode
                    && final(self).diagnostic == old(self).diagnostic
                    && final(self).cursor@.0 > old(self).cursor@.0
                    && final(self).chunk.code@ == old(self).chunk.code@ + code_of(g@, base)
                    && final(self).chunk.consts() == old(self).chunk.consts() + consts_values(g@)
                    && base + nlit(g@) <= MAX_CONSTANTS))
                &&& (r is Err ==> (final(self).parser.had_error && final(self).diagnostic is Some
                    && !(inner matches Some(p) && base + nlit(p.e) <= MAX_CONSTANTS)))
            }),
        decreases old(self).src().len() - old(self).cursor@.0, 2int,
    {
        let g = match self.parse_precedence(PREC_UNARY) {
            Ok(g) => g,
            Err(_) => {
                return Err(());
            },
        };
        self.emit_byte(OpCode::OpNegate);
        let ghost e = Expr::Neg(Box::new(g@));
        proof {
            let base = old(self).chunk.consts().len() as nat;
            assert(self.chunk.code@ =~= old(self).chunk.code@ + code_of(e, base));
        }
        Ok(Ghost(e))
    }

    /// The prefix handler of a grouping parenthesis: the inner expression
    /// is parsed at the lowest rank and the closing parenthesis consumed;
    /// the group itself emits nothing.
    fn grouping(&mut self, Ghost(pl): Ghost<(nat, nat)>) -> (r: Result<Ghost<Expr>, ()>)
        requires
            old(self).wf(),
            !old(self).parser.had_error,
            !old(self).parser.panic_mode,
            pl.0 <= old(self).src().len(),
            spec_scan(old(self).src(), pl.0, pl.1).kind == TokenType::TOKEN_LEFT_PAREN,
            old(self).cursor@ == (
                spec_scan(old(self).src(), pl.0, pl.1).end,
                spec_scan(old(self).src(), pl.0, pl.1).nline,
            ),
        ensures
            final(self).src() == old(self).src(),
            ({
                let o = spec_scan(old(self).src(), pl.0, pl.1);
                let inner = sp_parse(old(self).src(), o.end, o.nline, PREC_ASSIGNMENT as int);
                let base = old(self).chunk.consts().len() as nat;
                &&& (r matches Ok(g) ==> ((inner matches Some(p) && g@ == p.e && ({
                    let c = spec_scan(old(self).src(), p.pos, p.line);
                    c.kind == TokenType::TOKEN_RIGHT_PAREN && final(self).cursor@ == (
                        c.end,
                        c.nline,
                    )
                })) && final(self).wf() && !final(self).parser.had_error && !final(self).parser.panic_mode && final(self).diagnostic == old(self).diagnostic && final(self).cursor@.0 > old(self).cursor@.0 && final(self).chunk.code@ == old(self).chunk.code@ + code_of(g@, base) && final(self).chunk.consts() == old(self).chunk.consts() + consts_values(g@) && base + nlit(g@) <= MAX_CONSTANTS))
                &&& (r is Err ==> (final(self).parser.had_error && final(self).diagnostic is Some
                    && (inner is None || (inner matches Some(p) && (base + nlit(p.e)
                    > MAX_CONSTANTS || ({
                    let c = spec_scan(old(self).src(), p.pos, p.line);
                    c.kind != TokenType::TOKEN_RIGHT_PAREN || spec_scan(
                        old(self).src(),
                        c.end,
                        c.nline,
                    ).kind == TokenType::TOKEN_ERROR
                }))))))
            }),
        decreases old(self).src().len() - old(self).cursor@.0, 3int,
    {
        let g = match self.expression() {
            Ok(g) => g,
            Err(_) => {
                return Err(());
            },
        };
        match self.consume(TokenType::TOKEN_RIGHT_PAREN, "Expect ')' after expression") {
            Ok(_) => {},
            Err(_) => {
                return Err(());
            },
        }
        proof {
            let o = spec_scan(old(self).src(), pl.0, pl.1);
            let inner = sp_parse(old(self).src(), o.end, o.nline, PREC_ASSIGNMENT as int);
            lemma_scan_bounds(old(self).src(), inner->Some_0.pos, inner->Some_0.line);
        }
        Ok(g)
    }

    /// The infix handler of a binary operator: the right operand is
    /// parsed one rank above the operator's own (left associativity),
    /// then the operator's opcode is emitted after both operands.
    fn binary(&mut self, Ghost(pl): Ghost<(nat, nat)>) -> (r: Result<Ghost<Expr>, ()>)
        requires
            old(self).wf(),
            !old(self).parser.had_error,
            !old(self).parser.panic_mode,
            pl.0 <= old(self).src().len(),
            infix_prec(spec_scan(old(self).src(), pl.0, pl.1).kind) >= 1,
            old(self).parser.previous.token_type == spec_scan(old(self).src(), pl.0, pl.1).kind,
            old(self).cursor@ == (
                spec_scan(old(self).src(), pl.0, pl.1).end,
                spec_scan(old(self).src(), pl.0, pl.1).nline,
            ),
        ensures
            final(self).src() == old(self).src(),
            ({
                let o = spec_scan(old(self).src(), pl.0, pl.1);
                let inner = sp_parse(old(self).src(), o.end, o.nline, infix_prec(o.kind) + 1);
                let base = old(self).chunk.consts().len() as nat;
                &&& (r matches Ok(g) ==> ((inner matches Some(p) && g@ == p.e && final(self).cursor@ == (p.pos, p.line)) && final(self).wf() && !final(self).parser.had_error
                    && !final(self).parser.panic_mode && final(self).diagnostic == old(self).diagnostic && final(self).cursor@.0 > old(self).cursor@.0 && final(self).chunk.code@ == old(self).chunk.code@ + code_of(g@, base) + seq![
                    opcode_of(binop_of(o.kind)),
                ] && final(self).chunk.consts() == old(self).chunk.consts() + consts_values(g@)
                    && base + nlit(g@) <= MAX_CONSTANTS))
                &&& (r is Err ==> (final(self).parser.had_error && final(self).diagnostic is Some
                    && !(inner matches Some(p) && base + nlit(p.e) <= MAX_CONSTANTS)))
            }),
        decreases old(self).src().len() - old(self).cursor@.0, 2int,
    {
        let op_type = self.parser.previous.token_type;
        let prec = Self::token_prec(op_type);
        let g = match self.parse_precedence(prec + 1) {
            Ok(g) => g,
            Err(_) => {
                return Err(());
            },
        };
        match op_type {
            TokenType::TOKEN_PLUS => self.emit_byte(OpCode::OpAdd),
            TokenType::TOKEN_MINUS => self.emit_byte(OpCode::OpSub),
            TokenType::TOKEN_STAR => self.emit_byte(OpCode::OpMult),
            TokenType::TOKEN_SLASH => self.emit_byte(OpCode::OpDiv),
            _ => {},
        }
        proof {
            let base = old(self).chunk.consts().len() as nat;
            let o = spec_scan(old(self).src(), pl.0, pl.1);
            assert(self.chunk.code@ =~= old(self).chunk.code@ + code_of(g@, base) + seq![
                opcode_of(binop_of(o.kind)),
            ]);
        }
        Ok(g)
    }

    /// Parses one whole expression: the lowest-ranked parse.
    fn expression(&mut self) -> (r: Result<Ghost<Expr>, ()>)
        requires
            old(self).wf(),
            !old(self).parser.had_error,
            !old(self).parser.panic_mode,
        ensures
            final(self).src() == old(self).src(),
            ({
                let p0 = old(self).cursor@;
                let base = old(self).chunk.consts().len() as nat;
                &&& (r matches Ok(g) ==> (final(self).wf() && !final(self).parser.had_error
                    && !final(self).parser.panic_mode && final(self).diagnostic == old(self).diagnostic && sp_parse(old(self).src(), p0.0, p0.1, PREC_ASSIGNMENT as int)
                    == Some(
                    POut { e: g@, pos: final(self).cursor@.0, line: final(self).cursor@.1 },
                ) && final(self).cursor@.0 > p0.0 && final(self).chunk.code@ == old(self).chunk.code@ + code_of(g@, base) && final(self).chunk.consts() == old(self).chunk.consts() + consts_values(g@) && base + nlit(g@) <= MAX_CONSTANTS))
                &&& (r is Err ==> (final(self).parser.had_error && final(self).diagnostic is Some
                    && !(sp_parse(old(self).src(), p0.0, p0.1, PREC_ASSIGNMENT as int) matches Some(
                    p,
                ) && base + nlit(p.e) <= MAX_CONSTANTS)))
            }),
        decreases old(self).src().len() - old(self).cursor@.0, 1int,
    {
        self.parse_precedence(PREC_ASSIGNMENT)
    }

    /// The precedence climb itself: the current token must open an
    /// expression (it is dispatched to its prefix handler); then, while
    /// the following token is an operator binding at least as strongly as
    /// `min_prec`, the operator's infix handler folds in its right
    /// operand. The emitted code grows by exactly the code of the
    /// expression the climb parses.
    #[verifier::rlimit(100)]
    fn parse_precedence(&mut self, min_prec: u8) -> (r: Result<Ghost<Expr>, ()>)
        requires
            old(self).wf(),
            !old(self).parser.had_error,
            !old(self).parser.panic_mode,
            1 <= min_prec,
        ensures
            final(self).src() == old(self).src(),
            ({
                let p0 = old(self).cursor@;
                let base = old(self).chunk.consts().len() as nat;
                &&& (r matches Ok(g) ==> (final(self).wf() && !final(self).parser.had_error
                    && !final(self).parser.panic_mode && final(self).diagnostic == old(self).diagnostic && sp_parse(old(self).src(), p0.0, p0.1, min_prec as int) == Some(
                    POut { e: g@, pos: final(self).cursor@.0, line: final(self).cursor@.1 },
                ) && final(self).cursor@.0 > p0.0 && final(self).chunk.code@ == old(self).chunk.code@ + code_of(g@, base) && final(self).chunk.consts() == old(self).chunk.consts() + consts_values(g@) && base + nlit(g@) <= MAX_CONSTANTS))
                &&& (r is Err ==> (final(self).parser.had_error && final(self).diagnostic is Some
                    && !(sp_parse(old(self).src(), p0.0, p0.1, min_prec as int) matches Some(p)
                    && base + nlit(p.e) <= MAX_CONSTANTS)))
            }),
        decreases old(self).src().len() - old(self).cursor@.0, 0int,
    {
        let ghost p0 = self.cursor@;
        let ghost src = self.src();
        let ghost base = self.chunk.consts().len() as nat;
        let ghost o = spec_scan(src, p0.0, p0.1);
        proof {
            lemma_scan_bounds(src, p0.0, p0.1);
        }
        if self.advance().is_err() {
            proof {
                reveal_with_fuel(sp_parse, 2);
                reveal_with_fuel(sp_infix, 2);
                let nerr = spec_scan(src, o.end, o.nline);
                if o.kind == TokenType::TOKEN_NUMBER {
                    assert(sp_parse(src, p0.0, p0.1, min_prec as int) is None) by {
                        assert(nerr.kind == TokenType::TOKEN_ERROR);
                    }
                } else if o.kind == TokenType::TOKEN_MINUS {
                    assert(sp_parse(src, o.end, o.nline, PREC_UNARY as int) is None);
                    assert(sp_parse(src, p0.0, p0.1, min_prec as int) is None);
                } else if o.kind == TokenType::TOKEN_LEFT_PAREN {
                    assert(sp_parse(src, o.end, o.nline, PREC_ASSIGNMENT as int) is None);
                    assert(sp_parse(src, p0.0, p0.1, min_prec as int) is None);
                } else {
                    assert(sp_parse(src, p0.0, p0.1, min_prec as int) is None);
                }
            }
            return Err(());
        }
        let t = self.parser.previous.token_type;
        let mut left: Ghost<Expr>;
        if t == TokenType::TOKEN_NUMBER {
            match self.number(Ghost(p0)) {
                Ok(g) => {
                    left = g;
                },
                Err(_) => {
                    proof {
                        let fb = float_bits_of(src.subrange(o.start as int, o.end as int));
                        if fb is None {
                            assert(sp_parse(src, p0.0, p0.1, min_prec as int) is None);
                        } else {
                            match sp_parse(src, p0.0, p0.1, min_prec as int) {
                                Some(p) => {
                                    lemma_sp_infix_nlit(
                                        src,
                                        o.end,
                                        o.nline,
                                        Expr::Num(fb->Some_0),
                                        min_prec as int,
                                    );
                                    lemma_nlit_pos(p.e);
                                },
                                None => {},
                            }
                        }
                    }
                    return Err(());
                },
            }
            proof {
                let fb = float_bits_of(src.subrange(o.start as int, o.end as int));
                assert(sp_parse(src, p0.0, p0.1, min_prec as int) == sp_infix(
                    src,
                    o.end,
                    o.nline,
                    Expr::Num(fb->Some_0),
                    min_prec as int,
                ));
            }
        } else if t == TokenType::TOKEN_MINUS {
            match self.unary(Ghost(p0)) {
                Ok(g) => {
                    left = g;
                },
                Err(_) => {
                    proof {
                        match sp_parse(src, p0.0, p0.1, min_prec as int) {
                            Some(p) => {
                                let inner = sp_parse(src, o.end, o.nline, PREC_UNARY as int);
                                assert(inner matches Some(q));
                                lemma_sp_infix_nlit(
                                    src,
                                    inner->Some_0.pos,
                                    inner->Some_0.line,
                                    Expr::Neg(Box::new(inner->Some_0.e)),
                                    min_prec as int,
                                );
                            },
                            None => {},
                        }
                    }
                    return Err(());
                },
            }
            proof {
                let inner = sp_parse(src, o.end, o.nline, PREC_UNARY as int);
                assert(sp_parse(src, p0.0, p0.1, min_prec as int) == sp_infix(
                    src,
                    inner->Some_0.pos,
                    inner->Some_0.line,
                    Expr::Neg(Box::new(inner->Some_0.e)),
                    min_prec as int,
                ));
            }
        } else if t == TokenType::TOKEN_LEFT_PAREN {
            match self.grouping(Ghost(p0)) {
                Ok(g) => {
                    left = g;
                },
                Err(_) => {
                    proof {
                        match sp_parse(src, p0.0, p0.1, min_prec as int) {
                            Some(p) => {
                                let inner = sp_parse(src, o.end, o.nline, PREC_ASSIGNMENT as int);
                                assert(inner matches Some(q));
                                let c = spec_scan(src, inner->Some_0.pos, inner->Some_0.line);
                                lemma_sp_infix_nlit(
                                    src,
                                    c.end,
                                    c.nline,
                                    inner->Some_0.e,
                                    min_prec as int,
                                );
                            },
                            None => {},
                        }
                    }
                    return Err(());
                },
            }
            proof {
                let inner = sp_parse(src, o.end, o.nline, PREC_ASSIGNMENT as int);
                let c = spec_scan(src, inner->Some_0.pos, inner->Some_0.line);
                assert(sp_parse(src, p0.0, p0.1, min_prec as int) == sp_infix(
                    src,
                    c.end,
                    c.nline,
                    inner->Some_0.e,
                    min_prec as int,
                ));
            }
        } else {
            self.error("Expect expression");
            proof {
                assert(sp_parse(src, p0.0, p0.1, min_prec as int) is None);
            }
            return Err(());
        }
        while Self::token_prec(self.parser.current.token_type) >= min_prec
            invariant
                1 <= min_prec,
                self.wf(),
                !self.parser.had_error,
                !self.parser.panic_mode,
                self.src() == old(self).src(),
                self.diagnostic == old(self).diagnostic,
                base == old(self).chunk.consts().len(),
                src == old(self).src(),
                p0 == old(self).cursor@,
                self.cursor@.0 > p0.0,
                self.cursor@.0 <= src.len(),
                sp_infix(src, self.cursor@.0, self.cursor@.1, left@, min_prec as int) == sp_parse(
                    src,
                    p0.0,
                    p0.1,
                    min_prec as int,
                ),
                self.chunk.code@ == old(self).chunk.code@ + code_of(left@, base),
                self.chunk.consts() == old(self).chunk.consts() + consts_values(left@),
                base + nlit(left@) <= MAX_CONSTANTS,
            decreases src.len() - self.cursor@.0,
        {
            let ghost q = self.cursor@;
            let ghost oq = spec_scan(src, q.0, q.1);
            proof {
                lemma_scan_bounds(src, q.0, q.1);
            }
            if self.advance().is_err() {
                proof {
                    lemma_infix_step_err(src, q, left@, min_prec as int);
                }
                return Err(());
            }
            let ghost base2 = self.chunk.consts().len() as nat;
            proof {
                lemma_consts_of_len(left@);
                assert(base2 == base + nlit(left@));
                assert(self.src() == src);
                assert(self.cursor@ == (oq.end, oq.nline));
            }
            match self.binary(Ghost(q)) {
                Ok(rhs) => {
                    let ghost inner_p = sp_parse(
                        src,
                        oq.end,
                        oq.nline,
                        infix_prec(oq.kind) + 1,
                    )->Some_0;
                    let ghost newe = Expr::Bin(binop_of(oq.kind), Box::new(left@), Box::new(rhs@));
                    proof {
                        lemma_infix_step(src, q, left@, min_prec as int);
                        lemma_bin_build(
                            old(self).chunk.code@,
                            old(self).chunk.consts(),
                            binop_of(oq.kind),
                            left@,
                            rhs@,
                            base,
                        );
                        assert(self.chunk.code@ == old(self).chunk.code@ + code_of(left@, base)
                            + code_of(rhs@, base2) + seq![opcode_of(binop_of(oq.kind))]) by {
                            assert(self.chunk.code@ =~= (old(self).chunk.code@ + code_of(
                                left@,
                                base,
                            )) + code_of(rhs@, base2) + seq![opcode_of(binop_of(oq.kind))]);
                        }
                        assert(self.chunk.consts() == old(self).chunk.consts() + consts_values(
                            left@,
                        ) + consts_values(rhs@)) by {
                            assert(self.chunk.consts() =~= (old(self).chunk.consts()
                                + consts_values(left@)) + consts_values(rhs@));
                        }
                    }
                    left = Ghost(newe);
                },
                Err(_) => {
                    proof {
                        assert(!(sp_parse(src, oq.end, oq.nline, infix_prec(oq.kind) + 1) matches Some(
                            pp,
                        ) && base2 + nlit(pp.e) <= MAX_CONSTANTS));
                        match sp_parse(src, p0.0, p0.1, min_prec as int) {
                            Some(p) => {
                                lemma_infix_some_inner(src, q, left@, min_prec as int);
                                let inner = sp_parse(
                                    src,
                                    oq.end,
                                    oq.nline,
                                    infix_prec(oq.kind) + 1,
                                );
                                let newe = Expr::Bin(
                                    binop_of(oq.kind),
                                    Box::new(left@),
                                    Box::new(inner->Some_0.e),
                                );
                                lemma_infix_step(src, q, left@, min_prec as int);
                                lemma_sp_infix_nlit(
                                    src,
                                    inner->Some_0.pos,
                                    inner->Some_0.line,
                                    newe,
                                    min_prec as int,
                                );
                                lemma_bin_build(
                                    Seq::<OpCode>::empty(),
                                    Seq::<Value>::empty(),
                                    binop_of(oq.kind),
                                    left@,
                                    inner->Some_0.e,
                                    0,
                                );
                                assert(nlit(newe) == nlit(left@) + nlit(inner->Some_0.e));
                                assert(base2 + nlit(inner->Some_0.e) > MAX_CONSTANTS);
                                assert(nlit(p.e) >= nlit(newe));
                                assert(base + nlit(p.e) > MAX_CONSTANTS);
                            },
                            None => {},
                        }
                    }
                    return Err(());
                },
            }
        }
        proof {
            assert(sp_infix(src, self.cursor@.0, self.cursor@.1, left@, min_prec as int) == Some(
                POut { e: left@, pos: self.cursor@.0, line: self.cursor@.1 },
            ));
        }
        Ok(left)
    }

    /// Compiles one expression from the scanner's current position:
    /// success exactly where the parse model succeeds and the
    /// expression's literals fit the constant pool; on success the chunk
    /// holds exactly the expression's code followed by the terminal
    /// return, and its constant pool exactly the expression's literals.
    /// A failed compile records a diagnostic and its chunk must not be
    /// run.
    pub fn compile(&mut self) -> (r: bool)
        requires
            old(self).scanner.wf(),
        ensures
            final(self).src() == old(self).src(),
            r == compiles(
                old(self).src(),
                old(self).scanner.current as nat,
                old(self).scanner.line as nat,
            ),
            (r ==> (sp_compile(
                old(self).src(),
                old(self).scanner.current as nat,
                old(self).scanner.line as nat,
            ) matches Some(p) && final(self).chunk.wf() && final(self).chunk.code@ == code_of(
                p.e,
                0,
            ) + seq![OpCode::OpReturn] && final(self).chunk.consts() == consts_values(p.e))),
            (!r ==> final(self).diagnostic is Some),
    {
        self.chunk = Chunk::init();
        self.parser.had_error = false;
        self.parser.panic_mode = false;
        self.diagnostic = None;
        let ghost s0 = (self.scanner.current as nat, self.scanner.line as nat);
        let ghost src = self.src();
        if self.advance().is_err() {
            proof {
                assert(sp_parse(src, s0.0, s0.1, PREC_ASSIGNMENT as int) is None);
            }
            return false;
        }
        let g = match self.expression() {
            Ok(g) => g,
            Err(_) => {
                return false;
            },
        };
        if self.parser.current.token_type != TokenType::TOKEN_EOF {
            self.error_at_current("Expect end of expression.");
            return false;
        }
        self.end_compiler();
        proof {
            assert(self.chunk.code@ =~= code_of(g@, 0) + seq![OpCode::OpReturn]);
            assert(self.chunk.consts() =~= consts_values(g@));
        }
        true
    }
}


} // verus!


