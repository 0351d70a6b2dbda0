//! What the compiler computes, as functions on the source.
//!
//! The compiler reads the source once and emits code while it reads, so what
//! it produces is best said by following it: each routine of the parser has a
//! function here that says what the routine makes of a state of the parser.
//! The functions that call each other go by the measure of the source that
//! is left; where one of them continues from the result of another, it does
//! so on the condition that the result has not gone back in the source, which
//! is always the case.

use vstd::prelude::*;
use crate::chunk::Constant;
use crate::compiler::{
    spec_find_upvalue, spec_jump_offset, spec_kept_locals, spec_place, spec_resolve, spec_rule,
    spec_scope_exit, CompileError, ErrorPlace, FunctionType, Local, ParseFn, Precedence, MAX_LOCALS,
};
use crate::objects::{ObjFunction, UpValue, MAX_UPVALUES};
use crate::op_code::OpCode;
use crate::scanner::scan;
use crate::token::{Token, TokenType};

verus! {

/// A constant as contracts see it.
pub enum ConstantModel {
    Number(u64),
    Numeral(Seq<u8>),
    Text(Seq<u8>),
    Function(FunctionModel),
}

/// A function prototype as contracts see it.
pub struct FunctionModel {
    pub arity: u8,
    pub name: Seq<u8>,
    pub upvalues: Seq<UpValue>,
    pub code: Seq<OpCode>,
    pub lines: Seq<usize>,
    pub constants: Seq<ConstantModel>,
}

/// A compile error as contracts see it.
pub struct ErrorModel {
    pub line: usize,
    pub place: ErrorPlace,
    pub message: Seq<char>,
}

/// The compilation of one function as contracts see it.
pub struct CompilerModel {
    pub locals: Seq<Local>,
    pub scope_depth: usize,
    pub function_type: FunctionType,
    pub function: FunctionModel,
}

/// The parser as contracts see it: the source, the place and the line the
/// scanner has reached, the two tokens, the errors, and the functions being
/// compiled with the innermost last.
pub struct ParserModel {
    pub source: Seq<u8>,
    pub pos: usize,
    pub line: usize,
    pub current: Token,
    pub previous: Token,
    pub had_error: bool,
    pub panic_mode: bool,
    pub errors: Seq<ErrorModel>,
    pub compilers: Seq<CompilerModel>,
}

/// The view of a constant.
pub open spec fn constant_model(constant: Constant) -> ConstantModel
    decreases constant,
{
    match constant {
        Constant::Number(bits) => ConstantModel::Number(bits),
        Constant::Numeral(text) => ConstantModel::Numeral(text@),
        Constant::Text(text) => ConstantModel::Text(text@),
        Constant::Function(function) => ConstantModel::Function(function_model(*function)),
    }
}

/// The view of a function prototype.
pub open spec fn function_model(function: ObjFunction) -> FunctionModel
    decreases function,
{
    FunctionModel {
        arity: function.arity,
        name: function.name.value@,
        upvalues: function.upvalues@,
        code: function.chunk.code@,
        lines: function.chunk.lines@,
        constants: Seq::new(
            function.chunk.constants@.len(),
            |k: int|
                if 0 <= k < function.chunk.constants@.len() {
                    constant_model(function.chunk.constants@[k])
                } else {
                    ConstantModel::Number(0)
                },
        ),
    }
}

impl View for CompileError {
    type V = ErrorModel;

    open spec fn view(&self) -> ErrorModel {
        ErrorModel { line: self.line, place: self.place, message: self.message@ }
    }
}

/// The views of the errors.
pub open spec fn error_models(errors: Seq<CompileError>) -> Seq<ErrorModel> {
    Seq::new(errors.len(), |i: int| errors[i]@)
}

/// An empty function of the given name.
pub open spec fn new_function(name: Seq<u8>) -> FunctionModel {
    FunctionModel {
        arity: 0,
        name,
        upvalues: Seq::empty(),
        code: Seq::empty(),
        lines: Seq::empty(),
        constants: Seq::empty(),
    }
}

/// Whether, among the first `upto` locals, one of the innermost scope has
/// the name of `name`: the search goes back from the last local and stops at
/// the first that an enclosing scope declared.
pub open spec fn spec_clash(source: Seq<u8>, locals: Seq<Local>, name: Token, depth: usize, upto: int) -> bool
    decreases upto,
{
    if upto <= 0 || upto > locals.len() {
        false
    } else {
        match locals[upto - 1].depth {
            Some(d) => if d < depth {
                false
            } else {
                locals[upto - 1].name.lexeme(source) == name.lexeme(source) || spec_clash(
                    source,
                    locals,
                    name,
                    depth,
                    upto - 1,
                )
            },
            None => locals[upto - 1].name.lexeme(source) == name.lexeme(source) || spec_clash(
                source,
                locals,
                name,
                depth,
                upto - 1,
            ),
        }
    }
}

impl CompilerModel {
    /// A compilation that has not begun.
    pub open spec fn fresh(name: Seq<u8>, function_type: FunctionType) -> Self {
        CompilerModel {
            locals: Seq::empty(),
            scope_depth: 0,
            function_type,
            function: new_function(name),
        }
    }

    /// The compilation with the code and the lines of its function replaced.
    pub open spec fn with_code(self, code: Seq<OpCode>, lines: Seq<usize>) -> Self {
        CompilerModel { function: FunctionModel { code, lines, ..self.function }, ..self }
    }

    /// The compilation after upvalue `(index, is_local)` was looked up among
    /// the upvalues of its function, and added when it was new and there was
    /// room; and the index of the upvalue, unless there was no room.
    pub open spec fn add_upvalue(self, index: usize, is_local: bool) -> (Self, Option<usize>) {
        match spec_find_upvalue(self.function.upvalues, index, is_local, 0) {
            Some(i) => (self, Some(i as usize)),
            None => if self.function.upvalues.len() >= MAX_UPVALUES {
                (self, None)
            } else {
                (
                    CompilerModel {
                        function: FunctionModel {
                            upvalues: self.function.upvalues.push(UpValue { index, is_local }),
                            ..self.function
                        },
                        ..self
                    },
                    Some(self.function.upvalues.len() as usize),
                )
            },
        }
    }
}

impl ParserModel {
    /// The function being compiled.
    pub open spec fn top(self) -> CompilerModel {
        self.compilers.last()
    }

    /// The parser with the function being compiled replaced.
    pub open spec fn with_top(self, top: CompilerModel) -> Self {
        ParserModel { compilers: self.compilers.update(self.compilers.len() - 1, top), ..self }
    }

    /// A measure of the source that is left: the bytes that the scanner has
    /// not read, and one for a pending token that is not the end.
    #[verifier::opaque]
    pub open spec fn left(self) -> nat {
        (if self.pos <= self.source.len() {
            (self.source.len() - self.pos) as nat
        } else {
            0nat
        }) + if self.current.t_type != TokenType::Eof {
            1nat
        } else {
            0nat
        }
    }

    /// The parser has not gone back in the source since `before`.
    pub open spec fn within(self, before: Self) -> bool {
        self.left() <= before.left()
    }

    /// The parser has gone on in the source since `before`.
    pub open spec fn beyond(self, before: Self) -> bool {
        self.left() < before.left()
    }

    /// A parser at the beginning of the source that compiles the script.
    pub open spec fn start(source: Seq<u8>) -> Self {
        ParserModel {
            source,
            pos: 0,
            line: 1,
            current: Token { t_type: TokenType::Nil, start: 0, length: 0, line: 0 },
            previous: Token { t_type: TokenType::Nil, start: 0, length: 0, line: 0 },
            had_error: false,
            panic_mode: false,
            errors: Seq::empty(),
            compilers: seq![
                CompilerModel::fresh(seq![115u8, 99, 114, 105, 112, 116], FunctionType::Script),
            ],
        }
    }

    /// `error_at`: the error is recorded, unless an earlier one is still
    /// being recovered from.
    #[verifier::opaque]
    pub open spec fn report(self, token: Token, message: Seq<char>) -> Self {
        if self.panic_mode {
            ParserModel { had_error: true, ..self }
        } else {
            ParserModel {
                had_error: true,
                panic_mode: true,
                errors: self.errors.push(
                    ErrorModel { line: token.line, place: spec_place(token), message },
                ),
                ..self
            }
        }
    }

    /// Reporting an error leaves the scanner where it is.
    #[via_fn]
    proof fn scan_on_ends(self) {
        reveal(ParserModel::report);
    }

    /// The scanner moves on until it has a token that is not an error; each
    /// error token is reported, as an unterminated string when it begins with
    /// a quote.
    #[verifier::opaque]
    pub open spec fn scan_on(self) -> Self
        decreases self.source.len() - self.pos,
        via Self::scan_on_ends
    {
        let (token, end, line) = scan(self.source, self.pos as int, self.line);
        let scanned = ParserModel { current: token, pos: end as usize, line, ..self };
        if token.t_type == TokenType::Error {
            let reported = scanned.report(
                token,
                if token.length > 0 && token.start < self.source.len() && self.source[token.start as int]
                    == 34 {
                    "Unterminated string."@
                } else {
                    "Unexpected character."@
                },
            );
            if self.pos < end <= self.source.len() <= usize::MAX {
                reported.scan_on()
            } else {
                reported
            }
        } else {
            scanned
        }
    }

    /// `next_valid_token`.
    #[verifier::opaque]
    pub open spec fn advance(self) -> Self {
        ParserModel { previous: self.current, ..self }.scan_on()
    }

    /// `match_token`.
    #[verifier::opaque]
    pub open spec fn match_token(self, t: TokenType) -> (Self, bool) {
        if self.current.t_type == t {
            (self.advance(), true)
        } else {
            (self, false)
        }
    }

    /// `consume`.
    #[verifier::opaque]
    pub open spec fn consume(self, t: TokenType, message: Seq<char>) -> Self {
        if self.current.t_type == t {
            self.advance()
        } else {
            self.report(self.current, message)
        }
    }

    /// The token begins a statement.
    pub open spec fn starts_statement(t: TokenType) -> bool {
        t == TokenType::Class || t == TokenType::Fun || t == TokenType::Var || t == TokenType::For
            || t == TokenType::If || t == TokenType::While || t == TokenType::Print || t
            == TokenType::Return
    }

    /// The skipping of `synchronize`: tokens are passed until one follows a
    /// semicolon or begins a statement.
    #[verifier::opaque]
    pub open spec fn skip_to_boundary(self) -> Self
        decreases self.left(),
    {
        if self.current.t_type == TokenType::Eof || self.previous.t_type == TokenType::Semicolon
            || Self::starts_statement(self.current.t_type) {
            self
        } else {
            let next = ParserModel { panic_mode: false, ..self.advance() };
            if next.beyond(self) {
                next.skip_to_boundary()
            } else {
                next
            }
        }
    }

    /// `synchronize`.
    #[verifier::opaque]
    pub open spec fn synchronize(self) -> Self {
        ParserModel { panic_mode: false, ..self }.skip_to_boundary()
    }

    /// `emit_byte`: the instruction is appended with the line of the token
    /// before the one being looked at.
    #[verifier::opaque]
    pub open spec fn emit(self, op: OpCode) -> Self {
        self.with_top(
            self.top().with_code(
                self.top().function.code.push(op),
                self.top().function.lines.push(self.previous.line),
            ),
        )
    }

    /// `make_constant`.
    #[verifier::opaque]
    pub open spec fn add_constant(self, constant: ConstantModel) -> Self {
        self.with_top(
            CompilerModel {
                function: FunctionModel {
                    constants: self.top().function.constants.push(constant),
                    ..self.top().function
                },
                ..self.top()
            },
        )
    }

    /// The index that the next constant gets.
    pub open spec fn next_constant(self) -> usize {
        self.top().function.constants.len() as usize
    }

    /// The index that the next instruction gets.
    pub open spec fn next_code(self) -> usize {
        self.top().function.code.len() as usize
    }

    /// `emit_constant`.
    #[verifier::opaque]
    pub open spec fn emit_constant(self, constant: ConstantModel) -> Self {
        self.add_constant(constant).emit(OpCode::Constant(self.next_constant()))
    }

    /// `emit_closure`.
    #[verifier::opaque]
    pub open spec fn emit_closure(self, constant: ConstantModel) -> Self {
        self.add_constant(constant).emit(OpCode::Closure(self.next_constant()))
    }

    /// `emit_return`.
    #[verifier::opaque]
    pub open spec fn emit_return(self) -> Self {
        self.emit(OpCode::Nil).emit(OpCode::Return)
    }

    /// The patching of a jump: the instruction at `offset` becomes a jump, or
    /// a conditional jump, to the instruction that is emitted next. A jump
    /// over more than 65535 instructions is reported.
    #[verifier::opaque]
    pub open spec fn patch(self, offset: usize, conditional: bool) -> Self {
        let distance = self.top().function.code.len() - offset - 1;
        let patched = self.with_top(
            self.top().with_code(
                self.top().function.code.update(
                    offset as int,
                    if conditional {
                        OpCode::JumpIfFalse(spec_jump_offset(distance))
                    } else {
                        OpCode::Jump(spec_jump_offset(distance))
                    },
                ),
                self.top().function.lines,
            ),
        );
        if distance > 65535 {
            patched.report(self.previous, "Too much code to jump over."@)
        } else {
            patched
        }
    }

    /// `emit_loop`: the jump back to `loop_start` is appended. A loop of more
    /// than 65535 instructions is reported.
    #[verifier::opaque]
    pub open spec fn emit_loop(self, loop_start: usize) -> Self {
        let distance = self.top().function.code.len() - loop_start;
        if distance > 65535 {
            self.report(self.previous, "Loop body too large."@).emit(OpCode::Loop(65535))
        } else {
            self.emit(OpCode::Loop(distance as u16))
        }
    }

    /// `begin_scope`.
    #[verifier::opaque]
    pub open spec fn begin_scope(self) -> (Self, bool) {
        if self.top().scope_depth < usize::MAX {
            (
                self.with_top(
                    CompilerModel { scope_depth: (self.top().scope_depth + 1) as usize, ..self.top() },
                ),
                true,
            )
        } else {
            (self.report(self.previous, "Too many nested scopes."@), false)
        }
    }

    /// `end_scope`: the locals of the scope are dropped, and for each of them
    /// `CloseUpvalue` or `Pop` is emitted.
    #[verifier::opaque]
    pub open spec fn end_scope(self) -> Self {
        let depth = (self.top().scope_depth - 1) as usize;
        let exit = spec_scope_exit(self.top().locals, depth);
        self.with_top(
            CompilerModel {
                scope_depth: depth,
                locals: self.top().locals.take(spec_kept_locals(self.top().locals, depth)),
                ..self.top().with_code(
                    self.top().function.code + exit,
                    self.top().function.lines + Seq::new(exit.len(), |i: int| self.previous.line),
                )
            },
        )
    }

    /// `add_local`.
    #[verifier::opaque]
    pub open spec fn add_local(self, name: Token) -> Self {
        if self.top().locals.len() >= MAX_LOCALS {
            self.report(self.previous, "Too many local variables in function"@)
        } else {
            self.with_top(
                CompilerModel {
                    locals: self.top().locals.push(Local { name, depth: None, is_captured: false }),
                    ..self.top()
                },
            )
        }
    }

    /// `mark_initialized`.
    #[verifier::opaque]
    pub open spec fn mark_initialized(self) -> Self {
        if self.top().scope_depth > 0 && self.top().locals.len() > 0 {
            self.with_top(
                CompilerModel {
                    locals: self.top().locals.update(
                        self.top().locals.len() - 1,
                        Local { depth: Some(self.top().scope_depth), ..self.top().locals.last() },
                    ),
                    ..self.top()
                },
            )
        } else {
            self
        }
    }

    /// `declare_variable`.
    #[verifier::opaque]
    pub open spec fn declare_variable(self) -> Self {
        if self.top().scope_depth == 0 {
            self
        } else if spec_clash(
            self.source,
            self.top().locals,
            self.previous,
            self.top().scope_depth,
            self.top().locals.len() as int,
        ) {
            self.report(
                self.previous,
                "Variable with this name already declared in this scope."@,
            ).add_local(self.previous)
        } else {
            self.add_local(self.previous)
        }
    }

    /// `define_variable`.
    #[verifier::opaque]
    pub open spec fn define_variable(self, global: usize) -> Self {
        if self.top().scope_depth > 0 {
            self.mark_initialized()
        } else {
            self.emit(OpCode::DefineGlobal(global))
        }
    }

    /// `identifier_constant`.
    #[verifier::opaque]
    pub open spec fn identifier_constant(self) -> Self {
        self.add_constant(ConstantModel::Text(self.previous.lexeme(self.source)))
    }

    /// `variable`: the parser after the name of a variable was read and
    /// declared, and the index of the constant that holds the name of a
    /// global.
    #[verifier::opaque]
    pub open spec fn variable(self, message: Seq<char>) -> (Self, usize) {
        let declared = self.consume(TokenType::Identifier, message).declare_variable();
        if declared.top().scope_depth > 0 {
            (declared, 0)
        } else {
            (declared.identifier_constant(), declared.next_constant())
        }
    }

    /// `number`: the numeral becomes a constant, which is loaded.
    #[verifier::opaque]
    pub open spec fn number(self) -> Self {
        self.emit_constant(ConstantModel::Numeral(self.previous.lexeme(self.source)))
    }

    /// `string`: the bytes between the quotes become a constant, which is
    /// loaded.
    #[verifier::opaque]
    pub open spec fn string(self) -> Self {
        self.emit_constant(
            ConstantModel::Text(
                if self.previous.length >= 2 {
                    self.source.subrange(
                        self.previous.start + 1,
                        self.previous.start + self.previous.length - 1,
                    )
                } else {
                    Seq::empty()
                },
            ),
        )
    }

    /// `literal`.
    #[verifier::opaque]
    pub open spec fn literal(self) -> Self {
        match self.previous.t_type {
            TokenType::False => self.emit(OpCode::False),
            TokenType::True => self.emit(OpCode::True),
            TokenType::Nil => self.emit(OpCode::Nil),
            _ => self,
        }
    }

    /// The parser with the compilation at `level` replaced.
    pub open spec fn with_level(self, level: int, compiler: CompilerModel) -> Self {
        ParserModel { compilers: self.compilers.update(level, compiler), ..self }
    }

    /// The adding of an upvalue to the function at `level`; too many upvalues
    /// are reported.
    #[verifier::opaque]
    pub open spec fn add_upvalue_at(self, level: usize, index: usize, is_local: bool) -> (Self, usize) {
        match self.compilers[level as int].add_upvalue(index, is_local) {
            (compiler, Some(at)) => (self.with_level(level as int, compiler), at),
            (compiler, None) => (
                self.with_level(level as int, compiler).report(
                    self.previous,
                    "Too many closure variables in function."@,
                ),
                0,
            ),
        }
    }

    /// `resolve_upvalue`: the variable is looked for among the locals of the
    /// function that encloses the one at `level`, and then further out. Where
    /// it is found, the local is marked as captured, and each function on
    /// the way back gets an upvalue for it.
    #[verifier::opaque]
    pub open spec fn resolve_upvalue(self, level: usize, name: Token) -> (Self, Option<usize>)
        decreases level,
    {
        if level == 0 || level >= self.compilers.len() {
            (self, None)
        } else {
            let outer = self.compilers[level - 1];
            match spec_resolve(self.source, outer.locals, name, outer.locals.len() as int) {
                Some(index) => {
                    let captured = self.with_level(
                        level - 1,
                        CompilerModel {
                            locals: outer.locals.update(
                                index,
                                Local { is_captured: true, ..outer.locals[index] },
                            ),
                            ..outer
                        },
                    );
                    let (added, at) = captured.add_upvalue_at(level, (index + 1) as usize, true);
                    (added, Some(at))
                },
                None => {
                    let (searched, found) = self.resolve_upvalue((level - 1) as usize, name);
                    match found {
                        Some(index) => {
                            let (added, at) = searched.add_upvalue_at(level, index, false);
                            (added, Some(at))
                        },
                        None => (searched, None),
                    }
                },
            }
        }
    }
}


impl ParserModel {
    /// The end of `parse_precedence`: an `=` that no rule has consumed is
    /// reported.
    #[verifier::opaque]
    pub open spec fn finish_assignment(self, can_assign: bool) -> Self {
        if can_assign && self.current.t_type == TokenType::Equal {
            self.advance().report(self.current, "Invalid assignment target."@)
        } else {
            self
        }
    }

    /// The routine that a rule names.
    pub open spec fn apply(self, rule: ParseFn, can_assign: bool) -> Self
        decreases self.left(), 310int,
    {
        match rule {
            ParseFn::Grouping => self.grouping(),
            ParseFn::Call => self.call(),
            ParseFn::Unary => self.unary(),
            ParseFn::Binary => self.binary(),
            ParseFn::Number => self.number(),
            ParseFn::Literal => self.literal(),
            ParseFn::Strings => self.string(),
            ParseFn::Variable => self.compile_named_variable(self.previous, can_assign),
            ParseFn::And => self.and(),
            ParseFn::Or => self.or(),
            ParseFn::Print => self.print(),
        }
    }

    /// The infix operators of `parse_precedence`: as long as the token being
    /// looked at binds at least as tightly as `precedence`, it is passed and
    /// its infix routine applied.
    pub open spec fn infix_loop(self, precedence: Precedence, can_assign: bool) -> Self
        decreases self.left(), 60int,
    {
        if precedence.spec_rank() <= spec_rule(self.current.t_type).precedence.spec_rank() {
            let passed = self.advance();
            if passed.beyond(self) {
                let applied = match spec_rule(passed.previous.t_type).infix {
                    Some(rule) => passed.apply(rule, can_assign),
                    None => passed,
                };
                if applied.within(passed) {
                    applied.infix_loop(precedence, can_assign)
                } else {
                    applied
                }
            } else {
                passed
            }
        } else {
            self
        }
    }

    /// `parse_precedence`: a token is passed and its prefix routine applied,
    /// then the infix operators that bind tightly enough; a token without a
    /// prefix routine is reported.
    pub open spec fn parse_precedence(self, precedence: Precedence) -> Self
        decreases self.left(), 70int,
    {
        let passed = self.advance();
        let can_assign = precedence.spec_rank() <= 1;
        match spec_rule(passed.previous.t_type).prefix {
            None => passed.report(passed.previous, "Expect expression."@),
            Some(rule) => if passed.beyond(self) {
                let applied = passed.apply(rule, can_assign);
                if applied.within(passed) {
                    applied.infix_loop(precedence, can_assign).finish_assignment(can_assign)
                } else {
                    applied
                }
            } else {
                passed
            },
        }
    }

    /// `expression`.
    pub open spec fn expression(self) -> Self
        decreases self.left(), 80int,
    {
        self.parse_precedence(Precedence::Assignment)
    }

    /// An expression, read from a state that has not gone back behind
    /// `limit`.
    pub open spec fn expression_from(self, limit: Self) -> Self
        decreases limit.left(), 85int,
    {
        if self.within(limit) {
            self.expression()
        } else {
            self
        }
    }

    /// `grouping`.
    pub open spec fn grouping(self) -> Self
        decreases self.left(), 300int,
    {
        self.expression().consume(TokenType::RightParen, "Expect ')' after expression"@)
    }

    /// `unary`: the operand, then the operator.
    pub open spec fn unary(self) -> Self
        decreases self.left(), 300int,
    {
        let operand = self.parse_precedence(Precedence::Unary);
        match self.previous.t_type {
            TokenType::Minus => operand.emit(OpCode::Negative),
            TokenType::Bang => operand.emit(OpCode::Not),
            _ => operand,
        }
    }

    /// The instructions of a binary operator.
    #[verifier::opaque]
    pub open spec fn emit_operator(self, operator: TokenType) -> Self {
        match operator {
            TokenType::Plus => self.emit(OpCode::Add),
            TokenType::Minus => self.emit(OpCode::Subtract),
            TokenType::Star => self.emit(OpCode::Multiply),
            TokenType::Slash => self.emit(OpCode::Divide),
            TokenType::EqualEqual => self.emit(OpCode::Equal),
            TokenType::BangEqual => self.emit(OpCode::Equal).emit(OpCode::Not),
            TokenType::Greater => self.emit(OpCode::Greater),
            TokenType::GreaterEqual => self.emit(OpCode::Less).emit(OpCode::Not),
            TokenType::Less => self.emit(OpCode::Less),
            TokenType::LessEqual => self.emit(OpCode::Greater).emit(OpCode::Not),
            _ => self,
        }
    }

    /// `binary`: the right operand, one level tighter than the operator, then
    /// the operator.
    pub open spec fn binary(self) -> Self
        decreases self.left(), 300int,
    {
        self.parse_precedence(
            spec_rule(self.previous.t_type).precedence.spec_next(),
        ).emit_operator(self.previous.t_type)
    }

    /// `print`.
    pub open spec fn print(self) -> Self
        decreases self.left(), 300int,
    {
        self.expression().consume(TokenType::Semicolon, "Expect ';' after value"@).emit(OpCode::Print)
    }

    /// `and`: a conditional jump over the right operand, a `Pop` for the
    /// left value, the right operand.
    pub open spec fn and(self) -> Self
        decreases self.left(), 300int,
    {
        let jumped = self.emit(OpCode::JumpIfFalse(0)).emit(OpCode::Pop);
        jumped.expression_level(Precedence::And, self).patch(self.next_code(), true)
    }

    /// `or`: a conditional jump over the jump that skips the right operand,
    /// that jump, a `Pop` for the left value, the right operand.
    pub open spec fn or(self) -> Self
        decreases self.left(), 300int,
    {
        let else_jump = self.next_code();
        let jumped = self.emit(OpCode::JumpIfFalse(0));
        let end_jump = jumped.next_code();
        let popped = jumped.emit(OpCode::Jump(0)).patch(else_jump, true).emit(OpCode::Pop);
        popped.expression_level(Precedence::Or, self).patch(end_jump, false)
    }

    /// An expression of the given level, read from a state that has not gone
    /// back behind `limit`.
    pub open spec fn expression_level(self, precedence: Precedence, limit: Self) -> Self
        decreases limit.left(), 75int,
    {
        if self.within(limit) {
            self.parse_precedence(precedence)
        } else {
            self
        }
    }

    /// `call`.
    pub open spec fn call(self) -> Self
        decreases self.left(), 300int,
    {
        let (listed, count) = self.argument_list();
        listed.emit(OpCode::Call(count))
    }

    /// The arguments of `argument_list`, separated by commas; `count` of them
    /// have been read. An argument beyond the 255th is reported and not
    /// counted.
    pub open spec fn arguments_loop(self, count: usize) -> (Self, usize)
        decreases self.left(), 285int,
    {
        let read = self.expression();
        let (counted, total) = if count == 255 {
            (read.report(read.previous, "Cannot have more than 255 arguments."@), count)
        } else {
            (read, (count + 1) as usize)
        };
        let (next, more) = counted.match_token(TokenType::Comma);
        if more && next.beyond(self) {
            next.arguments_loop(total)
        } else {
            (next, total)
        }
    }

    /// `argument_list`.
    pub open spec fn argument_list(self) -> (Self, usize)
        decreases self.left(), 290int,
    {
        let (listed, count) = if self.current.t_type == TokenType::RightParen {
            (self, 0usize)
        } else {
            self.arguments_loop(0)
        };
        (listed.consume(TokenType::RightParen, "Expect ')' after arguments."@), count)
    }

    /// The reading or the assigning of a variable once it is known where the
    /// variable lives: when an `=` follows and an assignment is allowed, the
    /// value is read and `set` emitted, else `get`.
    pub open spec fn access(self, can_assign: bool, get: OpCode, set: OpCode, limit: Self) -> Self
        decreases limit.left(), 287int,
    {
        if can_assign && self.current.t_type == TokenType::Equal {
            self.advance().expression_from(limit).emit(set)
        } else {
            self.emit(get)
        }
    }

    /// `compile_named_variable`: the variable is looked for among the locals
    /// of the function, then among those of the enclosing functions, and is
    /// taken to be global when neither has it.
    pub open spec fn compile_named_variable(self, name: Token, can_assign: bool) -> Self
        decreases self.left(), 290int,
    {
        match spec_resolve(self.source, self.top().locals, name, self.top().locals.len() as int) {
            Some(index) => {
                let checked = if self.top().locals[index].depth is None {
                    self.report(
                        self.previous,
                        "Can't read local variable in its own initializer."@,
                    )
                } else {
                    self
                };
                checked.access(
                    can_assign,
                    OpCode::GetLocal((index + 1) as usize),
                    OpCode::SetLocal((index + 1) as usize),
                    self,
                )
            },
            None => match self.resolve_upvalue((self.compilers.len() - 1) as usize, name) {
                (resolved, Some(index)) => if can_assign && resolved.current.t_type
                    == TokenType::Equal {
                    let assigned = resolved.advance().expression_from(self);
                    if index < assigned.top().function.upvalues.len() {
                        assigned.emit(OpCode::SetUpvalue(index))
                    } else {
                        assigned
                    }
                } else if index < resolved.top().function.upvalues.len() {
                    resolved.emit(OpCode::GetUpvalue(index))
                } else {
                    resolved
                },
                (resolved, None) => resolved.add_constant(
                    ConstantModel::Text(name.lexeme(self.source)),
                ).access(
                    can_assign,
                    OpCode::GetGlobal(resolved.next_constant()),
                    OpCode::SetGlobal(resolved.next_constant()),
                    self,
                ),
            },
        }
    }

    /// `expression_statement`.
    pub open spec fn expression_statement(self) -> Self
        decreases self.left(), 100int,
    {
        self.expression().consume(TokenType::Semicolon, "Expect ';' after expression."@).emit(
            OpCode::Pop,
        )
    }

    /// The declarations of `block`, up to a closing brace or the end.
    pub open spec fn block_loop(self) -> Self
        decreases self.left(), 240int,
    {
        if self.current.t_type == TokenType::RightBrace || self.current.t_type == TokenType::Eof {
            self
        } else {
            let declared = self.declaration();
            if declared.beyond(self) {
                declared.block_loop()
            } else {
                declared
            }
        }
    }

    /// `block`.
    pub open spec fn block(self) -> Self
        decreases self.left(), 250int,
    {
        self.block_loop().consume(TokenType::RightBrace, "Expect '}' after block."@)
    }

    /// A block, read from a state that has not gone back behind `limit`.
    pub open spec fn block_from(self, limit: Self) -> Self
        decreases limit.left(), 255int,
    {
        if self.within(limit) {
            self.block()
        } else {
            self
        }
    }

    /// The parameters of a function, separated by commas: each is counted,
    /// declared and defined. A parameter beyond the 255th is reported and not
    /// counted.
    #[verifier::opaque]
    pub open spec fn parameters_loop(self) -> Self
        decreases self.left(),
    {
        let counted = if self.top().function.arity == 255 {
            self.report(self.current, "Cannot have more than 255 parameters."@)
        } else {
            self.with_top(
                CompilerModel {
                    function: FunctionModel {
                        arity: (self.top().function.arity + 1) as u8,
                        ..self.top().function
                    },
                    ..self.top()
                },
            )
        };
        let (named, index) = counted.variable("Expect parameter name."@);
        let (next, more) = named.define_variable(index).match_token(TokenType::Comma);
        if more && next.beyond(self) {
            next.parameters_loop()
        } else {
            next
        }
    }

    /// The beginning of `function`: a new compilation for the function, its
    /// outermost scope, and the parenthesis that opens its parameters.
    #[verifier::opaque]
    pub open spec fn begin_function(self, kind: FunctionType) -> Self {
        ParserModel {
            compilers: self.compilers.push(
                CompilerModel::fresh(self.previous.lexeme(self.source), kind),
            ),
            ..self
        }.begin_scope().0.consume(TokenType::LeftParen, "Expect '(' after function name."@)
    }

    /// The parameters of a function up to the closing parenthesis.
    #[verifier::opaque]
    pub open spec fn parameters(self) -> Self {
        if self.current.t_type == TokenType::RightParen {
            self
        } else {
            self.parameters_loop()
        }
    }

    /// The parameters of a function, the parenthesis that closes them and
    /// the brace that opens the body.
    #[verifier::opaque]
    pub open spec fn function_head(self) -> Self {
        self.parameters().consume(
            TokenType::RightParen,
            "Expect ')' after function name."@,
        ).consume(TokenType::LeftBrace, "Expect '{' before function body."@)
    }

    /// The end of `function`: the function returns `nil` at its end, and the
    /// finished prototype becomes a constant of the enclosing function, which
    /// makes a closure of it.
    #[verifier::opaque]
    pub open spec fn end_function(self) -> Self {
        let body = self.emit_return();
        ParserModel { compilers: body.compilers.drop_last(), ..body }.emit_closure(
            ConstantModel::Function(body.top().function),
        )
    }

    /// `function`: a new compilation is begun for the function; its
    /// parameters and its body are read; and the finished prototype becomes a
    /// constant of the enclosing function, which makes a closure of it.
    pub open spec fn function(self, kind: FunctionType) -> Self
        decreases self.left(), 264int,
    {
        self.begin_function(kind).function_head().block_from(self).end_function()
    }

    /// A function whose head does not go back in the source is its
    /// beginning, its head, its body and its end.
    pub proof fn lemma_function(self, kind: FunctionType)
        requires
            self.begin_function(kind).function_head().within(self),
        ensures
            self.function(kind) == self.begin_function(kind).function_head().block().end_function(),
    {
    }

    /// A function, read from a state that has not gone back behind `limit`.
    pub open spec fn function_from(self, kind: FunctionType, limit: Self) -> Self
        decreases limit.left(), 266int,
    {
        if self.within(limit) {
            self.function(kind)
        } else {
            self
        }
    }

    /// `var_statement`.
    pub open spec fn var_statement(self) -> Self
        decreases self.left(), 180int,
    {
        let (named, index) = self.variable("Expect variable name."@);
        let valued = if named.current.t_type == TokenType::Equal {
            named.advance().expression_from(self)
        } else {
            named.emit(OpCode::Nil)
        };
        valued.consume(
            TokenType::Semicolon,
            "Expect ';' after variable declaration."@,
        ).define_variable(index)
    }

    /// A statement, read from a state that has not gone back behind `limit`.
    pub open spec fn statement_from(self, limit: Self) -> Self
        decreases limit.left(), 175int,
    {
        if self.within(limit) {
            self.statement()
        } else {
            self
        }
    }

    /// A statement that is read from a state that has not gone back behind
    /// `limit` is the statement.
    pub proof fn lemma_statement_from(self, limit: Self)
        requires
            self.within(limit),
        ensures
            self.statement_from(limit) == self.statement(),
    {
    }

    /// `if_statement`.
    pub open spec fn if_statement(self) -> Self
        decreases self.left(), 280int,
    {
        let tested = self.consume(TokenType::LeftParen, "Expect '(' after 'if'."@).expression_from(
            self,
        ).consume(TokenType::RightParen, "Expect ')' after condition."@);
        let jump = tested.next_code();
        let first = tested.emit(OpCode::JumpIfFalse(0)).emit(OpCode::Pop).statement_from(self);
        let else_jump = first.next_code();
        let skipped = first.emit(OpCode::Jump(0)).patch(jump, true).emit(OpCode::Pop);
        let second = if skipped.current.t_type == TokenType::Else {
            skipped.advance().statement_from(self)
        } else {
            skipped
        };
        second.patch(else_jump, false)
    }

    /// An `if` statement whose condition does not go back in the source: the
    /// first branch is a statement.
    pub proof fn lemma_if_statement(self)
        requires
            self.consume(TokenType::LeftParen, "Expect '(' after 'if'."@).expression_from(
                self,
            ).consume(TokenType::RightParen, "Expect ')' after condition."@).emit(
                OpCode::JumpIfFalse(0),
            ).emit(OpCode::Pop).within(self),
        ensures
            self.if_statement() == ({
                let tested = self.consume(
                    TokenType::LeftParen,
                    "Expect '(' after 'if'."@,
                ).expression_from(self).consume(TokenType::RightParen, "Expect ')' after condition."@);
                let first = tested.emit(OpCode::JumpIfFalse(0)).emit(OpCode::Pop).statement();
                let skipped = first.emit(OpCode::Jump(0)).patch(tested.next_code(), true).emit(
                    OpCode::Pop,
                );
                (if skipped.current.t_type == TokenType::Else {
                    skipped.advance().statement_from(self)
                } else {
                    skipped
                }).patch(first.next_code(), false)
            }),
    {
    }

    /// `while_statement`.
    pub open spec fn while_statement(self) -> Self
        decreases self.left(), 280int,
    {
        let tested = self.consume(
            TokenType::LeftParen,
            "Expect '(' after 'while'."@,
        ).expression_from(self).consume(TokenType::RightParen, "Expect ')' after condition."@);
        let jump = tested.next_code();
        tested.emit(OpCode::JumpIfFalse(0)).emit(OpCode::Pop).statement_from(self).emit_loop(
            self.next_code(),
        ).patch(jump, true).emit(OpCode::Pop)
    }

    /// The initializer of a `for` statement: nothing, a variable
    /// declaration, or an expression statement.
    pub open spec fn for_initializer(self) -> Self
        decreases self.left(), 275int,
    {
        let opened = self.consume(TokenType::LeftParen, "Expect '(' after 'for'."@);
        if opened.current.t_type == TokenType::Semicolon {
            opened.advance()
        } else if opened.current.t_type == TokenType::Var {
            if opened.advance().within(self) {
                opened.advance().var_statement()
            } else {
                opened.advance()
            }
        } else if opened.within(self) {
            opened.expression_statement()
        } else {
            opened
        }
    }

    /// The condition of a `for` statement, and the index of the conditional
    /// jump out of the loop when there is a condition.
    pub open spec fn for_condition(self) -> (Self, Option<usize>)
        decreases self.left(), 275int,
    {
        if self.current.t_type == TokenType::Semicolon {
            (self.advance(), None)
        } else {
            let tested = self.expression().consume(
                TokenType::Semicolon,
                "Expect ';' after loop condition."@,
            );
            (tested.emit(OpCode::JumpIfFalse(0)).emit(OpCode::Pop), Some(tested.next_code()))
        }
    }

    /// The increment of a `for` statement, which is jumped over on the way
    /// to the body and jumps back to `loop_start`; and where the body jumps
    /// back to.
    pub open spec fn for_increment(self, loop_start: usize) -> (Self, usize)
        decreases self.left(), 275int,
    {
        if self.current.t_type == TokenType::RightParen {
            (self.advance(), loop_start)
        } else {
            let jumped = self.emit(OpCode::Jump(0));
            (
                jumped.expression_from(self).emit(OpCode::Pop).consume(
                    TokenType::RightParen,
                    "Expect ')' after for clauses."@,
                ).emit_loop(loop_start).patch(self.next_code(), false),
                jumped.next_code(),
            )
        }
    }

    /// The jumps that close a `for` loop behind its body: back to
    /// `loop_start`, and the conditional jump out of the loop, when there is
    /// one, gets its target.
    #[verifier::opaque]
    pub open spec fn for_close(self, loop_start: usize, exit_jump: Option<usize>) -> Self {
        let looped = self.emit_loop(loop_start);
        match exit_jump {
            Some(exit) => looped.patch(exit, true).emit(OpCode::Pop),
            None => looped,
        }
    }

    /// The initializer of a `for` statement, read from a state that has not
    /// gone back behind `limit`.
    pub open spec fn for_initializer_from(self, limit: Self) -> Self
        decreases limit.left(), 277int,
    {
        if self.within(limit) {
            self.for_initializer()
        } else {
            self
        }
    }

    /// The condition of a `for` statement, read from a state that has not
    /// gone back behind `limit`.
    pub open spec fn for_condition_from(self, limit: Self) -> (Self, Option<usize>)
        decreases limit.left(), 277int,
    {
        if self.within(limit) {
            self.for_condition()
        } else {
            (self, None)
        }
    }

    /// The increment of a `for` statement, read from a state that has not
    /// gone back behind `limit`.
    pub open spec fn for_increment_from(self, loop_start: usize, limit: Self) -> (Self, usize)
        decreases limit.left(), 277int,
    {
        if self.within(limit) {
            self.for_increment(loop_start)
        } else {
            (self, loop_start)
        }
    }

    /// The clauses and the body of a `for` statement, read from a state
    /// that has not gone back behind `limit`.
    pub open spec fn for_clauses(self, limit: Self) -> Self
        decreases limit.left(), 278int,
    {
        let begun = self.for_initializer_from(limit);
        let (tested, exit_jump) = begun.for_condition_from(limit);
        let (stepped, again) = tested.for_increment_from(begun.next_code(), limit);
        stepped.statement_from(limit).for_close(again, exit_jump)
    }

    /// The clauses and the body of a `for` statement none of which goes back
    /// in the source: the initializer, the condition, the increment, the
    /// body, and the jumps that close the loop.
    pub proof fn lemma_for_clauses(self, limit: Self)
        requires
            self.within(limit),
            self.for_initializer().within(limit),
            self.for_initializer().for_condition().0.within(limit),
            self.for_initializer().for_condition().0.for_increment(
                self.for_initializer().next_code(),
            ).0.within(limit),
        ensures
            self.for_clauses(limit) == ({
                let begun = self.for_initializer();
                let (tested, exit_jump) = begun.for_condition();
                let (stepped, again) = tested.for_increment(begun.next_code());
                stepped.statement().for_close(again, exit_jump)
            }),
    {
    }

    /// `for_statement`: in a scope of its own, the initializer, the
    /// condition, the increment and the body.
    pub open spec fn for_statement(self) -> Self
        decreases self.left(), 280int,
    {
        let done = self.begin_scope().0.for_clauses(self);
        if self.begin_scope().1 {
            done.end_scope()
        } else {
            done
        }
    }

    /// `fun_statement`.
    pub open spec fn fun_statement(self, kind: FunctionType) -> Self
        decreases self.left(), 270int,
    {
        let (named, index) = self.variable("Expect function name."@);
        named.mark_initialized().function_from(kind, self).define_variable(index)
    }

    /// `return_statement`.
    pub open spec fn return_statement(self) -> Self
        decreases self.left(), 180int,
    {
        let checked = if self.top().function_type == FunctionType::Script {
            self.report(self.current, "Cannot return a value from an initializer."@)
        } else {
            self
        };
        if checked.current.t_type == TokenType::Semicolon {
            checked.advance().emit_return()
        } else {
            checked.expression_from(self).consume(
                TokenType::Semicolon,
                "Expect ';' after return value."@,
            ).emit(OpCode::Return)
        }
    }

    /// A `print` statement, read from a state that has gone on since
    /// `limit`.
    pub open spec fn print_after(self, limit: Self) -> Self
        decreases limit.left(), 165int,
    {
        if self.beyond(limit) {
            self.print()
        } else {
            self
        }
    }

    /// A block in a scope of its own, read from a state that has gone on
    /// since `limit`.
    pub open spec fn scoped_block_after(self, limit: Self) -> Self
        decreases limit.left(), 165int,
    {
        if self.beyond(limit) {
            let (scoped, opened) = self.begin_scope();
            if scoped.within(self) {
                if opened {
                    scoped.block().end_scope()
                } else {
                    scoped.block()
                }
            } else {
                scoped
            }
        } else {
            self
        }
    }

    /// `statement`.
    pub open spec fn statement(self) -> Self
        decreases self.left(), 170int,
    {
        if self.current.t_type == TokenType::Print {
            self.advance().print_after(self)
        } else if self.current.t_type == TokenType::LeftBrace {
            self.advance().scoped_block_after(self)
        } else {
            self.expression_statement()
        }
    }

    /// The statement that a declaration is, by its first token.
    pub open spec fn declared(self) -> Self
        decreases self.left(), 195int,
    {
        if self.current.t_type == TokenType::Var {
            if self.advance().within(self) {
                self.advance().var_statement()
            } else {
                self.advance()
            }
        } else if self.current.t_type == TokenType::If {
            if self.advance().beyond(self) {
                self.advance().if_statement()
            } else {
                self.advance()
            }
        } else if self.current.t_type == TokenType::While {
            if self.advance().beyond(self) {
                self.advance().while_statement()
            } else {
                self.advance()
            }
        } else if self.current.t_type == TokenType::For {
            if self.advance().beyond(self) {
                self.advance().for_statement()
            } else {
                self.advance()
            }
        } else if self.current.t_type == TokenType::Fun {
            if self.advance().beyond(self) {
                self.advance().fun_statement(FunctionType::Function)
            } else {
                self.advance()
            }
        } else if self.current.t_type == TokenType::Return {
            if self.advance().within(self) {
                self.advance().return_statement()
            } else {
                self.advance()
            }
        } else {
            self.statement()
        }
    }

    /// `declaration`: a declaration, and after an error the skipping to the
    /// next statement boundary.
    pub open spec fn declaration(self) -> Self
        decreases self.left(), 200int,
    {
        let read = self.declared();
        if read.panic_mode {
            read.synchronize()
        } else {
            read
        }
    }

    /// The declarations of a script, up to the end of the source.
    pub open spec fn script_loop(self) -> Self
        decreases self.left(), 210int,
    {
        if self.current.t_type == TokenType::Eof {
            self
        } else {
            let declared = self.declaration();
            if declared.beyond(self) {
                declared.script_loop()
            } else {
                declared
            }
        }
    }

    /// `end_compiler`: the script returns `nil`; the prototype comes back
    /// when no error was found, and the errors otherwise.
    #[verifier::opaque]
    pub open spec fn end_compiler(self) -> Result<FunctionModel, Seq<ErrorModel>> {
        if self.had_error {
            Err(self.emit_return().errors)
        } else {
            Ok(self.emit_return().top().function)
        }
    }

    /// `compile`.
    #[verifier::opaque]
    pub open spec fn compile(self) -> Result<FunctionModel, Seq<ErrorModel>> {
        self.advance().script_loop().advance().end_compiler()
    }
}

/// What the compiler makes of a source: the prototype of the script, or the
/// errors in the order in which they were found.
pub open spec fn compiled(source: Seq<u8>) -> Result<FunctionModel, Seq<ErrorModel>> {
    ParserModel::start(source).compile()
}

} // verus!
