//! The single-pass compiler: a Pratt parser that emits bytecode as it reads.

use vstd::prelude::*;
use vstd::string::StringSliceAdditionalSpecFns;
use std::rc::Rc;
use crate::chunk::{
    and_code, jumps_within, lemma_operand_ok_grows, operand_ok, operands_within, or_code, Chunk,
    Constant,
};
use crate::objects::{ObjFunction, UpValue, MAX_UPVALUES};
use crate::parsing::{
    constant_model, error_models, function_model, spec_clash, CompilerModel, ConstantModel,
    ErrorModel, FunctionModel, ParserModel,
};
use crate::op_code::OpCode;
use crate::scanner::{lemma_scan, scan, Scanner};
use crate::token::{Token, TokenType};
use crate::utils::{append, append_str, bytes_equal, convert_slice_to_string, decimal, spec_decimal};

verus! {

/// The most local variables one function can have.
pub const MAX_LOCALS: usize = 256;

/// How tightly an operator binds, from loosest to tightest.
#[derive(Clone, Copy, PartialEq, Eq, Debug, Structural)]
pub enum Precedence {
    No,
    Assignment,
    Or,
    And,
    Equality,
    Comparison,
    Term,
    Factor,
    Unary,
    Call,
    Primary,
}

impl Precedence {
    /// The place of the level in the order, from 0 for `No` to 10 for
    /// `Primary`.
    pub open spec fn spec_rank(self) -> u8 {
        match self {
            Precedence::No => 0,
            Precedence::Assignment => 1,
            Precedence::Or => 2,
            Precedence::And => 3,
            Precedence::Equality => 4,
            Precedence::Comparison => 5,
            Precedence::Term => 6,
            Precedence::Factor => 7,
            Precedence::Unary => 8,
            Precedence::Call => 9,
            Precedence::Primary => 10,
        }
    }

    /// The place of the level in the order.
    pub fn rank(self) -> (r: u8)
        ensures
            r == self.spec_rank(),
    {
        match self {
            Precedence::No => 0,
            Precedence::Assignment => 1,
            Precedence::Or => 2,
            Precedence::And => 3,
            Precedence::Equality => 4,
            Precedence::Comparison => 5,
            Precedence::Term => 6,
            Precedence::Factor => 7,
            Precedence::Unary => 8,
            Precedence::Call => 9,
            Precedence::Primary => 10,
        }
    }

    /// The next tighter level; `Primary` is the tightest.
    pub open spec fn spec_next(self) -> Precedence {
        match self {
            Precedence::No => Precedence::Assignment,
            Precedence::Assignment => Precedence::Or,
            Precedence::Or => Precedence::And,
            Precedence::And => Precedence::Equality,
            Precedence::Equality => Precedence::Comparison,
            Precedence::Comparison => Precedence::Term,
            Precedence::Term => Precedence::Factor,
            Precedence::Factor => Precedence::Unary,
            Precedence::Unary => Precedence::Call,
            Precedence::Call => Precedence::Primary,
            Precedence::Primary => Precedence::Primary,
        }
    }

    /// The next tighter level; `Primary` is the tightest.
    pub fn next(&self) -> (higher: Self)
        ensures
            higher == self.spec_next(),
            higher.spec_rank() == if self.spec_rank() < 10 {
                (self.spec_rank() + 1) as u8
            } else {
                10
            },
    {
        match self {
            Precedence::No => Precedence::Assignment,
            Precedence::Assignment => Precedence::Or,
            Precedence::Or => Precedence::And,
            Precedence::And => Precedence::Equality,
            Precedence::Equality => Precedence::Comparison,
            Precedence::Comparison => Precedence::Term,
            Precedence::Term => Precedence::Factor,
            Precedence::Factor => Precedence::Unary,
            Precedence::Unary => Precedence::Call,
            Precedence::Call => Precedence::Primary,
            Precedence::Primary => Precedence::Primary,
        }
    }
}

/// A level is determined by its rank.
pub proof fn lemma_rank_names_level(a: Precedence, b: Precedence)
    ensures
        a.spec_rank() == b.spec_rank() ==> a == b,
{
}

/// The parsing routines that a token can select.
#[derive(Clone, Copy, PartialEq, Eq, Debug, Structural)]
pub enum ParseFn {
    Grouping,
    Call,
    Unary,
    Binary,
    Number,
    Literal,
    Strings,
    Variable,
    And,
    Or,
    Print,
}

/// What a token means to the parser: the routine that parses an expression
/// starting with it, the routine that continues an expression at it, and how
/// tightly it binds as an operator.
#[derive(Clone, Copy, PartialEq, Eq, Debug, Structural)]
pub struct ParseRule {
    pub prefix: Option<ParseFn>,
    pub infix: Option<ParseFn>,
    pub precedence: Precedence,
}

/// The table of rules.
pub open spec fn spec_rule(t: TokenType) -> ParseRule {
    match t {
        TokenType::LeftParen => ParseRule {
            prefix: Some(ParseFn::Grouping),
            infix: Some(ParseFn::Call),
            precedence: Precedence::Call,
        },
        TokenType::Minus => ParseRule {
            prefix: Some(ParseFn::Unary),
            infix: Some(ParseFn::Binary),
            precedence: Precedence::Term,
        },
        TokenType::Bang => ParseRule {
            prefix: Some(ParseFn::Unary),
            infix: None,
            precedence: Precedence::Term,
        },
        TokenType::BangEqual | TokenType::EqualEqual => ParseRule {
            prefix: None,
            infix: Some(ParseFn::Binary),
            precedence: Precedence::Equality,
        },
        TokenType::Plus => ParseRule {
            prefix: None,
            infix: Some(ParseFn::Binary),
            precedence: Precedence::Term,
        },
        TokenType::Slash | TokenType::Star => ParseRule {
            prefix: None,
            infix: Some(ParseFn::Binary),
            precedence: Precedence::Factor,
        },
        TokenType::Number => ParseRule {
            prefix: Some(ParseFn::Number),
            infix: None,
            precedence: Precedence::No,
        },
        TokenType::Nil | TokenType::True | TokenType::False => ParseRule {
            prefix: Some(ParseFn::Literal),
            infix: None,
            precedence: Precedence::No,
        },
        TokenType::Greater | TokenType::GreaterEqual | TokenType::Less
        | TokenType::LessEqual => ParseRule {
            prefix: None,
            infix: Some(ParseFn::Binary),
            precedence: Precedence::Comparison,
        },
        TokenType::Print => ParseRule {
            prefix: Some(ParseFn::Print),
            infix: None,
            precedence: Precedence::No,
        },
        TokenType::Strings => ParseRule {
            prefix: Some(ParseFn::Strings),
            infix: None,
            precedence: Precedence::No,
        },
        TokenType::Identifier => ParseRule {
            prefix: Some(ParseFn::Variable),
            infix: None,
            precedence: Precedence::No,
        },
        TokenType::And => ParseRule {
            prefix: None,
            infix: Some(ParseFn::And),
            precedence: Precedence::And,
        },
        TokenType::Or => ParseRule {
            prefix: None,
            infix: Some(ParseFn::Or),
            precedence: Precedence::Or,
        },
        _ => ParseRule { prefix: None, infix: None, precedence: Precedence::No },
    }
}

/// The rule of a token kind.
pub fn get_rule(t: TokenType) -> (rule: ParseRule)
    ensures
        rule == spec_rule(t),
{
    match t {
        TokenType::LeftParen => ParseRule {
            prefix: Some(ParseFn::Grouping),
            infix: Some(ParseFn::Call),
            precedence: Precedence::Call,
        },
        TokenType::Minus => ParseRule {
            prefix: Some(ParseFn::Unary),
            infix: Some(ParseFn::Binary),
            precedence: Precedence::Term,
        },
        TokenType::Bang => ParseRule {
            prefix: Some(ParseFn::Unary),
            infix: None,
            precedence: Precedence::Term,
        },
        TokenType::BangEqual | TokenType::EqualEqual => ParseRule {
            prefix: None,
            infix: Some(ParseFn::Binary),
            precedence: Precedence::Equality,
        },
        TokenType::Plus => ParseRule {
            prefix: None,
            infix: Some(ParseFn::Binary),
            precedence: Precedence::Term,
        },
        TokenType::Slash | TokenType::Star => ParseRule {
            prefix: None,
            infix: Some(ParseFn::Binary),
            precedence: Precedence::Factor,
        },
        TokenType::Number => ParseRule {
            prefix: Some(ParseFn::Number),
            infix: None,
            precedence: Precedence::No,
        },
        TokenType::Nil | TokenType::True | TokenType::False => ParseRule {
            prefix: Some(ParseFn::Literal),
            infix: None,
            precedence: Precedence::No,
        },
        TokenType::Greater | TokenType::GreaterEqual | TokenType::Less
        | TokenType::LessEqual => ParseRule {
            prefix: None,
            infix: Some(ParseFn::Binary),
            precedence: Precedence::Comparison,
        },
        TokenType::Print => ParseRule {
            prefix: Some(ParseFn::Print),
            infix: None,
            precedence: Precedence::No,
        },
        TokenType::Strings => ParseRule {
            prefix: Some(ParseFn::Strings),
            infix: None,
            precedence: Precedence::No,
        },
        TokenType::Identifier => ParseRule {
            prefix: Some(ParseFn::Variable),
            infix: None,
            precedence: Precedence::No,
        },
        TokenType::And => ParseRule {
            prefix: None,
            infix: Some(ParseFn::And),
            precedence: Precedence::And,
        },
        TokenType::Or => ParseRule {
            prefix: None,
            infix: Some(ParseFn::Or),
            precedence: Precedence::Or,
        },
        _ => ParseRule { prefix: None, infix: None, precedence: Precedence::No },
    }
}

/// A local variable: the token that names it, the depth of the scope that
/// declared it, or nothing while its initializer is being compiled, and
/// whether a closure captures it.
#[derive(Clone, Copy, PartialEq, Eq, Debug, Structural)]
pub struct Local {
    pub name: Token,
    pub depth: Option<usize>,
    pub is_captured: bool,
}

/// What is being compiled: a function, or the top level of a script.
#[derive(Clone, Copy, PartialEq, Eq, Debug, Structural)]
pub enum FunctionType {
    Function,
    Script,
}

/// Where a compile error was found.
#[derive(Clone, Copy, PartialEq, Eq, Debug, Structural)]
pub enum ErrorPlace {
    /// At the end of the source.
    End,
    /// At bytes that are no token.
    Unknown,
    /// At the token that covers `length` bytes from `start`.
    Lexeme { start: usize, length: usize },
}

/// A compile error.
#[derive(Clone, Copy, Debug)]
pub struct CompileError {
    pub line: usize,
    pub place: ErrorPlace,
    pub message: &'static str,
}

impl CompileError {
    /// The report of the error: the line, the place, and the message.
    pub open spec fn spec_render(self) -> Seq<u8> {
        "[line ".spec_bytes() + spec_decimal(self.line as nat) + "] error".spec_bytes() + (
        match self.place {
            ErrorPlace::End => " at end".spec_bytes(),
            ErrorPlace::Unknown => " unknown type found.".spec_bytes(),
            ErrorPlace::Lexeme { start, length } => " at ".spec_bytes() + spec_decimal(
                length as nat,
            ) + " ".spec_bytes() + spec_decimal(start as nat),
        }) + " : ".spec_bytes() + self.message.spec_bytes()
    }

    /// The report of the error.
    pub fn render(&self) -> (text: Vec<u8>)
        ensures
            text@ == self.spec_render(),
    {
        let mut text: Vec<u8> = Vec::new();
        append_str(&mut text, "[line ");
        let digits = decimal(self.line);
        append(&mut text, digits.as_slice());
        append_str(&mut text, "] error");
        let ghost head = text@;
        proof {
            assert(Seq::<u8>::empty() + "[line ".spec_bytes() =~= "[line ".spec_bytes());
        }
        match self.place {
            ErrorPlace::End => {
                append_str(&mut text, " at end");
            },
            ErrorPlace::Unknown => {
                append_str(&mut text, " unknown type found.");
            },
            ErrorPlace::Lexeme { start, length } => {
                append_str(&mut text, " at ");
                let size = decimal(length);
                append(&mut text, size.as_slice());
                append_str(&mut text, " ");
                let at = decimal(start);
                append(&mut text, at.as_slice());
                proof {
                    assert(text@ =~= head + (" at ".spec_bytes() + spec_decimal(length as nat)
                        + " ".spec_bytes() + spec_decimal(start as nat)));
                }
            },
        }
        append_str(&mut text, " : ");
        append_str(&mut text, self.message);
        text
    }
}

/// The state of the compilation of one function.
#[derive(Debug)]
pub struct Compiler {
    /// The local variables in scope, in the order of their declaration.
    /// Local `i` lives in slot `i + 1` of the frame's window.
    pub locals: Vec<Local>,
    pub scope_depth: usize,
    pub function: ObjFunction,
    pub function_type: FunctionType,
}

/// Whether the two tokens cover the same bytes of the source.
pub open spec fn same_lexeme(source: Seq<u8>, a: Token, b: Token) -> bool {
    a.lexeme(source) == b.lexeme(source)
}

/// The index of the last local among the first `upto` whose name is the
/// lexeme of `name`.
pub open spec fn spec_resolve(source: Seq<u8>, locals: Seq<Local>, name: Token, upto: int) -> Option<
    int,
>
    decreases upto,
{
    if upto <= 0 {
        None
    } else if upto <= locals.len() && same_lexeme(source, locals[upto - 1].name, name) {
        Some(upto - 1)
    } else {
        spec_resolve(source, locals, name, upto - 1)
    }
}

/// The index of the first upvalue that is the same as `(index, is_local)`.
pub open spec fn spec_find_upvalue(upvalues: Seq<UpValue>, index: usize, is_local: bool, from: int) -> Option<
    int,
>
    decreases upvalues.len() - from,
{
    if from < 0 || from >= upvalues.len() {
        None
    } else if upvalues[from].index == index && upvalues[from].is_local == is_local {
        Some(from)
    } else {
        spec_find_upvalue(upvalues, index, is_local, from + 1)
    }
}

/// The number of locals that remain when the scopes deeper than `depth`
/// end: the locals are dropped from the last one back, as long as they were
/// declared deeper than `depth`.
pub open spec fn spec_kept_locals(locals: Seq<Local>, depth: usize) -> int
    decreases locals.len(),
{
    if locals.len() == 0 {
        0
    } else {
        match locals.last().depth {
            Some(d) => if d > depth {
                spec_kept_locals(locals.drop_last(), depth)
            } else {
                locals.len() as int
            },
            None => locals.len() as int,
        }
    }
}

/// Scope isolation: what a block declares is gone when the block ends, and
/// what was declared before it stays. `outer` are the locals at the opening
/// brace, in a scope of depth `depth` or less; `inner` are the locals that the
/// block and the blocks inside it have defined since. Behind the closing
/// brace a name resolves as it did before the block.
pub proof fn lemma_scope_isolation(
    source: Seq<u8>,
    outer: Seq<Local>,
    inner: Seq<Local>,
    depth: usize,
    name: Token,
)
    requires
        forall|i: int|
            0 <= i < inner.len() ==> (#[trigger] inner[i]).depth is Some && inner[i].depth.unwrap()
                > depth,
        outer.len() > 0 ==> outer.last().depth is None || outer.last().depth.unwrap() <= depth,
    ensures
        spec_kept_locals(outer + inner, depth) == outer.len(),
        (outer + inner).take(spec_kept_locals(outer + inner, depth)) == outer,
        spec_resolve(
            source,
            (outer + inner).take(spec_kept_locals(outer + inner, depth)),
            name,
            spec_kept_locals(outer + inner, depth),
        ) == spec_resolve(source, outer, name, outer.len() as int),
    decreases inner.len(),
{
    if inner.len() == 0 {
        assert(outer + inner =~= outer);
        assert(outer.take(outer.len() as int) =~= outer);
    } else {
        assert((outer + inner).last() == inner.last());
        assert((outer + inner).drop_last() =~= outer + inner.drop_last());
        lemma_scope_isolation(source, outer, inner.drop_last(), depth, name);
        assert((outer + inner).take(outer.len() as int) =~= outer);
    }
}

/// Every function among the constants can be run.
pub open spec fn nested_sound(constants: Seq<Constant>) -> bool {
    forall|k: int|
        0 <= k < constants.len() ==> match #[trigger] constants[k] {
            Constant::Function(f) => f.sound(),
            _ => true,
        }
}

impl Compiler {
    /// The limits hold, each instruction has its line, every jump lands in
    /// the code or just behind it, every operand is in range, the nested
    /// functions can be run, and the names of the locals lie within a source
    /// of `len` bytes.
    pub open spec fn wf(&self, len: int) -> bool {
        &&& self.locals@.len() <= MAX_LOCALS
        &&& self.function.name.wf()
        &&& self.function.upvalues@.len() <= MAX_UPVALUES
        &&& self.function.chunk.aligned()
        &&& jumps_within(self.function.chunk.code@, self.function.chunk.code@.len() as int)
        &&& operands_within(
            self.function.chunk.code@,
            self.function.chunk.constants@,
            self.function.upvalues@.len() as int,
        )
        &&& nested_sound(self.function.chunk.constants@)
        &&& forall|i: int| 0 <= i < self.locals@.len() ==> (#[trigger] self.locals@[i]).name.within(len)
    }

    /// A compiler for a function of the given name, without locals, at scope
    /// depth 0.
    pub fn new(name: Vec<u8>, types: FunctionType) -> (compiler: Self)
        ensures
            compiler.locals@.len() == 0,
            compiler.scope_depth == 0,
            compiler.function_type == types,
            compiler.function.name.value == name,
            compiler.function.arity == 0,
            compiler.function.chunk.code@.len() == 0,
            compiler.function.chunk.constants@.len() == 0,
            compiler.function.chunk.lines@.len() == 0,
            compiler.function.upvalues@.len() == 0,
            forall|len: int| compiler.wf(len),
            compiler@ == CompilerModel::fresh(name@, types),
    {
        let ghost wanted = name@;
        let compiler = Compiler {
            locals: Vec::new(),
            scope_depth: 0,
            function: ObjFunction::new(name),
            function_type: types,
        };
        proof {
            assert(compiler@.locals =~= Seq::empty());
            assert(compiler@.function.constants =~= Seq::empty());
            assert(compiler@.function.upvalues =~= Seq::empty());
            assert(compiler@.function.code =~= Seq::empty());
            assert(compiler@.function.lines =~= Seq::empty());
        }
        compiler
    }

    /// The last local whose name is the lexeme of `name`.
    pub fn resolve_local(&self, bytes: &[u8], name: &Token) -> (found: Option<usize>)
        requires
            self.wf(bytes@.len() as int),
            name.within(bytes@.len() as int),
        ensures
            match found {
                Some(i) => spec_resolve(bytes@, self.locals@, *name, self.locals@.len() as int)
                    == Some(i as int) && i < self.locals@.len(),
                None => spec_resolve(bytes@, self.locals@, *name, self.locals@.len() as int)
                    is None,
            },
    {
        let length = bytes.len();
        let wanted = vstd::slice::slice_subrange(bytes, name.start, name.start + name.length);
        let mut idx = self.locals.len();
        while idx > 0
            invariant
                idx <= self.locals@.len(),
                bytes@.len() == length,
                self.wf(bytes@.len() as int),
                name.within(bytes@.len() as int),
                wanted@ == name.lexeme(bytes@),
                spec_resolve(bytes@, self.locals@, *name, idx as int) == spec_resolve(
                    bytes@,
                    self.locals@,
                    *name,
                    self.locals@.len() as int,
                ),
            decreases idx,
        {
            let local = self.locals[idx - 1];
            let held = vstd::slice::slice_subrange(
                bytes,
                local.name.start,
                local.name.start + local.name.length,
            );
            if bytes_equal(held, wanted) {
                return Some(idx - 1);
            }
            idx -= 1;
        }
        None
    }

    /// The index of the upvalue `(index, is_local)` in the function's list,
    /// to which it is added when it is not there yet. Nothing comes back
    /// only when the list is full.
    pub fn add_upvalue(&mut self, index: usize, is_local: bool) -> (at: Option<usize>)
        ensures
            final(self).locals == old(self).locals,
            final(self).scope_depth == old(self).scope_depth,
            final(self).function_type == old(self).function_type,
            final(self).function.chunk == old(self).function.chunk,
            final(self).function.arity == old(self).function.arity,
            final(self).function.name == old(self).function.name,
            match spec_find_upvalue(old(self).function.upvalues@, index, is_local, 0) {
                Some(i) => at == Some(i as usize) && final(self).function.upvalues@ == old(self).function.upvalues@,
                None => if old(self).function.upvalues@.len() >= MAX_UPVALUES {
                    at is None && final(self).function.upvalues@ == old(self).function.upvalues@
                } else {
                    at == Some(old(self).function.upvalues@.len() as usize) && final(self).function.upvalues@ == old(self).function.upvalues@.push(
                        UpValue { index, is_local },
                    )
                },
            },
            at is Some ==> at.unwrap() < final(self).function.upvalues@.len(),
            forall|len: int| old(self).wf(len) ==> final(self).wf(len),
            (final(self)@, at) == old(self)@.add_upvalue(index, is_local),
    {
        let count = self.function.upvalues.len();
        let mut i: usize = 0;
        while i < count
            invariant
                i <= count,
                count == self.function.upvalues@.len(),
                *self == *old(self),
                spec_find_upvalue(self.function.upvalues@, index, is_local, i as int)
                    == spec_find_upvalue(self.function.upvalues@, index, is_local, 0),
            decreases count - i,
        {
            let value = self.function.upvalues[i];
            if value.index == index && value.is_local == is_local {
                return Some(i);
            }
            i += 1;
        }
        if count >= MAX_UPVALUES {
            return None;
        }
        self.function.upvalues.push(UpValue { index, is_local });
        proof {
            assert(self@.function.constants =~= old(self)@.function.constants);
            assert forall|len: int| old(self).wf(len) implies self.wf(len) by {
                assert forall|i: int| 0 <= i < self.function.chunk.code@.len() implies operand_ok(
                    #[trigger] self.function.chunk.code@[i],
                    self.function.chunk.constants@,
                    self.function.upvalues@.len() as int,
                ) by {
                    lemma_operand_ok_grows(
                        self.function.chunk.code@[i],
                        self.function.chunk.constants@,
                        count as int,
                        self.function.chunk.constants@,
                        count + 1,
                    );
                }
            }
        }
        Some(count)
    }
}


/// The parser: the scanner, the functions being compiled with the innermost
/// last, the token being looked at and the one before it, and what went
/// wrong so far.
pub struct Parser<'a> {
    pub scanner: Scanner<'a>,
    pub compilers: Vec<Compiler>,
    pub current: Token,
    pub previous: Token,
    pub had_error: bool,
    /// Set by an error and cleared at the next statement boundary; while it
    /// is set, further errors are not reported.
    pub panic_mode: bool,
    pub errors: Vec<CompileError>,
}

impl View for Compiler {
    type V = CompilerModel;

    open spec fn view(&self) -> CompilerModel {
        CompilerModel {
            locals: self.locals@,
            scope_depth: self.scope_depth,
            function_type: self.function_type,
            function: function_model(self.function),
        }
    }
}

impl<'a> View for Parser<'a> {
    type V = ParserModel;

    open spec fn view(&self) -> ParserModel {
        ParserModel {
            source: self.scanner.bytes@,
            pos: self.scanner.current,
            line: self.scanner.line,
            current: self.current,
            previous: self.previous,
            had_error: self.had_error,
            panic_mode: self.panic_mode,
            errors: error_models(self.errors@),
            compilers: Seq::new(self.compilers@.len(), |i: int| self.compilers@[i]@),
        }
    }
}

/// `a` is the beginning of `b`.
pub open spec fn is_prefix<T>(a: Seq<T>, b: Seq<T>) -> bool {
    a.len() <= b.len() && b.take(a.len() as int) == a
}

/// A sequence is the beginning of itself.
pub proof fn lemma_prefix_refl<T>(a: Seq<T>)
    ensures
        is_prefix(a, a),
{
    assert(a.take(a.len() as int) =~= a);
}

/// The offset that a forward jump over `distance` instructions carries: the
/// distance, or the largest offset when the distance does not fit.
pub open spec fn spec_jump_offset(distance: int) -> u16 {
    if distance > u16::MAX {
        u16::MAX
    } else {
        distance as u16
    }
}

/// Where an error at `token` is reported.
pub open spec fn spec_place(token: Token) -> ErrorPlace {
    match token.t_type {
        TokenType::Eof => ErrorPlace::End,
        TokenType::Error => ErrorPlace::Unknown,
        _ => ErrorPlace::Lexeme { start: token.start, length: token.length },
    }
}

/// What leaving a scope emits for the locals that it drops, from the last
/// local back: `CloseUpvalue` for a captured local, `Pop` for another.
pub open spec fn spec_scope_exit(locals: Seq<Local>, depth: usize) -> Seq<OpCode>
    decreases locals.len(),
{
    if locals.len() == 0 {
        Seq::empty()
    } else {
        match locals.last().depth {
            Some(d) => if d > depth {
                seq![
                    if locals.last().is_captured {
                        OpCode::CloseUpvalue
                    } else {
                        OpCode::Pop
                    },
                ] + spec_scope_exit(locals.drop_last(), depth)
            } else {
                Seq::empty()
            },
            None => Seq::empty(),
        }
    }
}

/// The instruction is no jump, or it lands between index 0 and `bound`.
pub open spec fn lands(op: OpCode, at: int, bound: int) -> bool {
    match crate::chunk::jump_target(op, at) {
        Some(t) => 0 <= t <= bound,
        None => true,
    }
}

impl<'a> Parser<'a> {
    /// The source.
    pub open spec fn source(&self) -> Seq<u8> {
        self.scanner.bytes@
    }

    /// The function being compiled.
    pub open spec fn top(&self) -> Compiler {
        self.compilers@.last()
    }

    /// The code of the function being compiled.
    pub open spec fn code(&self) -> Seq<OpCode> {
        self.top().function.chunk.code@
    }

    /// A measure of the source that is left: the bytes that the scanner has
    /// not read, and one for a pending token that is not the end.
    #[verifier::opaque]
    pub open spec fn left(&self) -> int {
        self.source().len() - self.scanner.current + if self.current.t_type != TokenType::Eof {
            1int
        } else {
            0int
        }
    }

    /// The invariant of the parser.
    #[verifier::opaque]
    pub open spec fn wf(&self) -> bool {
        &&& self.scanner.wf()
        &&& self.current.within(self.source().len() as int)
        &&& self.previous.within(self.source().len() as int)
        &&& self.current.t_type == TokenType::Eof ==> self.scanner.current == self.source().len()
        &&& self.compilers@.len() >= 1
        &&& forall|i: int|
            0 <= i < self.compilers@.len() ==> (#[trigger] self.compilers@[i]).wf(
                self.source().len() as int,
            )
        &&& self.compilers@[0].function.upvalues@.len() == 0
        &&& self.compilers@[0].function.arity == 0
        &&& self.panic_mode ==> self.had_error
        &&& self.had_error <==> self.errors@.len() > 0
    }

    /// How the parser relates to an earlier state `before` of itself: it
    /// reads the same source and has not gone back in it; it compiles the same
    /// nest of functions at the same scope depths; the code of each of them
    /// has only grown or been patched behind what was there; and no error has
    /// been forgotten.
    #[verifier::opaque]
    pub open spec fn follows(&self, before: &Self) -> bool {
        &&& self.advances(before)
        &&& forall|i: int|
            0 <= i < self.compilers@.len() ==> is_prefix(
                before.compilers@[i].function.chunk.code@,
                (#[trigger] self.compilers@[i]).function.chunk.code@,
            )
    }

    /// The constants and the upvalues of each function being compiled have
    /// only grown since `before`.
    #[verifier::opaque]
    pub open spec fn keeps_pools(&self, before: &Self) -> bool {
        &&& self.compilers@.len() == before.compilers@.len()
        &&& forall|i: int|
            0 <= i < self.compilers@.len() ==> {
                &&& is_prefix(
                    before.compilers@[i].function.chunk.constants@,
                    (#[trigger] self.compilers@[i]).function.chunk.constants@,
                )
                &&& before.compilers@[i].function.upvalues@.len()
                    <= self.compilers@[i].function.upvalues@.len()
            }
    }

    /// What `follows` says, except that the instruction at `offset` of the
    /// function being compiled may have been replaced.
    #[verifier::opaque]
    pub open spec fn follows_but(&self, before: &Self, offset: int) -> bool {
        &&& self.advances(before)
        &&& forall|i: int|
            0 <= i < self.compilers@.len() - 1 ==> is_prefix(
                before.compilers@[i].function.chunk.code@,
                (#[trigger] self.compilers@[i]).function.chunk.code@,
            )
        &&& before.code().len() <= self.code().len()
        &&& forall|k: int|
            0 <= k < before.code().len() && k != offset ==> #[trigger] self.code()[k]
                == before.code()[k]
    }

    /// What `follows` says, but for the code: the parser reads the same
    /// source and has not gone back in it; it compiles the same nest of
    /// functions at the same scope depths; and no error has been forgotten.
    #[verifier::opaque]
    pub open spec fn advances(&self, before: &Self) -> bool {
        &&& self.wf()
        &&& self.scanner.bytes == before.scanner.bytes
        &&& self.left() <= before.left()
        &&& self.compilers@.len() == before.compilers@.len()
        &&& forall|i: int|
            0 <= i < self.compilers@.len() ==> {
                &&& (#[trigger] self.compilers@[i]).scope_depth == before.compilers@[i].scope_depth
                &&& self.compilers@[i].function_type == before.compilers@[i].function_type
            }
        &&& is_prefix(before.errors@, self.errors@)
        &&& self.keeps_pools(before)
    }

    /// Nothing but the code, the lines and the constants of the function
    /// being compiled may differ from `before`.
    pub open spec fn same_but_chunk(&self, before: &Self) -> bool {
        &&& self.scanner == before.scanner
        &&& self.current == before.current
        &&& self.previous == before.previous
        &&& self.had_error == before.had_error
        &&& self.panic_mode == before.panic_mode
        &&& self.errors == before.errors
        &&& self.compilers@.len() == before.compilers@.len()
        &&& forall|i: int|
            0 <= i < self.compilers@.len() - 1 ==> #[trigger] self.compilers@[i]
                == before.compilers@[i]
        &&& self.top().locals == before.top().locals
        &&& self.top().scope_depth == before.top().scope_depth
        &&& self.top().function_type == before.top().function_type
        &&& self.top().function.arity == before.top().function.arity
        &&& self.top().function.name == before.top().function.name
        &&& self.top().function.upvalues == before.top().function.upvalues
    }

    /// Nothing but the error state may differ from `before`.
    pub open spec fn same_but_errors(&self, before: &Self) -> bool {
        &&& self.scanner == before.scanner
        &&& self.current == before.current
        &&& self.previous == before.previous
        &&& self.compilers == before.compilers
    }

    /// A parser at the beginning of `source` that compiles the script.
    pub fn new(source: &'a [u8]) -> (parser: Self)
        ensures
            parser.wf(),
            parser.source() == source@,
            parser.scanner.current == 0,
            parser.compilers@.len() == 1,
            parser.top().function_type == FunctionType::Script,
            parser.top().scope_depth == 0,
            parser.top().locals@.len() == 0,
            parser.code().len() == 0,
            parser.top().function.chunk.constants@.len() == 0,
            parser.top().function.upvalues@.len() == 0,
            parser.top().function.arity == 0,
            parser.current.t_type == TokenType::Nil,
            parser.errors@.len() == 0,
            !parser.had_error,
            !parser.panic_mode,
            parser@ == ParserModel::start(source@),
    {
        reveal(Parser::wf);
        reveal(Parser::follows);
        let mut compilers: Vec<Compiler> = Vec::new();
        compilers.push(Compiler::new(script_name(), FunctionType::Script));
        let parser = Parser {
            scanner: Scanner::new(source),
            compilers,
            current: Token { t_type: TokenType::Nil, start: 0, length: 0, line: 0 },
            previous: Token { t_type: TokenType::Nil, start: 0, length: 0, line: 0 },
            had_error: false,
            panic_mode: false,
            errors: Vec::new(),
        };
        proof {
            assert(parser@.errors =~= Seq::empty());
            assert(parser.compilers@[0]@.function.constants =~= Seq::empty());
            assert(parser.compilers@[0]@.function.upvalues =~= Seq::empty());
            assert(parser.compilers@[0]@.function.code =~= Seq::empty());
            assert(parser.compilers@[0]@.function.lines =~= Seq::empty());
            assert(parser.compilers@[0]@.locals =~= Seq::empty());
            assert(parser@.compilers =~= ParserModel::start(source@).compilers);
        }
        parser
    }

    /// When only the error state differs from `before`, and it is the one
    /// that `errors` and the flags say, the view is the view of `before` with
    /// that error state.
    pub proof fn lemma_view_errors(&self, before: &Self)
        requires
            self.same_but_errors(before),
        ensures
            self@ == (ParserModel {
                had_error: self.had_error,
                panic_mode: self.panic_mode,
                errors: error_models(self.errors@),
                ..before@
            }),
    {
        reveal(Parser::wf);
        reveal(Parser::follows);
        assert(self@.compilers =~= before@.compilers);
    }

    /// Reports `msg` at `token`, unless an earlier error is still being
    /// recovered from.
    fn error_at(&mut self, token: Token, msg: &'static str)
        ensures
            final(self).same_but_errors(old(self)),
            final(self).had_error,
            final(self).panic_mode,
            final(self).errors@ == if old(self).panic_mode {
                old(self).errors@
            } else {
                old(self).errors@.push(
                    CompileError { line: token.line, place: spec_place(token), message: msg },
                )
            },
            old(self).wf() ==> final(self).follows(old(self)),
            final(self)@ == old(self)@.report(token, msg@),
    {
        reveal(Parser::wf);
        reveal(Parser::follows);
        reveal(ParserModel::report);
        if self.panic_mode {
            self.had_error = true;
            proof {
                self.lemma_view_errors(old(self));
                if old(self).wf() {
                    assert(self.errors@.take(old(self).errors@.len() as int) =~= old(self).errors@);
                    self.lemma_follows_frame(old(self));
                }
            }
            return;
        }
        self.panic_mode = true;
        let place = match token.t_type {
            TokenType::Eof => ErrorPlace::End,
            TokenType::Error => ErrorPlace::Unknown,
            _ => ErrorPlace::Lexeme { start: token.start, length: token.length },
        };
        self.errors.push(CompileError { line: token.line, place, message: msg });
        self.had_error = true;
        proof {
            self.lemma_view_errors(old(self));
            assert(error_models(self.errors@) =~= old(self)@.errors.push(
                ErrorModel { line: token.line, place: spec_place(token), message: msg@ },
            ));
            if old(self).wf() {
                assert(self.errors@.take(old(self).errors@.len() as int) =~= old(self).errors@);
                self.lemma_follows_frame(old(self));
            }
        }
    }

    /// When the scanner, the tokens and the functions being compiled are
    /// those of a sound earlier state, and no error was forgotten, the
    /// parser follows that state.
    pub proof fn lemma_follows_frame(&self, before: &Self)
        requires
            before.wf(),
            self.scanner == before.scanner,
            self.current == before.current,
            self.previous == before.previous,
            self.compilers == before.compilers,
            is_prefix(before.errors@, self.errors@),
            self.panic_mode ==> self.had_error,
            self.had_error <==> self.errors@.len() > 0,
        ensures
            self.follows(before),
    {
        reveal(Parser::wf);
        reveal(Parser::left);
        reveal(Parser::advances);
        reveal(Parser::follows);
        reveal(Parser::keeps_pools);
        assert forall|i: int| 0 <= i < self.compilers@.len() implies {
            &&& is_prefix(
                before.compilers@[i].function.chunk.code@,
                (#[trigger] self.compilers@[i]).function.chunk.code@,
            )
            &&& is_prefix(
                before.compilers@[i].function.chunk.constants@,
                self.compilers@[i].function.chunk.constants@,
            )
        } by {
            lemma_prefix_refl(self.compilers@[i].function.chunk.code@);
            lemma_prefix_refl(self.compilers@[i].function.chunk.constants@);
        }
    }

    /// Reports `msg` at the token being looked at.
    fn error_at_current(&mut self, msg: &'static str)
        ensures
            final(self).same_but_errors(old(self)),
            final(self).had_error,
            final(self).panic_mode,
            final(self).errors@ == if old(self).panic_mode {
                old(self).errors@
            } else {
                old(self).errors@.push(
                    CompileError {
                        line: old(self).current.line,
                        place: spec_place(old(self).current),
                        message: msg,
                    },
                )
            },
            old(self).wf() ==> final(self).follows(old(self)),
            final(self)@ == old(self)@.report(old(self).current, msg@),
    {
        reveal(Parser::wf);
        reveal(Parser::follows);
        self.error_at(self.current, msg);
    }

    /// Reports `msg` at the token before the one being looked at.
    fn error(&mut self, msg: &'static str)
        ensures
            final(self).same_but_errors(old(self)),
            final(self).had_error,
            final(self).panic_mode,
            final(self).errors@ == if old(self).panic_mode {
                old(self).errors@
            } else {
                old(self).errors@.push(
                    CompileError {
                        line: old(self).previous.line,
                        place: spec_place(old(self).previous),
                        message: msg,
                    },
                )
            },
            old(self).wf() ==> final(self).follows(old(self)),
            final(self)@ == old(self)@.report(old(self).previous, msg@),
    {
        reveal(Parser::wf);
        reveal(Parser::follows);
        self.error_at(self.previous, msg);
    }

    /// Moves to the next token that is not an error token; each error token
    /// on the way is reported.
    pub fn next_valid_token(&mut self)
        requires
            old(self).wf(),
        ensures
            final(self).follows(old(self)),
            final(self).compilers == old(self).compilers,
            final(self).previous == old(self).current,
            final(self).current.t_type != TokenType::Error,
            old(self).current.t_type != TokenType::Eof ==> final(self).left() < old(self).left(),
            final(self).current.t_type != TokenType::Eof ==> final(self).current.length > 0,
            scan(
                old(self).source(),
                old(self).scanner.current as int,
                old(self).scanner.line,
            ).0.t_type != TokenType::Error ==> final(self).errors == old(self).errors && final(self).had_error == old(self).had_error && final(self).panic_mode == old(self).panic_mode
                && (final(self).current, final(self).scanner.current as int, final(self).scanner.line)
                == scan(old(self).source(), old(self).scanner.current as int, old(self).scanner.line),
            final(self)@ == old(self)@.advance(),
    {
        reveal(Parser::wf);
        reveal(Parser::left);
        reveal(Parser::advances);
        reveal(Parser::follows);
        reveal(Parser::keeps_pools);
        reveal(ParserModel::advance);
        reveal(ParserModel::scan_on);
        self.previous = self.current;
        let ghost length = self.source().len() as int;
        let ghost begun = self@;
        proof {
            lemma_prefix_refl(self.errors@);
            assert(begun == (ParserModel { previous: old(self)@.current, ..old(self)@ })) by {
                assert(self@.compilers =~= old(self)@.compilers);
            }
        }
        loop
            invariant_except_break
                self.errors == old(self).errors && self.had_error == old(self).had_error
                    && self.panic_mode == old(self).panic_mode && self.scanner.current == old(self).scanner.current && self.scanner.line == old(self).scanner.line || scan(
                    old(self).source(),
                    old(self).scanner.current as int,
                    old(self).scanner.line,
                ).0.t_type == TokenType::Error,
                self@.scan_on() == begun.scan_on(),
            invariant
                self.scanner.wf(),
                self.scanner.bytes == old(self).scanner.bytes,
                self.scanner.current >= old(self).scanner.current,
                old(self).wf(),
                length == self.source().len(),
                self.previous == old(self).current,
                self.compilers == old(self).compilers,
                is_prefix(old(self).errors@, self.errors@),
                self.panic_mode ==> self.had_error,
                self.had_error <==> self.errors@.len() > 0,
            ensures
                self@ == begun.scan_on(),
                scan(
                    old(self).source(),
                    old(self).scanner.current as int,
                    old(self).scanner.line,
                ).0.t_type != TokenType::Error ==> self.errors == old(self).errors
                    && self.had_error == old(self).had_error && self.panic_mode == old(self).panic_mode && (self.current, self.scanner.current as int, self.scanner.line)
                    == scan(
                    old(self).source(),
                    old(self).scanner.current as int,
                    old(self).scanner.line,
                ),
                self.scanner.wf(),
                self.scanner.bytes == old(self).scanner.bytes,
                self.scanner.current >= old(self).scanner.current,
                self.previous == old(self).current,
                self.compilers == old(self).compilers,
                is_prefix(old(self).errors@, self.errors@),
                self.panic_mode ==> self.had_error,
                self.had_error <==> self.errors@.len() > 0,
                self.current.t_type != TokenType::Error,
                self.current.within(length),
                self.current.t_type == TokenType::Eof ==> self.scanner.current == length,
                self.current.t_type != TokenType::Eof ==> self.current.length > 0,
                self.current.start >= old(self).scanner.current,
                self.scanner.current == self.current.start + self.current.length,
            decreases length - self.scanner.current,
        {
            reveal(Parser::wf);
            reveal(Parser::left);
            reveal(Parser::advances);
            reveal(Parser::follows);
            reveal(Parser::keeps_pools);
            reveal(ParserModel::scan_on);
            proof {
                lemma_scan(self.scanner.bytes@, self.scanner.current as int, self.scanner.line);
            }
            let ghost errors_before = self.errors@;
            let ghost turn = self@;
            self.current = self.scanner.scan_token();
            let ghost scanned = self@;
            proof {
                assert(scanned.compilers =~= turn.compilers);
                assert(scanned == (ParserModel {
                    current: self.current,
                    pos: self.scanner.current,
                    line: self.scanner.line,
                    ..turn
                }));
            }
            if self.current.t_type == TokenType::Error {
                let unterminated = self.current.length > 0 && self.scanner.bytes[self.current.start]
                    == 34;
                if unterminated {
                    self.error_at_current("Unterminated string.");
                } else {
                    self.error_at_current("Unexpected character.");
                }
                proof {
                    assert(is_prefix(old(self).errors@, self.errors@)) by {
                        assert(self.errors@.take(old(self).errors@.len() as int) =~= errors_before.take(
                            old(self).errors@.len() as int,
                        ));
                    }
                }
            } else {
                break;
            }
        }
        proof {
            assert forall|i: int| 0 <= i < self.compilers@.len() implies {
                &&& is_prefix(
                    old(self).compilers@[i].function.chunk.code@,
                    (#[trigger] self.compilers@[i]).function.chunk.code@,
                )
                &&& is_prefix(
                    old(self).compilers@[i].function.chunk.constants@,
                    self.compilers@[i].function.chunk.constants@,
                )
            } by {
                lemma_prefix_refl(self.compilers@[i].function.chunk.code@);
                lemma_prefix_refl(self.compilers@[i].function.chunk.constants@);
            }
        }
    }

    /// Whether the token being looked at is of kind `t`.
    pub fn check(&self, t: TokenType) -> (same: bool)
        ensures
            same == (self.current.t_type == t),
    {
        reveal(Parser::wf);
        reveal(Parser::follows);
        self.current.t_type == t
    }

    /// Moves past the token being looked at when it is of kind `t`, and says
    /// whether it did.
    pub fn match_token(&mut self, token_type: TokenType) -> (matched: bool)
        requires
            old(self).wf(),
        ensures
            final(self).follows(old(self)),
            final(self).compilers == old(self).compilers,
            matched == (old(self).current.t_type == token_type),
            matched ==> final(self).previous == old(self).current,
            matched && token_type != TokenType::Eof ==> final(self).left() < old(self).left(),
            !matched ==> *final(self) == *old(self),
            (final(self)@, matched) == old(self)@.match_token(token_type),
    {
        reveal(Parser::wf);
        reveal(Parser::follows);
        reveal(ParserModel::match_token);
        if !self.check(token_type) {
            proof {
                lemma_prefix_refl(self.errors@);
                self.lemma_follows_frame(old(self));
            }
            return false;
        }
        self.next_valid_token();
        true
    }

    /// Moves past the token being looked at when it is of the expected kind,
    /// and reports `msg` otherwise.
    pub fn consume(&mut self, expected_type: TokenType, msg: &'static str)
        requires
            old(self).wf(),
        ensures
            final(self).follows(old(self)),
            final(self).compilers == old(self).compilers,
            old(self).current.t_type == expected_type ==> final(self).previous == old(self).current,
            old(self).current.t_type != expected_type ==> final(self).same_but_errors(old(self))
                && final(self).had_error,
            final(self)@ == old(self)@.consume(expected_type, msg@),
    {
        reveal(Parser::wf);
        reveal(Parser::follows);
        reveal(ParserModel::consume);
        if self.current.t_type == expected_type {
            self.next_valid_token();
            return;
        }
        self.error_at_current(msg);
    }

    /// Leaves panic mode and skips to the next statement boundary: behind a
    /// semicolon, or before a keyword that starts a statement.
    fn synchronize(&mut self)
        requires
            old(self).wf(),
        ensures
            final(self).follows(old(self)),
            final(self).compilers == old(self).compilers,
            !final(self).panic_mode,
            final(self)@ == old(self)@.synchronize(),
    {
        reveal(Parser::wf);
        reveal(Parser::left);
        reveal(ParserModel::left);
        reveal(Parser::advances);
        reveal(Parser::follows);
        reveal(Parser::keeps_pools);
        reveal(ParserModel::synchronize);
        reveal(ParserModel::skip_to_boundary);
        self.panic_mode = false;
        let ghost begun = self@;
        proof {
            lemma_prefix_refl(self.errors@);
            self.lemma_follows_frame(old(self));
            self.lemma_view_errors(old(self));
        }
        while self.current.t_type != TokenType::Eof
            invariant
                self.follows(old(self)),
                self.compilers == old(self).compilers,
                !self.panic_mode,
                self@.skip_to_boundary() == begun.skip_to_boundary(),
                begun == (ParserModel { panic_mode: false, ..old(self)@ }),
            decreases self.left(),
        {
            reveal(Parser::wf);
            reveal(Parser::left);
            reveal(ParserModel::left);
            reveal(Parser::advances);
            reveal(Parser::follows);
            reveal(Parser::keeps_pools);
            reveal(ParserModel::synchronize);
            reveal(ParserModel::skip_to_boundary);
            if self.previous.t_type == TokenType::Semicolon {
                proof {
                    assert(self@.skip_to_boundary() == self@);
                }
                return;
            }
            match self.current.t_type {
                TokenType::Class | TokenType::Fun | TokenType::Var | TokenType::For | TokenType::If
                | TokenType::While | TokenType::Print | TokenType::Return => {
                    proof {
                        assert(self@.skip_to_boundary() == self@);
                    }
                    return;
                },
                _ => {},
            }
            let ghost mid = *self;
            self.next_valid_token();
            proof {
                self.lemma_follows_trans(&mid, old(self));
            }
            let ghost moved = *self;
            if self.panic_mode {
                self.panic_mode = false;
            }
            proof {
                self.lemma_view_errors(&moved);
                assert(self@ == (ParserModel { panic_mode: false, ..mid@.advance() }));
            }
        }
        proof {
            assert(self@.skip_to_boundary() == self@);
        }
    }

    /// What following gives at once: the parser is sound, has not gone back
    /// in the source, compiles the same nest of functions at the same scope
    /// depth, and has not lost code.
    pub proof fn lemma_follows_basics(&self, before: &Self)
        requires
            self.follows(before),
        ensures
            self.wf(),
            self.left() <= before.left(),
            self.compilers@.len() == before.compilers@.len(),
            before.code().len() <= self.code().len(),
            self.top().scope_depth == before.top().scope_depth,
            is_prefix(before.code(), self.code()),
            self@.within(before@),
            self.left() == self@.left(),
            self.left() >= 0,
    {
        reveal(Parser::wf);
        reveal(Parser::left);
        reveal(ParserModel::left);
        reveal(Parser::advances);
        reveal(Parser::follows);
    }

    /// A sound parser compiles at least one function, and its tokens lie in
    /// the source.
    pub proof fn lemma_wf_basics(&self)
        requires
            self.wf(),
        ensures
            self.scanner.wf(),
            self.compilers@.len() >= 1,
            self.current.within(self.source().len() as int),
            self.previous.within(self.source().len() as int),
            self.left() == self@.left(),
            self.left() >= 0,
    {
        reveal(Parser::wf);
        reveal(Parser::left);
        reveal(ParserModel::left);
    }

    /// Following is transitive.
    pub proof fn lemma_follows_trans(&self, mid: &Self, before: &Self)
        requires
            self.follows(mid),
            mid.follows(before),
        ensures
            self.follows(before),
    {
        reveal(Parser::wf);
        reveal(Parser::advances);
        reveal(Parser::follows);
        self.lemma_advances_trans(mid, before);
        assert forall|i: int| 0 <= i < self.compilers@.len() implies is_prefix(
            before.compilers@[i].function.chunk.code@,
            (#[trigger] self.compilers@[i]).function.chunk.code@,
        ) by {
            let a = before.compilers@[i].function.chunk.code@;
            let b = mid.compilers@[i].function.chunk.code@;
            let c = self.compilers@[i].function.chunk.code@;
            assert(is_prefix(a, b));
            assert(is_prefix(b, c));
            assert(c.take(a.len() as int) =~= b.take(a.len() as int));
        }
    }
}

impl<'a> Parser<'a> {
    /// The instruction can be appended to the function being compiled: when
    /// it is a jump it lands in the code or just behind it, and its operand
    /// is in range.
    pub open spec fn admits(&self, op: OpCode) -> bool {
        &&& lands(op, self.code().len() as int, self.code().len() as int + 1)
        &&& operand_ok(
            op,
            self.top().function.chunk.constants@,
            self.top().function.upvalues@.len() as int,
        )
    }

    /// When only the function being compiled differs from `before`, the view
    /// is the view of `before` with the view of that function.
    pub proof fn lemma_view_top(&self, before: &Self)
        requires
            before.compilers@.len() >= 1,
            self.scanner == before.scanner,
            self.current == before.current,
            self.previous == before.previous,
            self.had_error == before.had_error,
            self.panic_mode == before.panic_mode,
            self.errors == before.errors,
            self.compilers@.len() == before.compilers@.len(),
            forall|i: int|
                0 <= i < self.compilers@.len() - 1 ==> #[trigger] self.compilers@[i]
                    == before.compilers@[i],
        ensures
            self@ == before@.with_top(self.top()@),
    {
        reveal(Parser::wf);
        reveal(Parser::follows);
        assert(self@.compilers =~= before@.compilers.update(
            before@.compilers.len() - 1,
            self.top()@,
        ));
    }

    /// The number of instructions of the function being compiled.
    pub fn code_len(&self) -> (n: usize)
        requires
            self.compilers@.len() >= 1,
        ensures
            n == self.code().len(),
    {
        reveal(Parser::wf);
        reveal(Parser::follows);
        self.compilers[self.compilers.len() - 1].function.chunk.code.len()
    }

    /// A change of the chunk of the function being compiled that keeps the
    /// invariant of the function and only adds constants is an advance of
    /// the parser.
    pub proof fn lemma_advances_chunk(&self, before: &Self)
        requires
            before.wf(),
            self.same_but_chunk(before),
            self.top().wf(self.source().len() as int),
            is_prefix(before.top().function.chunk.constants@, self.top().function.chunk.constants@),
        ensures
            self.advances(before),
            is_prefix(before.code(), self.code()) ==> self.follows(before),
    {
        reveal(Parser::wf);
        reveal(Parser::left);
        reveal(Parser::advances);
        reveal(Parser::follows);
        reveal(Parser::keeps_pools);
        lemma_prefix_refl(self.errors@);
        assert forall|i: int| 0 <= i < self.compilers@.len() implies {
            &&& (#[trigger] self.compilers@[i]).wf(self.source().len() as int)
            &&& is_prefix(
                before.compilers@[i].function.chunk.constants@,
                self.compilers@[i].function.chunk.constants@,
            )
        } by {
            if i < self.compilers@.len() - 1 {
                assert(before.compilers@[i].wf(self.source().len() as int));
                lemma_prefix_refl(self.compilers@[i].function.chunk.constants@);
            }
        }
        if is_prefix(before.code(), self.code()) {
            assert forall|i: int| 0 <= i < self.compilers@.len() implies is_prefix(
                before.compilers@[i].function.chunk.code@,
                (#[trigger] self.compilers@[i]).function.chunk.code@,
            ) by {
                if i < self.compilers@.len() - 1 {
                    lemma_prefix_refl(self.compilers@[i].function.chunk.code@);
                }
            }
        }
    }

    /// Advancing is transitive.
    pub proof fn lemma_advances_trans(&self, mid: &Self, before: &Self)
        requires
            self.advances(mid),
            mid.advances(before),
        ensures
            self.advances(before),
    {
        reveal(Parser::wf);
        reveal(Parser::advances);
        reveal(Parser::follows);
        reveal(Parser::keeps_pools);
        assert(self.errors@.take(before.errors@.len() as int) =~= mid.errors@.take(
            before.errors@.len() as int,
        ));
        assert forall|i: int| 0 <= i < self.compilers@.len() implies is_prefix(
            before.compilers@[i].function.chunk.constants@,
            (#[trigger] self.compilers@[i]).function.chunk.constants@,
        ) by {
            let a = before.compilers@[i].function.chunk.constants@;
            let b = mid.compilers@[i].function.chunk.constants@;
            let c = self.compilers@[i].function.chunk.constants@;
            assert(is_prefix(a, b));
            assert(is_prefix(b, c));
            assert(c.take(a.len() as int) =~= b.take(a.len() as int));
        }
    }

    /// Appends an instruction, with the line of the token before the one
    /// being looked at. A jump must land in the code or just behind it.
    fn emit_byte(&mut self, code: OpCode)
        requires
            old(self).wf(),
            old(self).admits(code),
        ensures
            final(self).follows(old(self)),
            final(self).same_but_chunk(old(self)),
            final(self).code() == old(self).code().push(code),
            final(self).top().function.chunk.lines@ == old(self).top().function.chunk.lines@.push(
                old(self).previous.line,
            ),
            final(self).top().function.chunk.constants == old(self).top().function.chunk.constants,
            final(self)@ == old(self)@.emit(code),
    {
        reveal(Parser::wf);
        reveal(Parser::follows);
        reveal(ParserModel::emit);
        let n = self.compilers.len();
        let line = self.previous.line;
        self.compilers[n - 1].function.chunk.write_to_chunk(code, line);
        proof {
            self.lemma_view_top(old(self));
            assert(self.top()@.function.constants =~= old(self).top()@.function.constants);
            assert(self.code().take(old(self).code().len() as int) =~= old(self).code());
            assert(old(self).compilers@[n - 1].wf(self.source().len() as int));
            lemma_prefix_refl(self.top().function.chunk.constants@);
            self.lemma_advances_chunk(old(self));
        }
    }

    /// Appends two instructions, neither of them a jump.
    fn emit_two_bytes(&mut self, code1: OpCode, code2: OpCode)
        requires
            old(self).wf(),
            crate::chunk::jump_target(code1, 0) is None,
            crate::chunk::jump_target(code2, 0) is None,
            code1.spec_operand() is None,
            code2.spec_operand() is None,
        ensures
            final(self).follows(old(self)),
            final(self).same_but_chunk(old(self)),
            final(self).code() == old(self).code().push(code1).push(code2),
            final(self).top().function.chunk.constants == old(self).top().function.chunk.constants,
            final(self)@ == old(self)@.emit(code1).emit(code2),
    {
        reveal(Parser::wf);
        reveal(Parser::follows);
        self.emit_byte(code1);
        let ghost mid = *self;
        self.emit_byte(code2);
        proof {
            self.lemma_follows_trans(&mid, old(self));
        }
    }

    /// Appends `Nil` and `Return`.
    fn emit_return(&mut self)
        requires
            old(self).wf(),
        ensures
            final(self).follows(old(self)),
            final(self).same_but_chunk(old(self)),
            final(self).code() == old(self).code().push(OpCode::Nil).push(OpCode::Return),
            final(self).top().function.chunk.constants == old(self).top().function.chunk.constants,
            final(self)@ == old(self)@.emit_return(),
    {
        reveal(Parser::wf);
        reveal(Parser::follows);
        reveal(ParserModel::emit_return);
        self.emit_two_bytes(OpCode::Nil, OpCode::Return);
    }

    /// Appends a constant to the pool of the function being compiled and
    /// returns its index.
    fn make_constant(&mut self, value: Constant) -> (index: usize)
        requires
            old(self).wf(),
            value matches Constant::Function(f) ==> f.sound(),
        ensures
            final(self).follows(old(self)),
            final(self).same_but_chunk(old(self)),
            final(self).code() == old(self).code(),
            index == old(self).top().function.chunk.constants@.len(),
            final(self).top().function.chunk.constants@ == old(self).top().function.chunk.constants@.push(value),
            final(self)@ == old(self)@.add_constant(constant_model(value)),
            index == old(self)@.next_constant(),
    {
        reveal(Parser::wf);
        reveal(Parser::follows);
        reveal(ParserModel::add_constant);
        let n = self.compilers.len();
        let index = self.compilers[n - 1].function.chunk.push_constant(value);
        proof {
            self.lemma_view_top(old(self));
            assert(self.top()@.function.constants =~= old(self).top()@.function.constants.push(
                constant_model(value),
            ));
            lemma_prefix_refl(self.code());
            let length = self.source().len() as int;
            let was = old(self).compilers@[n - 1];
            let now = self.compilers@[n - 1];
            assert(was.wf(length));
            assert(now.function.chunk.constants@.take(was.function.chunk.constants@.len() as int)
                =~= was.function.chunk.constants@);
            assert forall|i: int| 0 <= i < now.function.chunk.code@.len() implies operand_ok(
                #[trigger] now.function.chunk.code@[i],
                now.function.chunk.constants@,
                now.function.upvalues@.len() as int,
            ) by {
                lemma_operand_ok_grows(
                    now.function.chunk.code@[i],
                    was.function.chunk.constants@,
                    was.function.upvalues@.len() as int,
                    now.function.chunk.constants@,
                    now.function.upvalues@.len() as int,
                );
            }
            assert(nested_sound(now.function.chunk.constants@)) by {
                assert forall|k: int| 0 <= k < now.function.chunk.constants@.len() implies match #[trigger] now.function.chunk.constants@[k] {
                    Constant::Function(f) => f.sound(),
                    _ => true,
                } by {
                    if k < was.function.chunk.constants@.len() {
                        assert(now.function.chunk.constants@[k] == was.function.chunk.constants@[k]);
                    }
                }
            }
            self.lemma_advances_chunk(old(self));
        }
        index
    }

    /// Appends a constant and the instruction that loads it.
    fn emit_constant(&mut self, value: Constant)
        requires
            old(self).wf(),
            !(value is Function),
        ensures
            final(self).follows(old(self)),
            final(self).same_but_chunk(old(self)),
            final(self).code() == old(self).code().push(
                OpCode::Constant(old(self).top().function.chunk.constants@.len() as usize),
            ),
            final(self).top().function.chunk.constants@ == old(self).top().function.chunk.constants@.push(value),
            final(self)@ == old(self)@.emit_constant(constant_model(value)),
    {
        reveal(Parser::wf);
        reveal(Parser::advances);
        reveal(Parser::follows);
        reveal(ParserModel::emit_constant);
        let index = self.make_constant(value);
        let ghost mid = *self;
        self.emit_byte(OpCode::Constant(index));
        proof {
            self.lemma_follows_trans(&mid, old(self));
        }
    }

    /// Appends a function constant and the instruction that makes a closure
    /// of it.
    fn emit_closure(&mut self, value: Constant)
        requires
            old(self).wf(),
            value matches Constant::Function(f) && f.sound(),
        ensures
            final(self).follows(old(self)),
            final(self).same_but_chunk(old(self)),
            final(self).code() == old(self).code().push(
                OpCode::Closure(old(self).top().function.chunk.constants@.len() as usize),
            ),
            final(self).top().function.chunk.constants@ == old(self).top().function.chunk.constants@.push(value),
            final(self)@ == old(self)@.emit_closure(constant_model(value)),
    {
        reveal(Parser::wf);
        reveal(Parser::advances);
        reveal(Parser::follows);
        reveal(ParserModel::emit_closure);
        let index = self.make_constant(value);
        let ghost mid = *self;
        self.emit_byte(OpCode::Closure(index));
        proof {
            self.lemma_follows_trans(&mid, old(self));
        }
    }

    /// Appends a forward jump whose offset is still to come, and returns its
    /// index. `code` is `Jump(0)` or `JumpIfFalse(0)`.
    fn emit_jump(&mut self, code: OpCode) -> (at: usize)
        requires
            old(self).wf(),
            code == OpCode::Jump(0) || code == OpCode::JumpIfFalse(0),
        ensures
            final(self).follows(old(self)),
            final(self).same_but_chunk(old(self)),
            final(self).code() == old(self).code().push(code),
            final(self).top().function.chunk.constants == old(self).top().function.chunk.constants,
            at == old(self).code().len(),
            final(self)@ == old(self)@.emit(code),
            at == old(self)@.next_code(),
    {
        reveal(Parser::wf);
        reveal(Parser::follows);
        self.emit_byte(code);
        self.code_len() - 1
    }

    /// Gives the jump at `offset` its target, the instruction that is emitted
    /// next, and makes it conditional or not. A jump over more than 65535
    /// instructions is reported.
    fn patch(&mut self, offset: usize, conditional: bool)
        requires
            old(self).wf(),
            offset < old(self).code().len(),
        ensures
            final(self).follows_but(old(self), offset as int),
            final(self)@ == old(self)@.patch(offset, conditional),
            final(self).advances(old(self)),
            final(self).scanner == old(self).scanner,
            final(self).current == old(self).current,
            final(self).previous == old(self).previous,
            forall|i: int|
                0 <= i < final(self).compilers@.len() - 1 ==> #[trigger] final(self).compilers@[i]
                    == old(self).compilers@[i],
            final(self).top().locals == old(self).top().locals,
            final(self).top().function.upvalues == old(self).top().function.upvalues,
            final(self).top().function.arity == old(self).top().function.arity,
            final(self).top().function.name == old(self).top().function.name,
            final(self).top().function.chunk.constants == old(self).top().function.chunk.constants,
            final(self).code() == old(self).code().update(
                offset as int,
                if conditional {
                    OpCode::JumpIfFalse(spec_jump_offset(old(self).code().len() - offset - 1))
                } else {
                    OpCode::Jump(spec_jump_offset(old(self).code().len() - offset - 1))
                },
            ),
            old(self).code().len() - offset - 1 > u16::MAX ==> final(self).had_error,
            old(self).code().len() - offset - 1 <= u16::MAX ==> final(self).errors == old(self).errors,
    {
        reveal(Parser::wf);
        reveal(Parser::follows);
        reveal(Parser::follows_but);
        reveal(ParserModel::patch);
        let distance = self.code_len() - offset - 1;
        let jump: u16 = if distance > 65535 {
            65535
        } else {
            distance as u16
        };
        let n = self.compilers.len();
        let code = if conditional {
            OpCode::JumpIfFalse(jump)
        } else {
            OpCode::Jump(jump)
        };
        self.compilers[n - 1].function.chunk.patch(offset, code);
        proof {
            assert(old(self).compilers@[n - 1].wf(self.source().len() as int));
            lemma_prefix_refl(self.top().function.chunk.constants@);
            self.lemma_advances_chunk(old(self));
            self.lemma_view_top(old(self));
            assert(self.top()@.function.constants =~= old(self).top()@.function.constants);
            assert forall|i: int| 0 <= i < self.compilers@.len() - 1 implies is_prefix(
                old(self).compilers@[i].function.chunk.code@,
                (#[trigger] self.compilers@[i]).function.chunk.code@,
            ) by {
                lemma_prefix_refl(self.compilers@[i].function.chunk.code@);
            }
            assert(self.follows_but(old(self), offset as int));
        }
        if distance > 65535 {
            let ghost mid = *self;
            self.error("Too much code to jump over.");
            proof {
                self.lemma_follows_after_patch(&mid, old(self), offset as int);
            }
        }
    }

    /// Gives the jump at `offset` its target, the instruction that is emitted
    /// next.
    fn patch_jump(&mut self, offset: usize)
        requires
            old(self).wf(),
            offset < old(self).code().len(),
        ensures
            final(self).follows_but(old(self), offset as int),
            final(self)@ == old(self)@.patch(offset, false),
            final(self).advances(old(self)),
            final(self).scanner == old(self).scanner,
            final(self).current == old(self).current,
            final(self).previous == old(self).previous,
            forall|i: int|
                0 <= i < final(self).compilers@.len() - 1 ==> #[trigger] final(self).compilers@[i]
                    == old(self).compilers@[i],
            final(self).top().locals == old(self).top().locals,
            final(self).top().function.upvalues == old(self).top().function.upvalues,
            final(self).top().function.arity == old(self).top().function.arity,
            final(self).top().function.name == old(self).top().function.name,
            final(self).top().function.chunk.constants == old(self).top().function.chunk.constants,
            final(self).code() == old(self).code().update(
                offset as int,
                OpCode::Jump(spec_jump_offset(old(self).code().len() - offset - 1)),
            ),
            old(self).code().len() - offset - 1 > u16::MAX ==> final(self).had_error,
            old(self).code().len() - offset - 1 <= u16::MAX ==> final(self).errors == old(self).errors,
    {
        reveal(Parser::wf);
        reveal(Parser::follows);
        self.patch(offset, false);
    }

    /// Gives the conditional jump at `offset` its target, the instruction
    /// that is emitted next.
    fn patch_if_false_jump(&mut self, offset: usize)
        requires
            old(self).wf(),
            offset < old(self).code().len(),
        ensures
            final(self).wf(),
            final(self).follows_but(old(self), offset as int),
            final(self)@ == old(self)@.patch(offset, true),
            final(self).advances(old(self)),
            final(self).scanner == old(self).scanner,
            final(self).current == old(self).current,
            final(self).previous == old(self).previous,
            forall|i: int|
                0 <= i < final(self).compilers@.len() - 1 ==> #[trigger] final(self).compilers@[i]
                    == old(self).compilers@[i],
            final(self).top().locals == old(self).top().locals,
            final(self).top().function.upvalues == old(self).top().function.upvalues,
            final(self).top().function.arity == old(self).top().function.arity,
            final(self).top().function.name == old(self).top().function.name,
            final(self).top().function.chunk.constants == old(self).top().function.chunk.constants,
            final(self).code() == old(self).code().update(
                offset as int,
                OpCode::JumpIfFalse(spec_jump_offset(old(self).code().len() - offset - 1)),
            ),
            old(self).code().len() - offset - 1 > u16::MAX ==> final(self).had_error,
            old(self).code().len() - offset - 1 <= u16::MAX ==> final(self).errors == old(self).errors,
    {
        reveal(Parser::wf);
        reveal(Parser::advances);
        reveal(Parser::follows);
        self.patch(offset, true);
    }

    /// Appends the jump back to the instruction at `loop_start`. A loop of
    /// more than 65535 instructions is reported.
    fn emit_loop(&mut self, loop_start: usize)
        requires
            old(self).wf(),
            loop_start <= old(self).code().len(),
        ensures
            final(self).follows(old(self)),
            final(self).compilers@.len() == old(self).compilers@.len(),
            final(self).scanner == old(self).scanner,
            final(self).current == old(self).current,
            final(self).previous == old(self).previous,
            final(self).top().locals == old(self).top().locals,
            final(self).top().function.chunk.constants == old(self).top().function.chunk.constants,
            final(self).code() == old(self).code().push(
                OpCode::Loop(spec_jump_offset(old(self).code().len() - loop_start)),
            ),
            old(self).code().len() - loop_start > u16::MAX ==> final(self).had_error,
            old(self).code().len() - loop_start <= u16::MAX ==> final(self).errors == old(self).errors,
            final(self)@ == old(self)@.emit_loop(loop_start),
    {
        reveal(Parser::wf);
        reveal(Parser::follows);
        reveal(ParserModel::emit_loop);
        let distance = self.code_len() - loop_start;
        if distance > 65535 {
            self.error("Loop body too large.");
            let ghost mid = *self;
            self.emit_byte(OpCode::Loop(65535));
            proof {
                self.lemma_follows_trans(&mid, old(self));
            }
        } else {
            self.emit_byte(OpCode::Loop(distance as u16));
        }
    }

    /// The parser has opened a scope since `entry` and done nothing else.
    #[verifier::opaque]
    pub open spec fn opened_from(&self, entry: &Self) -> bool {
        &&& entry.wf()
        &&& self.wf()
        &&& self.scanner == entry.scanner
        &&& self.current == entry.current
        &&& self.errors == entry.errors
        &&& self.compilers@.len() == entry.compilers@.len()
        &&& forall|i: int|
            0 <= i < self.compilers@.len() - 1 ==> #[trigger] self.compilers@[i]
                == entry.compilers@[i]
        &&& self.top().function == entry.top().function
        &&& self.top().function_type == entry.top().function_type
        &&& self.top().scope_depth > 0
        &&& self.top().scope_depth - 1 == entry.top().scope_depth
    }

    /// Opens a scope and says whether it did: it does not, and reports so,
    /// only when the depth of the scopes cannot be counted any more.
    pub fn begin_scope(&mut self) -> (opened: bool)
        requires
            old(self).wf(),
        ensures
            final(self).wf(),
            opened == (old(self).top().scope_depth < usize::MAX),
            final(self).scanner == old(self).scanner,
            final(self).current == old(self).current,
            final(self).previous == old(self).previous,
            final(self).compilers@.len() == old(self).compilers@.len(),
            forall|i: int|
                0 <= i < final(self).compilers@.len() - 1 ==> #[trigger] final(self).compilers@[i]
                    == old(self).compilers@[i],
            final(self).top().locals == old(self).top().locals,
            final(self).top().function == old(self).top().function,
            final(self).top().function_type == old(self).top().function_type,
            opened ==> final(self).top().scope_depth == old(self).top().scope_depth + 1
                && final(self).errors == old(self).errors,
            !opened ==> final(self).follows(old(self)) && final(self).had_error,
            is_prefix(old(self).errors@, final(self).errors@),
            (final(self)@, opened) == old(self)@.begin_scope(),
            opened ==> final(self).opened_from(old(self)),
    {
        reveal(Parser::wf);
        reveal(Parser::advances);
        reveal(Parser::follows);
        reveal(ParserModel::begin_scope);
        reveal(Parser::opened_from);
        let n = self.compilers.len();
        if self.compilers[n - 1].scope_depth < usize::MAX {
            self.compilers[n - 1].scope_depth += 1;
            proof {
                self.lemma_view_top(old(self));
                lemma_prefix_refl(self.errors@);
                assert forall|i: int| 0 <= i < self.compilers@.len() implies (
                #[trigger] self.compilers@[i]).wf(self.source().len() as int) by {
                    assert(old(self).compilers@[i].wf(self.source().len() as int));
                }
            }
            true
        } else {
            self.error("Too many nested scopes.");
            false
        }
    }

    /// Closes the innermost scope: the locals that it declared are dropped,
    /// from the last one back, and for each of them `CloseUpvalue` is emitted
    /// when a closure has captured it and `Pop` otherwise.
    pub fn end_scope(&mut self)
        requires
            old(self).wf(),
            old(self).top().scope_depth > 0,
        ensures
            final(self).wf(),
            final(self).scanner == old(self).scanner,
            final(self).current == old(self).current,
            final(self).previous == old(self).previous,
            final(self).errors == old(self).errors,
            final(self).had_error == old(self).had_error,
            final(self).panic_mode == old(self).panic_mode,
            final(self).compilers@.len() == old(self).compilers@.len(),
            forall|i: int|
                0 <= i < final(self).compilers@.len() - 1 ==> #[trigger] final(self).compilers@[i]
                    == old(self).compilers@[i],
            final(self).top().function_type == old(self).top().function_type,
            final(self).top().scope_depth == old(self).top().scope_depth - 1,
            final(self).top().locals@ == old(self).top().locals@.take(
                spec_kept_locals(old(self).top().locals@, final(self).top().scope_depth),
            ),
            final(self).code() == old(self).code() + spec_scope_exit(
                old(self).top().locals@,
                final(self).top().scope_depth,
            ),
            final(self).top().function.chunk.constants == old(self).top().function.chunk.constants,
            final(self).top().function.upvalues == old(self).top().function.upvalues,
            final(self).top().function.arity == old(self).top().function.arity,
            final(self).top().function.name == old(self).top().function.name,
            final(self)@ == old(self)@.end_scope(),
    {
        reveal(Parser::wf);
        reveal(Parser::follows);
        reveal(ParserModel::end_scope);
        let n = self.compilers.len();
        self.compilers[n - 1].scope_depth -= 1;
        let depth = self.compilers[n - 1].scope_depth;
        let ghost length = self.source().len() as int;
        proof {
            assert forall|i: int| 0 <= i < self.compilers@.len() implies (
            #[trigger] self.compilers@[i]).wf(length) by {
                assert(old(self).compilers@[i].wf(length));
            }
            assert(self.code() + spec_scope_exit(self.top().locals@, depth) =~= old(self).code()
                + spec_scope_exit(old(self).top().locals@, depth));
            assert(self.top().locals@.take(self.top().locals@.len() as int) =~= self.top().locals@);
            assert(self.top().function.chunk.lines@ =~= old(self).top().function.chunk.lines@
                + Seq::new(0, |i: int| self.previous.line));
        }
        loop
            invariant
                self.code().len() >= old(self).code().len(),
                self.top().function.chunk.lines@ == old(self).top().function.chunk.lines@ + Seq::new(
                    (self.code().len() - old(self).code().len()) as nat,
                    |i: int| self.previous.line,
                ),
                self.wf(),
                n == self.compilers@.len(),
                length == self.source().len(),
                self.scanner == old(self).scanner,
                self.current == old(self).current,
                self.previous == old(self).previous,
                self.errors == old(self).errors,
                self.had_error == old(self).had_error,
                self.panic_mode == old(self).panic_mode,
                n == old(self).compilers@.len(),
                forall|i: int| 0 <= i < n - 1 ==> #[trigger] self.compilers@[i] == old(self).compilers@[i],
                self.top().function_type == old(self).top().function_type,
                self.top().scope_depth == depth,
                depth == old(self).top().scope_depth - 1,
                self.top().function.chunk.constants == old(self).top().function.chunk.constants,
                self.top().function.upvalues == old(self).top().function.upvalues,
                self.top().function.arity == old(self).top().function.arity,
                self.top().function.name == old(self).top().function.name,
                self.top().locals@.len() <= old(self).top().locals@.len(),
                self.top().locals@ == old(self).top().locals@.take(self.top().locals@.len() as int),
                spec_kept_locals(self.top().locals@, depth) == spec_kept_locals(
                    old(self).top().locals@,
                    depth,
                ),
                self.code() + spec_scope_exit(self.top().locals@, depth) == old(self).code()
                    + spec_scope_exit(old(self).top().locals@, depth),
            ensures
                self.code().len() >= old(self).code().len(),
                self.top().function.chunk.lines@ == old(self).top().function.chunk.lines@ + Seq::new(
                    (self.code().len() - old(self).code().len()) as nat,
                    |i: int| self.previous.line,
                ),
                self.wf(),
                n == self.compilers@.len(),
                self.scanner == old(self).scanner,
                self.current == old(self).current,
                self.previous == old(self).previous,
                self.errors == old(self).errors,
                self.had_error == old(self).had_error,
                self.panic_mode == old(self).panic_mode,
                forall|i: int| 0 <= i < n - 1 ==> #[trigger] self.compilers@[i] == old(self).compilers@[i],
                self.top().function_type == old(self).top().function_type,
                self.top().scope_depth == depth,
                self.top().function.chunk.constants == old(self).top().function.chunk.constants,
                self.top().function.upvalues == old(self).top().function.upvalues,
                self.top().function.arity == old(self).top().function.arity,
                self.top().function.name == old(self).top().function.name,
                self.top().locals@ == old(self).top().locals@.take(
                    spec_kept_locals(old(self).top().locals@, depth),
                ),
                self.code() == old(self).code() + spec_scope_exit(old(self).top().locals@, depth),
            decreases self.top().locals@.len(),
        {
            reveal(Parser::wf);
            reveal(Parser::follows);
            let count = self.compilers[n - 1].locals.len();
            if count == 0 {
                proof {
                    assert(self.code() + Seq::<OpCode>::empty() =~= self.code());
                }
                break;
            }
            let local = self.compilers[n - 1].locals[count - 1];
            let deeper = match local.depth {
                Some(d) => d > depth,
                None => false,
            };
            if !deeper {
                proof {
                    assert(self.code() + Seq::<OpCode>::empty() =~= self.code());
                }
                break;
            }
            let ghost before = *self;
            if local.is_captured {
                self.emit_byte(OpCode::CloseUpvalue);
            } else {
                self.emit_byte(OpCode::Pop);
            }
            let ghost emitted = *self;
            let gone = self.compilers[n - 1].locals.pop();
            proof {
                let op = if local.is_captured {
                    OpCode::CloseUpvalue
                } else {
                    OpCode::Pop
                };
                assert(self.top().locals@ =~= before.top().locals@.drop_last());
                assert(forall|i: int| 0 <= i < n - 1 ==> #[trigger] self.compilers@[i] == emitted.compilers@[i]);
                assert forall|i: int| 0 <= i < self.compilers@.len() implies (
                #[trigger] self.compilers@[i]).wf(length) by {
                    assert(emitted.compilers@[i].wf(length));
                    if i == n - 1 {
                        assert forall|k: int| 0 <= k < self.compilers@[i].locals@.len() implies (
                        #[trigger] self.compilers@[i].locals@[k]).name.within(length) by {
                            assert(emitted.compilers@[i].locals@[k].name.within(length));
                        }
                    }
                }
                assert(self.top().locals@ =~= old(self).top().locals@.take(
                    self.top().locals@.len() as int,
                ));
                assert(before.code().push(op) + spec_scope_exit(self.top().locals@, depth)
                    =~= before.code() + (seq![op] + spec_scope_exit(self.top().locals@, depth)));
                assert(self.top().function.chunk.lines@ =~= old(self).top().function.chunk.lines@
                    + Seq::new(
                    (self.code().len() - old(self).code().len()) as nat,
                    |i: int| self.previous.line,
                ));
            }
        }
        proof {
            self.lemma_view_top(old(self));
            assert(self.top()@.function.constants =~= old(self).top()@.function.constants);
            let exit = spec_scope_exit(old(self).top().locals@, depth);
            assert(self.top()@.function.lines =~= old(self).top()@.function.lines + Seq::new(
                exit.len(),
                |i: int| old(self).previous.line,
            ));
        }
    }

    /// Closes the scope that was opened in `entry`, giving `scoped`, and out
    /// of which the parser has come to where it is.
    fn end_scope_after(&mut self, Ghost(scoped): Ghost<Self>, Ghost(entry): Ghost<Self>)
        requires
            old(self).follows(&scoped),
            scoped.opened_from(&entry),
        ensures
            final(self).follows(&entry),
            final(self)@ == old(self)@.end_scope(),
    {
        reveal(Parser::wf);
        reveal(Parser::advances);
        reveal(Parser::follows);
        reveal(Parser::opened_from);
        let ghost closing = *self;
        self.end_scope();
        proof {
            assert(self.code().take(closing.code().len() as int) =~= closing.code());
            self.lemma_scope_closed(&closing, &scoped, &entry);
        }
    }

    /// The index of the constant that holds the lexeme of the token before
    /// the one being looked at; the constant is appended to the pool.
    fn identifier_constant(&mut self) -> (index: usize)
        requires
            old(self).wf(),
        ensures
            final(self).follows(old(self)),
            final(self).same_but_chunk(old(self)),
            final(self).code() == old(self).code(),
            index == old(self).top().function.chunk.constants@.len(),
            final(self).top().function.chunk.constants@.len() == index + 1,
            final(self).top().function.chunk.constants@.take(index as int) == old(self).top().function.chunk.constants@,
            final(self).top().function.chunk.constants@[index as int] matches Constant::Text(text)
                && text@ == old(self).previous.lexeme(old(self).source()),
            final(self)@ == old(self)@.identifier_constant(),
            index == old(self)@.next_constant(),
    {
        reveal(Parser::wf);
        reveal(Parser::follows);
        reveal(ParserModel::identifier_constant);
        let length = self.scanner.bytes.len();
        let identifier = convert_slice_to_string(
            self.scanner.bytes,
            self.previous.start,
            self.previous.start + self.previous.length,
        );
        let ghost pool = self.top().function.chunk.constants@;
        let index = self.make_constant(Constant::Text(identifier));
        proof {
            assert(self.top().function.chunk.constants@.take(index as int) =~= pool);
        }
        index
    }

    /// Adds a local variable named by `name`, not yet initialized. More than
    /// 256 locals are reported.
    pub fn add_local(&mut self, name: Token)
        requires
            old(self).wf(),
            name.within(old(self).source().len() as int),
        ensures
            final(self).follows(old(self)),
            final(self).scanner == old(self).scanner,
            final(self).current == old(self).current,
            final(self).previous == old(self).previous,
            forall|i: int|
                0 <= i < final(self).compilers@.len() - 1 ==> #[trigger] final(self).compilers@[i]
                    == old(self).compilers@[i],
            final(self).top().function == old(self).top().function,
            if old(self).top().locals@.len() >= MAX_LOCALS {
                &&& final(self).top().locals == old(self).top().locals
                &&& final(self).had_error
                &&& final(self).errors@ == if old(self).panic_mode {
                    old(self).errors@
                } else {
                    old(self).errors@.push(
                        CompileError {
                            line: old(self).previous.line,
                            place: spec_place(old(self).previous),
                            message: "Too many local variables in function",
                        },
                    )
                }
            } else {
                &&& final(self).top().locals@ == old(self).top().locals@.push(
                    Local { name, depth: None, is_captured: false },
                )
                &&& final(self).errors == old(self).errors
                &&& final(self).had_error == old(self).had_error
                &&& final(self).panic_mode == old(self).panic_mode
            },
            final(self)@ == old(self)@.add_local(name),
    {
        reveal(Parser::wf);
        reveal(Parser::left);
        reveal(Parser::advances);
        reveal(Parser::follows);
        reveal(Parser::keeps_pools);
        reveal(ParserModel::add_local);
        let n = self.compilers.len();
        if self.compilers[n - 1].locals.len() >= MAX_LOCALS {
            self.error("Too many local variables in function");
            return;
        }
        self.compilers[n - 1].locals.push(Local { name, depth: None, is_captured: false });
        proof {
            self.lemma_view_top(old(self));
            let length = self.source().len() as int;
            lemma_prefix_refl(self.errors@);
            assert forall|i: int| 0 <= i < self.compilers@.len() implies {
                &&& (#[trigger] self.compilers@[i]).wf(length)
                &&& is_prefix(
                    old(self).compilers@[i].function.chunk.code@,
                    self.compilers@[i].function.chunk.code@,
                )
                &&& is_prefix(
                    old(self).compilers@[i].function.chunk.constants@,
                    self.compilers@[i].function.chunk.constants@,
                )
            } by {
                assert(old(self).compilers@[i].wf(length));
                lemma_prefix_refl(self.compilers@[i].function.chunk.code@);
                lemma_prefix_refl(self.compilers@[i].function.chunk.constants@);
                if i == n - 1 {
                    assert forall|k: int| 0 <= k < self.compilers@[i].locals@.len() implies (
                    #[trigger] self.compilers@[i].locals@[k]).name.within(length) by {
                        if k < old(self).compilers@[i].locals@.len() {
                            assert(old(self).compilers@[i].locals@[k].name.within(length));
                        }
                    }
                }
            }
        }
    }

    /// Marks the local declared last as initialized, in a scope; at the top
    /// level there is nothing to mark.
    pub fn mark_initialized(&mut self)
        requires
            old(self).wf(),
        ensures
            final(self).follows(old(self)),
            final(self).scanner == old(self).scanner,
            final(self).current == old(self).current,
            final(self).previous == old(self).previous,
            final(self).errors == old(self).errors,
            final(self).had_error == old(self).had_error,
            final(self).panic_mode == old(self).panic_mode,
            forall|i: int|
                0 <= i < final(self).compilers@.len() - 1 ==> #[trigger] final(self).compilers@[i]
                    == old(self).compilers@[i],
            final(self).top().function == old(self).top().function,
            final(self).top().locals@ == if old(self).top().scope_depth > 0 && old(self).top().locals@.len() > 0 {
                old(self).top().locals@.update(
                    old(self).top().locals@.len() - 1,
                    Local { depth: Some(old(self).top().scope_depth), ..old(self).top().locals@.last() },
                )
            } else {
                old(self).top().locals@
            },
            final(self)@ == old(self)@.mark_initialized(),
    {
        reveal(Parser::wf);
        reveal(Parser::left);
        reveal(Parser::advances);
        reveal(Parser::follows);
        reveal(Parser::keeps_pools);
        reveal(ParserModel::mark_initialized);
        let n = self.compilers.len();
        let depth = self.compilers[n - 1].scope_depth;
        let count = self.compilers[n - 1].locals.len();
        if depth > 0 && count > 0 {
            self.compilers[n - 1].locals[count - 1].depth = Some(depth);
        }
        proof {
            self.lemma_view_top(old(self));
            if depth > 0 && count > 0 {
                assert(self.top().locals@ =~= old(self).top().locals@.update(
                    count - 1,
                    Local { depth: Some(depth), ..old(self).top().locals@.last() },
                ));
            } else {
                assert(self@.compilers =~= old(self)@.compilers);
            }
            let length = self.source().len() as int;
            lemma_prefix_refl(self.errors@);
            assert forall|i: int| 0 <= i < self.compilers@.len() implies {
                &&& (#[trigger] self.compilers@[i]).wf(length)
                &&& is_prefix(
                    old(self).compilers@[i].function.chunk.code@,
                    self.compilers@[i].function.chunk.code@,
                )
                &&& is_prefix(
                    old(self).compilers@[i].function.chunk.constants@,
                    self.compilers@[i].function.chunk.constants@,
                )
            } by {
                assert(old(self).compilers@[i].wf(length));
                lemma_prefix_refl(self.compilers@[i].function.chunk.code@);
                lemma_prefix_refl(self.compilers@[i].function.chunk.constants@);
                if i == n - 1 {
                    assert forall|k: int| 0 <= k < self.compilers@[i].locals@.len() implies (
                    #[trigger] self.compilers@[i].locals@[k]).name.within(length) by {
                        assert(old(self).compilers@[i].locals@[k].name.within(length));
                    }
                }
            }
            if depth > 0 && count > 0 {
                assert(self.top().locals@ =~= old(self).top().locals@.update(
                    count - 1,
                    Local { depth: Some(depth), ..old(self).top().locals@.last() },
                ));
            }
        }
    }
}

/// After `Nil` and `Return` were appended, every jump lands on an
/// instruction.
proof fn lemma_sealed(before: Seq<OpCode>, after: Seq<OpCode>)
    requires
        jumps_within(before, before.len() as int),
        after == before.push(OpCode::Nil).push(OpCode::Return),
    ensures
        jumps_within(after, after.len() - 1),
{
    assert forall|i: int| 0 <= i < after.len() implies match crate::chunk::jump_target(
        #[trigger] after[i],
        i,
    ) {
        Some(t) => 0 <= t <= after.len() - 1,
        None => true,
    } by {
        if i < before.len() {
            assert(after[i] == before[i]);
        }
    }
}

impl<'a> Parser<'a> {
    /// The bytes of `token`.
    fn lexeme(&self, token: Token) -> (bytes: Vec<u8>)
        requires
            self.scanner.wf(),
            token.within(self.source().len() as int),
        ensures
            bytes@ == token.lexeme(self.source()),
    {
        reveal(Parser::wf);
        reveal(Parser::follows);
        let length = self.scanner.bytes.len();
        convert_slice_to_string(self.scanner.bytes, token.start, token.start + token.length)
    }

    /// The index of upvalue `(index, is_local)` of the function at `level`,
    /// to which it is added when it is new. More than 256 upvalues are
    /// reported.
    fn add_upvalue_at(&mut self, level: usize, index: usize, is_local: bool) -> (at: usize)
        requires
            old(self).wf(),
            1 <= level < old(self).compilers@.len(),
        ensures
            final(self).follows(old(self)),
            final(self).scanner == old(self).scanner,
            final(self).current == old(self).current,
            final(self).previous == old(self).previous,
            forall|i: int|
                0 <= i < final(self).compilers@.len() ==> (#[trigger] final(self).compilers@[i]).locals
                    == old(self).compilers@[i].locals && final(self).compilers@[i].function.chunk
                    == old(self).compilers@[i].function.chunk && final(self).compilers@[i].function.arity == old(self).compilers@[i].function.arity,
            at < final(self).compilers@[level as int].function.upvalues@.len() || final(self).had_error,
            at < MAX_UPVALUES,
            (final(self)@, at) == old(self)@.add_upvalue_at(level, index, is_local),
    {
        reveal(Parser::wf);
        reveal(Parser::left);
        reveal(Parser::advances);
        reveal(Parser::follows);
        reveal(Parser::keeps_pools);
        reveal(ParserModel::add_upvalue_at);
        let ghost length = self.source().len() as int;
        proof {
            assert(old(self).compilers@[level as int].wf(length));
        }
        let added = self.compilers[level].add_upvalue(index, is_local);
        proof {
            assert(self@.compilers =~= old(self)@.compilers.update(
                level as int,
                self.compilers@[level as int]@,
            ));
            assert(self@ == old(self)@.with_level(level as int, self.compilers@[level as int]@));
            lemma_prefix_refl(self.errors@);
            assert forall|i: int| 0 <= i < self.compilers@.len() implies {
                &&& (#[trigger] self.compilers@[i]).wf(length)
                &&& is_prefix(
                    old(self).compilers@[i].function.chunk.code@,
                    self.compilers@[i].function.chunk.code@,
                )
                &&& is_prefix(
                    old(self).compilers@[i].function.chunk.constants@,
                    self.compilers@[i].function.chunk.constants@,
                )
            } by {
                assert(old(self).compilers@[i].wf(length));
                lemma_prefix_refl(self.compilers@[i].function.chunk.code@);
                lemma_prefix_refl(self.compilers@[i].function.chunk.constants@);
            }
        }
        match added {
            Some(at) => at,
            None => {
                let ghost mid = *self;
                self.error("Too many closure variables in function.");
                proof {
                    self.lemma_follows_trans(&mid, old(self));
                }
                0
            },
        }
    }

    /// Looks for the variable `name` in the functions that enclose the one
    /// at `level`, nearest first. When one of them has it as a local, that
    /// local is marked as captured, and every function from there up to the
    /// one at `level` gets an upvalue that leads to it. Returns the index of
    /// the upvalue in the function at `level`.
    fn resolve_upvalue(&mut self, level: usize, name: Token) -> (found: Option<usize>)
        requires
            old(self).wf(),
            level < old(self).compilers@.len(),
            name.within(old(self).source().len() as int),
        ensures
            final(self).follows(old(self)),
            final(self).scanner == old(self).scanner,
            final(self).current == old(self).current,
            final(self).previous == old(self).previous,
            forall|i: int|
                0 <= i < final(self).compilers@.len() ==> (#[trigger] final(self).compilers@[i]).locals@.len()
                    == old(self).compilers@[i].locals@.len() && final(self).compilers@[i].function.chunk == old(self).compilers@[i].function.chunk && final(self).compilers@[i].function.arity == old(self).compilers@[i].function.arity,
            found is Some ==> found.unwrap() < final(self).compilers@[level as int].function.upvalues@.len()
                || final(self).had_error,
            found is Some ==> found.unwrap() < MAX_UPVALUES,
            level == 0 ==> found is None,
            (final(self)@, found) == old(self)@.resolve_upvalue(level, name),
        decreases level,
    {
        reveal(Parser::wf);
        reveal(Parser::left);
        reveal(Parser::advances);
        reveal(Parser::follows);
        reveal(Parser::keeps_pools);
        reveal(ParserModel::resolve_upvalue);
        if level == 0 {
            proof {
                lemma_prefix_refl(self.errors@);
                self.lemma_follows_frame(old(self));
            }
            return None;
        }
        let ghost length = self.source().len() as int;
        proof {
            assert(self.compilers@[level - 1].wf(length));
        }
        let local = self.compilers[level - 1].resolve_local(self.scanner.bytes, &name);
        match local {
            Some(index) => {
                self.compilers[level - 1].locals[index].is_captured = true;
                proof {
                    let outer = old(self)@.compilers[level - 1];
                    assert(self.compilers@[level - 1].locals@ =~= outer.locals.update(
                        index as int,
                        Local { is_captured: true, ..outer.locals[index as int] },
                    ));
                    assert(self.compilers@[level - 1]@.function.constants
                        =~= outer.function.constants);
                    assert(self@.compilers =~= old(self)@.compilers.update(
                        level - 1,
                        self.compilers@[level - 1]@,
                    ));
                    lemma_prefix_refl(self.errors@);
                    assert forall|i: int| 0 <= i < self.compilers@.len() implies (
                    #[trigger] self.compilers@[i]).wf(length) by {
                        assert(old(self).compilers@[i].wf(length));
                        if i == level - 1 {
                            assert forall|k: int|
                                0 <= k < self.compilers@[i].locals@.len() implies (
                            #[trigger] self.compilers@[i].locals@[k]).name.within(length) by {
                                assert(old(self).compilers@[i].locals@[k].name.within(length));
                            }
                        }
                    }
                    assert forall|i: int| 0 <= i < self.compilers@.len() implies {
                        &&& is_prefix(
                            old(self).compilers@[i].function.chunk.code@,
                            (#[trigger] self.compilers@[i]).function.chunk.code@,
                        )
                        &&& is_prefix(
                            old(self).compilers@[i].function.chunk.constants@,
                            self.compilers@[i].function.chunk.constants@,
                        )
                    } by {
                        lemma_prefix_refl(self.compilers@[i].function.chunk.code@);
                        lemma_prefix_refl(self.compilers@[i].function.chunk.constants@);
                    }
                    assert(self.follows(old(self)));
                }
                let ghost mid = *self;
                let at = self.add_upvalue_at(level, index + 1, true);
                proof {
                    self.lemma_follows_trans(&mid, old(self));
                }
                return Some(at);
            },
            None => {},
        }
        match self.resolve_upvalue(level - 1, name) {
            Some(index) => {
                let ghost mid = *self;
                let at = self.add_upvalue_at(level, index, false);
                proof {
                    self.lemma_follows_trans(&mid, old(self));
                }
                Some(at)
            },
            None => None,
        }
    }

    /// Declares the variable named by the token before the one being looked
    /// at: in a scope it becomes a new local, not yet initialized; at the top
    /// level there is nothing to declare. A second local of the same name in
    /// the same scope is reported.
    fn declare_variable(&mut self)
        requires
            old(self).wf(),
        ensures
            final(self).follows(old(self)),
            final(self).scanner == old(self).scanner,
            final(self).current == old(self).current,
            final(self).previous == old(self).previous,
            forall|i: int|
                0 <= i < final(self).compilers@.len() - 1 ==> #[trigger] final(self).compilers@[i]
                    == old(self).compilers@[i],
            final(self).top().function == old(self).top().function,
            final(self).top().locals@ == if old(self).top().scope_depth == 0 || old(self).top().locals@.len() >= MAX_LOCALS {
                old(self).top().locals@
            } else {
                old(self).top().locals@.push(
                    Local { name: old(self).previous, depth: None, is_captured: false },
                )
            },
            old(self).top().scope_depth == 0 ==> *final(self) == *old(self),
            old(self).top().scope_depth > 0 && old(self).top().locals@.len() >= MAX_LOCALS
                ==> final(self).had_error,
            final(self)@ == old(self)@.declare_variable(),
    {
        reveal(Parser::wf);
        reveal(Parser::follows);
        reveal(ParserModel::declare_variable);
        let n = self.compilers.len();
        let depth = self.compilers[n - 1].scope_depth;
        if depth == 0 {
            proof {
                lemma_prefix_refl(self.errors@);
                self.lemma_follows_frame(old(self));
            }
            return;
        }
        let length = self.scanner.bytes.len();
        let name = self.previous;
        let wanted = vstd::slice::slice_subrange(
            self.scanner.bytes,
            name.start,
            name.start + name.length,
        );
        let mut clash = false;
        let mut i = self.compilers[n - 1].locals.len();
        let mut searching = true;
        proof {
            assert(self.compilers@[n - 1].wf(length as int));
        }
        while searching && i > 0
            invariant
                *self == *old(self),
                self.wf(),
                n == self.compilers@.len(),
                length == self.source().len(),
                i <= self.top().locals@.len(),
                wanted@ == name.lexeme(self.source()),
                depth == self.top().scope_depth,
                name == self.previous,
                spec_clash(
                    self.source(),
                    self.top().locals@,
                    name,
                    depth,
                    self.top().locals@.len() as int,
                ) == (clash || (searching && spec_clash(
                    self.source(),
                    self.top().locals@,
                    name,
                    depth,
                    i as int,
                ))),
            decreases i, if searching { 1int } else { 0int },
        {
            reveal(Parser::wf);
            reveal(Parser::follows);
            let local = self.compilers[n - 1].locals[i - 1];
            let outer = match local.depth {
                Some(d) => d < depth,
                None => false,
            };
            if outer {
                searching = false;
            } else {
                proof {
                    assert(self.compilers@[n - 1].wf(length as int));
                    assert(self.compilers@[n - 1].locals@[i - 1].name.within(length as int));
                }
                let held = vstd::slice::slice_subrange(
                    self.scanner.bytes,
                    local.name.start,
                    local.name.start + local.name.length,
                );
                if bytes_equal(held, wanted) {
                    clash = true;
                }
                i -= 1;
            }
        }
        if clash {
            self.error("Variable with this name already declared in this scope.");
        } else {
            proof {
                lemma_prefix_refl(self.errors@);
                self.lemma_follows_frame(old(self));
            }
        }
        let ghost mid = *self;
        self.add_local(name);
        proof {
            self.lemma_follows_trans(&mid, old(self));
        }
    }

    /// Makes the variable that was declared last usable: a local is marked
    /// as initialized; a global is defined from the value on the stack, under
    /// the name that constant `global` holds.
    fn define_variable(&mut self, global: usize)
        requires
            old(self).wf(),
            old(self).top().scope_depth == 0 ==> operand_ok(
                OpCode::DefineGlobal(global),
                old(self).top().function.chunk.constants@,
                0,
            ),
        ensures
            final(self).follows(old(self)),
            final(self).scanner == old(self).scanner,
            final(self).current == old(self).current,
            final(self).previous == old(self).previous,
            final(self).errors == old(self).errors,
            final(self).code() == if old(self).top().scope_depth > 0 {
                old(self).code()
            } else {
                old(self).code().push(OpCode::DefineGlobal(global))
            },
            final(self).top().function.chunk.constants == old(self).top().function.chunk.constants,
            final(self).top().function.upvalues == old(self).top().function.upvalues,
            final(self).top().function.arity == old(self).top().function.arity,
            forall|i: int|
                0 <= i < final(self).compilers@.len() - 1 ==> #[trigger] final(self).compilers@[i]
                    == old(self).compilers@[i],
            final(self)@ == old(self)@.define_variable(global),
    {
        reveal(Parser::wf);
        reveal(Parser::follows);
        reveal(ParserModel::define_variable);
        let n = self.compilers.len();
        if self.compilers[n - 1].scope_depth > 0 {
            self.mark_initialized();
            return;
        }
        self.emit_byte(OpCode::DefineGlobal(global));
    }

    /// Reads the name of a variable and declares it. Returns the index of
    /// the constant that holds the name when the variable is global, and 0
    /// otherwise.
    fn variable(&mut self, msg: &'static str) -> (global: usize)
        requires
            old(self).wf(),
        ensures
            final(self).follows(old(self)),
            final(self).top().scope_depth == 0 ==> operand_ok(
                OpCode::DefineGlobal(global),
                final(self).top().function.chunk.constants@,
                0,
            ),
            final(self).top().function.arity == old(self).top().function.arity,
            forall|i: int|
                0 <= i < final(self).compilers@.len() - 1 ==> #[trigger] final(self).compilers@[i]
                    == old(self).compilers@[i],
            (final(self)@, global) == old(self)@.variable(msg@),
    {
        reveal(Parser::wf);
        reveal(Parser::advances);
        reveal(Parser::follows);
        reveal(ParserModel::variable);
        self.consume(TokenType::Identifier, msg);
        let ghost s1 = *self;
        self.declare_variable();
        proof {
            self.lemma_follows_trans(&s1, old(self));
        }
        let n = self.compilers.len();
        if self.compilers[n - 1].scope_depth > 0 {
            return 0;
        }
        let ghost s2 = *self;
        let index = self.identifier_constant();
        proof {
            self.lemma_follows_trans(&s2, old(self));
        }
        index
    }
}

impl<'a> Parser<'a> {
    /// A patch behind the code of `before` does not disturb that code.
    pub proof fn lemma_follows_patched(&self, mid: &Self, before: &Self, offset: int)
        requires
            self.follows_but(mid, offset),
            mid.follows(before),
            offset >= before.code().len(),
        ensures
            self.follows(before),
    {
        reveal(Parser::wf);
        reveal(Parser::advances);
        reveal(Parser::follows);
        reveal(Parser::follows_but);
        self.lemma_advances_trans(mid, before);
        assert forall|i: int| 0 <= i < self.compilers@.len() implies is_prefix(
            before.compilers@[i].function.chunk.code@,
            (#[trigger] self.compilers@[i]).function.chunk.code@,
        ) by {
            let a = before.compilers@[i].function.chunk.code@;
            let b = mid.compilers@[i].function.chunk.code@;
            let c = self.compilers@[i].function.chunk.code@;
            assert(is_prefix(a, b));
            if i < self.compilers@.len() - 1 {
                assert(is_prefix(b, c));
                assert(c.take(a.len() as int) =~= b.take(a.len() as int));
            } else {
                assert forall|k: int| 0 <= k < a.len() implies c[k] == a[k] by {
                    assert(b.take(a.len() as int)[k] == a[k]);
                    assert(self.code()[k] == mid.code()[k]);
                }
                assert(c.take(a.len() as int) =~= a);
            }
        }
    }

    /// What follows a patched state follows the state before the patch,
    /// but for the patched instruction.
    pub proof fn lemma_follows_after_patch(&self, mid: &Self, before: &Self, offset: int)
        requires
            self.follows(mid),
            mid.follows_but(before, offset),
        ensures
            self.follows_but(before, offset),
    {
        reveal(Parser::wf);
        reveal(Parser::advances);
        reveal(Parser::follows);
        reveal(Parser::follows_but);
        self.lemma_advances_trans(mid, before);
        assert forall|i: int| 0 <= i < self.compilers@.len() - 1 implies is_prefix(
            before.compilers@[i].function.chunk.code@,
            (#[trigger] self.compilers@[i]).function.chunk.code@,
        ) by {
            let a = before.compilers@[i].function.chunk.code@;
            let b = mid.compilers@[i].function.chunk.code@;
            let c = self.compilers@[i].function.chunk.code@;
            assert(is_prefix(a, b));
            assert(is_prefix(b, c));
            assert(c.take(a.len() as int) =~= b.take(a.len() as int));
        }
        assert(is_prefix(mid.code(), self.code()));
        assert forall|k: int| 0 <= k < before.code().len() && k != offset implies #[trigger] self.code()[k]
            == before.code()[k] by {
            assert(self.code().take(mid.code().len() as int)[k] == mid.code()[k]);
        }
    }

    /// A patch of a state that follows `before` follows `before` but for the
    /// patched instruction.
    pub proof fn lemma_patch_after_follows(&self, mid: &Self, before: &Self, offset: int)
        requires
            self.follows_but(mid, offset),
            mid.follows(before),
        ensures
            self.follows_but(before, offset),
    {
        reveal(Parser::wf);
        reveal(Parser::advances);
        reveal(Parser::follows);
        reveal(Parser::follows_but);
        self.lemma_advances_trans(mid, before);
        assert forall|i: int| 0 <= i < self.compilers@.len() - 1 implies is_prefix(
            before.compilers@[i].function.chunk.code@,
            (#[trigger] self.compilers@[i]).function.chunk.code@,
        ) by {
            let a = before.compilers@[i].function.chunk.code@;
            let b = mid.compilers@[i].function.chunk.code@;
            let c = self.compilers@[i].function.chunk.code@;
            assert(is_prefix(a, b));
            assert(is_prefix(b, c));
            assert(c.take(a.len() as int) =~= b.take(a.len() as int));
        }
        assert(is_prefix(before.code(), mid.code()));
        assert forall|k: int| 0 <= k < before.code().len() && k != offset implies #[trigger] self.code()[k]
            == before.code()[k] by {
            assert(mid.code().take(before.code().len() as int)[k] == before.code()[k]);
            assert(self.code()[k] == mid.code()[k]);
        }
    }

    /// Compiles a number: the numeral becomes a constant, which is loaded.
    fn number(&mut self)
        requires
            old(self).wf(),
        ensures
            final(self).follows(old(self)),
            final(self).same_but_chunk(old(self)),
            final(self).code() == old(self).code().push(
                OpCode::Constant(old(self).top().function.chunk.constants@.len() as usize),
            ),
            final(self).top().function.chunk.constants@.len() == old(self).top().function.chunk.constants@.len() + 1,
            final(self).top().function.chunk.constants@.last() matches Constant::Numeral(text)
                && text@ == old(self).previous.lexeme(old(self).source()),
            final(self)@ == old(self)@.number(),
    {
        reveal(Parser::wf);
        reveal(Parser::follows);
        reveal(ParserModel::number);
        let text = self.lexeme(self.previous);
        self.emit_constant(Constant::Numeral(text));
    }

    /// Compiles a string literal: the bytes between the quotes become a
    /// constant, which is loaded.
    fn string(&mut self)
        requires
            old(self).wf(),
        ensures
            final(self).follows(old(self)),
            final(self).same_but_chunk(old(self)),
            final(self).code() == old(self).code().push(
                OpCode::Constant(old(self).top().function.chunk.constants@.len() as usize),
            ),
            final(self).top().function.chunk.constants@.len() == old(self).top().function.chunk.constants@.len() + 1,
            final(self).top().function.chunk.constants@.last() matches Constant::Text(text)
                && text@ == if old(self).previous.length >= 2 {
                old(self).source().subrange(
                    old(self).previous.start + 1,
                    old(self).previous.start + old(self).previous.length - 1,
                )
            } else {
                Seq::empty()
            },
            final(self)@ == old(self)@.string(),
    {
        reveal(Parser::wf);
        reveal(Parser::follows);
        reveal(ParserModel::string);
        let length = self.scanner.bytes.len();
        let text = if self.previous.length >= 2 {
            convert_slice_to_string(
                self.scanner.bytes,
                self.previous.start + 1,
                self.previous.start + self.previous.length - 1,
            )
        } else {
            Vec::new()
        };
        self.emit_constant(Constant::Text(text));
    }

    /// Compiles `false`, `true` or `nil`.
    fn literal(&mut self)
        requires
            old(self).wf(),
        ensures
            final(self).follows(old(self)),
            final(self).same_but_chunk(old(self)),
            final(self).code() == match old(self).previous.t_type {
                TokenType::False => old(self).code().push(OpCode::False),
                TokenType::True => old(self).code().push(OpCode::True),
                TokenType::Nil => old(self).code().push(OpCode::Nil),
                _ => old(self).code(),
            },
            final(self)@ == old(self)@.literal(),
    {
        reveal(Parser::wf);
        reveal(Parser::follows);
        reveal(ParserModel::literal);
        match self.previous.t_type {
            TokenType::False => self.emit_byte(OpCode::False),
            TokenType::True => self.emit_byte(OpCode::True),
            TokenType::Nil => self.emit_byte(OpCode::Nil),
            _ => {
                proof {
                    lemma_prefix_refl(self.errors@);
                    self.lemma_follows_frame(old(self));
                }
            },
        }
    }

    /// Applies the parsing routine that a rule names.
    #[verifier::spinoff_prover]
    fn apply(&mut self, rule: ParseFn, can_assign: bool)
        requires
            old(self).wf(),
        ensures
            final(self).follows(old(self)),
            final(self)@ == old(self)@.apply(rule, can_assign),
        decreases old(self).left(), 31int,
    {
        reveal(Parser::wf);
        reveal(Parser::follows);
        reveal(ParserModel::apply);
        match rule {
            ParseFn::Grouping => self.grouping(can_assign),
            ParseFn::Call => self.call(can_assign),
            ParseFn::Unary => self.unary(can_assign),
            ParseFn::Binary => self.binary(can_assign),
            ParseFn::Number => self.number(),
            ParseFn::Literal => self.literal(),
            ParseFn::Strings => self.string(),
            ParseFn::Variable => self.parse_variable(can_assign),
            ParseFn::And => self.and(can_assign),
            ParseFn::Or => self.or(can_assign),
            ParseFn::Print => self.print(can_assign),
        }
    }

    /// Parses the infix operators of an expression: as long as the token
    /// being looked at binds at least as tightly as `precedence`, it is passed
    /// and its infix routine applied.
    #[verifier::spinoff_prover]
    fn infix_loop(&mut self, precedence: Precedence, can_assign: bool)
        requires
            old(self).wf(),
            precedence != Precedence::No,
        ensures
            final(self).follows(old(self)),
            final(self)@ == old(self)@.infix_loop(precedence, can_assign),
        decreases old(self).left(), 6int,
    {
        reveal(Parser::wf);
        reveal(Parser::left);
        reveal(ParserModel::left);
        reveal(Parser::advances);
        reveal(Parser::follows);
        proof {
            lemma_prefix_refl(self.errors@);
            self.lemma_follows_frame(old(self));
        }
        while precedence.rank() <= get_rule(self.current.t_type).precedence.rank()
            invariant
                self.follows(old(self)),
                precedence != Precedence::No,
                self@.infix_loop(precedence, can_assign) == old(self)@.infix_loop(
                    precedence,
                    can_assign,
                ),
            decreases self.left(),
        {
            reveal(Parser::wf);
            reveal(Parser::left);
            reveal(ParserModel::left);
            reveal(Parser::advances);
            reveal(Parser::follows);
            let ghost s2 = *self;
            self.next_valid_token();
            proof {
                self.lemma_follows_trans(&s2, old(self));
            }
            match get_rule(self.previous.t_type).infix {
                Some(rule) => {
                    let ghost s3 = *self;
                    self.apply(rule, can_assign);
                    proof {
                        self.lemma_follows_trans(&s3, old(self));
                    }
                },
                None => {},
            }
        }
    }

    /// Reports an `=` that no rule has consumed as an invalid assignment
    /// target.
    fn finish_assignment(&mut self, can_assign: bool)
        requires
            old(self).wf(),
        ensures
            final(self).follows(old(self)),
            final(self)@ == old(self)@.finish_assignment(can_assign),
    {
        reveal(Parser::wf);
        reveal(Parser::advances);
        reveal(Parser::follows);
        reveal(ParserModel::finish_assignment);
        reveal(ParserModel::match_token);
        if can_assign {
            let stray = self.match_token(TokenType::Equal);
            if stray {
                let ghost s5 = *self;
                self.error("Invalid assignment target.");
                proof {
                    self.lemma_follows_trans(&s5, old(self));
                }
            }
        } else {
            proof {
                lemma_prefix_refl(self.errors@);
                self.lemma_follows_frame(old(self));
            }
        }
    }

    /// Parses an expression whose operators bind at least as tightly as
    /// `precedence`, which is not `No`: a prefix expression, then every infix
    /// operator that binds tightly enough. An `=` that no rule has consumed
    /// is reported as an invalid assignment target.
    #[verifier::spinoff_prover]
    fn parse_precedence(&mut self, precedence: Precedence)
        requires
            old(self).wf(),
            precedence != Precedence::No,
        ensures
            final(self).follows(old(self)),
            final(self)@ == old(self)@.parse_precedence(precedence),
            old(self).current.t_type != TokenType::Eof ==> final(self).left() < old(self).left(),
            spec_rule(old(self).current.t_type).prefix is None ==> final(self).had_error,
        decreases old(self).left(), 7int,
    {
        reveal(Parser::wf);
        reveal(Parser::left);
        reveal(ParserModel::left);
        reveal(Parser::advances);
        reveal(Parser::follows);
        self.next_valid_token();
        let prefix = get_rule(self.previous.t_type).prefix;
        let can_assign = precedence.rank() <= 1;
        match prefix {
            None => {
                let ghost s1 = *self;
                self.error("Expect expression.");
                proof {
                    self.lemma_follows_trans(&s1, old(self));
                }
            },
            Some(rule) => {
                let ghost s1 = *self;
                self.apply(rule, can_assign);
                proof {
                    self.lemma_follows_trans(&s1, old(self));
                }
                let ghost s2 = *self;
                self.infix_loop(precedence, can_assign);
                proof {
                    self.lemma_follows_trans(&s2, old(self));
                }
                let ghost s3 = *self;
                self.finish_assignment(can_assign);
                proof {
                    self.lemma_follows_trans(&s3, old(self));
                }
            },
        }
    }

    /// Parses an expression.
    #[verifier::spinoff_prover]
    pub fn expression(&mut self)
        requires
            old(self).wf(),
        ensures
            final(self).follows(old(self)),
            final(self)@ == old(self)@.expression(),
            old(self).current.t_type != TokenType::Eof ==> final(self).left() < old(self).left(),
        decreases old(self).left(), 8int,
    {
        reveal(Parser::wf);
        reveal(Parser::follows);
        reveal(ParserModel::expression);
        self.parse_precedence(Precedence::Assignment);
    }

    /// Parses the rest of a parenthesized expression.
    #[verifier::spinoff_prover]
    fn grouping(&mut self, can_assign: bool)
        requires
            old(self).wf(),
        ensures
            final(self).follows(old(self)),
            final(self)@ == old(self)@.grouping(),
        decreases old(self).left(), 30int,
    {
        reveal(Parser::wf);
        reveal(Parser::advances);
        reveal(Parser::follows);
        reveal(ParserModel::grouping);
        self.expression();
        let ghost s1 = *self;
        self.consume(TokenType::RightParen, "Expect ')' after expression");
        proof {
            self.lemma_follows_trans(&s1, old(self));
        }
    }

    /// Parses the operand of `-` or `!` and emits the operator.
    #[verifier::spinoff_prover]
    fn unary(&mut self, can_assign: bool)
        requires
            old(self).wf(),
        ensures
            final(self).follows(old(self)),
            final(self)@ == old(self)@.unary(),
        decreases old(self).left(), 30int,
    {
        reveal(Parser::wf);
        reveal(Parser::advances);
        reveal(Parser::follows);
        reveal(ParserModel::unary);
        let operator_type = self.previous.t_type;
        self.parse_precedence(Precedence::Unary);
        let ghost s1 = *self;
        match operator_type {
            TokenType::Minus => {
                self.emit_byte(OpCode::Negative);
                proof {
                    self.lemma_follows_trans(&s1, old(self));
                }
            },
            TokenType::Bang => {
                self.emit_byte(OpCode::Not);
                proof {
                    self.lemma_follows_trans(&s1, old(self));
                }
            },
            _ => {},
        }
    }

    /// Emits the instructions of a binary operator.
    fn emit_operator(&mut self, operator: TokenType)
        requires
            old(self).wf(),
        ensures
            final(self).follows(old(self)),
            final(self)@ == old(self)@.emit_operator(operator),
    {
        reveal(Parser::wf);
        reveal(Parser::follows);
        reveal(ParserModel::emit_operator);
        match operator {
            TokenType::Plus => self.emit_byte(OpCode::Add),
            TokenType::Minus => self.emit_byte(OpCode::Subtract),
            TokenType::Star => self.emit_byte(OpCode::Multiply),
            TokenType::Slash => self.emit_byte(OpCode::Divide),
            TokenType::EqualEqual => self.emit_byte(OpCode::Equal),
            TokenType::BangEqual => self.emit_two_bytes(OpCode::Equal, OpCode::Not),
            TokenType::Greater => self.emit_byte(OpCode::Greater),
            TokenType::GreaterEqual => self.emit_two_bytes(OpCode::Less, OpCode::Not),
            TokenType::Less => self.emit_byte(OpCode::Less),
            TokenType::LessEqual => self.emit_two_bytes(OpCode::Greater, OpCode::Not),
            _ => {
                proof {
                    lemma_prefix_refl(self.errors@);
                    self.lemma_follows_frame(old(self));
                }
            },
        }
    }

    /// Parses the right operand of a binary operator, one level tighter
    /// than the operator itself, and emits the operator.
    #[verifier::spinoff_prover]
    fn binary(&mut self, can_assign: bool)
        requires
            old(self).wf(),
        ensures
            final(self).follows(old(self)),
            final(self)@ == old(self)@.binary(),
        decreases old(self).left(), 30int,
    {
        reveal(Parser::wf);
        reveal(Parser::advances);
        reveal(Parser::follows);
        reveal(ParserModel::binary);
        let operator_type = self.previous.t_type;
        let rule = get_rule(operator_type);
        let tighter = rule.precedence.next();
        proof {
            lemma_rank_names_level(tighter, Precedence::No);
        }
        self.parse_precedence(tighter);
        let ghost s1 = *self;
        self.emit_operator(operator_type);
        proof {
            self.lemma_follows_trans(&s1, old(self));
        }
    }

    /// Parses the rest of a `print` statement.
    #[verifier::spinoff_prover]
    fn print(&mut self, can_assign: bool)
        requires
            old(self).wf(),
        ensures
            final(self).follows(old(self)),
            final(self)@ == old(self)@.print(),
        decreases old(self).left(), 30int,
    {
        reveal(Parser::wf);
        reveal(Parser::advances);
        reveal(Parser::follows);
        reveal(ParserModel::print);
        self.expression();
        let ghost s1 = *self;
        self.consume(TokenType::Semicolon, "Expect ';' after value");
        proof {
            self.lemma_follows_trans(&s1, old(self));
        }
        let ghost s2 = *self;
        self.emit_byte(OpCode::Print);
        proof {
            self.lemma_follows_trans(&s2, old(self));
        }
    }

    /// Parses the right operand of `and`. The operand is skipped when the
    /// left one is falsey: a conditional jump leads over it, and otherwise
    /// the left value is popped.
    #[verifier::spinoff_prover]
    fn and(&mut self, can_assign: bool)
        requires
            old(self).wf(),
        ensures
            final(self).follows(old(self)),
            final(self)@ == old(self)@.and(),
            final(self).code().len() >= old(self).code().len() + 2,
            final(self).code()[old(self).code().len() as int] == OpCode::JumpIfFalse(
                spec_jump_offset(final(self).code().len() - old(self).code().len() - 1),
            ),
            final(self).code()[old(self).code().len() as int + 1] == OpCode::Pop,
            final(self).code().len() - old(self).code().len() - 1 <= 65535 ==> and_code(
                final(self).code(),
                old(self).code().len() as int,
                final(self).code().len() as int,
            ),
        decreases old(self).left(), 30int,
    {
        reveal(Parser::wf);
        reveal(Parser::left);
        reveal(ParserModel::left);
        reveal(Parser::advances);
        reveal(Parser::follows);
        reveal(ParserModel::and);
        reveal(ParserModel::expression_level);
        let end_jump = self.emit_jump(OpCode::JumpIfFalse(0));
        let ghost s1 = *self;
        self.emit_byte(OpCode::Pop);
        proof {
            self.lemma_follows_trans(&s1, old(self));
        }
        let ghost s2 = *self;
        self.parse_precedence(Precedence::And);
        proof {
            self.lemma_follows_trans(&s2, old(self));
            assert(is_prefix(s2.code(), self.code()));
            assert(self.code()[end_jump + 1] == self.code().take(s2.code().len() as int)[end_jump
                + 1]);
        }
        let ghost s3 = *self;
        self.patch_if_false_jump(end_jump);
        proof {
            self.lemma_follows_patched(&s3, old(self), end_jump as int);
        }
    }

    /// Parses the right operand of `or`. The operand is skipped when the
    /// left one is truthy: a conditional jump leads over the jump that skips
    /// the operand, and before the operand the left value is popped.
    #[verifier::spinoff_prover]
    fn or(&mut self, can_assign: bool)
        requires
            old(self).wf(),
        ensures
            final(self).follows(old(self)),
            final(self)@ == old(self)@.or(),
            final(self).code().len() >= old(self).code().len() + 3,
            final(self).code()[old(self).code().len() as int] == OpCode::JumpIfFalse(1),
            final(self).code()[old(self).code().len() as int + 1] == OpCode::Jump(
                spec_jump_offset(final(self).code().len() - old(self).code().len() - 2),
            ),
            final(self).code()[old(self).code().len() as int + 2] == OpCode::Pop,
            final(self).code().len() - old(self).code().len() - 2 <= 65535 ==> or_code(
                final(self).code(),
                old(self).code().len() as int,
                final(self).code().len() as int,
            ),
        decreases old(self).left(), 30int,
    {
        reveal(Parser::wf);
        reveal(Parser::left);
        reveal(ParserModel::left);
        reveal(Parser::advances);
        reveal(Parser::follows);
        reveal(ParserModel::or);
        reveal(ParserModel::expression_level);
        let else_jump = self.emit_jump(OpCode::JumpIfFalse(0));
        let ghost s1 = *self;
        let end_jump = self.emit_jump(OpCode::Jump(0));
        proof {
            self.lemma_follows_trans(&s1, old(self));
        }
        let ghost s2 = *self;
        self.patch_if_false_jump(else_jump);
        proof {
            self.lemma_follows_patched(&s2, old(self), else_jump as int);
        }
        let ghost s3 = *self;
        self.emit_byte(OpCode::Pop);
        proof {
            self.lemma_follows_trans(&s3, old(self));
        }
        let ghost s4 = *self;
        self.parse_precedence(Precedence::Or);
        proof {
            self.lemma_follows_trans(&s4, old(self));
            assert(is_prefix(s4.code(), self.code()));
            assert(self.code()[else_jump as int] == self.code().take(s4.code().len() as int)[else_jump as int]);
            assert(self.code()[else_jump + 2] == self.code().take(s4.code().len() as int)[else_jump
                + 2]);
        }
        let ghost s5 = *self;
        self.patch_jump(end_jump);
        proof {
            self.lemma_follows_patched(&s5, old(self), end_jump as int);
        }
    }

    /// Parses the arguments of a call and emits the call.
    #[verifier::spinoff_prover]
    fn call(&mut self, can_assign: bool)
        requires
            old(self).wf(),
        ensures
            final(self).follows(old(self)),
            final(self)@ == old(self)@.call(),
        decreases old(self).left(), 30int,
    {
        reveal(Parser::wf);
        reveal(Parser::advances);
        reveal(Parser::follows);
        reveal(ParserModel::call);
        let arg_count = self.argument_list();
        let ghost s1 = *self;
        self.emit_byte(OpCode::Call(arg_count));
        proof {
            self.lemma_follows_trans(&s1, old(self));
        }
    }

    /// Parses the arguments of a call up to the closing parenthesis and
    /// returns their number. More than 255 arguments are reported.
    #[verifier::spinoff_prover]
    fn argument_list(&mut self) -> (arg_count: usize)
        requires
            old(self).wf(),
        ensures
            final(self).follows(old(self)),
            (final(self)@, arg_count) == old(self)@.argument_list(),
            arg_count <= 255,
        decreases old(self).left(), 29int,
    {
        reveal(Parser::wf);
        reveal(Parser::left);
        reveal(ParserModel::left);
        reveal(Parser::advances);
        reveal(Parser::follows);
        reveal(ParserModel::argument_list);
        reveal(ParserModel::arguments_loop);
        let mut arg_count: usize = 0;
        proof {
            lemma_prefix_refl(self.errors@);
            self.lemma_follows_frame(old(self));
        }
        if !self.check(TokenType::RightParen) {
            loop
                invariant_except_break
                    self@.arguments_loop(arg_count) == old(self)@.arguments_loop(0),
                invariant
                    self.follows(old(self)),
                    arg_count <= 255,
                ensures
                    (self@, arg_count) == old(self)@.arguments_loop(0),
                decreases self.left(),
            {
                reveal(Parser::wf);
                reveal(Parser::left);
                reveal(ParserModel::left);
                reveal(Parser::advances);
                reveal(Parser::follows);
                reveal(ParserModel::arguments_loop);
                let ghost s1 = *self;
                self.expression();
                proof {
                    self.lemma_follows_trans(&s1, old(self));
                }
                if arg_count == 255 {
                    let ghost s2 = *self;
                    self.error("Cannot have more than 255 arguments.");
                    proof {
                        self.lemma_follows_trans(&s2, old(self));
                    }
                } else {
                    arg_count += 1;
                }
                let ghost s3 = *self;
                let more = self.match_token(TokenType::Comma);
                proof {
                    self.lemma_follows_trans(&s3, old(self));
                }
                if !more {
                    break;
                }
            }
        }
        let ghost s4 = *self;
        self.consume(TokenType::RightParen, "Expect ')' after arguments.");
        proof {
            self.lemma_follows_trans(&s4, old(self));
        }
        arg_count
    }

    /// Compiles the use of the variable named by the token before the one
    /// being looked at.
    #[verifier::spinoff_prover]
    fn parse_variable(&mut self, can_assign: bool)
        requires
            old(self).wf(),
        ensures
            final(self).follows(old(self)),
            final(self)@ == old(self)@.compile_named_variable(old(self).previous, can_assign),
        decreases old(self).left(), 30int,
    {
        reveal(Parser::wf);
        reveal(Parser::follows);
        self.compile_named_variable(self.previous, can_assign);
    }

    /// An operand that was in range in `before` is in range now.
    pub proof fn lemma_operand_keeps(&self, before: &Self, op: OpCode)
        requires
            self.follows(before),
            operand_ok(
                op,
                before.top().function.chunk.constants@,
                before.top().function.upvalues@.len() as int,
            ),
        ensures
            operand_ok(
                op,
                self.top().function.chunk.constants@,
                self.top().function.upvalues@.len() as int,
            ),
    {
        reveal(Parser::wf);
        reveal(Parser::advances);
        reveal(Parser::follows);
        reveal(Parser::keeps_pools);
        let was = before.top().function.chunk.constants@;
        let now = self.top().function.chunk.constants@;
        assert(is_prefix(was, now));
        assert forall|k: int| 0 <= k < was.len() implies now[k] == was[k] by {
            assert(now.take(was.len() as int)[k] == was[k]);
        }
        lemma_operand_ok_grows(
            op,
            was,
            before.top().function.upvalues@.len() as int,
            now,
            self.top().function.upvalues@.len() as int,
        );
    }

    /// Reads or assigns a variable once it is known where the variable
    /// lives: when an `=` follows and an assignment is allowed, the value is
    /// read and `set` emitted, else `get`.
    #[verifier::spinoff_prover]
    fn access(&mut self, can_assign: bool, get: OpCode, set: OpCode, Ghost(limit): Ghost<ParserModel>)
        requires
            old(self).wf(),
            old(self)@.within(limit),
            crate::chunk::jump_target(get, 0) is None,
            crate::chunk::jump_target(set, 0) is None,
            operand_ok(
                get,
                old(self).top().function.chunk.constants@,
                old(self).top().function.upvalues@.len() as int,
            ),
            operand_ok(
                set,
                old(self).top().function.chunk.constants@,
                old(self).top().function.upvalues@.len() as int,
            ),
        ensures
            final(self).follows(old(self)),
            final(self)@ == old(self)@.access(can_assign, get, set, limit),
        decreases old(self).left(), 28int,
    {
        reveal(Parser::wf);
        reveal(Parser::left);
        reveal(ParserModel::left);
        reveal(Parser::advances);
        reveal(Parser::follows);
        reveal(ParserModel::match_token);
        let assign = can_assign && self.match_token(TokenType::Equal);
        if assign {
            let ghost s1 = *self;
            self.expression();
            proof {
                self.lemma_follows_trans(&s1, old(self));
                self.lemma_operand_keeps(old(self), set);
            }
            let ghost s2 = *self;
            self.emit_byte(set);
            proof {
                self.lemma_follows_trans(&s2, old(self));
            }
        } else {
            proof {
                if !can_assign {
                    lemma_prefix_refl(self.errors@);
                    self.lemma_follows_frame(old(self));
                }
            }
            let ghost s2 = *self;
            self.emit_byte(get);
            proof {
                self.lemma_follows_trans(&s2, old(self));
            }
        }
    }

    /// Reads or assigns the variable behind upvalue `index` of the function
    /// being compiled.
    fn access_upvalue(&mut self, index: usize, can_assign: bool, Ghost(limit): Ghost<ParserModel>)
        requires
            old(self).wf(),
            old(self)@.within(limit),
        ensures
            final(self).follows(old(self)),
            final(self)@ == if can_assign && old(self).current.t_type == TokenType::Equal {
                let assigned = old(self)@.advance().expression_from(limit);
                if index < assigned.top().function.upvalues.len() {
                    assigned.emit(OpCode::SetUpvalue(index))
                } else {
                    assigned
                }
            } else if index < old(self)@.top().function.upvalues.len() {
                old(self)@.emit(OpCode::GetUpvalue(index))
            } else {
                old(self)@
            },
        decreases old(self).left(), 28int,
    {
        reveal(Parser::wf);
        reveal(Parser::left);
        reveal(ParserModel::left);
        reveal(Parser::advances);
        reveal(Parser::follows);
        reveal(ParserModel::match_token);
        let assign = can_assign && self.match_token(TokenType::Equal);
        if assign {
            let ghost s1 = *self;
            self.expression();
            proof {
                self.lemma_follows_trans(&s1, old(self));
            }
        } else {
            proof {
                if !can_assign {
                    lemma_prefix_refl(self.errors@);
                    self.lemma_follows_frame(old(self));
                }
            }
        }
        let n = self.compilers.len();
        if index < self.compilers[n - 1].function.upvalues.len() {
            let ghost s2 = *self;
            if assign {
                self.emit_byte(OpCode::SetUpvalue(index));
            } else {
                self.emit_byte(OpCode::GetUpvalue(index));
            }
            proof {
                self.lemma_follows_trans(&s2, old(self));
            }
        }
    }

    /// Compiles a read of the variable `name`, or an assignment to it when
    /// an `=` follows and an assignment is allowed here. The variable is
    /// looked for among the locals of the function, then among the locals of
    /// the enclosing functions, and is taken to be global when neither has
    /// it. Reading a local in its own initializer is reported.
    #[verifier::spinoff_prover]
    fn compile_named_variable(&mut self, name: Token, can_assign: bool)
        requires
            old(self).wf(),
            name.within(old(self).source().len() as int),
        ensures
            final(self).follows(old(self)),
            final(self)@ == old(self)@.compile_named_variable(name, can_assign),
        decreases old(self).left(), 29int,
    {
        reveal(Parser::wf);
        reveal(Parser::left);
        reveal(ParserModel::left);
        reveal(Parser::advances);
        reveal(Parser::follows);
        reveal(ParserModel::compile_named_variable);
        let n = self.compilers.len();
        let ghost length = self.source().len() as int;
        proof {
            assert(self.compilers@[n - 1].wf(length));
        }
        let arg = self.compilers[n - 1].resolve_local(self.scanner.bytes, &name);
        match arg {
            Some(index) => {
                if self.compilers[n - 1].locals[index].depth.is_none() {
                    self.error("Can't read local variable in its own initializer.");
                } else {
                    proof {
                        lemma_prefix_refl(self.errors@);
                        self.lemma_follows_frame(old(self));
                    }
                }
                let ghost s1 = *self;
                self.access(
                    can_assign,
                    OpCode::GetLocal(index + 1),
                    OpCode::SetLocal(index + 1),
                    Ghost(old(self)@),
                );
                proof {
                    self.lemma_follows_trans(&s1, old(self));
                }
            },
            None => {
                match self.resolve_upvalue(n - 1, name) {
                    Some(index) => {
                        let ghost s1 = *self;
                        self.access_upvalue(index, can_assign, Ghost(old(self)@));
                        proof {
                            self.lemma_follows_trans(&s1, old(self));
                        }
                    },
                    None => {
                        let ghost s1 = *self;
                        let text = self.lexeme(name);
                        let global = self.make_constant(Constant::Text(text));
                        proof {
                            self.lemma_follows_trans(&s1, old(self));
                        }
                        let ghost s2 = *self;
                        self.access(
                            can_assign,
                            OpCode::GetGlobal(global),
                            OpCode::SetGlobal(global),
                            Ghost(old(self)@),
                        );
                        proof {
                            self.lemma_follows_trans(&s2, old(self));
                        }
                    },
                }
            },
        }
    }
}

impl<'a> Parser<'a> {
    /// Parses an expression statement: the expression, a semicolon, and a
    /// `Pop` for the value.
    #[verifier::spinoff_prover]
    fn expression_statement(&mut self)
        requires
            old(self).wf(),
        ensures
            final(self).follows(old(self)),
            final(self)@ == old(self)@.expression_statement(),
            old(self).current.t_type != TokenType::Eof ==> final(self).left() < old(self).left(),
        decreases old(self).left(), 10int,
    {
        reveal(Parser::wf);
        reveal(Parser::advances);
        reveal(Parser::follows);
        self.expression();
        let ghost s1 = *self;
        self.consume(TokenType::Semicolon, "Expect ';' after expression.");
        proof {
            self.lemma_follows_trans(&s1, old(self));
        }
        let ghost s2 = *self;
        self.emit_byte(OpCode::Pop);
        proof {
            self.lemma_follows_trans(&s2, old(self));
        }
    }

    /// Parses the declarations of a block up to its closing brace.
    #[verifier::spinoff_prover]
    fn block(&mut self)
        requires
            old(self).wf(),
        ensures
            final(self).follows(old(self)),
            final(self)@ == old(self)@.block(),
        decreases old(self).left(), 25int,
    {
        reveal(Parser::wf);
        reveal(Parser::left);
        reveal(ParserModel::left);
        reveal(Parser::advances);
        reveal(Parser::follows);
        proof {
            lemma_prefix_refl(self.errors@);
            self.lemma_follows_frame(old(self));
        }
        while !self.check(TokenType::RightBrace) && !self.check(TokenType::Eof)
            invariant
                self.follows(old(self)),
                self@.block_loop() == old(self)@.block_loop(),
            decreases self.left(),
        {
            reveal(Parser::wf);
            reveal(Parser::left);
            reveal(ParserModel::left);
            reveal(Parser::advances);
            reveal(Parser::follows);
            let ghost s1 = *self;
            self.declaration();
            proof {
                self.lemma_follows_trans(&s1, old(self));
            }
        }
        let ghost s2 = *self;
        self.consume(TokenType::RightBrace, "Expect '}' after block.");
        proof {
            self.lemma_follows_trans(&s2, old(self));
        }
    }

    /// The parser has begun a function since `entry`: it has one more
    /// function to compile and has left the others alone.
    #[verifier::opaque]
    pub open spec fn entered(&self, entry: &Self) -> bool {
        &&& self.wf()
        &&& self.scanner.bytes == entry.scanner.bytes
        &&& self.left() <= entry.left()
        &&& self.compilers@.len() == entry.compilers@.len() + 1
        &&& forall|i: int|
            0 <= i < entry.compilers@.len() ==> #[trigger] self.compilers@[i]
                == entry.compilers@[i]
        &&& is_prefix(entry.errors@, self.errors@)
    }

    /// Begins the compilation of a function: a new compiler for it, its
    /// outermost scope, and the parenthesis that opens its parameters.
    fn begin_function(&mut self, kind: FunctionType)
        requires
            old(self).wf(),
        ensures
            final(self).entered(old(self)),
            final(self)@ == old(self)@.begin_function(kind),
            final(self).wf(),
            final(self).left() <= old(self).left(),
            final(self).compilers@.len() >= 2,
    {
        reveal(Parser::wf);
        reveal(Parser::left);
        reveal(Parser::advances);
        reveal(Parser::follows);
        reveal(Parser::entered);
        reveal(ParserModel::begin_function);
        let name = self.lexeme(self.previous);
        let ghost length = self.source().len() as int;
        let ghost n = self.compilers@.len();
        self.compilers.push(Compiler::new(name, kind));
        proof {
            assert forall|i: int| 0 <= i < self.compilers@.len() implies (
            #[trigger] self.compilers@[i]).wf(length) by {
                if i < n {
                    assert(old(self).compilers@[i].wf(length));
                }
            }
            assert(self@.compilers =~= old(self)@.compilers.push(
                CompilerModel::fresh(old(self).previous.lexeme(old(self).source()), kind),
            ));
        }
        let ghost inner = *self;
        let opened = self.begin_scope();
        let ghost scoped = *self;
        proof {
            assert forall|i: int| 0 <= i < n implies #[trigger] scoped.compilers@[i] == old(self).compilers@[i] by {
                assert(inner.compilers@[i] == old(self).compilers@[i]);
            }
        }
        self.consume(TokenType::LeftParen, "Expect '(' after function name.");
        proof {
            assert(is_prefix(old(self).errors@, self.errors@)) by {
                assert(is_prefix(scoped.errors@, self.errors@));
                assert(is_prefix(old(self).errors@, scoped.errors@));
                assert(self.errors@.take(old(self).errors@.len() as int) =~= scoped.errors@.take(
                    old(self).errors@.len() as int,
                ));
            }
        }
    }

    /// Counts one more parameter of the function being compiled; a
    /// parameter beyond the 255th is reported and not counted.
    fn count_parameter(&mut self)
        requires
            old(self).wf(),
            old(self).compilers@.len() >= 2,
        ensures
            final(self).follows(old(self)),
            final(self)@ == if old(self)@.top().function.arity == 255 {
                old(self)@.report(old(self).current, "Cannot have more than 255 parameters."@)
            } else {
                old(self)@.with_top(
                    CompilerModel {
                        function: FunctionModel {
                            arity: (old(self)@.top().function.arity + 1) as u8,
                            ..old(self)@.top().function
                        },
                        ..old(self)@.top()
                    },
                )
            },
    {
        reveal(Parser::wf);
        reveal(Parser::left);
        reveal(Parser::advances);
        reveal(Parser::follows);
        reveal(Parser::keeps_pools);
        let top = self.compilers.len() - 1;
        let ghost length = self.source().len() as int;
        if self.compilers[top].function.arity == 255 {
            self.error_at_current("Cannot have more than 255 parameters.");
        } else {
            self.compilers[top].function.arity += 1;
            proof {
                lemma_prefix_refl(self.errors@);
                assert forall|i: int| 0 <= i < self.compilers@.len() implies {
                    &&& (#[trigger] self.compilers@[i]).wf(length)
                    &&& is_prefix(
                        old(self).compilers@[i].function.chunk.code@,
                        self.compilers@[i].function.chunk.code@,
                    )
                    &&& is_prefix(
                        old(self).compilers@[i].function.chunk.constants@,
                        self.compilers@[i].function.chunk.constants@,
                    )
                } by {
                    assert(old(self).compilers@[i].wf(length));
                    lemma_prefix_refl(self.compilers@[i].function.chunk.code@);
                    lemma_prefix_refl(self.compilers@[i].function.chunk.constants@);
                }
                self.lemma_view_top(old(self));
                assert(self.top()@.function.constants =~= old(self).top()@.function.constants);
            }
        }
    }

    /// Parses the parameters of a function up to the closing parenthesis:
    /// each is counted, declared and defined.
    fn parameters(&mut self)
        requires
            old(self).wf(),
            old(self).compilers@.len() >= 2,
        ensures
            final(self).follows(old(self)),
            final(self)@ == old(self)@.parameters(),
    {
        reveal(ParserModel::parameters);
        reveal(Parser::wf);
        reveal(Parser::left);
        reveal(ParserModel::left);
        reveal(Parser::advances);
        reveal(Parser::follows);
        proof {
            lemma_prefix_refl(self.errors@);
            self.lemma_follows_frame(old(self));
        }
        if !self.check(TokenType::RightParen) {
            loop
                invariant_except_break
                    self@.parameters_loop() == old(self)@.parameters_loop(),
                invariant
                    self.follows(old(self)),
                    self.compilers@.len() >= 2,
                ensures
                    self.follows(old(self)),
                    self@ == old(self)@.parameters_loop(),
                decreases self.left(),
            {
                reveal(Parser::wf);
                reveal(Parser::left);
                reveal(ParserModel::left);
                reveal(Parser::advances);
                reveal(Parser::follows);
                reveal(ParserModel::parameters_loop);
                let ghost s0 = *self;
                self.count_parameter();
                proof {
                    self.lemma_follows_trans(&s0, old(self));
                }
                let ghost s1 = *self;
                let index = self.variable("Expect parameter name.");
                proof {
                    self.lemma_follows_trans(&s1, old(self));
                }
                let ghost s2 = *self;
                self.define_variable(index);
                proof {
                    self.lemma_follows_trans(&s2, old(self));
                }
                let ghost s3 = *self;
                let more = self.match_token(TokenType::Comma);
                proof {
                    self.lemma_follows_trans(&s3, old(self));
                }
                if !more {
                    break;
                }
            }
        }
    }

    /// Ends the compilation of a function: the function returns `nil` at its
    /// end, and the finished prototype becomes a constant of the enclosing
    /// function, which makes a closure of it.
    fn end_function(&mut self, Ghost(scoped): Ghost<Self>, Ghost(entry): Ghost<Self>)
        requires
            entry.wf(),
            scoped.entered(&entry),
            old(self).follows(&scoped),
        ensures
            final(self).follows(&entry),
            final(self)@ == old(self)@.end_function(),
    {
        reveal(ParserModel::end_function);
        reveal(Parser::wf);
        reveal(Parser::left);
        reveal(Parser::advances);
        reveal(Parser::follows);
        reveal(Parser::keeps_pools);
        reveal(Parser::entered);
        let ghost length = self.source().len() as int;
        let ghost n = entry.compilers@.len();
        proof {
            assert(self.compilers@[n as int].wf(length));
        }
        self.emit_return();
        let ghost sealed = *self;
        proof {
            sealed.lemma_follows_trans(old(self), &scoped);
            lemma_sealed(old(self).code(), self.code());
            assert(self.compilers@[n as int].wf(length));
        }
        let done = self.compilers.pop().unwrap();
        proof {
            assert(done == sealed.compilers@[n as int]);
            assert(done.wf(length));
            assert(done.function.sound());
            assert(self.compilers@ =~= sealed.compilers@.take(n as int));
            assert(self@.compilers =~= sealed@.compilers.drop_last());
            assert(sealed@.top() == done@);
            assert forall|i: int| 0 <= i < self.compilers@.len() implies {
                &&& (#[trigger] self.compilers@[i]).wf(length)
                &&& self.compilers@[i].scope_depth == entry.compilers@[i].scope_depth
                &&& self.compilers@[i].function_type == entry.compilers@[i].function_type
                &&& is_prefix(
                    entry.compilers@[i].function.chunk.code@,
                    self.compilers@[i].function.chunk.code@,
                )
                &&& is_prefix(
                    entry.compilers@[i].function.chunk.constants@,
                    self.compilers@[i].function.chunk.constants@,
                )
                &&& entry.compilers@[i].function.upvalues@.len()
                    <= self.compilers@[i].function.upvalues@.len()
            } by {
                assert(sealed.compilers@[i].wf(length));
                assert(scoped.compilers@[i] == entry.compilers@[i]);
                assert(is_prefix(
                    scoped.compilers@[i].function.chunk.code@,
                    sealed.compilers@[i].function.chunk.code@,
                ));
                assert(is_prefix(
                    scoped.compilers@[i].function.chunk.constants@,
                    sealed.compilers@[i].function.chunk.constants@,
                ));
            }
            assert(is_prefix(entry.errors@, self.errors@)) by {
                assert(is_prefix(scoped.errors@, self.errors@));
                assert(is_prefix(entry.errors@, scoped.errors@));
                assert(self.errors@.take(entry.errors@.len() as int) =~= scoped.errors@.take(
                    entry.errors@.len() as int,
                ));
            }
            assert(self.follows(&entry));
        }
        let ghost s8 = *self;
        self.emit_closure(Constant::Function(Rc::new(done.function)));
        proof {
            self.lemma_follows_trans(&s8, &entry);
        }
    }

    /// Compiles a variable declaration: the name, the initializer or `nil`,
    /// and a semicolon.
    #[verifier::spinoff_prover]
    fn var_statement(&mut self)
        requires
            old(self).wf(),
        ensures
            final(self).follows(old(self)),
            final(self)@ == old(self)@.var_statement(),
        decreases old(self).left(), 18int,
    {
        reveal(Parser::wf);
        reveal(Parser::left);
        reveal(ParserModel::left);
        reveal(Parser::advances);
        reveal(Parser::follows);
        reveal(ParserModel::match_token);
        let index = self.variable("Expect variable name.");
        let ghost s1 = *self;
        if self.match_token(TokenType::Equal) {
            proof {
                self.lemma_follows_trans(&s1, old(self));
            }
            let ghost s2 = *self;
            self.expression();
            proof {
                self.lemma_follows_trans(&s2, old(self));
                self.lemma_follows_trans(&s2, &s1);
            }
        } else {
            proof {
                self.lemma_follows_trans(&s1, old(self));
            }
            let ghost s2 = *self;
            self.emit_byte(OpCode::Nil);
            proof {
                self.lemma_follows_trans(&s2, old(self));
                self.lemma_follows_trans(&s2, &s1);
            }
        }
        let ghost s3 = *self;
        self.consume(TokenType::Semicolon, "Expect ';' after variable declaration.");
        proof {
            self.lemma_follows_trans(&s3, old(self));
            self.lemma_follows_trans(&s3, &s1);
            self.lemma_pool_keeps(&s1, index);
        }
        let ghost s4 = *self;
        self.define_variable(index);
        proof {
            self.lemma_follows_trans(&s4, old(self));
        }
    }

    /// A global name constant of an earlier state is still one.
    pub proof fn lemma_pool_keeps(&self, before: &Self, global: usize)
        requires
            self.follows(before),
        ensures
            operand_ok(OpCode::DefineGlobal(global), before.top().function.chunk.constants@, 0)
                ==> operand_ok(
                OpCode::DefineGlobal(global),
                self.top().function.chunk.constants@,
                0,
            ),
    {
        reveal(Parser::wf);
        reveal(Parser::advances);
        reveal(Parser::follows);
        reveal(Parser::keeps_pools);
        let was = before.top().function.chunk.constants@;
        let now = self.top().function.chunk.constants@;
        assert(is_prefix(was, now));
        if global < was.len() {
            assert(now[global as int] == now.take(was.len() as int)[global as int]);
        }
    }

    /// Parses the condition of an `if` or a `while` statement, in its
    /// parentheses, and emits the conditional jump that leaves when the
    /// condition is falsey. Returns the index of the jump.
    #[verifier::spinoff_prover]
    fn condition(&mut self, open: &'static str, Ghost(limit): Ghost<ParserModel>) -> (jump: usize)
        requires
            old(self).wf(),
            old(self)@.within(limit),
        ensures
            final(self).follows(old(self)),
            final(self)@ == old(self)@.consume(TokenType::LeftParen, open@).expression_from(
                limit,
            ).consume(TokenType::RightParen, "Expect ')' after condition."@).emit(
                OpCode::JumpIfFalse(0),
            ).emit(OpCode::Pop),
            jump == old(self)@.consume(TokenType::LeftParen, open@).expression_from(limit).consume(
                TokenType::RightParen,
                "Expect ')' after condition."@,
            ).next_code(),
            old(self).code().len() <= jump < final(self).code().len(),
        decreases old(self).left(), 27int,
    {
        reveal(Parser::wf);
        reveal(Parser::left);
        reveal(ParserModel::left);
        reveal(Parser::advances);
        reveal(Parser::follows);
        self.consume(TokenType::LeftParen, open);
        let ghost s1 = *self;
        self.expression();
        proof {
            self.lemma_follows_trans(&s1, old(self));
        }
        let ghost s2 = *self;
        self.consume(TokenType::RightParen, "Expect ')' after condition.");
        proof {
            self.lemma_follows_trans(&s2, old(self));
            assert(is_prefix(old(self).code(), self.code()));
        }
        let ghost s3 = *self;
        let jump = self.emit_jump(OpCode::JumpIfFalse(0));
        proof {
            self.lemma_follows_trans(&s3, old(self));
        }
        let ghost s4 = *self;
        self.emit_byte(OpCode::Pop);
        proof {
            self.lemma_follows_trans(&s4, old(self));
        }
        jump
    }

    /// Parses the second branch of an `if` statement, when there is one; the
    /// jump at `else_jump`, which ends the first branch, lands behind it.
    fn else_branch(&mut self, else_jump: usize, Ghost(limit): Ghost<ParserModel>)
        requires
            old(self).wf(),
            old(self)@.within(limit),
            else_jump < old(self).code().len(),
        ensures
            final(self).follows_but(old(self), else_jump as int),
            final(self)@ == (if old(self).current.t_type == TokenType::Else {
                old(self)@.advance().statement_from(limit)
            } else {
                old(self)@
            }).patch(else_jump, false),
        decreases old(self).left(), 27int,
    {
        reveal(ParserModel::match_token);
        if self.match_token(TokenType::Else) {
            let ghost s10 = *self;
            proof {
                s10.lemma_follows_basics(old(self));
                s10@.lemma_statement_from(limit);
            }
            self.statement();
            proof {
                self.lemma_follows_trans(&s10, old(self));
            }
        }
        proof {
            self.lemma_follows_basics(old(self));
        }
        let ghost s11 = *self;
        self.patch_jump(else_jump);
        proof {
            self.lemma_patch_after_follows(&s11, old(self), else_jump as int);
        }
    }

    /// Compiles an `if` statement. The condition is followed by a
    /// conditional jump over the first branch; the first branch ends with a
    /// jump over the second.
    #[verifier::spinoff_prover]
    fn if_statement(&mut self)
        requires
            old(self).wf(),
        ensures
            final(self).follows(old(self)),
            final(self)@ == old(self)@.if_statement(),
        decreases old(self).left(), 28int,
    {
        let jump_idx = self.condition("Expect '(' after 'if'.", Ghost(old(self)@));
        let ghost s5 = *self;
        proof {
            s5.lemma_follows_basics(old(self));
            old(self)@.lemma_if_statement();
        }
        self.statement();
        let ghost s6 = *self;
        proof {
            s6.lemma_follows_basics(&s5);
            s6.lemma_follows_trans(&s5, old(self));
        }
        let else_jump_idx = self.emit_jump(OpCode::Jump(0));
        let ghost s7 = *self;
        proof {
            s7.lemma_follows_basics(&s6);
            s7.lemma_follows_trans(&s6, old(self));
        }
        self.patch_if_false_jump(jump_idx);
        let ghost s8 = *self;
        proof {
            s8.lemma_follows_patched(&s7, old(self), jump_idx as int);
            s8.lemma_follows_basics(old(self));
        }
        self.emit_byte(OpCode::Pop);
        let ghost s9 = *self;
        proof {
            s9.lemma_follows_trans(&s8, old(self));
            s9.lemma_follows_basics(old(self));
        }
        self.else_branch(else_jump_idx, Ghost(old(self)@));
        proof {
            self.lemma_follows_patched(&s9, old(self), else_jump_idx as int);
        }
    }

    /// Compiles a `while` statement. The condition is followed by a
    /// conditional jump out of the loop; the body ends with a jump back to
    /// the condition.
    #[verifier::spinoff_prover]
    fn while_statement(&mut self)
        requires
            old(self).wf(),
        ensures
            final(self).follows(old(self)),
            final(self)@ == old(self)@.while_statement(),
        decreases old(self).left(), 28int,
    {
        reveal(Parser::wf);
        reveal(Parser::left);
        reveal(ParserModel::left);
        reveal(Parser::advances);
        reveal(Parser::follows);
        let loop_start = self.code_len();
        let jump_idx = self.condition("Expect '(' after 'while'.", Ghost(old(self)@));
        let ghost s5 = *self;
        self.statement();
        proof {
            self.lemma_follows_trans(&s5, old(self));
            assert(is_prefix(s5.code(), self.code()));
            assert(is_prefix(old(self).code(), self.code()));
        }
        let ghost s6 = *self;
        self.emit_loop(loop_start);
        proof {
            self.lemma_follows_trans(&s6, old(self));
        }
        let ghost s7 = *self;
        self.patch_if_false_jump(jump_idx);
        proof {
            self.lemma_follows_patched(&s7, old(self), jump_idx as int);
        }
        let ghost s8 = *self;
        self.emit_byte(OpCode::Pop);
        proof {
            self.lemma_follows_trans(&s8, old(self));
        }
    }

    /// Parses the initializer of a `for` statement: nothing, a variable
    /// declaration, or an expression statement.
    #[verifier::spinoff_prover]
    fn for_initializer(&mut self)
        requires
            old(self).wf(),
        ensures
            final(self).follows(old(self)),
            final(self)@ == old(self)@.for_initializer(),
        decreases old(self).left(), 27int,
    {
        reveal(Parser::wf);
        reveal(Parser::left);
        reveal(ParserModel::left);
        reveal(Parser::advances);
        reveal(Parser::follows);
        reveal(ParserModel::match_token);
        self.consume(TokenType::LeftParen, "Expect '(' after 'for'.");
        let ghost s1 = *self;
        if self.match_token(TokenType::Semicolon) {
            proof {
                self.lemma_follows_trans(&s1, old(self));
            }
        } else {
            let ghost s2 = *self;
            if self.match_token(TokenType::Var) {
                let ghost s3 = *self;
                self.var_statement();
                proof {
                    self.lemma_follows_trans(&s3, &s2);
                }
            } else {
                let ghost s3 = *self;
                self.expression_statement();
                proof {
                    self.lemma_follows_trans(&s3, &s2);
                }
            }
            proof {
                self.lemma_follows_trans(&s2, &s1);
                self.lemma_follows_trans(&s1, old(self));
            }
        }
    }

    /// Parses the condition of a `for` statement, when there is one, and
    /// returns the index of the conditional jump out of the loop.
    #[verifier::spinoff_prover]
    fn for_condition(&mut self) -> (exit_jump: Option<usize>)
        requires
            old(self).wf(),
        ensures
            final(self).follows(old(self)),
            (final(self)@, exit_jump) == old(self)@.for_condition(),
            exit_jump is Some ==> old(self).code().len() <= exit_jump.unwrap() < final(self).code().len(),
        decreases old(self).left(), 27int,
    {
        reveal(Parser::wf);
        reveal(Parser::advances);
        reveal(Parser::follows);
        reveal(ParserModel::match_token);
        if self.match_token(TokenType::Semicolon) {
            return None;
        }
        let ghost s1 = *self;
        self.expression();
        proof {
            self.lemma_follows_trans(&s1, old(self));
        }
        let ghost s2 = *self;
        self.consume(TokenType::Semicolon, "Expect ';' after loop condition.");
        proof {
            self.lemma_follows_trans(&s2, old(self));
        }
        let ghost s3 = *self;
        let exit = self.emit_jump(OpCode::JumpIfFalse(0));
        proof {
            self.lemma_follows_trans(&s3, old(self));
        }
        let ghost s4 = *self;
        self.emit_byte(OpCode::Pop);
        proof {
            self.lemma_follows_trans(&s4, old(self));
            assert(is_prefix(old(self).code(), s3.code()));
        }
        Some(exit)
    }

    /// Parses the increment of a `for` statement, when there is one. It is
    /// jumped over on the way to the body and jumps back to `loop_start`.
    /// Returns where the body jumps back to: the increment, or `loop_start`
    /// when there is none.
    #[verifier::spinoff_prover]
    fn for_increment(&mut self, loop_start: usize) -> (again: usize)
        requires
            old(self).wf(),
            loop_start <= old(self).code().len(),
        ensures
            final(self).follows(old(self)),
            (final(self)@, again) == old(self)@.for_increment(loop_start),
            again <= final(self).code().len(),
        decreases old(self).left(), 27int,
    {
        reveal(Parser::wf);
        reveal(ParserModel::left);
        reveal(Parser::advances);
        reveal(Parser::follows);
        reveal(ParserModel::match_token);
        if self.match_token(TokenType::RightParen) {
            return loop_start;
        }
        let ghost s1 = *self;
        let body_jump = self.emit_jump(OpCode::Jump(0));
        proof {
            self.lemma_follows_trans(&s1, old(self));
        }
        let increment_start = self.code_len();
        let ghost s2 = *self;
        self.expression();
        proof {
            self.lemma_follows_trans(&s2, old(self));
        }
        let ghost s3 = *self;
        self.emit_byte(OpCode::Pop);
        proof {
            self.lemma_follows_trans(&s3, old(self));
        }
        let ghost s4 = *self;
        self.consume(TokenType::RightParen, "Expect ')' after for clauses.");
        proof {
            self.lemma_follows_trans(&s4, old(self));
            assert(is_prefix(old(self).code(), self.code()));
        }
        let ghost s5 = *self;
        self.emit_loop(loop_start);
        proof {
            self.lemma_follows_trans(&s5, old(self));
            assert(is_prefix(s2.code(), s5.code())) by {
                s5.lemma_follows_trans(&s4, &s3);
                s5.lemma_follows_trans(&s3, &s2);
            }
        }
        let ghost s6 = *self;
        self.patch_jump(body_jump);
        proof {
            self.lemma_follows_patched(&s6, old(self), body_jump as int);
        }
        increment_start
    }

    /// Compiles the body of a `for` statement and the jumps that close the
    /// loop; the conditional jump out of the loop, when there is one, gets
    /// its target.
    #[verifier::spinoff_prover]
    fn for_body(&mut self, loop_start: usize, exit_jump: Option<usize>)
        requires
            old(self).wf(),
            loop_start <= old(self).code().len(),
            exit_jump is Some ==> exit_jump.unwrap() < old(self).code().len(),
        ensures
            match exit_jump {
                Some(exit) => final(self).follows_but(old(self), exit as int),
                None => final(self).follows(old(self)),
            },
            final(self)@ == old(self)@.statement().for_close(loop_start, exit_jump),
        decreases old(self).left(), 27int,
    {
        reveal(ParserModel::for_close);
        self.statement();
        let ghost s1 = *self;
        proof {
            s1.lemma_follows_basics(old(self));
        }
        self.emit_loop(loop_start);
        proof {
            self.lemma_follows_trans(&s1, old(self));
            self.lemma_follows_basics(old(self));
        }
        match exit_jump {
            Some(exit) => {
                let ghost s2 = *self;
                self.patch_if_false_jump(exit);
                proof {
                    self.lemma_patch_after_follows(&s2, old(self), exit as int);
                }
                let ghost s3 = *self;
                self.emit_byte(OpCode::Pop);
                proof {
                    self.lemma_follows_after_patch(&s3, old(self), exit as int);
                }
            },
            None => {},
        }
    }

    /// The clauses and the body of a `for` statement, inside its scope.
    #[verifier::spinoff_prover]
    fn for_clauses(&mut self, Ghost(limit): Ghost<ParserModel>)
        requires
            old(self).wf(),
            old(self)@.within(limit),
        ensures
            final(self).follows(old(self)),
            final(self)@ == old(self)@.for_clauses(limit),
        decreases old(self).left(), 28int,
    {
        self.for_initializer();
        let ghost s1 = *self;
        proof {
            self.lemma_follows_basics(old(self));
            assert(s1@.within(limit));
            s1.lemma_wf_basics();
        }
        let loop_start = self.code_len();
        let exit_jump = self.for_condition();
        let ghost s2 = *self;
        proof {
            s2.lemma_follows_basics(&s1);
            self.lemma_follows_trans(&s1, old(self));
            assert(s2@.within(limit));
        }
        let again = self.for_increment(loop_start);
        let ghost s3 = *self;
        proof {
            s3.lemma_follows_basics(&s2);
            self.lemma_follows_trans(&s2, old(self));
            assert(s3@.within(limit));
            old(self)@.lemma_for_clauses(limit);
        }
        self.for_body(again, exit_jump);
        proof {
            match exit_jump {
                Some(exit) => {
                    self.lemma_follows_patched(&s3, old(self), exit as int);
                },
                None => {
                    self.lemma_follows_trans(&s3, old(self));
                },
            }
        }
    }

    /// Compiles a `for` statement as a scope of its own: the initializer;
    /// the condition with a conditional jump out of the loop; the increment,
    /// which the first pass jumps over and which jumps back to the condition;
    /// and the body, which jumps back to the increment.
    #[verifier::spinoff_prover]
    fn for_statement(&mut self)
        requires
            old(self).wf(),
        ensures
            final(self).follows(old(self)),
            final(self)@ == old(self)@.for_statement(),
        decreases old(self).left(), 29int,
    {
        reveal(Parser::wf);
        reveal(Parser::left);
        reveal(ParserModel::left);
        reveal(Parser::follows);
        let opened = self.begin_scope();
        let ghost scoped = *self;
        self.for_clauses(Ghost(old(self)@));
        if opened {
            self.end_scope_after(Ghost(scoped), Ghost(*old(self)));
        } else {
            proof {
                self.lemma_follows_trans(&scoped, old(self));
            }
        }
    }

    /// After a scope was opened in `entry`, giving `scoped`, and closed in
    /// `closing`, the parser follows `entry`.
    pub proof fn lemma_scope_closed(&self, closing: &Self, scoped: &Self, entry: &Self)
        requires
            entry.wf(),
            scoped.wf(),
            scoped.scanner == entry.scanner,
            scoped.current == entry.current,
            scoped.errors == entry.errors,
            scoped.compilers@.len() == entry.compilers@.len(),
            forall|i: int|
                0 <= i < scoped.compilers@.len() - 1 ==> #[trigger] scoped.compilers@[i]
                    == entry.compilers@[i],
            scoped.top().function == entry.top().function,
            scoped.top().function_type == entry.top().function_type,
            scoped.top().scope_depth > 0,
            scoped.top().scope_depth - 1 == entry.top().scope_depth,
            closing.follows(scoped),
            self.wf(),
            self.scanner == closing.scanner,
            self.current == closing.current,
            self.errors == closing.errors,
            self.compilers@.len() == closing.compilers@.len(),
            forall|i: int|
                0 <= i < self.compilers@.len() - 1 ==> #[trigger] self.compilers@[i]
                    == closing.compilers@[i],
            self.top().function_type == closing.top().function_type,
            self.top().scope_depth == closing.top().scope_depth - 1,
            is_prefix(closing.code(), self.code()),
            self.top().function.chunk.constants == closing.top().function.chunk.constants,
            self.top().function.upvalues == closing.top().function.upvalues,
        ensures
            self.follows(entry),
    {
        reveal(Parser::wf);
        reveal(Parser::left);
        reveal(Parser::advances);
        reveal(Parser::follows);
        reveal(Parser::keeps_pools);
        assert forall|i: int| 0 <= i < self.compilers@.len() implies {
            &&& (#[trigger] self.compilers@[i]).scope_depth == entry.compilers@[i].scope_depth
            &&& self.compilers@[i].function_type == entry.compilers@[i].function_type
            &&& is_prefix(
                entry.compilers@[i].function.chunk.code@,
                self.compilers@[i].function.chunk.code@,
            )
            &&& is_prefix(
                entry.compilers@[i].function.chunk.constants@,
                self.compilers@[i].function.chunk.constants@,
            )
            &&& entry.compilers@[i].function.upvalues@.len()
                <= self.compilers@[i].function.upvalues@.len()
        } by {
            let a = scoped.compilers@[i].function.chunk.code@;
            let b = closing.compilers@[i].function.chunk.code@;
            let c = self.compilers@[i].function.chunk.code@;
            assert(is_prefix(a, b));
            assert(is_prefix(
                scoped.compilers@[i].function.chunk.constants@,
                closing.compilers@[i].function.chunk.constants@,
            ));
            if i < self.compilers@.len() - 1 {
                assert(self.compilers@[i] == closing.compilers@[i]);
                assert(scoped.compilers@[i] == entry.compilers@[i]);
            } else {
                assert(c.take(a.len() as int) =~= b.take(a.len() as int));
            }
        }
    }

    /// Compiles a function: a new compilation is begun for it; its
    /// parameters and its body are read; and the finished prototype becomes a
    /// constant of the enclosing function, which makes a closure of it.
    #[verifier::spinoff_prover]
    fn function(&mut self, kind: FunctionType)
        requires
            old(self).wf(),
        ensures
            final(self).follows(old(self)),
            final(self)@ == old(self)@.function(kind),
        decreases old(self).left(), 27int,
    {
        self.begin_function(kind);
        let ghost scoped = *self;
        proof {
            scoped.lemma_wf_basics();
            old(self).lemma_wf_basics();
        }
        self.function_body();
        proof {
            assert(scoped@.function_head().within(old(self)@));
            old(self)@.lemma_function(kind);
        }
        self.end_function(Ghost(scoped), Ghost(*old(self)));
    }

    /// Parses the parameters and the body of a function, behind the
    /// parenthesis that opens the parameters.
    #[verifier::spinoff_prover]
    fn function_body(&mut self)
        requires
            old(self).wf(),
            old(self).compilers@.len() >= 2,
        ensures
            final(self).follows(old(self)),
            final(self)@ == old(self)@.function_head().block(),
            old(self)@.function_head().within(old(self)@),
        decreases old(self).left(), 26int,
    {
        self.function_head();
        let ghost headed = *self;
        proof {
            headed.lemma_wf_basics();
            old(self).lemma_wf_basics();
        }
        self.block();
        proof {
            self.lemma_follows_trans(&headed, old(self));
        }
    }

    /// Parses the parameters of a function, the parenthesis that closes them
    /// and the brace that opens the body.
    fn function_head(&mut self)
        requires
            old(self).wf(),
            old(self).compilers@.len() >= 2,
        ensures
            final(self).follows(old(self)),
            final(self).wf(),
            final(self).left() <= old(self).left(),
            final(self)@.within(old(self)@),
            final(self)@ == old(self)@.function_head(),
    {
        reveal(ParserModel::function_head);
        self.parameters();
        proof {
            self.lemma_follows_basics(old(self));
        }
        let ghost s4 = *self;
        self.consume(TokenType::RightParen, "Expect ')' after function name.");
        proof {
            self.lemma_follows_trans(&s4, old(self));
            self.lemma_follows_basics(old(self));
        }
        let ghost s5 = *self;
        self.consume(TokenType::LeftBrace, "Expect '{' before function body.");
        proof {
            self.lemma_follows_trans(&s5, old(self));
            self.lemma_follows_basics(old(self));
        }
    }

    /// Compiles a function declaration: the name, which is usable inside
    /// the function already, and the function.
    #[verifier::spinoff_prover]
    fn fun_statement(&mut self, kind: FunctionType)
        requires
            old(self).wf(),
        ensures
            final(self).follows(old(self)),
            final(self)@ == old(self)@.fun_statement(kind),
        decreases old(self).left(), 28int,
    {
        reveal(Parser::wf);
        reveal(Parser::left);
        reveal(ParserModel::left);
        reveal(Parser::advances);
        reveal(Parser::follows);
        let index = self.variable("Expect function name.");
        let ghost s1 = *self;
        self.mark_initialized();
        proof {
            self.lemma_follows_trans(&s1, old(self));
        }
        let ghost s2 = *self;
        self.function(kind);
        proof {
            self.lemma_follows_trans(&s2, old(self));
            self.lemma_follows_trans(&s2, &s1);
            self.lemma_pool_keeps(&s1, index);
        }
        let ghost s3 = *self;
        self.define_variable(index);
        proof {
            self.lemma_follows_trans(&s3, old(self));
        }
    }

    /// Compiles a `return` statement; at the top level of a script it is
    /// reported.
    #[verifier::spinoff_prover]
    fn return_statement(&mut self)
        requires
            old(self).wf(),
        ensures
            final(self).follows(old(self)),
            final(self)@ == old(self)@.return_statement(),
        decreases old(self).left(), 18int,
    {
        reveal(Parser::wf);
        reveal(ParserModel::left);
        reveal(Parser::advances);
        reveal(Parser::follows);
        reveal(ParserModel::match_token);
        let n = self.compilers.len();
        if self.compilers[n - 1].function_type == FunctionType::Script {
            self.error_at_current("Cannot return a value from an initializer.");
        } else {
            proof {
                lemma_prefix_refl(self.errors@);
                self.lemma_follows_frame(old(self));
            }
        }
        let ghost s1 = *self;
        if self.match_token(TokenType::Semicolon) {
            proof {
                self.lemma_follows_trans(&s1, old(self));
            }
            let ghost s2 = *self;
            self.emit_return();
            proof {
                self.lemma_follows_trans(&s2, old(self));
            }
        } else {
            proof {
                self.lemma_follows_trans(&s1, old(self));
            }
            let ghost s2 = *self;
            self.expression();
            proof {
                self.lemma_follows_trans(&s2, old(self));
            }
            let ghost s3 = *self;
            self.consume(TokenType::Semicolon, "Expect ';' after return value.");
            proof {
                self.lemma_follows_trans(&s3, old(self));
            }
            let ghost s4 = *self;
            self.emit_byte(OpCode::Return);
            proof {
                self.lemma_follows_trans(&s4, old(self));
            }
        }
    }

    /// Compiles a block in a scope of its own; the opening brace has been
    /// passed.
    #[verifier::spinoff_prover]
    fn scoped_block(&mut self, Ghost(limit): Ghost<ParserModel>)
        requires
            old(self).wf(),
            old(self)@.beyond(limit),
        ensures
            final(self).follows(old(self)),
            final(self)@ == old(self)@.scoped_block_after(limit),
        decreases old(self).left(), 26int,
    {
        reveal(Parser::wf);
        reveal(Parser::left);
        reveal(ParserModel::left);
        reveal(Parser::follows);
        let opened = self.begin_scope();
        let ghost scoped = *self;
        self.block();
        if opened {
            self.end_scope_after(Ghost(scoped), Ghost(*old(self)));
        } else {
            proof {
                self.lemma_follows_trans(&scoped, old(self));
            }
        }
    }

    /// Compiles a statement: a `print` statement, a block in a scope of its
    /// own, or an expression statement.
    #[verifier::spinoff_prover]
    fn statement(&mut self)
        requires
            old(self).wf(),
        ensures
            final(self).follows(old(self)),
            final(self)@ == old(self)@.statement(),
            old(self).current.t_type != TokenType::Eof ==> final(self).left() < old(self).left(),
        decreases old(self).left(), 17int,
    {
        reveal(Parser::wf);
        reveal(Parser::left);
        reveal(ParserModel::left);
        reveal(Parser::advances);
        reveal(Parser::follows);
        reveal(ParserModel::match_token);
        if self.match_token(TokenType::Print) {
            let ghost s1 = *self;
            self.print(true);
            proof {
                self.lemma_follows_trans(&s1, old(self));
            }
        } else if self.match_token(TokenType::LeftBrace) {
            let ghost s1 = *self;
            self.scoped_block(Ghost(old(self)@));
            proof {
                self.lemma_follows_trans(&s1, old(self));
            }
        } else {
            self.expression_statement();
        }
    }

    /// Compiles the statement that a declaration is, by its first token.
    #[verifier::spinoff_prover]
    fn declared(&mut self)
        requires
            old(self).wf(),
        ensures
            final(self).follows(old(self)),
            final(self)@ == old(self)@.declared(),
            old(self).current.t_type != TokenType::Eof ==> final(self).left() < old(self).left(),
        decreases old(self).left(), 19int,
    {
        reveal(Parser::wf);
        reveal(Parser::left);
        reveal(ParserModel::left);
        reveal(Parser::advances);
        reveal(Parser::follows);
        reveal(ParserModel::match_token);
        if self.match_token(TokenType::Var) {
            let ghost s1 = *self;
            self.var_statement();
            proof {
                self.lemma_follows_trans(&s1, old(self));
            }
        } else if self.match_token(TokenType::If) {
            let ghost s1 = *self;
            self.if_statement();
            proof {
                self.lemma_follows_trans(&s1, old(self));
            }
        } else if self.match_token(TokenType::While) {
            let ghost s1 = *self;
            self.while_statement();
            proof {
                self.lemma_follows_trans(&s1, old(self));
            }
        } else if self.match_token(TokenType::For) {
            let ghost s1 = *self;
            self.for_statement();
            proof {
                self.lemma_follows_trans(&s1, old(self));
            }
        } else if self.match_token(TokenType::Fun) {
            let ghost s1 = *self;
            self.fun_statement(FunctionType::Function);
            proof {
                self.lemma_follows_trans(&s1, old(self));
            }
        } else if self.match_token(TokenType::Return) {
            let ghost s1 = *self;
            self.return_statement();
            proof {
                self.lemma_follows_trans(&s1, old(self));
            }
        } else {
            self.statement();
        }
    }

    /// Compiles a declaration: a variable, a function, or a statement.
    /// Afterwards, when an error was found, the parser skips to the next
    /// statement boundary.
    #[verifier::spinoff_prover]
    fn declaration(&mut self)
        requires
            old(self).wf(),
        ensures
            final(self).follows(old(self)),
            final(self)@ == old(self)@.declaration(),
            old(self).current.t_type != TokenType::Eof ==> final(self).left() < old(self).left(),
        decreases old(self).left(), 20int,
    {
        reveal(Parser::wf);
        reveal(Parser::advances);
        reveal(Parser::follows);
        self.declared();
        if self.panic_mode {
            let ghost s2 = *self;
            self.synchronize();
            proof {
                self.lemma_follows_trans(&s2, old(self));
            }
        }
    }

    /// Ends the compilation: the script returns `nil`; the prototype comes
    /// back when no error was found, and the errors otherwise.
    pub fn end_compiler(self) -> (result: Result<ObjFunction, Vec<CompileError>>)
        requires
            self.wf(),
            self.compilers@.len() == 1,
        ensures
            match result {
                Ok(function) => {
                    &&& !self.had_error
                    &&& function.sound()
                    &&& function.arity == 0
                    &&& function.upvalues@.len() == 0
                    &&& function.name == self.top().function.name
                    &&& function.chunk.code@ == self.code().push(OpCode::Nil).push(OpCode::Return)
                    &&& function.chunk.constants == self.top().function.chunk.constants
                    &&& self@.end_compiler() == Ok::<FunctionModel, Seq<ErrorModel>>(
                        function_model(function),
                    )
                },
                Err(errors) => self.had_error && errors@ == self.errors@ && errors@.len() > 0
                    && self@.end_compiler() == Err::<FunctionModel, Seq<ErrorModel>>(
                    error_models(errors@),
                ),
            },
    {
        reveal(Parser::wf);
        reveal(Parser::advances);
        reveal(Parser::follows);
        reveal(ParserModel::end_compiler);
        let mut parser = self;
        let ghost length = parser.source().len() as int;
        let ghost before = parser;
        parser.emit_return();
        proof {
            assert(before.compilers@[0].wf(length));
            lemma_sealed(before.code(), parser.code());
            assert(parser.compilers@[0].wf(length));
        }
        if !parser.had_error {
            let ghost sealed = parser;
            let done = parser.compilers.pop().unwrap();
            proof {
                assert(done == sealed.compilers@[0]);
                assert(sealed@.top() == done@);
            }
            Ok(done.function)
        } else {
            Err(parser.errors)
        }
    }

    /// Compiles the source into the prototype of the script. It returns the
    /// prototype when no error was found, and otherwise the errors in the
    /// order in which they were found.
    pub fn compile(self) -> (result: Result<ObjFunction, Vec<CompileError>>)
        requires
            self.wf(),
            self.compilers@.len() == 1,
        ensures
            match result {
                Ok(function) => function.sound() && function.arity == 0
                    && function.upvalues@.len() == 0 && self@.compile() == Ok::<
                    FunctionModel,
                    Seq<ErrorModel>,
                >(function_model(function)),
                Err(errors) => errors@.len() > 0 && is_prefix(self.errors@, errors@)
                    && self@.compile() == Err::<FunctionModel, Seq<ErrorModel>>(error_models(errors@)),
            },
    {
        reveal(Parser::wf);
        reveal(Parser::advances);
        reveal(Parser::follows);
        reveal(ParserModel::compile);
        let ghost entry = self;
        let mut parser = self;
        parser.next_valid_token();
        let ghost started = parser;
        while parser.current.t_type != TokenType::Eof
            invariant
                parser.follows(&entry),
                parser.compilers@.len() == 1,
                parser@.script_loop() == started@.script_loop(),
            decreases parser.left(),
        {
            let ghost s1 = parser;
            proof {
                s1.lemma_follows_basics(&entry);
            }
            parser.declaration();
            proof {
                parser.lemma_follows_basics(&s1);
                parser.lemma_follows_trans(&s1, &entry);
                assert(parser@.beyond(s1@));
                assert(s1@.script_loop() == parser@.script_loop());
            }
        }
        let ghost s2 = parser;
        parser.next_valid_token();
        proof {
            parser.lemma_follows_trans(&s2, &entry);
        }
        parser.end_compiler()
    }
}

/// The name of the function that holds the top level of a script.
fn script_name() -> (name: Vec<u8>)
    ensures
        name@ == seq![115u8, 99, 114, 105, 112, 116],
{
    let mut name: Vec<u8> = Vec::new();
    name.push(115);
    name.push(99);
    name.push(114);
    name.push(105);
    name.push(112);
    name.push(116);
    proof {
        assert(name@ =~= seq![115u8, 99, 114, 105, 112, 116]);
    }
    name
}

} // verus!
