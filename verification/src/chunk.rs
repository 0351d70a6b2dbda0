//! The compiled body of one function: instructions, constants, source lines.

use vstd::prelude::*;
use vstd::string::StringSliceAdditionalSpecFns;
use std::rc::Rc;
use crate::objects::ObjFunction;
use crate::op_code::OpCode;
use crate::utils::{append, append_str, decimal, spec_decimal};

verus! {

/// A constant of a chunk.
#[derive(Debug)]
pub enum Constant {
    /// A number, as the bit pattern of a double.
    Number(u64),
    /// A number as it was written in the source: decimal digits, optionally
    /// followed by a dot and more digits.
    Numeral(Vec<u8>),
    /// The bytes of a string literal or of a name.
    Text(Vec<u8>),
    /// The prototype of a nested function.
    Function(Rc<ObjFunction>),
}

/// A function body.
#[derive(Debug)]
pub struct Chunk {
    /// The instructions.
    pub code: Vec<OpCode>,
    /// The constants that the instructions refer to by index.
    pub constants: Vec<Constant>,
    /// For each instruction, the source line that produced it.
    pub lines: Vec<usize>,
}

/// One instruction, taken apart for display: where it stands, the source
/// line it came from, its name, its operand, and what the constant says
/// that the operand addresses, when the instruction works on constants.
#[derive(Debug)]
pub struct Listing {
    pub offset: usize,
    pub line: usize,
    pub name: &'static str,
    pub operand: Option<usize>,
    pub constant: Option<Vec<u8>>,
}

/// What a listing shows for a constant: a numeral or a text as it is, the
/// name of a function, and a fixed word for a number that is held as a bit
/// pattern.
pub open spec fn spec_constant_text(constant: Constant) -> Seq<u8> {
    match constant {
        Constant::Number(_) => "number".spec_bytes(),
        Constant::Numeral(text) => text@,
        Constant::Text(text) => text@,
        Constant::Function(function) => function.name.value@,
    }
}

/// What a listing shows beside the instruction: the text of the constant
/// that the operand addresses, for the instructions that work on constants.
pub open spec fn spec_listed_constant(op: OpCode, constants: Seq<Constant>) -> Option<Seq<u8>> {
    match op {
        OpCode::Constant(ix) | OpCode::Closure(ix) | OpCode::DefineGlobal(ix) | OpCode::GetGlobal(ix)
        | OpCode::SetGlobal(ix) => if ix < constants.len() {
            Some(spec_constant_text(constants[ix as int]))
        } else {
            None
        },
        _ => None,
    }
}

/// The line of a listing: the name and the line of the instruction, then its
/// operand, then the constant that the operand addresses.
pub open spec fn spec_render(
    name: Seq<u8>,
    line: usize,
    operand: Option<usize>,
    constant: Option<Seq<u8>>,
) -> Seq<u8> {
    let head = "OP CODE:".spec_bytes() + name + " - Line number ".spec_bytes() + spec_decimal(
        line as nat,
    );
    match operand {
        None => head,
        Some(index) => {
            let middle = head + " - Constant pool index:".spec_bytes() + spec_decimal(index as nat);
            match constant {
                None => middle,
                Some(text) => middle + " and the value:".spec_bytes() + text,
            }
        },
    }
}

impl Listing {
    /// The line of text that shows the instruction.
    pub fn render(&self) -> (text: Vec<u8>)
        ensures
            text@ == spec_render(
                self.name.spec_bytes(),
                self.line,
                self.operand,
                match self.constant {
                    Some(constant) => Some(constant@),
                    None => None,
                },
            ),
    {
        let mut text: Vec<u8> = Vec::new();
        append_str(&mut text, "OP CODE:");
        append_str(&mut text, self.name);
        append_str(&mut text, " - Line number ");
        let line = decimal(self.line);
        append(&mut text, line.as_slice());
        proof {
            assert(Seq::<u8>::empty() + "OP CODE:".spec_bytes() =~= "OP CODE:".spec_bytes());
        }
        match self.operand {
            None => {},
            Some(index) => {
                append_str(&mut text, " - Constant pool index:");
                let digits = decimal(index);
                append(&mut text, digits.as_slice());
                match &self.constant {
                    None => {},
                    Some(constant) => {
                        append_str(&mut text, " and the value:");
                        append(&mut text, constant.as_slice());
                    },
                }
            },
        }
        text
    }
}

/// Where control goes from the instruction at `at`, when it is a jump.
pub open spec fn jump_target(op: OpCode, at: int) -> Option<int> {
    match op {
        OpCode::Jump(o) | OpCode::JumpIfFalse(o) => Some(at + 1 + o),
        OpCode::Loop(o) => Some(at - o),
        _ => None,
    }
}

/// What the compiler emits for `e1 and e2` behind the code of `e1`, from `at`
/// up to `end`: a conditional jump to `end`, a `Pop`, and the code of `e2`.
pub open spec fn and_code(code: Seq<OpCode>, at: int, end: int) -> bool {
    &&& 0 <= at
    &&& at + 2 <= end <= code.len()
    &&& code[at] is JumpIfFalse
    &&& jump_target(code[at], at) == Some(end)
    &&& code[at + 1] == OpCode::Pop
}

/// What the compiler emits for `e1 or e2` behind the code of `e1`, from `at`
/// up to `end`: a conditional jump over the next instruction, a jump to
/// `end`, a `Pop`, and the code of `e2`.
pub open spec fn or_code(code: Seq<OpCode>, at: int, end: int) -> bool {
    &&& 0 <= at
    &&& at + 3 <= end <= code.len()
    &&& code[at] == OpCode::JumpIfFalse(1)
    &&& code[at + 1] is Jump
    &&& jump_target(code[at + 1], at + 1) == Some(end)
    &&& code[at + 2] == OpCode::Pop
}

/// Every jump among the instructions lands between index 0 and `bound`,
/// inclusive.
pub open spec fn jumps_within(code: Seq<OpCode>, bound: int) -> bool {
    forall|i: int|
        0 <= i < code.len() ==> match jump_target(#[trigger] code[i], i) {
            Some(t) => 0 <= t <= bound,
            None => true,
        }
}

/// The operand of the instruction is in range: a constant index addresses a
/// constant of the kind that the instruction works on, a local slot lies in
/// the window of a frame, an upvalue index addresses one of `upvalues`
/// upvalues, and a call passes at most 255 arguments.
pub open spec fn operand_ok(op: OpCode, constants: Seq<Constant>, upvalues: int) -> bool {
    match op {
        OpCode::Constant(ix) => ix < constants.len() && !(constants[ix as int] is Function),
        OpCode::Closure(ix) => ix < constants.len() && constants[ix as int] is Function,
        OpCode::DefineGlobal(ix) | OpCode::GetGlobal(ix) | OpCode::SetGlobal(ix) => ix
            < constants.len() && constants[ix as int] is Text,
        OpCode::GetLocal(slot) | OpCode::SetLocal(slot) => 1 <= slot <= 256,
        OpCode::GetUpvalue(ix) | OpCode::SetUpvalue(ix) => ix < upvalues,
        OpCode::Call(argc) => argc <= 255,
        _ => true,
    }
}

/// Every operand among the instructions is in range.
pub open spec fn operands_within(code: Seq<OpCode>, constants: Seq<Constant>, upvalues: int) -> bool {
    forall|i: int| 0 <= i < code.len() ==> operand_ok(#[trigger] code[i], constants, upvalues)
}

/// An operand that is in range stays in range when constants and upvalues are
/// added.
pub proof fn lemma_operand_ok_grows(
    op: OpCode,
    constants: Seq<Constant>,
    upvalues: int,
    more_constants: Seq<Constant>,
    more_upvalues: int,
)
    requires
        operand_ok(op, constants, upvalues),
        constants.len() <= more_constants.len(),
        forall|k: int| 0 <= k < constants.len() ==> more_constants[k] == constants[k],
        upvalues <= more_upvalues,
    ensures
        operand_ok(op, more_constants, more_upvalues),
{
}

impl Chunk {
    /// Each instruction has its line.
    pub open spec fn aligned(&self) -> bool {
        self.lines@.len() == self.code@.len()
    }

    /// Every jump lands on an instruction of the chunk.
    pub open spec fn jumps_land(&self) -> bool {
        jumps_within(self.code@, self.code@.len() - 1)
    }

    /// An empty chunk.
    pub fn new() -> (chunk: Self)
        ensures
            chunk.code@.len() == 0,
            chunk.constants@.len() == 0,
            chunk.lines@.len() == 0,
    {
        Chunk { code: Vec::new(), constants: Vec::new(), lines: Vec::new() }
    }

    /// Appends an instruction together with its line.
    pub fn write_to_chunk(&mut self, value: OpCode, line: usize)
        ensures
            final(self).code@ == old(self).code@.push(value),
            final(self).lines@ == old(self).lines@.push(line),
            final(self).constants == old(self).constants,
    {
        self.push_instruction(value);
        self.push_line(line);
    }

    /// Appends a constant and returns its index.
    pub fn push_constant(&mut self, constant: Constant) -> (index: usize)
        ensures
            index == old(self).constants@.len(),
            final(self).constants@ == old(self).constants@.push(constant),
            final(self).code == old(self).code,
            final(self).lines == old(self).lines,
    {
        self.constants.push(constant);
        self.constants.len() - 1
    }

    /// The number of instructions.
    pub fn len(&self) -> (n: usize)
        ensures
            n == self.code@.len(),
    {
        self.code.len()
    }

    /// Whether the chunk holds no instruction.
    pub fn is_empty(&self) -> (empty: bool)
        ensures
            empty == (self.code@.len() == 0),
    {
        self.code.len() == 0
    }

    /// Appends an instruction without a line.
    pub fn push_instruction(&mut self, value: OpCode)
        ensures
            final(self).code@ == old(self).code@.push(value),
            final(self).lines == old(self).lines,
            final(self).constants == old(self).constants,
    {
        self.code.push(value);
    }

    /// Appends a line without an instruction.
    pub fn push_line(&mut self, line: usize)
        ensures
            final(self).lines@ == old(self).lines@.push(line),
            final(self).code == old(self).code,
            final(self).constants == old(self).constants,
    {
        self.lines.push(line);
    }

    /// Replaces the instruction at `at`.
    pub fn patch(&mut self, at: usize, value: OpCode)
        requires
            at < old(self).code@.len(),
        ensures
            final(self).code@ == old(self).code@.update(at as int, value),
            final(self).lines == old(self).lines,
            final(self).constants == old(self).constants,
    {
        self.code[at] = value;
    }

    /// Takes the instruction at `offset` apart: its offset, its line, its
    /// name, its operand, and the constant that the operand addresses.
    pub fn disassemble_instruction(&self, offset: usize) -> (listing: Listing)
        requires
            offset < self.code@.len(),
            self.aligned(),
        ensures
            listing.offset == offset,
            listing.line == self.lines@[offset as int],
            listing.name@ == self.code@[offset as int].spec_mnemonic(),
            listing.operand == self.code@[offset as int].spec_operand(),
            match listing.constant {
                Some(text) => spec_listed_constant(self.code@[offset as int], self.constants@)
                    == Some(text@),
                None => spec_listed_constant(self.code@[offset as int], self.constants@) is None,
            },
    {
        let op = self.code[offset];
        let constant = match op {
            OpCode::Constant(ix) | OpCode::Closure(ix) | OpCode::DefineGlobal(ix)
            | OpCode::GetGlobal(ix) | OpCode::SetGlobal(ix) => {
                if ix < self.constants.len() {
                    Some(self.constant_instruction(ix))
                } else {
                    None
                }
            },
            _ => None,
        };
        Listing { offset, line: self.lines[offset], name: op.mnemonic(), operand: op.operand(), constant }
    }

    /// What a listing shows for the constant at `index`.
    pub fn constant_instruction(&self, index: usize) -> (text: Vec<u8>)
        requires
            index < self.constants@.len(),
        ensures
            text@ == spec_constant_text(self.constants@[index as int]),
    {
        let mut text: Vec<u8> = Vec::new();
        match &self.constants[index] {
            Constant::Number(_) => {
                append_str(&mut text, "number");
                proof {
                    assert(Seq::<u8>::empty() + "number".spec_bytes() =~= "number".spec_bytes());
                }
            },
            Constant::Numeral(numeral) => {
                append(&mut text, numeral.as_slice());
                proof {
                    assert(Seq::<u8>::empty() + numeral@ =~= numeral@);
                }
            },
            Constant::Text(held) => {
                append(&mut text, held.as_slice());
                proof {
                    assert(Seq::<u8>::empty() + held@ =~= held@);
                }
            },
            Constant::Function(function) => {
                append(&mut text, function.name.value.as_slice());
                proof {
                    assert(Seq::<u8>::empty() + function.name.value@ =~= function.name.value@);
                }
            },
        }
        text
    }

    /// Takes every instruction apart, in order.
    pub fn disassemble_chunk(&self) -> (listings: Vec<Listing>)
        requires
            self.aligned(),
        ensures
            listings@.len() == self.code@.len(),
            forall|i: int|
                0 <= i < listings@.len() ==> {
                    &&& (#[trigger] listings@[i]).offset == i
                    &&& listings@[i].line == self.lines@[i]
                    &&& listings@[i].name@ == self.code@[i].spec_mnemonic()
                    &&& listings@[i].operand == self.code@[i].spec_operand()
                    &&& match listings@[i].constant {
                        Some(text) => spec_listed_constant(self.code@[i], self.constants@) == Some(
                            text@,
                        ),
                        None => spec_listed_constant(self.code@[i], self.constants@) is None,
                    }
                },
    {
        let mut listings: Vec<Listing> = Vec::new();
        let mut offset: usize = 0;
        while offset < self.code.len()
            invariant
                offset <= self.code@.len(),
                self.aligned(),
                listings@.len() == offset,
                forall|i: int|
                    0 <= i < listings@.len() ==> {
                        &&& (#[trigger] listings@[i]).offset == i
                        &&& listings@[i].line == self.lines@[i]
                        &&& listings@[i].name@ == self.code@[i].spec_mnemonic()
                        &&& listings@[i].operand == self.code@[i].spec_operand()
                        &&& match listings@[i].constant {
                            Some(text) => spec_listed_constant(self.code@[i], self.constants@)
                                == Some(text@),
                            None => spec_listed_constant(self.code@[i], self.constants@) is None,
                        }
                    },
            decreases self.code@.len() - offset,
        {
            listings.push(self.disassemble_instruction(offset));
            offset += 1;
        }
        listings
    }
}

impl Default for Chunk {
    fn default() -> (chunk: Self)
        ensures
            chunk.code@.len() == 0,
            chunk.constants@.len() == 0,
            chunk.lines@.len() == 0,
    {
        Chunk::new()
    }
}

} // verus!
