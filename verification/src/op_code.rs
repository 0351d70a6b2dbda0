//! The instruction set of the virtual machine.

use vstd::prelude::*;

verus! {

/// One instruction. Operands are part of the variant.
#[derive(Clone, Copy, PartialEq, Eq, Debug, Structural)]
pub enum OpCode {
    Add,
    /// Call the value below the given number of arguments.
    Call(usize),
    /// Build a closure from the function constant at the index.
    Closure(usize),
    /// Close the upvalue over the top stack slot, then pop it.
    CloseUpvalue,
    /// Load the constant at the index.
    Constant(usize),
    Divide,
    Equal,
    False,
    /// Global instructions carry the index of the constant that holds the name.
    DefineGlobal(usize),
    DefineLocal,
    SetGlobal(usize),
    GetGlobal(usize),
    /// Local instructions carry a slot of the current frame's window.
    SetLocal(usize),
    GetLocal(usize),
    SetUpvalue(usize),
    GetUpvalue(usize),
    Greater,
    Less,
    /// Rewind the instruction pointer by the offset plus one.
    Loop(u16),
    /// Advance the instruction pointer by the offset.
    Jump(u16),
    /// Advance by the offset when the top of the stack is falsey; pops nothing.
    JumpIfFalse(u16),
    Nil,
    Not,
    Multiply,
    Negative,
    Placeholder,
    Pop,
    Print,
    Return,
    Subtract,
    True,
}

impl OpCode {
    /// A short description of the instruction, as the disassembler shows it.
    pub open spec fn spec_label(self) -> Seq<char> {
        match self {
            OpCode::Add => "add operation"@,
            OpCode::Call(_) => "system call"@,
            OpCode::Closure(_) => "closure"@,
            OpCode::CloseUpvalue => "close upvalue"@,
            OpCode::Constant(_) => "constant"@,
            OpCode::Divide => "divide operation"@,
            OpCode::Equal => "equal operation"@,
            OpCode::False => "false"@,
            OpCode::DefineGlobal(_) => "define global from index"@,
            OpCode::DefineLocal => "define local variable"@,
            OpCode::SetGlobal(_) => "set global variable from index"@,
            OpCode::GetGlobal(_) => "get global variable from index"@,
            OpCode::SetLocal(_) => "set local variable in stack from index"@,
            OpCode::GetLocal(_) => "define local variable in stack from index"@,
            OpCode::SetUpvalue(_) => "set upvalue from index"@,
            OpCode::GetUpvalue(_) => "get upvalue from index"@,
            OpCode::Greater => "greater operation"@,
            OpCode::Less => "less operation"@,
            OpCode::Loop(_) => "loop to offset"@,
            OpCode::Jump(_) => "jump to"@,
            OpCode::JumpIfFalse(_) => "jump to offset"@,
            OpCode::Nil => "nil"@,
            OpCode::Not => "not operation"@,
            OpCode::Multiply => "multiply operation"@,
            OpCode::Negative => "negative operation"@,
            OpCode::Placeholder => "placeholder"@,
            OpCode::Pop => "pop operation"@,
            OpCode::Print => "print operation"@,
            OpCode::Return => "system return"@,
            OpCode::Subtract => "subtract operation"@,
            OpCode::True => "true"@,
        }
    }

    /// The operand of the instruction, if it has one.
    pub open spec fn spec_operand(self) -> Option<usize> {
        match self {
            OpCode::Call(v) | OpCode::Closure(v) | OpCode::Constant(v) | OpCode::DefineGlobal(v)
            | OpCode::SetGlobal(v) | OpCode::GetGlobal(v) | OpCode::SetLocal(v)
            | OpCode::GetLocal(v) | OpCode::SetUpvalue(v) | OpCode::GetUpvalue(v) => Some(v),
            OpCode::Loop(o) | OpCode::Jump(o) | OpCode::JumpIfFalse(o) => Some(o as usize),
            _ => None,
        }
    }

    /// The name of the instruction in a listing.
    pub open spec fn spec_mnemonic(self) -> Seq<char> {
        match self {
            OpCode::Add => "Add"@,
            OpCode::Call(_) => "Call"@,
            OpCode::Closure(_) => "Closure"@,
            OpCode::CloseUpvalue => "CloseUpValue"@,
            OpCode::Constant(_) => "Constant"@,
            OpCode::Divide => "Divide"@,
            OpCode::Equal => "Equal"@,
            OpCode::False => "False"@,
            OpCode::DefineGlobal(_) => "Define Global"@,
            OpCode::DefineLocal => "Define Local"@,
            OpCode::SetGlobal(_) => "Set Global"@,
            OpCode::GetGlobal(_) => "Get Global"@,
            OpCode::SetLocal(_) => "Set Local"@,
            OpCode::GetLocal(_) => "Get Local"@,
            OpCode::SetUpvalue(_) => "Set Upvalue"@,
            OpCode::GetUpvalue(_) => "Get Upvalue"@,
            OpCode::Greater => "Greater"@,
            OpCode::Less => "Less"@,
            OpCode::Loop(_) => "Loop"@,
            OpCode::Jump(_) => "Jump"@,
            OpCode::JumpIfFalse(_) => "Jump If False"@,
            OpCode::Nil => "Nil"@,
            OpCode::Not => "Not"@,
            OpCode::Multiply => "Multiply"@,
            OpCode::Negative => "Negative"@,
            OpCode::Placeholder => "Placeholder"@,
            OpCode::Pop => "Pop"@,
            OpCode::Print => "Print"@,
            OpCode::Return => "Return"@,
            OpCode::Subtract => "Subtract"@,
            OpCode::True => "True"@,
        }
    }

    /// The name of the instruction in a listing.
    pub fn mnemonic(self) -> (text: &'static str)
        ensures
            text@ == self.spec_mnemonic(),
    {
        match self {
            OpCode::Add => "Add",
            OpCode::Call(_) => "Call",
            OpCode::Closure(_) => "Closure",
            OpCode::CloseUpvalue => "CloseUpValue",
            OpCode::Constant(_) => "Constant",
            OpCode::Divide => "Divide",
            OpCode::Equal => "Equal",
            OpCode::False => "False",
            OpCode::DefineGlobal(_) => "Define Global",
            OpCode::DefineLocal => "Define Local",
            OpCode::SetGlobal(_) => "Set Global",
            OpCode::GetGlobal(_) => "Get Global",
            OpCode::SetLocal(_) => "Set Local",
            OpCode::GetLocal(_) => "Get Local",
            OpCode::SetUpvalue(_) => "Set Upvalue",
            OpCode::GetUpvalue(_) => "Get Upvalue",
            OpCode::Greater => "Greater",
            OpCode::Less => "Less",
            OpCode::Loop(_) => "Loop",
            OpCode::Jump(_) => "Jump",
            OpCode::JumpIfFalse(_) => "Jump If False",
            OpCode::Nil => "Nil",
            OpCode::Not => "Not",
            OpCode::Multiply => "Multiply",
            OpCode::Negative => "Negative",
            OpCode::Placeholder => "Placeholder",
            OpCode::Pop => "Pop",
            OpCode::Print => "Print",
            OpCode::Return => "Return",
            OpCode::Subtract => "Subtract",
            OpCode::True => "True",
        }
    }

    /// The description of the instruction, without its operand.
    pub fn label(self) -> (text: &'static str)
        ensures
            text@ == self.spec_label(),
    {
        match self {
            OpCode::Add => "add operation",
            OpCode::Call(_) => "system call",
            OpCode::Closure(_) => "closure",
            OpCode::CloseUpvalue => "close upvalue",
            OpCode::Constant(_) => "constant",
            OpCode::Divide => "divide operation",
            OpCode::Equal => "equal operation",
            OpCode::False => "false",
            OpCode::DefineGlobal(_) => "define global from index",
            OpCode::DefineLocal => "define local variable",
            OpCode::SetGlobal(_) => "set global variable from index",
            OpCode::GetGlobal(_) => "get global variable from index",
            OpCode::SetLocal(_) => "set local variable in stack from index",
            OpCode::GetLocal(_) => "define local variable in stack from index",
            OpCode::SetUpvalue(_) => "set upvalue from index",
            OpCode::GetUpvalue(_) => "get upvalue from index",
            OpCode::Greater => "greater operation",
            OpCode::Less => "less operation",
            OpCode::Loop(_) => "loop to offset",
            OpCode::Jump(_) => "jump to",
            OpCode::JumpIfFalse(_) => "jump to offset",
            OpCode::Nil => "nil",
            OpCode::Not => "not operation",
            OpCode::Multiply => "multiply operation",
            OpCode::Negative => "negative operation",
            OpCode::Placeholder => "placeholder",
            OpCode::Pop => "pop operation",
            OpCode::Print => "print operation",
            OpCode::Return => "system return",
            OpCode::Subtract => "subtract operation",
            OpCode::True => "true",
        }
    }

    /// The operand of the instruction, if it has one.
    pub fn operand(self) -> (r: Option<usize>)
        ensures
            r == self.spec_operand(),
    {
        match self {
            OpCode::Call(v) | OpCode::Closure(v) | OpCode::Constant(v) | OpCode::DefineGlobal(v)
            | OpCode::SetGlobal(v) | OpCode::GetGlobal(v) | OpCode::SetLocal(v)
            | OpCode::GetLocal(v) | OpCode::SetUpvalue(v) | OpCode::GetUpvalue(v) => Some(v),
            OpCode::Loop(o) | OpCode::Jump(o) | OpCode::JumpIfFalse(o) => Some(o as usize),
            _ => None,
        }
    }
}

} // verus!
