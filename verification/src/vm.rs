//! The virtual machine.
//!
//! The machine executes one instruction per [`Vm::step`]. Whatever it cannot
//! do itself — arithmetic on doubles, reading a numeral, printing, calling a
//! native function — it hands to the embedding program as a [`Signal`]; the
//! program does the work and, where the signal asks for a value, pushes it
//! with [`Vm::push`] before the next step.

use vstd::prelude::*;
use vstd::string::StringSliceAdditionalSpecFns;
use std::rc::Rc;
use crate::chunk::{and_code, or_code, Constant};
use crate::compiler::Parser;
use crate::parsing::{compiled, function_model, FunctionModel, ErrorModel};
use crate::gc::{Gc, GcBox, GcBoxHeader, Heap, HeapModel};
use crate::hashtable::HashTable;
use crate::objects::{HashKeyString, Obj, ObjClosure, ObjFunction, ObjNative, ObjUpValue, ObjView, UpValue};
use crate::op_code::OpCode;
use crate::stack::Stack;
use crate::utils::{
    append, append_str, convert_slice_to_string, decimal, is_falsey, spec_decimal, spec_is_falsey,
};
use crate::value::{
    lemma_value_handles, number_less, number_negate, numbers_equal, spec_number_less,
    spec_number_negate, spec_numbers_equal, value_handles, Value,
};

verus! {

/// The most call frames that can be live at once.
pub const FRAME_MAX: usize = 64;

/// How an interpretation can fail.
#[derive(Clone, Copy, PartialEq, Eq, Debug, Structural)]
pub enum InterpretError {
    CompileError,
    RuntimeError,
    Default,
}

/// One call in progress: the closure being run, the index of its next
/// instruction, and the stack slot where its window starts. Slot 0 of the
/// window holds the closure itself; the arguments follow.
#[derive(Clone, Copy, PartialEq, Eq, Debug, Structural)]
pub struct CallFrame {
    pub closure: Gc,
    pub ip: usize,
    pub slots: usize,
}

impl CallFrame {
    /// A frame at the first instruction of `closure`, with its window at the
    /// bottom of the stack.
    pub fn new(closure: Gc) -> (frame: Self)
        ensures
            frame == (CallFrame { closure, ip: 0, slots: 0 }),
    {
        CallFrame { closure, ip: 0, slots: 0 }
    }
}

/// Why execution stopped with an error.
#[derive(Clone, Copy, PartialEq, Eq, Debug, Structural)]
pub enum Fault {
    /// An arithmetic or comparison instruction met something that is not a
    /// number.
    OperandsMustBeNumbers,
    /// `Add` met operands that are neither two numbers nor two strings.
    OperandsMustBeNumbersOrStrings,
    /// `Negative` met something that is not a number.
    OperandMustBeNumber,
    /// A global variable was read or assigned before it was defined.
    UndefinedVariable,
    /// A closure was called with the wrong number of arguments.
    WrongArity { expected: u8, got: usize },
    /// Something that is neither a closure nor a native function was called.
    NotCallable,
    /// A call would make more than `FRAME_MAX` frames.
    StackOverflow,
    /// The instruction is not one the machine executes.
    UnknownInstruction,
    /// The bytecode or a handle does not make sense: an operand out of range,
    /// a value missing from the stack, a handle without its object.
    Corrupt,
    /// The heap or the table of globals cannot grow.
    OutOfMemory,
}

impl Fault {
    /// The message of the fault, without the names and numbers that belong
    /// to the case at hand.
    pub open spec fn spec_message(self) -> Seq<char> {
        match self {
            Fault::OperandsMustBeNumbers => "operands must be two numbers"@,
            Fault::OperandsMustBeNumbersOrStrings => "operands must be two numbers or two strings"@,
            Fault::OperandMustBeNumber => "operand must be a number"@,
            Fault::UndefinedVariable => "undefined variable"@,
            Fault::WrongArity { .. } => "wrong number of arguments"@,
            Fault::NotCallable => "Can only call functions and classes."@,
            Fault::StackOverflow => "Stack overflow!"@,
            Fault::UnknownInstruction => "Unknown operation code during interpreting!"@,
            Fault::Corrupt => "corrupt bytecode"@,
            Fault::OutOfMemory => "out of memory"@,
        }
    }

    /// The message of the fault, without the names and numbers that belong
    /// to the case at hand.
    pub fn message(self) -> (text: &'static str)
        ensures
            text@ == self.spec_message(),
    {
        match self {
            Fault::OperandsMustBeNumbers => "operands must be two numbers",
            Fault::OperandsMustBeNumbersOrStrings => "operands must be two numbers or two strings",
            Fault::OperandMustBeNumber => "operand must be a number",
            Fault::UndefinedVariable => "undefined variable",
            Fault::WrongArity { .. } => "wrong number of arguments",
            Fault::NotCallable => "Can only call functions and classes.",
            Fault::StackOverflow => "Stack overflow!",
            Fault::UnknownInstruction => "Unknown operation code during interpreting!",
            Fault::Corrupt => "corrupt bytecode",
            Fault::OutOfMemory => "out of memory",
        }
    }
}

/// One line of a backtrace: a function in progress and the source line it
/// had reached.
#[derive(Debug)]
pub struct TraceEntry {
    pub line: usize,
    pub name: Vec<u8>,
}

/// A backtrace line as contracts see it.
pub struct TraceView {
    pub line: usize,
    pub name: Seq<u8>,
}

impl View for TraceEntry {
    type V = TraceView;

    open spec fn view(&self) -> TraceView {
        TraceView { line: self.line, name: self.name@ }
    }
}

/// A runtime error: what went wrong, the variable concerned when the fault
/// is `UndefinedVariable`, the source line of the failing instruction, and
/// the calls in progress, innermost first.
#[derive(Debug)]
pub struct RuntimeError {
    pub fault: Fault,
    pub name: Vec<u8>,
    pub line: usize,
    pub trace: Vec<TraceEntry>,
}

/// A runtime error as contracts see it.
pub struct ErrorView {
    pub fault: Fault,
    pub name: Seq<u8>,
    pub line: usize,
    pub trace: Seq<TraceView>,
}

impl View for RuntimeError {
    type V = ErrorView;

    open spec fn view(&self) -> ErrorView {
        ErrorView {
            fault: self.fault,
            name: self.name@,
            line: self.line,
            trace: Seq::new(self.trace@.len(), |i: int| self.trace@[i]@),
        }
    }
}

impl ErrorView {
    /// The message of the error: for an undefined variable its name in
    /// quotes after the words, for a wrong number of arguments the number
    /// expected and the number given, and else the message of the fault.
    pub open spec fn message(self) -> Seq<u8> {
        match self.fault {
            Fault::UndefinedVariable => "undefined variable '".spec_bytes() + self.name
                + "'".spec_bytes(),
            Fault::WrongArity { expected, got } => "Expected ".spec_bytes() + spec_decimal(
                expected as nat,
            ) + " arguments but got ".spec_bytes() + spec_decimal(got as nat) + ".".spec_bytes(),
            fault => vstd::utf8::encode_utf8(fault.spec_message()),
        }
    }

    /// The first line of the report of the error: the message and the
    /// source line.
    pub open spec fn headline(self) -> Seq<u8> {
        "Runtime error: ".spec_bytes() + self.message() + " [line ".spec_bytes() + spec_decimal(
            self.line as nat,
        ) + "]".spec_bytes()
    }
}

impl TraceView {
    /// The line of a backtrace for this call.
    pub open spec fn render(self) -> Seq<u8> {
        "[line ".spec_bytes() + spec_decimal(self.line as nat) + "] in ".spec_bytes() + self.name
    }
}

impl TraceEntry {
    /// The line of a backtrace for this call.
    pub fn render(&self) -> (text: Vec<u8>)
        ensures
            text@ == self@.render(),
    {
        let mut text: Vec<u8> = Vec::new();
        append_str(&mut text, "[line ");
        let digits = decimal(self.line);
        append(&mut text, digits.as_slice());
        append_str(&mut text, "] in ");
        append(&mut text, self.name.as_slice());
        proof {
            assert(Seq::<u8>::empty() + "[line ".spec_bytes() =~= "[line ".spec_bytes());
        }
        text
    }
}

impl RuntimeError {
    /// The message of the error.
    pub fn message(&self) -> (text: Vec<u8>)
        ensures
            text@ == self@.message(),
    {
        let mut text: Vec<u8> = Vec::new();
        match self.fault {
            Fault::UndefinedVariable => {
                append_str(&mut text, "undefined variable '");
                append(&mut text, self.name.as_slice());
                append_str(&mut text, "'");
                proof {
                    assert(Seq::<u8>::empty() + "undefined variable '".spec_bytes()
                        =~= "undefined variable '".spec_bytes());
                }
            },
            Fault::WrongArity { expected, got } => {
                append_str(&mut text, "Expected ");
                let wanted = decimal(expected as usize);
                append(&mut text, wanted.as_slice());
                append_str(&mut text, " arguments but got ");
                let given = decimal(got);
                append(&mut text, given.as_slice());
                append_str(&mut text, ".");
                proof {
                    assert(Seq::<u8>::empty() + "Expected ".spec_bytes() =~= "Expected ".spec_bytes());
                }
            },
            fault => {
                let words = fault.message();
                append_str(&mut text, words);
                proof {
                    assert(Seq::<u8>::empty() + words.spec_bytes() =~= words.spec_bytes());
                }
            },
        }
        text
    }

    /// The first line of the report of the error.
    pub fn headline(&self) -> (text: Vec<u8>)
        ensures
            text@ == self@.headline(),
    {
        let mut text: Vec<u8> = Vec::new();
        append_str(&mut text, "Runtime error: ");
        let message = self.message();
        append(&mut text, message.as_slice());
        append_str(&mut text, " [line ");
        let digits = decimal(self.line);
        append(&mut text, digits.as_slice());
        append_str(&mut text, "]");
        proof {
            assert(Seq::<u8>::empty() + "Runtime error: ".spec_bytes()
                =~= "Runtime error: ".spec_bytes());
        }
        text
    }
}

/// What a step asks of the embedding program.
#[derive(Debug)]
pub enum Signal {
    /// Nothing: the instruction is done.
    Continue,
    /// Nothing: the outermost function has returned.
    Done,
    /// Print `text`, then the number when there is one, then a line break.
    Print { text: Vec<u8>, number: Option<u64> },
    /// Compute `lhs op rhs` on doubles and push the result as a number. `op`
    /// is `Add`, `Subtract`, `Multiply` or `Divide`.
    Arithmetic { op: OpCode, lhs: u64, rhs: u64 },
    /// Read the numeral as a double and push it as a number.
    Numeral(Vec<u8>),
    /// Call the native function of this name on the arguments and push what
    /// it returns.
    Native { name: Vec<u8>, args: Vec<Value> },
    /// Report the error. The machine has cleared its stack and frames.
    Fault(RuntimeError),
}

/// A signal as contracts see it.
pub enum SignalView {
    Continue,
    Done,
    Print { text: Seq<u8>, number: Option<u64> },
    Arithmetic { op: OpCode, lhs: u64, rhs: u64 },
    Numeral(Seq<u8>),
    Native { name: Seq<u8>, args: Seq<Value> },
    Fault(ErrorView),
}

impl View for Signal {
    type V = SignalView;

    open spec fn view(&self) -> SignalView {
        match self {
            Signal::Continue => SignalView::Continue,
            Signal::Done => SignalView::Done,
            Signal::Print { text, number } => SignalView::Print { text: text@, number: *number },
            Signal::Arithmetic { op, lhs, rhs } => SignalView::Arithmetic {
                op: *op,
                lhs: *lhs,
                rhs: *rhs,
            },
            Signal::Numeral(text) => SignalView::Numeral(text@),
            Signal::Native { name, args } => SignalView::Native { name: name@, args: args@ },
            Signal::Fault(error) => SignalView::Fault(error@),
        }
    }
}

/// The machine.
#[derive(Debug)]
pub struct Vm {
    pub stack: Stack,
    /// The global variables.
    pub table: HashTable,
    pub frames: Vec<CallFrame>,
    /// The upvalues that still refer to a stack slot.
    pub open_values: Vec<Gc>,
    pub heap: Heap<Obj>,
}

/// The machine as contracts see it.
pub struct VmModel {
    pub stack: Seq<Value>,
    pub globals: Map<Seq<u8>, Value>,
    /// The number of slots of the table of globals that are in use.
    pub globals_used: usize,
    /// The number of slots of the table of globals.
    pub globals_capacity: usize,
    pub frames: Seq<CallFrame>,
    pub open_values: Seq<Gc>,
    pub heap: HeapModel<Obj>,
}

impl View for Vm {
    type V = VmModel;

    open spec fn view(&self) -> VmModel {
        VmModel {
            stack: self.stack@,
            globals: self.table@,
            globals_used: self.table.used,
            globals_capacity: self.table.capacity,
            frames: self.frames@,
            open_values: self.open_values@,
            heap: self.heap@,
        }
    }
}

/// An upvalue object that owns `value`.
pub open spec fn closed_over(upvalue: ObjUpValue, value: Value) -> ObjView {
    ObjView::UpValue(ObjUpValue { location: upvalue.location, closed: Some(value) })
}

/// The name held by the constant at `ix`, when that constant is a text.
pub open spec fn name_at(function: ObjFunction, ix: usize) -> Option<Seq<u8>> {
    if ix < function.chunk.constants@.len() {
        match function.chunk.constants@[ix as int] {
            Constant::Text(text) => Some(text@),
            _ => None,
        }
    } else {
        None
    }
}

/// The result of closing, in `heap`, the upvalues among `pending` that are
/// open over a stack slot at or above `base`: the heap in which each of them
/// owns the value of its slot, and the handles that stay open, in order. A
/// handle that addresses no open upvalue, or whose slot lies beyond the
/// stack, is dropped from the list.
pub open spec fn closing(
    heap: HeapModel<Obj>,
    stack: Seq<Value>,
    pending: Seq<Gc>,
    base: int,
) -> (HeapModel<Obj>, Seq<Gc>)
    decreases pending.len(),
{
    if pending.len() == 0 {
        (heap, Seq::empty())
    } else {
        let (before, kept) = closing(heap, stack, pending.drop_last(), base);
        let u = pending.last();
        if before.live(u) {
            match before.payload(u) {
                ObjView::UpValue(upvalue) => if upvalue.closed is Some {
                    (before, kept)
                } else if upvalue.location < base {
                    (before, kept.push(u))
                } else if upvalue.location < stack.len() {
                    (before.replaced(u, closed_over(upvalue, stack[upvalue.location as int])), kept)
                } else {
                    (before, kept)
                },
                _ => (before, kept),
            }
        } else {
            (before, kept)
        }
    }
}

impl VmModel {
    /// The prototype and the upvalues of the closure behind `h`.
    pub open spec fn closure_at(self, h: Gc) -> Option<(ObjFunction, Seq<Gc>)> {
        if self.heap.live(h) {
            match self.heap.payload(h) {
                ObjView::Closure { function, upvalues } => Some((function, upvalues)),
                _ => None,
            }
        } else {
            None
        }
    }

    /// The upvalue behind `h`.
    pub open spec fn upvalue_at(self, h: Gc) -> Option<ObjUpValue> {
        if self.heap.live(h) {
            match self.heap.payload(h) {
                ObjView::UpValue(upvalue) => Some(upvalue),
                _ => None,
            }
        } else {
            None
        }
    }

    /// The bytes of the string behind `h`.
    pub open spec fn string_at(self, h: Gc) -> Option<Seq<u8>> {
        if self.heap.live(h) {
            match self.heap.payload(h) {
                ObjView::Str(bytes) => Some(bytes),
                _ => None,
            }
        } else {
            None
        }
    }

    /// The name of the native function behind `h`.
    pub open spec fn native_at(self, h: Gc) -> Option<Seq<u8>> {
        if self.heap.live(h) {
            match self.heap.payload(h) {
                ObjView::Native(name) => Some(name),
                _ => None,
            }
        } else {
            None
        }
    }

    /// The handles that the machine itself holds: those of the values on the
    /// stack and of the global variables, the closures of the frames, and the
    /// open upvalues.
    pub open spec fn roots(self) -> Set<Gc> {
        Set::new(
            |h: Gc|
                {
                    ||| exists|i: int|
                        0 <= i < self.stack.len() && (#[trigger] self.stack[i]).spec_handle() == Some(h)
                    ||| exists|name: Seq<u8>| #[trigger]
                        self.globals.dom().contains(name) && self.globals[name].spec_handle()
                            == Some(h)
                    ||| exists|i: int| 0 <= i < self.frames.len() && (#[trigger] self.frames[i]).closure == h
                    ||| self.open_values.contains(h)
                },
        )
    }

    /// The machine with `value` on top of the stack.
    pub open spec fn push(self, value: Value) -> Self {
        VmModel { stack: self.stack.push(value), ..self }
    }

    /// The machine without the top `n` values of the stack.
    pub open spec fn drop_top(self, n: int) -> Self {
        VmModel { stack: self.stack.take(self.stack.len() - n), ..self }
    }

    /// The value `distance` places below the top of the stack.
    pub open spec fn top(self, distance: int) -> Value {
        self.stack[self.stack.len() - 1 - distance]
    }

    /// The machine with the instruction pointer of the current frame at `ip`.
    pub open spec fn with_ip(self, ip: usize) -> Self {
        VmModel {
            frames: self.frames.update(
                self.frames.len() - 1,
                CallFrame { ip, ..self.frames.last() },
            ),
            ..self
        }
    }

    /// The source line of the instruction that `frame` executed last, or 0
    /// when there is none.
    pub open spec fn line_of(self, frame: CallFrame) -> usize {
        match self.closure_at(frame.closure) {
            Some((function, _)) => if 0 < frame.ip <= function.chunk.lines@.len() {
                function.chunk.lines@[frame.ip - 1]
            } else {
                0
            },
            None => 0,
        }
    }

    /// The name of the function that `frame` runs, or nothing when its
    /// closure is gone.
    pub open spec fn name_of(self, frame: CallFrame) -> Seq<u8> {
        match self.closure_at(frame.closure) {
            Some((function, _)) => function.name.value@,
            None => Seq::empty(),
        }
    }

    /// The calls in progress, innermost first.
    pub open spec fn trace(self) -> Seq<TraceView> {
        Seq::new(
            self.frames.len(),
            |i: int|
                TraceView {
                    line: self.line_of(self.frames[self.frames.len() - 1 - i]),
                    name: self.name_of(self.frames[self.frames.len() - 1 - i]),
                },
        )
    }

    /// The machine after a runtime error: the stack, the frames and the list
    /// of open upvalues are cleared; the globals and the heap stay.
    pub open spec fn reset(self) -> Self {
        VmModel { stack: Seq::empty(), frames: Seq::empty(), open_values: Seq::empty(), ..self }
    }

    /// The error that reports `fault` in this state.
    pub open spec fn error(self, fault: Fault, name: Seq<u8>) -> ErrorView {
        ErrorView {
            fault,
            name,
            line: if self.frames.len() > 0 {
                self.line_of(self.frames.last())
            } else {
                0
            },
            trace: self.trace(),
        }
    }

    /// A runtime error in this state.
    pub open spec fn fault(self, fault: Fault) -> (Self, SignalView) {
        (self.reset(), SignalView::Fault(self.error(fault, Seq::empty())))
    }

    /// A runtime error about the variable `name`.
    pub open spec fn fault_named(self, fault: Fault, name: Seq<u8>) -> (Self, SignalView) {
        (self.reset(), SignalView::Fault(self.error(fault, name)))
    }

    /// The machine after it has tried to allocate an object with view `v`,
    /// and the handle of the object when the heap could take it. The heap
    /// collects first when it must, with the machine's handles as roots; the
    /// new box is not pinned.
    pub open spec fn allocate(self, v: ObjView) -> (Self, Option<Gc>) {
        match self.heap.allocated_handle(v, self.roots()) {
            Some(h) => (
                VmModel { heap: self.heap.allocated(v, self.roots()).with_word(h, -1), ..self },
                Some(h),
            ),
            None => (VmModel { heap: self.heap.allocated(v, self.roots()), ..self }, None),
        }
    }

    /// The machine after the upvalues that are open over a slot at or above
    /// `base` were closed.
    pub open spec fn close_upvalues(self, base: int) -> Self {
        VmModel {
            heap: closing(self.heap, self.stack, self.open_values, base).0,
            open_values: closing(self.heap, self.stack, self.open_values, base).1,
            ..self
        }
    }

    /// The index of the first open upvalue in the list over slot `location`,
    /// or the length of the list when there is none.
    pub open spec fn find_open(self, location: usize, from: int) -> int
        decreases self.open_values.len() - from,
    {
        if from < 0 || from >= self.open_values.len() {
            self.open_values.len() as int
        } else {
            match self.upvalue_at(self.open_values[from]) {
                Some(upvalue) => if upvalue.closed is None && upvalue.location == location {
                    from
                } else {
                    self.find_open(location, from + 1)
                },
                None => self.find_open(location, from + 1),
            }
        }
    }

    /// The index at which a new upvalue over slot `location` enters the list:
    /// before the first entry that is not an upvalue over a higher slot.
    pub open spec fn insert_position(self, location: usize, from: int) -> int
        decreases self.open_values.len() - from,
    {
        if from < 0 || from >= self.open_values.len() {
            self.open_values.len() as int
        } else {
            match self.upvalue_at(self.open_values[from]) {
                Some(upvalue) => if upvalue.location > location {
                    self.insert_position(location, from + 1)
                } else {
                    from
                },
                None => from,
            }
        }
    }

    /// The machine after it has captured stack slot `location`, and the
    /// upvalue for it: the open upvalue over that slot when the list has
    /// one, else a new one, which enters the list. No handle comes back only
    /// when a new upvalue was needed and the heap could not take it.
    pub open spec fn capture(self, location: usize) -> (Self, Option<Gc>) {
        if self.find_open(location, 0) < self.open_values.len() {
            (self, Some(self.open_values[self.find_open(location, 0)]))
        } else {
            let (after, made) = self.allocate(ObjView::UpValue(ObjUpValue { location, closed: None }));
            match made {
                Some(h) => (
                    VmModel {
                        open_values: after.open_values.insert(after.insert_position(location, 0), h),
                        ..after
                    },
                    Some(h),
                ),
                None => (after, None),
            }
        }
    }

    /// The machine after it has found the upvalues that `specs` ask for, and
    /// those upvalues: a local one is captured from slot `base + index` of the
    /// stack, another is upvalue `index` of the enclosing closure.
    pub open spec fn capturing(self, specs: Seq<UpValue>, enclosing: Seq<Gc>, base: usize) -> (
        Self,
        Result<Seq<Gc>, Fault>,
    )
        decreases specs.len(),
    {
        if specs.len() == 0 {
            (self, Ok(Seq::empty()))
        } else {
            let (before, found) = self.capturing(specs.drop_last(), enclosing, base);
            match found {
                Err(fault) => (before, Err(fault)),
                Ok(handles) => {
                    let spec = specs.last();
                    if spec.is_local {
                        if base + spec.index > usize::MAX {
                            (before, Err(Fault::Corrupt))
                        } else {
                            let (after, made) = before.capture((base + spec.index) as usize);
                            match made {
                                Some(h) => (after, Ok(handles.push(h))),
                                None => (after, Err(Fault::OutOfMemory)),
                            }
                        }
                    } else if spec.index < enclosing.len() {
                        (before, Ok(handles.push(enclosing[spec.index as int])))
                    } else {
                        (before, Err(Fault::Corrupt))
                    }
                },
            }
        }
    }

    /// Equality of values: `nil` equals `nil`; booleans and numbers go by
    /// value; strings by their bytes; closures and native functions by
    /// identity.
    pub open spec fn values_equal(self, a: Value, b: Value) -> bool {
        match (a, b) {
            (Value::Nil, Value::Nil) => true,
            (Value::Bool(x), Value::Bool(y)) => x == y,
            (Value::Number(x), Value::Number(y)) => spec_numbers_equal(x, y),
            (Value::String(x), Value::String(y)) => x == y || (self.string_at(x) is Some
                && self.string_at(x) == self.string_at(y)),
            (Value::Closure(x), Value::Closure(y)) => x == y,
            (Value::NativeFunction(x), Value::NativeFunction(y)) => x == y,
            _ => false,
        }
    }

    /// What `Print` shows for a value: the text, and the number to write
    /// after it. A string shows its bytes, a number nothing but itself, a
    /// boolean `true` or `false`, and nil `nil`.
    pub open spec fn printed(self, value: Value) -> (Seq<u8>, Option<u64>) {
        match value {
            Value::String(h) => match self.string_at(h) {
                Some(bytes) => (bytes, None),
                None => ("unknown value".spec_bytes(), None),
            },
            Value::Number(bits) => (Seq::empty(), Some(bits)),
            Value::Bool(true) => ("true".spec_bytes(), None),
            Value::Bool(false) => ("false".spec_bytes(), None),
            Value::Nil => ("nil".spec_bytes(), None),
            _ => ("unknown value".spec_bytes(), None),
        }
    }
}


impl VmModel {
    /// The current frame.
    pub open spec fn frame(self) -> CallFrame {
        self.frames.last()
    }

    /// A step that only changes the machine.
    pub open spec fn go_on(self) -> (Self, SignalView) {
        (self, SignalView::Continue)
    }

    /// `Constant`: a number is pushed; a numeral goes to the embedding
    /// program; a text becomes a new string on the heap, which is pushed.
    pub open spec fn constant(self, function: ObjFunction, ix: usize) -> (Self, SignalView) {
        if ix >= function.chunk.constants@.len() {
            self.fault(Fault::Corrupt)
        } else {
            match function.chunk.constants@[ix as int] {
                Constant::Number(bits) => self.push(Value::Number(bits)).go_on(),
                Constant::Numeral(text) => (self, SignalView::Numeral(text@)),
                Constant::Text(text) => match self.allocate(ObjView::Str(text@)) {
                    (after, Some(h)) => after.push(Value::String(h)).go_on(),
                    (after, None) => after.fault(Fault::OutOfMemory),
                },
                Constant::Function(_) => self.fault(Fault::Corrupt),
            }
        }
    }

    /// `Negative`: the number on top is replaced by its negation.
    pub open spec fn negative(self) -> (Self, SignalView) {
        if self.stack.len() == 0 {
            self.fault(Fault::Corrupt)
        } else {
            match self.top(0) {
                Value::Number(bits) => self.drop_top(1).push(
                    Value::Number(spec_number_negate(bits)),
                ).go_on(),
                _ => self.fault(Fault::OperandMustBeNumber),
            }
        }
    }

    /// `Not`: the value on top is replaced by whether it is falsey.
    pub open spec fn not(self) -> (Self, SignalView) {
        if self.stack.len() == 0 {
            self.fault(Fault::Corrupt)
        } else {
            self.drop_top(1).push(Value::Bool(spec_is_falsey(self.top(0)))).go_on()
        }
    }

    /// `Equal`: the two values on top are replaced by whether they are equal.
    pub open spec fn equal(self) -> (Self, SignalView) {
        if self.stack.len() < 2 {
            self.fault(Fault::Corrupt)
        } else {
            self.drop_top(2).push(Value::Bool(self.values_equal(self.top(1), self.top(0)))).go_on()
        }
    }

    /// `Pop`: the value on top goes.
    pub open spec fn pop(self) -> (Self, SignalView) {
        if self.stack.len() == 0 {
            self.fault(Fault::Corrupt)
        } else {
            self.drop_top(1).go_on()
        }
    }

    /// `Print`: the value on top goes to the embedding program as text.
    pub open spec fn print(self) -> (Self, SignalView) {
        if self.stack.len() == 0 {
            self.fault(Fault::Corrupt)
        } else {
            (
                self.drop_top(1),
                SignalView::Print {
                    text: self.printed(self.top(0)).0,
                    number: self.printed(self.top(0)).1,
                },
            )
        }
    }

    /// The binary instructions. The right operand is on top, the left one
    /// below it. On two numbers, `Greater` and `Less` push the comparison, and
    /// the arithmetic goes to the embedding program. On two strings, `Add`
    /// pushes a new string: the left bytes followed by the right ones.
    pub open spec fn binary(self, op: OpCode) -> (Self, SignalView) {
        if self.stack.len() < 2 {
            self.fault(Fault::Corrupt)
        } else {
            match (self.top(1), self.top(0)) {
                (Value::Number(lhs), Value::Number(rhs)) => match op {
                    OpCode::Greater => self.drop_top(2).push(
                        Value::Bool(spec_number_less(rhs, lhs)),
                    ).go_on(),
                    OpCode::Less => self.drop_top(2).push(
                        Value::Bool(spec_number_less(lhs, rhs)),
                    ).go_on(),
                    _ => (self.drop_top(2), SignalView::Arithmetic { op, lhs, rhs }),
                },
                (Value::String(lhs), Value::String(rhs)) => if op == OpCode::Add {
                    match (self.string_at(lhs), self.string_at(rhs)) {
                        (Some(left), Some(right)) => match self.drop_top(2).allocate(
                            ObjView::Str(left + right),
                        ) {
                            (after, Some(h)) => after.push(Value::String(h)).go_on(),
                            (after, None) => after.fault(Fault::OutOfMemory),
                        },
                        _ => self.fault(Fault::Corrupt),
                    }
                } else {
                    self.fault(Fault::OperandsMustBeNumbers)
                },
                _ => if op == OpCode::Add {
                    self.fault(Fault::OperandsMustBeNumbersOrStrings)
                } else {
                    self.fault(Fault::OperandsMustBeNumbers)
                },
            }
        }
    }

    /// The table of globals is enlarged before the next insertion.
    pub open spec fn globals_grow(self) -> bool {
        4 * (self.globals_used + 1) > 3 * self.globals_capacity
    }

    /// The table of globals would have to grow beyond what a `usize` can
    /// count.
    pub open spec fn globals_full(self) -> bool {
        self.globals_grow() && HashTable::grown_capacity(self.globals_capacity) > usize::MAX
    }

    /// The machine with the global `name` set to `value`. The table is
    /// enlarged first when the insertion would otherwise fill more than three
    /// quarters of it.
    pub open spec fn with_global(self, name: Seq<u8>, value: Value) -> Self {
        VmModel {
            globals: self.globals.insert(name, value),
            globals_capacity: if self.globals_grow() {
                HashTable::grown_capacity(self.globals_capacity) as usize
            } else {
                self.globals_capacity
            },
            globals_used: ((if self.globals_grow() {
                self.globals.dom().len() as int
            } else {
                self.globals_used as int
            }) + (if self.globals.dom().contains(name) {
                0int
            } else {
                1int
            })) as usize,
            ..self
        }
    }

    /// `DefineGlobal`: the value on top is stored under the name, whether or
    /// not the name was defined before, and popped.
    pub open spec fn define_global(self, function: ObjFunction, ix: usize) -> (Self, SignalView) {
        match name_at(function, ix) {
            None => self.fault(Fault::Corrupt),
            Some(name) => if self.stack.len() == 0 {
                self.fault(Fault::Corrupt)
            } else if self.globals_full() {
                self.fault(Fault::OutOfMemory)
            } else {
                self.drop_top(1).with_global(name, self.top(0)).go_on()
            },
        }
    }

    /// `GetGlobal`: the value of the name is pushed; an undefined name is an
    /// error.
    pub open spec fn get_global(self, function: ObjFunction, ix: usize) -> (Self, SignalView) {
        match name_at(function, ix) {
            None => self.fault(Fault::Corrupt),
            Some(name) => if self.globals.dom().contains(name) {
                self.push(self.globals[name]).go_on()
            } else {
                self.fault_named(Fault::UndefinedVariable, name)
            },
        }
    }

    /// `SetGlobal`: the value on top is stored under the name and stays on
    /// the stack; an undefined name is an error.
    pub open spec fn set_global(self, function: ObjFunction, ix: usize) -> (Self, SignalView) {
        match name_at(function, ix) {
            None => self.fault(Fault::Corrupt),
            Some(name) => if !self.globals.dom().contains(name) {
                self.fault_named(Fault::UndefinedVariable, name)
            } else if self.stack.len() == 0 {
                self.fault(Fault::Corrupt)
            } else if self.globals_full() {
                self.fault(Fault::OutOfMemory)
            } else {
                self.with_global(name, self.top(0)).go_on()
            },
        }
    }

    /// `GetLocal`: the value in the slot of the frame's window is pushed.
    pub open spec fn get_local(self, slot: usize) -> (Self, SignalView) {
        if self.frame().slots + slot < self.stack.len() {
            self.push(self.stack[self.frame().slots + slot]).go_on()
        } else {
            self.fault(Fault::Corrupt)
        }
    }

    /// `SetLocal`: the value on top is copied into the slot of the frame's
    /// window.
    pub open spec fn set_local(self, slot: usize) -> (Self, SignalView) {
        if self.frame().slots + slot < self.stack.len() {
            VmModel { stack: self.stack.update(self.frame().slots + slot, self.top(0)), ..self }.go_on()
        } else {
            self.fault(Fault::Corrupt)
        }
    }

    /// What the upvalue reads: its own value when it is closed, else the
    /// value in its stack slot.
    pub open spec fn read_upvalue(self, h: Gc) -> Option<Value> {
        match self.upvalue_at(h) {
            Some(upvalue) => match upvalue.closed {
                Some(value) => Some(value),
                None => if upvalue.location < self.stack.len() {
                    Some(self.stack[upvalue.location as int])
                } else {
                    None
                },
            },
            None => None,
        }
    }

    /// The machine after `value` was written through the upvalue: into the
    /// upvalue when it is closed, else into its stack slot.
    pub open spec fn write_upvalue(self, h: Gc, value: Value) -> Option<Self> {
        match self.upvalue_at(h) {
            Some(upvalue) => match upvalue.closed {
                Some(_) => Some(
                    VmModel { heap: self.heap.replaced(h, closed_over(upvalue, value)), ..self },
                ),
                None => if upvalue.location < self.stack.len() {
                    Some(
                        VmModel { stack: self.stack.update(upvalue.location as int, value), ..self },
                    )
                } else {
                    None
                },
            },
            None => None,
        }
    }

    /// `GetUpvalue`: what the closure's upvalue reads is pushed.
    pub open spec fn get_upvalue(self, upvalues: Seq<Gc>, ix: usize) -> (Self, SignalView) {
        if ix >= upvalues.len() {
            self.fault(Fault::Corrupt)
        } else {
            match self.read_upvalue(upvalues[ix as int]) {
                Some(value) => self.push(value).go_on(),
                None => self.fault(Fault::Corrupt),
            }
        }
    }

    /// `SetUpvalue`: the value on top is written through the closure's
    /// upvalue and stays on the stack.
    pub open spec fn set_upvalue(self, upvalues: Seq<Gc>, ix: usize) -> (Self, SignalView) {
        if ix >= upvalues.len() || self.stack.len() == 0 {
            self.fault(Fault::Corrupt)
        } else {
            match self.write_upvalue(upvalues[ix as int], self.top(0)) {
                Some(after) => after.go_on(),
                None => self.fault(Fault::Corrupt),
            }
        }
    }

    /// `Jump`: the instruction pointer advances by the offset.
    pub open spec fn jump(self, offset: u16) -> (Self, SignalView) {
        if self.frame().ip + offset > usize::MAX {
            self.fault(Fault::Corrupt)
        } else {
            self.with_ip((self.frame().ip + offset) as usize).go_on()
        }
    }

    /// `JumpIfFalse`: a jump when the value on top is falsey; the value
    /// stays.
    pub open spec fn jump_if_false(self, offset: u16) -> (Self, SignalView) {
        if self.stack.len() == 0 {
            self.fault(Fault::Corrupt)
        } else if spec_is_falsey(self.top(0)) {
            self.jump(offset)
        } else {
            self.go_on()
        }
    }

    /// `Loop`: the instruction pointer goes back by the offset and one.
    pub open spec fn loop_back(self, offset: u16) -> (Self, SignalView) {
        if self.frame().ip < offset + 1 {
            self.fault(Fault::Corrupt)
        } else {
            self.with_ip((self.frame().ip - offset - 1) as usize).go_on()
        }
    }

    /// `Call`: the callee lies below the arguments. A closure gets a new
    /// frame whose window starts at the callee; a native function goes to the
    /// embedding program with its arguments, and callee and arguments leave
    /// the stack.
    pub open spec fn call(self, argc: usize) -> (Self, SignalView) {
        if self.stack.len() <= argc {
            self.fault(Fault::Corrupt)
        } else {
            let at = self.stack.len() - 1 - argc;
            match self.stack[at] {
                Value::Closure(h) => match self.closure_at(h) {
                    None => self.fault(Fault::Corrupt),
                    Some((function, _)) => if function.arity != argc {
                        self.fault(Fault::WrongArity { expected: function.arity, got: argc })
                    } else if self.frames.len() >= FRAME_MAX {
                        self.fault(Fault::StackOverflow)
                    } else {
                        VmModel {
                            frames: self.frames.push(
                                CallFrame { closure: h, ip: 0, slots: at as usize },
                            ),
                            ..self
                        }.go_on()
                    },
                },
                Value::NativeFunction(h) => match self.native_at(h) {
                    None => self.fault(Fault::Corrupt),
                    Some(name) => (
                        VmModel { stack: self.stack.take(at), ..self },
                        SignalView::Native {
                            name,
                            args: self.stack.subrange(at + 1, self.stack.len() as int),
                        },
                    ),
                },
                _ => self.fault(Fault::NotCallable),
            }
        }
    }

    /// `Closure`: the upvalues that the prototype asks for are found, a
    /// closure over them is allocated, and it is pushed.
    pub open spec fn closure(self, function: ObjFunction, upvalues: Seq<Gc>, ix: usize) -> (
        Self,
        SignalView,
    ) {
        if ix >= function.chunk.constants@.len() {
            self.fault(Fault::Corrupt)
        } else {
            match function.chunk.constants@[ix as int] {
                Constant::Function(proto) => match self.capturing(
                    proto.upvalues@,
                    upvalues,
                    self.frame().slots,
                ) {
                    (after, Err(fault)) => after.fault(fault),
                    (after, Ok(handles)) => match after.allocate(
                        ObjView::Closure { function: *proto, upvalues: handles },
                    ) {
                        (done, Some(h)) => done.push(Value::Closure(h)).go_on(),
                        (done, None) => done.fault(Fault::OutOfMemory),
                    },
                },
                _ => self.fault(Fault::Corrupt),
            }
        }
    }

    /// `CloseUpvalue`: the upvalues over the top slot are closed, and the
    /// slot is popped.
    pub open spec fn close_upvalue(self) -> (Self, SignalView) {
        if self.stack.len() == 0 {
            self.fault(Fault::Corrupt)
        } else {
            self.close_upvalues(self.stack.len() - 1).drop_top(1).go_on()
        }
    }

    /// `Return`: the upvalues over the frame's window are closed, the frame
    /// goes, and the window is replaced by the value that was on top. The
    /// program is done when no frame is left.
    pub open spec fn ret(self) -> (Self, SignalView) {
        if self.stack.len() == 0 || self.frame().slots >= self.stack.len() {
            self.fault(Fault::Corrupt)
        } else {
            let closed = self.close_upvalues(self.frame().slots as int);
            (
                VmModel {
                    stack: self.stack.take(self.frame().slots as int).push(self.top(0)),
                    frames: self.frames.drop_last(),
                    ..closed
                },
                if self.frames.len() == 1 {
                    SignalView::Done
                } else {
                    SignalView::Continue
                },
            )
        }
    }

    /// What the instruction does to a machine whose current frame runs the
    /// closure with this prototype and these upvalues, and whose instruction
    /// pointer is already past the instruction.
    pub open spec fn execute(self, op: OpCode, function: ObjFunction, upvalues: Seq<Gc>) -> (
        Self,
        SignalView,
    ) {
        match op {
            OpCode::Constant(ix) => self.constant(function, ix),
            OpCode::Nil => self.push(Value::Nil).go_on(),
            OpCode::True => self.push(Value::Bool(true)).go_on(),
            OpCode::False => self.push(Value::Bool(false)).go_on(),
            OpCode::Negative => self.negative(),
            OpCode::Not => self.not(),
            OpCode::Equal => self.equal(),
            OpCode::Pop => self.pop(),
            OpCode::Print => self.print(),
            OpCode::Add | OpCode::Subtract | OpCode::Multiply | OpCode::Divide | OpCode::Greater
            | OpCode::Less => self.binary(op),
            OpCode::DefineGlobal(ix) => self.define_global(function, ix),
            OpCode::GetGlobal(ix) => self.get_global(function, ix),
            OpCode::SetGlobal(ix) => self.set_global(function, ix),
            OpCode::GetLocal(slot) => self.get_local(slot),
            OpCode::SetLocal(slot) => if self.stack.len() == 0 {
                self.fault(Fault::Corrupt)
            } else {
                self.set_local(slot)
            },
            OpCode::GetUpvalue(ix) => self.get_upvalue(upvalues, ix),
            OpCode::SetUpvalue(ix) => self.set_upvalue(upvalues, ix),
            OpCode::Jump(offset) => self.jump(offset),
            OpCode::JumpIfFalse(offset) => self.jump_if_false(offset),
            OpCode::Loop(offset) => self.loop_back(offset),
            OpCode::Call(argc) => self.call(argc),
            OpCode::Closure(ix) => self.closure(function, upvalues, ix),
            OpCode::CloseUpvalue => self.close_upvalue(),
            OpCode::Return => self.ret(),
            OpCode::DefineLocal | OpCode::Placeholder => self.fault(Fault::UnknownInstruction),
        }
    }

    /// The instruction that the machine executes next, with the prototype and
    /// the upvalues of the closure that it belongs to.
    pub open spec fn fetch(self) -> Option<(OpCode, ObjFunction, Seq<Gc>)> {
        if self.frames.len() == 0 {
            None
        } else {
            match self.closure_at(self.frame().closure) {
                Some((function, upvalues)) => if self.frame().ip < function.chunk.code@.len() {
                    Some((function.chunk.code@[self.frame().ip as int], function, upvalues))
                } else {
                    None
                },
                None => None,
            }
        }
    }

    /// One step of the machine. Without a frame there is nothing to do. A
    /// frame whose closure is gone, or whose instruction pointer is beyond
    /// its code, is an error. Otherwise the instruction pointer moves past
    /// the instruction, and the instruction is executed.
    pub open spec fn step(self) -> (Self, SignalView) {
        if self.frames.len() == 0 {
            (self, SignalView::Done)
        } else {
            match self.fetch() {
                Some((op, function, upvalues)) => self.with_ip((self.frame().ip + 1) as usize).execute(
                    op,
                    function,
                    upvalues,
                ),
                None => self.fault(Fault::Corrupt),
            }
        }
    }

    /// The machine that runs at most `budget` instructions: it stops at the
    /// first step whose signal is not `Continue`.
    pub open spec fn run(self, budget: nat) -> (Self, SignalView)
        decreases budget,
    {
        if budget == 0 {
            (self, SignalView::Continue)
        } else {
            match self.step() {
                (next, SignalView::Continue) => next.run((budget - 1) as nat),
                (next, signal) => (next, signal),
            }
        }
    }

    /// A machine without values, frames, globals or heap objects.
    pub open spec fn blank() -> Self {
        VmModel {
            stack: Seq::empty(),
            globals: Map::empty(),
            globals_used: 0,
            globals_capacity: 0,
            frames: Seq::empty(),
            open_values: Seq::empty(),
            heap: HeapModel::<Obj>::empty(),
        }
    }

    /// The machine after the native function `name` was made known as a
    /// global variable, and whether it could be: not when the heap or the
    /// table of globals cannot take it.
    pub open spec fn define_native(self, name: Seq<u8>) -> (Self, bool) {
        match self.allocate(ObjView::Native(name)) {
            (after, Some(h)) => if after.globals_full() {
                (after, false)
            } else {
                (after.with_global(name, Value::NativeFunction(h)), true)
            },
            (after, None) => (after, false),
        }
    }

    /// The machine without the value on top of the stack, if there is one.
    pub open spec fn without_top(self) -> Self {
        if self.stack.len() > 0 {
            self.drop_top(1)
        } else {
            self
        }
    }

    /// The machine made ready to run `function` as a script: a closure over
    /// the function, without upvalues, is allocated; it takes the place of
    /// the value that the last script left on top of the stack; and it is
    /// called without arguments.
    pub open spec fn load(self, function: ObjFunction) -> (Self, SignalView) {
        match self.allocate(ObjView::Closure { function, upvalues: Seq::empty() }) {
            (after, Some(h)) => after.without_top().push(Value::Closure(h)).call(0),
            (after, None) => after.fault(Fault::OutOfMemory),
        }
    }

    /// The machine that loads `function` as a script and, when it is ready,
    /// runs at most `budget` instructions of it.
    pub open spec fn interpreted(self, function: ObjFunction, budget: nat) -> (Self, SignalView) {
        match self.load(function) {
            (ready, SignalView::Continue) => ready.run(budget),
            (failed, signal) => (failed, signal),
        }
    }

    /// The frame on top runs the closure with this prototype and these
    /// upvalues.
    pub open spec fn running(self, function: ObjFunction, upvalues: Seq<Gc>) -> bool {
        self.frames.len() > 0 && self.closure_at(self.frame().closure) == Some((function, upvalues))
    }
}

/// `function` is the prototype of the script that `source` compiles to.
pub open spec fn compiles_to(source: Seq<u8>, function: ObjFunction) -> bool {
    &&& compiled(source) == Ok::<FunctionModel, Seq<ErrorModel>>(function_model(function))
    &&& function.sound()
    &&& function.arity == 0
}

/// The bytes of a string literal.
fn text_bytes(text: &str) -> (bytes: Vec<u8>)
    ensures
        bytes@ == text.spec_bytes(),
{
    let source = text.as_bytes();
    let copied = convert_slice_to_string(source, 0, source.len());
    proof {
        assert(source@.subrange(0, source@.len() as int) =~= source@);
    }
    copied
}

/// A copy of the bytes.
fn copy_bytes(source: &Vec<u8>) -> (bytes: Vec<u8>)
    ensures
        bytes@ == source@,
{
    let copied = convert_slice_to_string(source.as_slice(), 0, source.len());
    proof {
        assert(source@.subrange(0, source@.len() as int) =~= source@);
    }
    copied
}

impl Vm {
    /// The heap and the table of globals are sound.
    pub open spec fn wf(&self) -> bool {
        self.heap.wf() && self.table.wf()
    }

    /// Puts `value` on top of the stack.
    pub fn push(&mut self, value: Value)
        ensures
            final(self)@ == old(self)@.push(value),
            final(self).wf() == old(self).wf(),
    {
        self.stack.push(value);
    }

    /// Takes the top value off the stack, if there is one.
    pub fn pop(&mut self) -> (top: Option<Value>)
        ensures
            final(self).wf() == old(self).wf(),
            old(self)@.stack.len() > 0 ==> top == Some(old(self)@.top(0)) && final(self)@ == old(self)@.drop_top(1),
            old(self)@.stack.len() == 0 ==> top is None && final(self)@ == old(self)@,
    {
        let top = self.stack.pop();
        proof {
            if old(self)@.stack.len() > 0 {
                assert(self@.stack =~= old(self)@.drop_top(1).stack);
            }
        }
        top
    }

    /// The value `distance` places below the top of the stack, if the stack
    /// is that deep.
    pub fn peek(&self, distance: usize) -> (found: Option<&Value>)
        ensures
            distance < self@.stack.len() ==> found == Some(&self@.top(distance as int)),
            distance >= self@.stack.len() ==> found is None,
    {
        self.stack.peek(distance)
    }

    /// The prototype of the closure behind `h`.
    fn function_of(&self, h: Gc) -> (found: Option<Rc<ObjFunction>>)
        requires
            self.wf(),
        ensures
            match found {
                Some(function) => self@.closure_at(h) is Some && self@.closure_at(h).unwrap().0
                    == *function,
                None => self@.closure_at(h) is None,
            },
    {
        match self.heap.get(h) {
            Some(Obj::Closure(c)) => Some(c.function.clone()),
            _ => None,
        }
    }

    /// The upvalue behind `h`.
    fn upvalue_of(&self, h: Gc) -> (found: Option<ObjUpValue>)
        requires
            self.wf(),
        ensures
            found == self@.upvalue_at(h),
    {
        match self.heap.get(h) {
            Some(Obj::UpValue(upvalue)) => Some(*upvalue),
            _ => None,
        }
    }

    /// The source line of the instruction that `frame` executed last.
    fn line_of(&self, frame: CallFrame) -> (line: usize)
        requires
            self.wf(),
        ensures
            line == self@.line_of(frame),
    {
        match self.function_of(frame.closure) {
            Some(function) => if 0 < frame.ip && frame.ip <= function.chunk.lines.len() {
                function.chunk.lines[frame.ip - 1]
            } else {
                0
            },
            None => 0,
        }
    }

    /// The name of the function that `frame` runs.
    fn name_of(&self, frame: CallFrame) -> (name: Vec<u8>)
        requires
            self.wf(),
        ensures
            name@ == self@.name_of(frame),
    {
        match self.function_of(frame.closure) {
            Some(function) => copy_bytes(&function.name.value),
            None => Vec::new(),
        }
    }

    /// Stops execution with a runtime error about the variable `name`.
    fn fault_named(&mut self, fault: Fault, name: Vec<u8>) -> (signal: Signal)
        requires
            old(self).wf(),
        ensures
            final(self).wf(),
            (final(self)@, signal@) == old(self)@.fault_named(fault, name@),
    {
        let line = if self.frames.len() > 0 {
            self.line_of(self.frames[self.frames.len() - 1])
        } else {
            0
        };
        let mut trace: Vec<TraceEntry> = Vec::new();
        let n = self.frames.len();
        let mut i: usize = 0;
        while i < n
            invariant
                self.wf(),
                n == self.frames@.len(),
                i <= n,
                trace@.len() == i,
                forall|k: int| 0 <= k < i ==> (#[trigger] trace@[k])@ == self@.trace()[k],
            decreases n - i,
        {
            let frame = self.frames[n - 1 - i];
            let entry = TraceEntry { line: self.line_of(frame), name: self.name_of(frame) };
            trace.push(entry);
            i += 1;
        }
        let error = RuntimeError { fault, name, line, trace };
        proof {
            assert(error@.trace =~= old(self)@.trace());
        }
        self.stack.reset();
        self.frames.clear();
        self.open_values.clear();
        Signal::Fault(error)
    }

    /// Stops execution with a runtime error.
    fn fault(&mut self, fault: Fault) -> (signal: Signal)
        requires
            old(self).wf(),
        ensures
            final(self).wf(),
            (final(self)@, signal@) == old(self)@.fault(fault),
    {
        self.fault_named(fault, Vec::new())
    }

    /// The handles that the machine itself holds, for the collector.
    pub fn gather_roots(&self) -> (roots: Vec<Gc>)
        requires
            self.wf(),
        ensures
            roots@.to_set() == self@.roots(),
    {
        let mut roots: Vec<Gc> = Vec::new();
        let mut i: usize = 0;
        while i < self.stack.values.len()
            invariant
                i <= self.stack@.len(),
                roots@ == value_handles(self.stack@.take(i as int)),
            decreases self.stack@.len() - i,
        {
            proof {
                assert(self.stack@.take(i + 1).drop_last() =~= self.stack@.take(i as int));
            }
            match self.stack.values[i].handle() {
                Some(h) => {
                    roots.push(h);
                },
                None => {},
            }
            i += 1;
        }
        proof {
            assert(self.stack@.take(i as int) =~= self.stack@);
        }
        let ghost from_stack = roots@;
        self.table.collect_handles(&mut roots);
        let ghost from_table = roots@;
        let mut j: usize = 0;
        while j < self.frames.len()
            invariant
                j <= self.frames@.len(),
                roots@ == from_table + Seq::new(j as nat, |k: int| self.frames@[k].closure),
            decreases self.frames@.len() - j,
        {
            roots.push(self.frames[j].closure);
            proof {
                assert(roots@ =~= from_table + Seq::new(
                    (j + 1) as nat,
                    |k: int| self.frames@[k].closure,
                ));
            }
            j += 1;
        }
        let ghost from_frames = roots@;
        let mut k: usize = 0;
        while k < self.open_values.len()
            invariant
                k <= self.open_values@.len(),
                roots@ == from_frames + self.open_values@.take(k as int),
            decreases self.open_values@.len() - k,
        {
            roots.push(self.open_values[k]);
            proof {
                assert(roots@ =~= from_frames + self.open_values@.take(k + 1));
            }
            k += 1;
        }
        proof {
            let closures = Seq::new(self.frames@.len(), |k: int| self.frames@[k].closure);
            let open = self.open_values@;
            assert(open.take(k as int) =~= open);
            assert(from_table.to_set() == from_stack.to_set().union(self.table.handle_set()));
            assert forall|h: Gc| roots@.to_set().contains(h) <==> self@.roots().contains(h) by {
                lemma_value_handles(self.stack@, h);
                assert(from_table.contains(h) <==> from_table.to_set().contains(h));
                assert(from_stack.contains(h) <==> from_stack.to_set().contains(h));
                if roots@.contains(h) {
                    let x = choose|x: int| 0 <= x < roots@.len() && roots@[x] == h;
                    if x < from_table.len() {
                        assert(from_table[x] == h);
                        assert(from_table.contains(h));
                    } else if x < from_frames.len() {
                        assert(self.frames@[x - from_table.len()].closure == h);
                    } else {
                        assert(open[x - from_frames.len()] == h);
                        assert(open.contains(h));
                    }
                }
                if from_table.contains(h) {
                    let x = choose|x: int| 0 <= x < from_table.len() && from_table[x] == h;
                    assert(roots@[x] == h);
                }
                if exists|i: int| 0 <= i < self.frames@.len() && (#[trigger] self.frames@[i]).closure == h {
                    let y = choose|i: int|
                        0 <= i < self.frames@.len() && (#[trigger] self.frames@[i]).closure == h;
                    assert(closures[y] == h);
                    assert(roots@[from_table.len() + y] == h);
                }
                if open.contains(h) {
                    let y = choose|y: int| 0 <= y < open.len() && open[y] == h;
                    assert(roots@[from_frames.len() + y] == h);
                }
            }
            assert(roots@.to_set() =~= self@.roots());
        }
        roots
    }

    /// Allocates `object` on the heap; the heap collects first when it must.
    /// The new box is not pinned: the caller stores the handle where the
    /// collector finds it before the next allocation.
    fn allocate(&mut self, object: Obj) -> (made: Option<Gc>)
        requires
            old(self).wf(),
        ensures
            final(self).wf(),
            (final(self)@, made) == old(self)@.allocate(object@),
    {
        let roots = self.gather_roots();
        match self.heap.allocate(object, &roots) {
            Ok(h) => {
                proof {
                    assert(1u64 & 0x7fff_ffff_ffff_ffff == 1) by (bit_vector);
                }
                let released = self.heap.unroot(h);
                Some(h)
            },
            Err(_) => None,
        }
    }

    /// Closes the upvalues that are open over a stack slot at or above
    /// `base`: each takes the value of its slot and leaves the list.
    fn close_upvalues(&mut self, base: usize)
        requires
            old(self).wf(),
        ensures
            final(self).wf(),
            final(self)@ == old(self)@.close_upvalues(base as int),
    {
        let mut kept: Vec<Gc> = Vec::new();
        let n = self.open_values.len();
        let mut i: usize = 0;
        while i < n
            invariant
                self.wf(),
                n == self.open_values@.len(),
                i <= n,
                self.stack == old(self).stack,
                self.table == old(self).table,
                self.frames == old(self).frames,
                self.open_values == old(self).open_values,
                (self.heap@, kept@) == closing(
                    old(self).heap@,
                    old(self).stack@,
                    old(self).open_values@.take(i as int),
                    base as int,
                ),
            decreases n - i,
        {
            let u = self.open_values[i];
            proof {
                assert(old(self).open_values@.take(i + 1).drop_last() =~= old(self).open_values@.take(i as int));
            }
            match self.upvalue_of(u) {
                Some(upvalue) => {
                    if upvalue.closed.is_some() {
                    } else if upvalue.location < base {
                        kept.push(u);
                    } else if upvalue.location < self.stack.len() {
                        let value = self.stack.values[upvalue.location];
                        let swapped = self.heap.replace(
                            u,
                            Obj::UpValue(ObjUpValue { location: upvalue.location, closed: Some(value) }),
                        );
                    }
                },
                None => {},
            }
            i += 1;
        }
        proof {
            assert(old(self).open_values@.take(n as int) =~= old(self).open_values@);
        }
        self.open_values = kept;
    }

    /// The upvalue for stack slot `location`: the open one that the list
    /// holds for the slot, or a new one, which enters the list.
    fn capture_upvalue(&mut self, location: usize) -> (made: Option<Gc>)
        requires
            old(self).wf(),
        ensures
            final(self).wf(),
            (final(self)@, made) == old(self)@.capture(location),
    {
        let n = self.open_values.len();
        let mut i: usize = 0;
        while i < n
            invariant
                self.wf(),
                *self == *old(self),
                n == self.open_values@.len(),
                i <= n,
                self@.find_open(location, 0) == self@.find_open(location, i as int),
            decreases n - i,
        {
            let u = self.open_values[i];
            match self.upvalue_of(u) {
                Some(upvalue) => {
                    if upvalue.closed.is_none() && upvalue.location == location {
                        return Some(u);
                    }
                },
                None => {},
            }
            i += 1;
        }
        match self.allocate(Obj::UpValue(ObjUpValue::new(location))) {
            None => None,
            Some(h) => {
                let m = self.open_values.len();
                let mut p: usize = 0;
                let mut searching = true;
                while searching && p < m
                    invariant
                        self.wf(),
                        m == self.open_values@.len(),
                        p <= m,
                        self@.insert_position(location, 0) == self@.insert_position(
                            location,
                            p as int,
                        ),
                        !searching ==> self@.insert_position(location, p as int) == p,
                    decreases m - p, if searching { 1int } else { 0int },
                {
                    match self.upvalue_of(self.open_values[p]) {
                        Some(upvalue) => {
                            if upvalue.location > location {
                                p += 1;
                            } else {
                                searching = false;
                            }
                        },
                        None => {
                            searching = false;
                        },
                    }
                }
                self.open_values.insert(p, h);
                Some(h)
            },
        }
    }

    /// Finds the upvalues that `specs` ask for.
    fn capture_all(&mut self, specs: &Vec<UpValue>, enclosing: &Vec<Gc>, base: usize) -> (found: Result<
        Vec<Gc>,
        Fault,
    >)
        requires
            old(self).wf(),
        ensures
            final(self).wf(),
            final(self)@ == old(self)@.capturing(specs@, enclosing@, base).0,
            match found {
                Ok(handles) => old(self)@.capturing(specs@, enclosing@, base).1 == Ok::<Seq<Gc>, Fault>(
                    handles@,
                ),
                Err(fault) => old(self)@.capturing(specs@, enclosing@, base).1 == Err::<
                    Seq<Gc>,
                    Fault,
                >(fault),
            },
    {
        let mut handles: Vec<Gc> = Vec::new();
        let mut failed: Option<Fault> = None;
        let mut i: usize = 0;
        while i < specs.len()
            invariant
                self.wf(),
                i <= specs@.len(),
                self@ == old(self)@.capturing(specs@.take(i as int), enclosing@, base).0,
                old(self)@.capturing(specs@.take(i as int), enclosing@, base).1 == match failed {
                    Some(fault) => Err::<Seq<Gc>, Fault>(fault),
                    None => Ok::<Seq<Gc>, Fault>(handles@),
                },
            decreases specs@.len() - i,
        {
            proof {
                assert(specs@.take(i + 1).drop_last() =~= specs@.take(i as int));
            }
            let spec = specs[i];
            if failed.is_none() {
                if spec.is_local {
                    if spec.index > usize::MAX - base {
                        failed = Some(Fault::Corrupt);
                    } else {
                        match self.capture_upvalue(base + spec.index) {
                            Some(h) => {
                                handles.push(h);
                            },
                            None => {
                                failed = Some(Fault::OutOfMemory);
                            },
                        }
                    }
                } else if spec.index < enclosing.len() {
                    handles.push(enclosing[spec.index]);
                } else {
                    failed = Some(Fault::Corrupt);
                }
            }
            i += 1;
        }
        proof {
            assert(specs@.take(i as int) =~= specs@);
        }
        match failed {
            Some(fault) => Err(fault),
            None => Ok(handles),
        }
    }

    /// The upvalues of the closure that the current frame runs.
    fn current_upvalues(&self) -> (upvalues: Vec<Gc>)
        requires
            self.wf(),
            self.frames@.len() > 0,
        ensures
            match self@.closure_at(self@.frame().closure) {
                Some((_, held)) => upvalues@ == held,
                None => upvalues@.len() == 0,
            },
    {
        let frame = self.frames[self.frames.len() - 1];
        match self.heap.get(frame.closure) {
            Some(Obj::Closure(c)) => {
                let mut upvalues: Vec<Gc> = Vec::new();
                let mut i: usize = 0;
                while i < c.obj_upvalues.len()
                    invariant
                        i <= c.obj_upvalues@.len(),
                        upvalues@ == c.obj_upvalues@.take(i as int),
                    decreases c.obj_upvalues@.len() - i,
                {
                    upvalues.push(c.obj_upvalues[i]);
                    proof {
                        assert(upvalues@ =~= c.obj_upvalues@.take(i + 1));
                    }
                    i += 1;
                }
                proof {
                    assert(c.obj_upvalues@.take(i as int) =~= c.obj_upvalues@);
                }
                upvalues
            },
            _ => Vec::new(),
        }
    }

    /// Upvalue `ix` of the closure that the current frame runs.
    fn current_upvalue(&self, ix: usize) -> (found: Option<Gc>)
        requires
            self.wf(),
            self.frames@.len() > 0,
        ensures
            match self@.closure_at(self@.frame().closure) {
                Some((_, held)) => found == if ix < held.len() {
                    Some(held[ix as int])
                } else {
                    None
                },
                None => found is None,
            },
    {
        let frame = self.frames[self.frames.len() - 1];
        match self.heap.get(frame.closure) {
            Some(Obj::Closure(c)) => if ix < c.obj_upvalues.len() {
                Some(c.obj_upvalues[ix])
            } else {
                None
            },
            _ => None,
        }
    }

    /// The bytes of the string behind `h`.
    fn string_of(&self, h: Gc) -> (found: Option<Vec<u8>>)
        requires
            self.wf(),
        ensures
            match found {
                Some(bytes) => self@.string_at(h) == Some(bytes@),
                None => self@.string_at(h) is None,
            },
    {
        match self.heap.get(h) {
            Some(Obj::Str(bytes)) => Some(copy_bytes(bytes)),
            _ => None,
        }
    }

    /// Whether two values are equal.
    pub fn values_equal(&self, a: Value, b: Value) -> (equal: bool)
        requires
            self.wf(),
        ensures
            equal == self@.values_equal(a, b),
    {
        match (a, b) {
            (Value::Nil, Value::Nil) => true,
            (Value::Bool(x), Value::Bool(y)) => x == y,
            (Value::Number(x), Value::Number(y)) => numbers_equal(x, y),
            (Value::String(x), Value::String(y)) => {
                if x.index == y.index {
                    true
                } else {
                    match (self.heap.get(x), self.heap.get(y)) {
                        (Some(Obj::Str(left)), Some(Obj::Str(right))) => crate::utils::bytes_equal(
                            left.as_slice(),
                            right.as_slice(),
                        ),
                        _ => false,
                    }
                }
            },
            (Value::Closure(x), Value::Closure(y)) => x.index == y.index,
            (Value::NativeFunction(x), Value::NativeFunction(y)) => x.index == y.index,
            _ => false,
        }
    }

    fn op_constant(&mut self, function: &ObjFunction, ix: usize) -> (signal: Signal)
        requires
            old(self).wf(),
        ensures
            final(self).wf(),
            (final(self)@, signal@) == old(self)@.constant(*function, ix),
    {
        if ix >= function.chunk.constants.len() {
            return self.fault(Fault::Corrupt);
        }
        match &function.chunk.constants[ix] {
            Constant::Number(bits) => {
                self.push(Value::Number(*bits));
                Signal::Continue
            },
            Constant::Numeral(text) => Signal::Numeral(copy_bytes(text)),
            Constant::Text(text) => match self.allocate(Obj::Str(copy_bytes(text))) {
                Some(h) => {
                    self.push(Value::String(h));
                    Signal::Continue
                },
                None => self.fault(Fault::OutOfMemory),
            },
            Constant::Function(_) => self.fault(Fault::Corrupt),
        }
    }

    fn op_negative(&mut self) -> (signal: Signal)
        requires
            old(self).wf(),
        ensures
            final(self).wf(),
            (final(self)@, signal@) == old(self)@.negative(),
    {
        match self.stack.peek(0) {
            None => self.fault(Fault::Corrupt),
            Some(Value::Number(bits)) => {
                let negated = number_negate(*bits);
                let top = self.pop();
                self.push(Value::Number(negated));
                Signal::Continue
            },
            Some(_) => self.fault(Fault::OperandMustBeNumber),
        }
    }

    fn op_not(&mut self) -> (signal: Signal)
        requires
            old(self).wf(),
        ensures
            final(self).wf(),
            (final(self)@, signal@) == old(self)@.not(),
    {
        match self.pop() {
            None => self.fault(Fault::Corrupt),
            Some(value) => {
                self.push(Value::Bool(is_falsey(&value)));
                Signal::Continue
            },
        }
    }

    fn op_equal(&mut self) -> (signal: Signal)
        requires
            old(self).wf(),
        ensures
            final(self).wf(),
            (final(self)@, signal@) == old(self)@.equal(),
    {
        if self.stack.len() < 2 {
            return self.fault(Fault::Corrupt);
        }
        let n = self.stack.len();
        let b = self.stack.values[n - 1];
        let a = self.stack.values[n - 2];
        let equal = self.values_equal(a, b);
        self.stack.values.truncate(n - 2);
        self.push(Value::Bool(equal));
        proof {
            assert(self@.stack =~= old(self)@.drop_top(2).push(Value::Bool(equal)).stack);
        }
        Signal::Continue
    }

    fn op_pop(&mut self) -> (signal: Signal)
        requires
            old(self).wf(),
        ensures
            final(self).wf(),
            (final(self)@, signal@) == old(self)@.pop(),
    {
        match self.pop() {
            None => self.fault(Fault::Corrupt),
            Some(_) => Signal::Continue,
        }
    }

    /// What `Print` shows for a value.
    fn printed(&self, value: Value) -> (shown: (Vec<u8>, Option<u64>))
        requires
            self.wf(),
        ensures
            (shown.0@, shown.1) == self@.printed(value),
    {
        match value {
            Value::String(h) => match self.heap.get(h) {
                Some(Obj::Str(bytes)) => (copy_bytes(bytes), None),
                _ => (text_bytes("unknown value"), None),
            },
            Value::Number(bits) => (Vec::new(), Some(bits)),
            Value::Bool(true) => (text_bytes("true"), None),
            Value::Bool(false) => (text_bytes("false"), None),
            Value::Nil => (text_bytes("nil"), None),
            _ => (text_bytes("unknown value"), None),
        }
    }

    fn op_print(&mut self) -> (signal: Signal)
        requires
            old(self).wf(),
        ensures
            final(self).wf(),
            (final(self)@, signal@) == old(self)@.print(),
    {
        match self.stack.peek(0) {
            None => self.fault(Fault::Corrupt),
            Some(value) => {
                let (text, number) = self.printed(*value);
                let top = self.pop();
                Signal::Print { text, number }
            },
        }
    }

    /// The binary instructions: `Add`, `Subtract`, `Multiply`, `Divide`,
    /// `Greater` and `Less`.
    pub fn binary_operation(&mut self, code: OpCode) -> (signal: Signal)
        requires
            old(self).wf(),
        ensures
            final(self).wf(),
            (final(self)@, signal@) == old(self)@.binary(code),
    {
        if self.stack.len() < 2 {
            return self.fault(Fault::Corrupt);
        }
        let n = self.stack.len();
        let right = self.stack.values[n - 1];
        let left = self.stack.values[n - 2];
        match (left, right) {
            (Value::Number(lhs), Value::Number(rhs)) => {
                self.stack.values.truncate(n - 2);
                proof {
                    assert(self@.stack =~= old(self)@.drop_top(2).stack);
                }
                match code {
                    OpCode::Greater => {
                        self.push(Value::Bool(number_less(rhs, lhs)));
                        Signal::Continue
                    },
                    OpCode::Less => {
                        self.push(Value::Bool(number_less(lhs, rhs)));
                        Signal::Continue
                    },
                    _ => Signal::Arithmetic { op: code, lhs, rhs },
                }
            },
            (Value::String(lhs), Value::String(rhs)) => {
                if code != OpCode::Add {
                    return self.fault(Fault::OperandsMustBeNumbers);
                }
                match (self.string_of(lhs), self.string_of(rhs)) {
                    (Some(joined), Some(tail)) => {
                        let mut joined = joined;
                        let ghost head = joined@;
                        let mut i: usize = 0;
                        while i < tail.len()
                            invariant
                                i <= tail@.len(),
                                joined@ == head + tail@.take(i as int),
                            decreases tail@.len() - i,
                        {
                            joined.push(tail[i]);
                            proof {
                                assert(joined@ =~= head + tail@.take(i + 1));
                            }
                            i += 1;
                        }
                        proof {
                            assert(tail@.take(i as int) =~= tail@);
                        }
                        self.stack.values.truncate(n - 2);
                        proof {
                            assert(self@.stack =~= old(self)@.drop_top(2).stack);
                        }
                        match self.allocate(Obj::Str(joined)) {
                            Some(h) => {
                                self.push(Value::String(h));
                                Signal::Continue
                            },
                            None => self.fault(Fault::OutOfMemory),
                        }
                    },
                    _ => self.fault(Fault::Corrupt),
                }
            },
            _ => {
                if code == OpCode::Add {
                    self.fault(Fault::OperandsMustBeNumbersOrStrings)
                } else {
                    self.fault(Fault::OperandsMustBeNumbers)
                }
            },
        }
    }

    /// The name held by constant `ix` of the function.
    fn name_at(function: &ObjFunction, ix: usize) -> (found: Option<Vec<u8>>)
        ensures
            match found {
                Some(name) => name_at(*function, ix) == Some(name@),
                None => name_at(*function, ix) is None,
            },
    {
        if ix >= function.chunk.constants.len() {
            return None;
        }
        match &function.chunk.constants[ix] {
            Constant::Text(text) => Some(copy_bytes(text)),
            _ => None,
        }
    }

    fn op_define_global(&mut self, function: &ObjFunction, ix: usize) -> (signal: Signal)
        requires
            old(self).wf(),
        ensures
            final(self).wf(),
            (final(self)@, signal@) == old(self)@.define_global(*function, ix),
    {
        match Self::name_at(function, ix) {
            None => self.fault(Fault::Corrupt),
            Some(name) => match self.stack.peek(0) {
                None => self.fault(Fault::Corrupt),
                Some(value) => {
                    let value = *value;
                    let stored = self.table.insert(HashKeyString::new(name), value);
                    if stored {
                        let top = self.pop();
                        Signal::Continue
                    } else {
                        self.fault(Fault::OutOfMemory)
                    }
                },
            },
        }
    }

    fn op_get_global(&mut self, function: &ObjFunction, ix: usize) -> (signal: Signal)
        requires
            old(self).wf(),
        ensures
            final(self).wf(),
            (final(self)@, signal@) == old(self)@.get_global(*function, ix),
    {
        match Self::name_at(function, ix) {
            None => self.fault(Fault::Corrupt),
            Some(name) => {
                let key = HashKeyString::new(name);
                let found: Option<Value> = match self.table.get(&key) {
                    Some(value) => Some(*value),
                    None => None,
                };
                match found {
                    Some(value) => {
                        self.push(value);
                        Signal::Continue
                    },
                    None => self.fault_named(Fault::UndefinedVariable, key.value),
                }
            },
        }
    }

    fn op_set_global(&mut self, function: &ObjFunction, ix: usize) -> (signal: Signal)
        requires
            old(self).wf(),
        ensures
            final(self).wf(),
            (final(self)@, signal@) == old(self)@.set_global(*function, ix),
    {
        match Self::name_at(function, ix) {
            None => self.fault(Fault::Corrupt),
            Some(name) => {
                let key = HashKeyString::new(name);
                if self.table.get(&key).is_none() {
                    return self.fault_named(Fault::UndefinedVariable, key.value);
                }
                match self.stack.peek(0) {
                    None => self.fault(Fault::Corrupt),
                    Some(value) => {
                        let value = *value;
                        let stored = self.table.insert(key, value);
                        if stored {
                            Signal::Continue
                        } else {
                            self.fault(Fault::OutOfMemory)
                        }
                    },
                }
            },
        }
    }

    fn op_get_local(&mut self, slot: usize) -> (signal: Signal)
        requires
            old(self).wf(),
            old(self).frames@.len() > 0,
        ensures
            final(self).wf(),
            (final(self)@, signal@) == old(self)@.get_local(slot),
    {
        let base = self.frames[self.frames.len() - 1].slots;
        if slot < self.stack.len() && base < self.stack.len() - slot {
            let value = self.stack.values[base + slot];
            self.push(value);
            Signal::Continue
        } else {
            self.fault(Fault::Corrupt)
        }
    }

    fn op_set_local(&mut self, slot: usize) -> (signal: Signal)
        requires
            old(self).wf(),
            old(self).frames@.len() > 0,
            old(self).stack@.len() > 0,
        ensures
            final(self).wf(),
            (final(self)@, signal@) == old(self)@.set_local(slot),
    {
        let base = self.frames[self.frames.len() - 1].slots;
        if slot < self.stack.len() && base < self.stack.len() - slot {
            let value = self.stack.values[self.stack.len() - 1];
            self.stack.values[base + slot] = value;
            Signal::Continue
        } else {
            self.fault(Fault::Corrupt)
        }
    }

    /// What the upvalue behind `h` reads.
    fn read_upvalue(&self, h: Gc) -> (read: Option<Value>)
        requires
            self.wf(),
        ensures
            read == self@.read_upvalue(h),
    {
        match self.upvalue_of(h) {
            Some(upvalue) => match upvalue.closed {
                Some(value) => Some(value),
                None => if upvalue.location < self.stack.len() {
                    Some(self.stack.values[upvalue.location])
                } else {
                    None
                },
            },
            None => None,
        }
    }

    /// Writes `value` through the upvalue behind `h`, and says whether it
    /// could.
    fn write_upvalue(&mut self, h: Gc, value: Value) -> (written: bool)
        requires
            old(self).wf(),
        ensures
            final(self).wf(),
            match old(self)@.write_upvalue(h, value) {
                Some(after) => written && final(self)@ == after,
                None => !written && final(self)@ == old(self)@,
            },
    {
        match self.upvalue_of(h) {
            Some(upvalue) => match upvalue.closed {
                Some(_) => {
                    let swapped = self.heap.replace(
                        h,
                        Obj::UpValue(ObjUpValue { location: upvalue.location, closed: Some(value) }),
                    );
                    true
                },
                None => if upvalue.location < self.stack.len() {
                    self.stack.values[upvalue.location] = value;
                    true
                } else {
                    false
                },
            },
            None => false,
        }
    }

    fn op_get_upvalue(&mut self, ix: usize, Ghost(function): Ghost<ObjFunction>, Ghost(upvalues): Ghost<Seq<Gc>>) -> (signal: Signal)
        requires
            old(self).wf(),
            old(self)@.running(function, upvalues),
        ensures
            final(self).wf(),
            (final(self)@, signal@) == old(self)@.get_upvalue(upvalues, ix),
    {
        match self.current_upvalue(ix) {
            None => self.fault(Fault::Corrupt),
            Some(h) => match self.read_upvalue(h) {
                Some(value) => {
                    self.push(value);
                    Signal::Continue
                },
                None => self.fault(Fault::Corrupt),
            },
        }
    }

    fn op_set_upvalue(&mut self, ix: usize, Ghost(function): Ghost<ObjFunction>, Ghost(upvalues): Ghost<Seq<Gc>>) -> (signal: Signal)
        requires
            old(self).wf(),
            old(self)@.running(function, upvalues),
        ensures
            final(self).wf(),
            (final(self)@, signal@) == old(self)@.set_upvalue(upvalues, ix),
    {
        if self.stack.len() == 0 {
            return self.fault(Fault::Corrupt);
        }
        match self.current_upvalue(ix) {
            None => self.fault(Fault::Corrupt),
            Some(h) => {
                let value = self.stack.values[self.stack.len() - 1];
                if self.write_upvalue(h, value) {
                    Signal::Continue
                } else {
                    self.fault(Fault::Corrupt)
                }
            },
        }
    }

    fn op_jump(&mut self, offset: u16) -> (signal: Signal)
        requires
            old(self).wf(),
            old(self).frames@.len() > 0,
        ensures
            final(self).wf(),
            (final(self)@, signal@) == old(self)@.jump(offset),
    {
        let at = self.frames.len() - 1;
        let ip = self.frames[at].ip;
        if offset as usize > usize::MAX - ip {
            return self.fault(Fault::Corrupt);
        }
        self.frames[at].ip = ip + offset as usize;
        proof {
            assert(self@.frames =~= old(self)@.with_ip((ip + offset) as usize).frames);
        }
        Signal::Continue
    }

    fn op_jump_if_false(&mut self, offset: u16) -> (signal: Signal)
        requires
            old(self).wf(),
            old(self).frames@.len() > 0,
        ensures
            final(self).wf(),
            (final(self)@, signal@) == old(self)@.jump_if_false(offset),
    {
        let falsey = match self.stack.peek(0) {
            None => {
                return self.fault(Fault::Corrupt);
            },
            Some(value) => is_falsey(value),
        };
        if falsey {
            self.op_jump(offset)
        } else {
            Signal::Continue
        }
    }

    fn op_loop(&mut self, offset: u16) -> (signal: Signal)
        requires
            old(self).wf(),
            old(self).frames@.len() > 0,
        ensures
            final(self).wf(),
            (final(self)@, signal@) == old(self)@.loop_back(offset),
    {
        let at = self.frames.len() - 1;
        let ip = self.frames[at].ip;
        if ip <= offset as usize {
            return self.fault(Fault::Corrupt);
        }
        self.frames[at].ip = ip - offset as usize - 1;
        proof {
            assert(self@.frames =~= old(self)@.with_ip((ip - offset - 1) as usize).frames);
        }
        Signal::Continue
    }

    /// Calls a closure: checks the number of arguments and the depth of the
    /// frame stack, and pushes a frame whose window starts at the callee.
    fn call(&mut self, closure: Gc, arg_count: usize) -> (signal: Signal)
        requires
            old(self).wf(),
            old(self).stack@.len() > arg_count,
            old(self).stack@[old(self).stack@.len() - 1 - arg_count] == Value::Closure(closure),
        ensures
            final(self).wf(),
            (final(self)@, signal@) == old(self)@.call(arg_count),
    {
        match self.function_of(closure) {
            None => self.fault(Fault::Corrupt),
            Some(function) => {
                if arg_count != function.arity as usize {
                    return self.fault(Fault::WrongArity { expected: function.arity, got: arg_count });
                }
                if self.frames.len() >= FRAME_MAX {
                    return self.fault(Fault::StackOverflow);
                }
                let slots = self.stack.len() - 1 - arg_count;
                self.frames.push(CallFrame { closure, ip: 0, slots });
                Signal::Continue
            },
        }
    }

    /// Calls the value that lies below `arg_count` arguments.
    fn call_value(&mut self, arg_count: usize) -> (signal: Signal)
        requires
            old(self).wf(),
        ensures
            final(self).wf(),
            (final(self)@, signal@) == old(self)@.call(arg_count),
    {
        if self.stack.len() <= arg_count {
            return self.fault(Fault::Corrupt);
        }
        let at = self.stack.len() - 1 - arg_count;
        let callee = self.stack.values[at];
        match callee {
            Value::Closure(closure) => self.call(closure, arg_count),
            Value::NativeFunction(native) => {
                let name: Option<Vec<u8>> = match self.heap.get(native) {
                    Some(Obj::Native(n)) => Some(copy_bytes(&n.name.value)),
                    _ => None,
                };
                match name {
                    None => self.fault(Fault::Corrupt),
                    Some(name) => {
                        let args = self.stack.values.split_off(at + 1);
                        self.stack.values.truncate(at);
                        proof {
                            assert(self@.stack =~= old(self)@.stack.take(at as int));
                        }
                        Signal::Native { name, args }
                    },
                }
            },
            _ => self.fault(Fault::NotCallable),
        }
    }

    fn op_closure(&mut self, function: &ObjFunction, ix: usize, Ghost(upvalues): Ghost<Seq<Gc>>) -> (signal: Signal)
        requires
            old(self).wf(),
            old(self)@.running(*function, upvalues),
        ensures
            final(self).wf(),
            (final(self)@, signal@) == old(self)@.closure(*function, upvalues, ix),
    {
        if ix >= function.chunk.constants.len() {
            return self.fault(Fault::Corrupt);
        }
        match &function.chunk.constants[ix] {
            Constant::Function(proto) => {
                let enclosing = self.current_upvalues();
                let base = self.frames[self.frames.len() - 1].slots;
                match self.capture_all(&proto.upvalues, &enclosing, base) {
                    Err(fault) => self.fault(fault),
                    Ok(handles) => {
                        let closure = ObjClosure { function: proto.clone(), obj_upvalues: handles };
                        match self.allocate(Obj::Closure(closure)) {
                            Some(h) => {
                                self.push(Value::Closure(h));
                                Signal::Continue
                            },
                            None => self.fault(Fault::OutOfMemory),
                        }
                    },
                }
            },
            _ => self.fault(Fault::Corrupt),
        }
    }

    fn op_close_upvalue(&mut self) -> (signal: Signal)
        requires
            old(self).wf(),
        ensures
            final(self).wf(),
            (final(self)@, signal@) == old(self)@.close_upvalue(),
    {
        if self.stack.len() == 0 {
            return self.fault(Fault::Corrupt);
        }
        self.close_upvalues(self.stack.len() - 1);
        let top = self.pop();
        Signal::Continue
    }

    fn op_return(&mut self) -> (signal: Signal)
        requires
            old(self).wf(),
            old(self).frames@.len() > 0,
        ensures
            final(self).wf(),
            (final(self)@, signal@) == old(self)@.ret(),
    {
        let frame = self.frames[self.frames.len() - 1];
        if self.stack.len() == 0 || frame.slots >= self.stack.len() {
            return self.fault(Fault::Corrupt);
        }
        let result = self.stack.values[self.stack.len() - 1];
        self.close_upvalues(frame.slots);
        let gone = self.frames.pop();
        self.stack.values.truncate(frame.slots);
        self.stack.push(result);
        proof {
            assert(self@.stack =~= old(self)@.stack.take(frame.slots as int).push(result));
        }
        if self.frames.len() == 0 {
            Signal::Done
        } else {
            Signal::Continue
        }
    }

    /// Executes `op` for the closure that the current frame runs.
    fn execute(&mut self, op: OpCode, function: &ObjFunction, Ghost(upvalues): Ghost<Seq<Gc>>) -> (signal: Signal)
        requires
            old(self).wf(),
            old(self)@.running(*function, upvalues),
        ensures
            final(self).wf(),
            (final(self)@, signal@) == old(self)@.execute(op, *function, upvalues),
    {
        match op {
            OpCode::Constant(ix) => self.op_constant(function, ix),
            OpCode::Nil => {
                self.push(Value::Nil);
                Signal::Continue
            },
            OpCode::True => {
                self.push(Value::Bool(true));
                Signal::Continue
            },
            OpCode::False => {
                self.push(Value::Bool(false));
                Signal::Continue
            },
            OpCode::Negative => self.op_negative(),
            OpCode::Not => self.op_not(),
            OpCode::Equal => self.op_equal(),
            OpCode::Pop => self.op_pop(),
            OpCode::Print => self.op_print(),
            OpCode::Add | OpCode::Subtract | OpCode::Multiply | OpCode::Divide | OpCode::Greater
            | OpCode::Less => self.binary_operation(op),
            OpCode::DefineGlobal(ix) => self.op_define_global(function, ix),
            OpCode::GetGlobal(ix) => self.op_get_global(function, ix),
            OpCode::SetGlobal(ix) => self.op_set_global(function, ix),
            OpCode::GetLocal(slot) => self.op_get_local(slot),
            OpCode::SetLocal(slot) => {
                if self.stack.len() == 0 {
                    self.fault(Fault::Corrupt)
                } else {
                    self.op_set_local(slot)
                }
            },
            OpCode::GetUpvalue(ix) => self.op_get_upvalue(ix, Ghost(*function), Ghost(upvalues)),
            OpCode::SetUpvalue(ix) => self.op_set_upvalue(ix, Ghost(*function), Ghost(upvalues)),
            OpCode::Jump(offset) => self.op_jump(offset),
            OpCode::JumpIfFalse(offset) => self.op_jump_if_false(offset),
            OpCode::Loop(offset) => self.op_loop(offset),
            OpCode::Call(argc) => self.call_value(argc),
            OpCode::Closure(ix) => self.op_closure(function, ix, Ghost(upvalues)),
            OpCode::CloseUpvalue => self.op_close_upvalue(),
            OpCode::Return => self.op_return(),
            OpCode::DefineLocal | OpCode::Placeholder => self.fault(Fault::UnknownInstruction),
        }
    }

    /// Executes one instruction and says what the embedding program has to
    /// do before the next step.
    pub fn step(&mut self) -> (signal: Signal)
        requires
            old(self).wf(),
        ensures
            final(self).wf(),
            (final(self)@, signal@) == old(self)@.step(),
    {
        if self.frames.len() == 0 {
            return Signal::Done;
        }
        let at = self.frames.len() - 1;
        let frame = self.frames[at];
        let function = match self.function_of(frame.closure) {
            Some(function) => function,
            None => {
                return self.fault(Fault::Corrupt);
            },
        };
        if frame.ip >= function.chunk.code.len() {
            return self.fault(Fault::Corrupt);
        }
        let op = function.chunk.code[frame.ip];
        self.frames[at].ip = frame.ip + 1;
        let ghost upvalues = old(self)@.closure_at(frame.closure).unwrap().1;
        proof {
            assert(self@.frames =~= old(self)@.with_ip((frame.ip + 1) as usize).frames);
            assert(self@ == old(self)@.with_ip((frame.ip + 1) as usize));
        }
        self.execute(op, &function, Ghost(upvalues))
    }

    /// Makes the machine ready to run `function` as a script. The signal is
    /// `Continue` when the machine is ready, and an error otherwise.
    pub fn load(&mut self, function: ObjFunction) -> (signal: Signal)
        requires
            old(self).wf(),
        ensures
            final(self).wf(),
            (final(self)@, signal@) == old(self)@.load(function),
    {
        let closure = ObjClosure::new(Rc::new(function));
        proof {
            assert(closure.obj_upvalues@ =~= Seq::empty());
        }
        match self.allocate(Obj::Closure(closure)) {
            Some(h) => {
                let left_over = self.pop();
                self.push(Value::Closure(h));
                self.call(h, 0)
            },
            None => self.fault(Fault::OutOfMemory),
        }
    }

    /// Compiles `bytes`, makes the machine ready to run the script, and runs
    /// at most `budget` instructions of it. A source that does not compile
    /// leaves the machine as it is. Otherwise the signal that comes back is
    /// the first that is not `Continue`: the script is done, it has failed,
    /// or the embedding program has to print, to compute or to call a native
    /// function before it goes on with `run`. `Continue` comes back when the
    /// budget is used up.
    pub fn interpret(&mut self, bytes: &str, budget: usize) -> (result: Result<Signal, InterpretError>)
        requires
            old(self).wf(),
        ensures
            final(self).wf(),
            match result {
                Ok(signal) => exists|function: ObjFunction|
                    compiles_to(bytes.spec_bytes(), function) && #[trigger] old(self)@.interpreted(
                        function,
                        budget as nat,
                    ) == (final(self)@, signal@),
                Err(InterpretError::CompileError) => compiled(bytes.spec_bytes()) is Err
                    && final(self)@ == old(self)@,
                Err(_) => false,
            },
    {
        let parser = Parser::new(bytes.as_bytes());
        match parser.compile() {
            Ok(function) => {
                let ghost loaded = function;
                match self.load(function) {
                    Signal::Continue => {
                        let signal = self.run(budget);
                        proof {
                            assert(old(self)@.interpreted(loaded, budget as nat) == (self@, signal@));
                        }
                        Ok(signal)
                    },
                    signal => {
                        proof {
                            assert(old(self)@.interpreted(loaded, budget as nat) == (self@, signal@));
                        }
                        Ok(signal)
                    },
                }
            },
            Err(_) => Err(InterpretError::CompileError),
        }
    }

    /// Runs at most `budget` instructions and returns the first signal that
    /// is not `Continue`, or `Continue` when the budget is used up.
    pub fn run(&mut self, budget: usize) -> (signal: Signal)
        requires
            old(self).wf(),
        ensures
            final(self).wf(),
            (final(self)@, signal@) == old(self)@.run(budget as nat),
    {
        let mut left = budget;
        while left > 0
            invariant
                self.wf(),
                self@.run(left as nat) == old(self)@.run(budget as nat),
            decreases left,
        {
            let signal = self.step();
            match signal {
                Signal::Continue => {},
                other => {
                    return other;
                },
            }
            left -= 1;
        }
        Signal::Continue
    }

    /// Makes the native function known to scripts as a global variable of
    /// its name.
    pub fn define_native(&mut self, native: ObjNative) -> (defined: bool)
        requires
            old(self).wf(),
        ensures
            final(self).wf(),
            (final(self)@, defined) == old(self)@.define_native(native.name.value@),
    {
        let name = copy_bytes(&native.name.value);
        match self.allocate(Obj::Native(native)) {
            Some(h) => self.table.insert(HashKeyString::new(name), Value::NativeFunction(h)),
            None => false,
        }
    }

    /// A machine that knows the native function `clock` and nothing else.
    pub fn new() -> (vm: Self)
        ensures
            vm.wf(),
            vm@ == VmModel::blank().define_native("clock".spec_bytes()).0,
    {
        let mut vm = Vm {
            stack: Stack::new(),
            table: HashTable::new(),
            frames: Vec::new(),
            open_values: Vec::new(),
            heap: Heap::new(),
        };
        proof {
            assert(vm@ == VmModel::blank());
        }
        let defined = vm.define_native(ObjNative::new(text_bytes("clock")));
        vm
    }

    /// Empties the stack.
    pub fn initialize(&mut self)
        ensures
            final(self)@ == (VmModel { stack: Seq::empty(), ..old(self)@ }),
            final(self).wf() == old(self).wf(),
    {
        self.stack.reset();
    }
}

impl Default for Vm {
    fn default() -> (vm: Self)
        ensures
            vm.wf(),
            vm@ == VmModel::blank().define_native("clock".spec_bytes()).0,
    {
        Vm::new()
    }
}

impl VmModel {
    /// An allocation by the machine keeps what the machine holds: an object
    /// behind a handle on the stack, in a global variable, in a frame or in
    /// the list of open upvalues is afterwards live and unchanged. What was
    /// live before and is live afterwards is unchanged; and a handle that was
    /// dangling is afterwards live only when it addresses the new object.
    pub proof fn lemma_allocate_keeps_held(self, v: ObjView, h: Gc)
        requires
            self.heap.boxes.len() <= usize::MAX,
        ensures
            self.heap.live(h) && self.roots().contains(h) ==> self.allocate(v).0.heap.live(h)
                && self.allocate(v).0.heap.boxes[h.index as int] == self.heap.boxes[h.index as int],
            self.allocate(v).0.heap.live(h) && self.allocate(v).1 != Some(h) ==> self.heap.live(h)
                && self.allocate(v).0.heap.boxes[h.index as int] == self.heap.boxes[h.index as int],
            self.allocate(v).1 == Some(h) ==> self.allocate(v).0.heap.live(h) && self.allocate(
                v,
            ).0.heap.payload(h) == v,
            self.allocate(v).0.stack == self.stack,
            self.allocate(v).0.globals == self.globals,
            self.allocate(v).0.frames == self.frames,
            self.allocate(v).0.open_values == self.open_values,
    {
        self.heap.lemma_allocation_keeps_roots(v, self.roots(), h);
        match self.heap.allocated_handle(v, self.roots()) {
            Some(made) => {
                self.heap.lemma_allocation_keeps_roots(v, self.roots(), made);
                if self.heap.live(h) && self.roots().contains(h) {
                    assert(h.index != made.index);
                }
            },
            None => {},
        }
    }

    /// When an allocation by the machine collects, exactly the objects that
    /// can be reached from what the machine holds, or from a pinned object,
    /// are kept, and those are unchanged.
    pub proof fn lemma_collection_is_sound(self, h: Gc)
        requires
            self.heap.must_collect(),
        ensures
            self.heap.ready(self.roots()).live(h) <==> self.heap.live(h) && crate::gc::reachable(
                self.heap.graph(),
                self.roots(),
                h.index,
            ),
            self.heap.ready(self.roots()).live(h) ==> self.heap.ready(
                self.roots(),
            ).boxes[h.index as int] == self.heap.boxes[h.index as int],
    {
        self.heap.lemma_collect_keeps_reachable(self.roots(), h);
    }

    /// Reading and assigning global variables: assigning to a name that was
    /// never defined is an error and so is reading it; defining a name again
    /// replaces its value without complaint.
    pub proof fn lemma_globals(self, function: ObjFunction, ix: usize, name: Seq<u8>)
        requires
            name_at(function, ix) == Some(name),
        ensures
            !self.globals.dom().contains(name) ==> self.set_global(function, ix)
                == self.fault_named(Fault::UndefinedVariable, name),
            !self.globals.dom().contains(name) ==> self.get_global(function, ix)
                == self.fault_named(Fault::UndefinedVariable, name),
            self.globals.dom().contains(name) ==> self.get_global(function, ix) == self.push(
                self.globals[name],
            ).go_on(),
            self.stack.len() > 0 && !self.globals_full() ==> self.define_global(function, ix).1
                == SignalView::Continue && self.define_global(function, ix).0.globals
                == self.globals.insert(name, self.top(0)) && self.define_global(
                function,
                ix,
            ).0.stack == self.stack.drop_last(),
            self.stack.len() > 0 && !self.globals_full() && self.globals.dom().contains(name)
                ==> self.set_global(function, ix).1 == SignalView::Continue && self.set_global(
                function,
                ix,
            ).0.globals == self.globals.insert(name, self.top(0)) && self.set_global(
                function,
                ix,
            ).0.stack == self.stack,
    {
        assert(self.stack.take(self.stack.len() - 1) =~= self.stack.drop_last());
    }

    /// Short-circuit evaluation rests on the conditional jump, which the
    /// compiler puts before the operand that may be skipped: the value on top
    /// of the stack stays where it is; when it is falsey the machine goes on
    /// behind the `offset` instructions that follow the jump, and otherwise
    /// with the first of them.
    pub proof fn lemma_conditional_jump(self, offset: u16, function: ObjFunction, upvalues: Seq<Gc>)
        requires
            self.fetch() == Some((OpCode::JumpIfFalse(offset), function, upvalues)),
            self.stack.len() > 0,
            self.frame().ip + 1 + offset <= usize::MAX,
        ensures
            spec_is_falsey(self.top(0)) ==> self.step() == self.with_ip(
                (self.frame().ip + 1 + offset) as usize,
            ).go_on(),
            !spec_is_falsey(self.top(0)) ==> self.step() == self.with_ip(
                (self.frame().ip + 1) as usize,
            ).go_on(),
            self.step().0.stack == self.stack,
    {
        let next = self.with_ip((self.frame().ip + 1) as usize);
        assert(next.with_ip((self.frame().ip + 1 + offset) as usize) == self.with_ip(
            (self.frame().ip + 1 + offset) as usize,
        )) by {
            assert(next.frames.update(
                next.frames.len() - 1,
                CallFrame { ip: (self.frame().ip + 1 + offset) as usize, ..next.frames.last() },
            ) =~= self.frames.update(
                self.frames.len() - 1,
                CallFrame { ip: (self.frame().ip + 1 + offset) as usize, ..self.frames.last() },
            ));
        }
    }

    /// The machine with the instruction pointer of the current frame moved
    /// twice is the machine with it moved to the second place.
    proof fn lemma_with_ip_twice(self, first: usize, second: usize)
        requires
            self.frames.len() > 0,
        ensures
            self.with_ip(first).with_ip(second) == self.with_ip(second),
            self.with_ip(first).closure_at(self.with_ip(first).frame().closure) == self.closure_at(
                self.frame().closure,
            ),
            self.with_ip(first).frame().ip == first,
            self.with_ip(first).stack == self.stack,
    {
        assert(self.with_ip(first).frames.update(
            self.frames.len() - 1,
            CallFrame { ip: second, ..self.with_ip(first).frames.last() },
        ) =~= self.frames.update(
            self.frames.len() - 1,
            CallFrame { ip: second, ..self.frames.last() },
        ));
    }

    /// Short-circuit evaluation of `and`. The machine stands at the
    /// conditional jump that follows the code of the left operand, whose
    /// value is on top of the stack. A falsey value stays as the value of the
    /// whole expression, and the machine goes on behind the code of the right
    /// operand, none of whose instructions it executes. Any other value is
    /// popped, and the machine goes on with the first instruction of the
    /// right operand.
    pub proof fn lemma_and_short_circuit(self, function: ObjFunction, upvalues: Seq<Gc>, end: int)
        requires
            self.running(function, upvalues),
            and_code(function.chunk.code@, self.frame().ip as int, end),
            self.stack.len() > 0,
            end <= usize::MAX,
        ensures
            spec_is_falsey(self.top(0)) ==> self.step() == self.with_ip(end as usize).go_on(),
            !spec_is_falsey(self.top(0)) ==> self.step() == self.with_ip(
                (self.frame().ip + 1) as usize,
            ).go_on() && self.step().0.step() == self.with_ip(
                (self.frame().ip + 2) as usize,
            ).drop_top(1).go_on(),
    {
        let at = self.frame().ip;
        self.lemma_with_ip_twice((at + 1) as usize, end as usize);
        self.lemma_with_ip_twice((at + 1) as usize, (at + 2) as usize);
    }

    /// Short-circuit evaluation of `or`. The machine stands at the
    /// conditional jump that follows the code of the left operand, whose
    /// value is on top of the stack. A value that is not falsey stays as the
    /// value of the whole expression, and after the two jumps the machine
    /// goes on behind the code of the right operand, none of whose
    /// instructions it executes. A falsey value is popped, and the machine
    /// goes on with the first instruction of the right operand.
    pub proof fn lemma_or_short_circuit(self, function: ObjFunction, upvalues: Seq<Gc>, end: int)
        requires
            self.running(function, upvalues),
            or_code(function.chunk.code@, self.frame().ip as int, end),
            self.stack.len() > 0,
            end <= usize::MAX,
        ensures
            !spec_is_falsey(self.top(0)) ==> self.step() == self.with_ip(
                (self.frame().ip + 1) as usize,
            ).go_on() && self.step().0.step() == self.with_ip(end as usize).go_on(),
            spec_is_falsey(self.top(0)) ==> self.step() == self.with_ip(
                (self.frame().ip + 2) as usize,
            ).go_on() && self.step().0.step() == self.with_ip(
                (self.frame().ip + 3) as usize,
            ).drop_top(1).go_on(),
    {
        let at = self.frame().ip;
        self.lemma_with_ip_twice((at + 1) as usize, (at + 2) as usize);
        self.lemma_with_ip_twice((at + 2) as usize, end as usize);
        self.lemma_with_ip_twice((at + 2) as usize, (at + 3) as usize);
    }

    /// A closure sees what happens to a captured variable while the variable
    /// is on the stack: an open upvalue reads the slot it refers to, so after
    /// a value was stored in that slot the upvalue reads the new value.
    pub proof fn lemma_open_upvalue_follows_slot(self, h: Gc, value: Value)
        requires
            self.upvalue_at(h) is Some,
            self.upvalue_at(h).unwrap().closed is None,
            self.upvalue_at(h).unwrap().location < self.stack.len(),
        ensures
            self.read_upvalue(h) == Some(self.stack[self.upvalue_at(h).unwrap().location as int]),
            (VmModel {
                stack: self.stack.update(self.upvalue_at(h).unwrap().location as int, value),
                ..self
            }).read_upvalue(h) == Some(value),
            self.write_upvalue(h, value) is Some,
            self.write_upvalue(h, value).unwrap().stack[self.upvalue_at(h).unwrap().location as int]
                == value,
            self.write_upvalue(h, value).unwrap().read_upvalue(h) == Some(value),
    {
    }

    /// A closure keeps a captured variable after the variable has left the
    /// stack: a closed upvalue reads the value it owns, and a value written
    /// through it is what it reads next.
    pub proof fn lemma_closed_upvalue_owns_value(self, h: Gc, value: Value)
        requires
            self.upvalue_at(h) is Some,
            self.upvalue_at(h).unwrap().closed is Some,
        ensures
            self.read_upvalue(h) == self.upvalue_at(h).unwrap().closed,
            self.write_upvalue(h, value) is Some,
            self.write_upvalue(h, value).unwrap().read_upvalue(h) == Some(value),
            self.write_upvalue(h, value).unwrap().stack == self.stack,
    {
    }
}

/// The handle addresses an upvalue that is open over a slot of the stack at
/// or above `base`.
pub open spec fn closable(heap: HeapModel<Obj>, stack: Seq<Value>, base: int, h: Gc) -> bool {
    heap.live(h) && match heap.payload(h) {
        ObjView::UpValue(upvalue) => upvalue.closed is None && base <= upvalue.location
            < stack.len(),
        _ => false,
    }
}

/// The upvalue behind the handle once it owns the value of its slot.
pub open spec fn closed_payload(heap: HeapModel<Obj>, stack: Seq<Value>, h: Gc) -> ObjView {
    match heap.payload(h) {
        ObjView::UpValue(upvalue) => closed_over(upvalue, stack[upvalue.location as int]),
        other => other,
    }
}

/// What closing does to one handle: its box stays, and its payload stays
/// unless it was an open upvalue over a slot of the stack at or above `base`
/// that is among the handles closed, which now owns the value of its slot.
pub proof fn lemma_closing_frame(
    heap: HeapModel<Obj>,
    stack: Seq<Value>,
    pending: Seq<Gc>,
    base: int,
    h: Gc,
)
    ensures
        closing(heap, stack, pending, base).0.live(h) == heap.live(h),
        closing(heap, stack, pending, base).0.boxes.len() == heap.boxes.len(),
        heap.live(h) ==> {
            let after = closing(heap, stack, pending, base).0;
            ||| after.boxes[h.index as int] == heap.boxes[h.index as int]
            ||| (pending.contains(h) && closable(heap, stack, base, h) && after.payload(h)
                == closed_payload(heap, stack, h))
        },
    decreases pending.len(),
{
    if pending.len() > 0 {
        let front = pending.drop_last();
        lemma_closing_frame(heap, stack, front, base, h);
        lemma_closing_frame(heap, stack, front, base, pending.last());
        if front.contains(h) {
            let k = choose|k: int| 0 <= k < front.len() && front[k] == h;
            assert(pending[k] == h);
        }
        assert(pending[pending.len() - 1] == pending.last());
    }
}

/// Closing closes: an upvalue of the list that is open over a slot of the
/// stack at or above `base` owns the value of that slot afterwards.
pub proof fn lemma_closing_closes(
    heap: HeapModel<Obj>,
    stack: Seq<Value>,
    pending: Seq<Gc>,
    base: int,
    k: int,
)
    requires
        0 <= k < pending.len(),
        closable(heap, stack, base, pending[k]),
    ensures
        closing(heap, stack, pending, base).0.live(pending[k]),
        closing(heap, stack, pending, base).0.payload(pending[k]) == closed_payload(
            heap,
            stack,
            pending[k],
        ),
    decreases pending.len(),
{
    let front = pending.drop_last();
    let h = pending[k];
    lemma_closing_frame(heap, stack, front, base, h);
    lemma_closing_frame(heap, stack, front, base, pending.last());
    if k < pending.len() - 1 {
        lemma_closing_closes(heap, stack, front, base, k);
    }
}

impl VmModel {
    /// A closure keeps seeing a captured variable when the function that
    /// declared it returns: an upvalue of the list that is open over a slot at
    /// or above `base` reads, after the upvalues from `base` on were closed,
    /// the value that it read before.
    pub proof fn lemma_close_keeps_value(self, base: int, k: int)
        requires
            0 <= k < self.open_values.len(),
            self.upvalue_at(self.open_values[k]) is Some,
            self.upvalue_at(self.open_values[k]).unwrap().closed is None,
            base <= self.upvalue_at(self.open_values[k]).unwrap().location < self.stack.len(),
        ensures
            self.close_upvalues(base).read_upvalue(self.open_values[k]) == self.read_upvalue(
                self.open_values[k],
            ),
            self.close_upvalues(base).upvalue_at(self.open_values[k]) is Some,
            self.close_upvalues(base).upvalue_at(self.open_values[k]).unwrap().closed == Some(
                self.stack[self.upvalue_at(self.open_values[k]).unwrap().location as int],
            ),
    {
        lemma_closing_closes(self.heap, self.stack, self.open_values, base, k);
    }
}


impl VmModel {
    /// Entry `k` of the list of open upvalues is an open upvalue over slot
    /// `location`.
    pub open spec fn opens(self, location: usize, k: int) -> bool {
        0 <= k < self.open_values.len() && match self.upvalue_at(self.open_values[k]) {
            Some(upvalue) => upvalue.closed is None && upvalue.location == location,
            None => false,
        }
    }

    /// The search for an open upvalue over `location` finds the first entry
    /// from `from` on that is one.
    proof fn lemma_find_open(self, location: usize, from: int)
        requires
            0 <= from <= self.open_values.len(),
        ensures
            from <= self.find_open(location, from) <= self.open_values.len(),
            self.find_open(location, from) < self.open_values.len() ==> self.opens(
                location,
                self.find_open(location, from),
            ),
            forall|j: int| from <= j < self.find_open(location, from) ==> !self.opens(location, j),
        decreases self.open_values.len() - from,
    {
        if from < self.open_values.len() {
            self.lemma_find_open(location, from + 1);
        }
    }

    /// Two closures that capture the same variable share it: once a stack
    /// slot has been captured, capturing it again gives the same upvalue and
    /// changes nothing.
    pub proof fn lemma_capture_shared(self, location: usize)
        requires
            self.heap.boxes.len() <= usize::MAX,
            self.capture(location).1 is Some,
        ensures
            self.capture(location).0.capture(location) == self.capture(location),
    {
        let (after, made) = self.capture(location);
        let h = made.unwrap();
        self.lemma_find_open(location, 0);
        if self.find_open(location, 0) >= self.open_values.len() {
            let v = ObjView::UpValue(ObjUpValue { location, closed: None });
            let (mid, fresh) = self.allocate(v);
            assert(fresh == Some(h));
            self.lemma_allocate_keeps_held(v, h);
            let at = mid.insert_position(location, 0);
            mid.lemma_insert_position(location, 0);
            assert(after.open_values == mid.open_values.insert(at, h));
            assert(after.open_values[at] == h);
            assert(after.opens(location, at));
            after.lemma_find_open(location, 0);
            let found = after.find_open(location, 0);
            assert(found <= at);
            let e = after.open_values[found];
            if e != h {
                let j = if found < at {
                    found
                } else {
                    found - 1
                };
                assert(mid.open_values[j] == e);
                assert(self.open_values[j] == e);
                self.lemma_allocate_keeps_held(v, e);
                assert(self.opens(location, j));
                assert(false);
            }
        }
    }

    /// The place where a new upvalue enters the list lies within the list.
    proof fn lemma_insert_position(self, location: usize, from: int)
        requires
            0 <= from <= self.open_values.len(),
        ensures
            from <= self.insert_position(location, from) <= self.open_values.len(),
        decreases self.open_values.len() - from,
    {
        if from < self.open_values.len() {
            self.lemma_insert_position(location, from + 1);
        }
    }
}

} // verus!
