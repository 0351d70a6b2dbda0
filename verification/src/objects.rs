//! What lives on the heap, and the function prototypes that closures share.

use vstd::prelude::*;
use std::rc::Rc;
use crate::chunk::Chunk;
use crate::gc::Gc;
use crate::trace::{Finalize, Trace};
use crate::utils::{fnv1a, hash};
use crate::value::Value;

verus! {

/// The most upvalues one function can have.
pub const MAX_UPVALUES: usize = 256;

/// A name together with its FNV-1a hash.
#[derive(Debug)]
pub struct HashKeyString {
    pub value: Vec<u8>,
    pub hash: u64,
}

impl HashKeyString {
    /// The hash is the FNV-1a hash of the name.
    pub open spec fn wf(&self) -> bool {
        self.hash == fnv1a(self.value@)
    }

    /// The key for `value`.
    pub fn new(value: Vec<u8>) -> (key: Self)
        ensures
            key.wf(),
            key.value == value,
    {
        let hash = hash(value.as_slice());
        HashKeyString { value, hash }
    }
}

/// How a closure finds one captured variable when it is created: in slot
/// `index` of the enclosing frame when `is_local`, else as upvalue `index` of
/// the enclosing closure.
#[derive(Clone, Copy, PartialEq, Eq, Debug, Structural)]
pub struct UpValue {
    pub index: usize,
    pub is_local: bool,
}

impl UpValue {
    pub fn new(index: usize, is_local: bool) -> (upvalue: Self)
        ensures
            upvalue.index == index,
            upvalue.is_local == is_local,
    {
        UpValue { index, is_local }
    }
}

/// A captured variable at run time. While `closed` is empty the variable is
/// open and lives in stack slot `location`; afterwards the upvalue owns the
/// value.
#[derive(Clone, Copy, PartialEq, Eq, Debug, Structural)]
pub struct ObjUpValue {
    pub location: usize,
    pub closed: Option<Value>,
}

impl ObjUpValue {
    /// An open upvalue over stack slot `location`.
    pub fn new(location: usize) -> (upvalue: Self)
        ensures
            upvalue.location == location,
            upvalue.closed is None,
    {
        ObjUpValue { location, closed: None }
    }
}

impl Default for ObjUpValue {
    fn default() -> (upvalue: Self)
        ensures
            upvalue.location == 0,
            upvalue.closed is None,
    {
        ObjUpValue::new(0)
    }
}

/// A function prototype: what the compiler makes of one function. It does
/// not change once it is compiled, and any number of closures share it.
#[derive(Debug)]
pub struct ObjFunction {
    /// The number of parameters.
    pub arity: u8,
    pub chunk: Chunk,
    pub name: HashKeyString,
    /// One entry for each variable the function captures.
    pub upvalues: Vec<UpValue>,
}

impl ObjFunction {
    /// The prototype can be run: its name has its hash, each instruction has
    /// its line, every jump lands on an instruction, every operand is in
    /// range, there are at most 256 upvalues, and the same holds of every
    /// nested prototype.
    pub open spec fn sound(&self) -> bool
        decreases self,
    {
        &&& self.name.wf()
        &&& self.chunk.aligned()
        &&& self.chunk.jumps_land()
        &&& crate::chunk::operands_within(
            self.chunk.code@,
            self.chunk.constants@,
            self.upvalues@.len() as int,
        )
        &&& self.upvalues@.len() <= MAX_UPVALUES
        &&& forall|k: int|
            0 <= k < self.chunk.constants@.len() ==> match #[trigger] self.chunk.constants@[k] {
                crate::chunk::Constant::Function(f) => f.sound(),
                _ => true,
            }
    }

    /// A prototype without parameters, code or upvalues.
    pub fn new(name: Vec<u8>) -> (function: Self)
        ensures
            function.arity == 0,
            function.chunk.code@.len() == 0,
            function.chunk.constants@.len() == 0,
            function.chunk.lines@.len() == 0,
            function.name.value == name,
            function.name.wf(),
            function.upvalues@.len() == 0,
    {
        ObjFunction {
            arity: 0,
            chunk: Chunk::new(),
            name: HashKeyString::new(name),
            upvalues: Vec::new(),
        }
    }
}

/// A function value: a prototype and the variables it has captured.
#[derive(Debug)]
pub struct ObjClosure {
    pub function: Rc<ObjFunction>,
    pub obj_upvalues: Vec<Gc>,
}

impl ObjClosure {
    /// A closure over `function` that has captured nothing yet.
    pub fn new(function: Rc<ObjFunction>) -> (closure: Self)
        ensures
            closure.function == function,
            closure.obj_upvalues@.len() == 0,
    {
        ObjClosure { function, obj_upvalues: Vec::new() }
    }
}

/// A function of the embedding program, known to scripts by its name.
#[derive(Debug)]
pub struct ObjNative {
    pub name: HashKeyString,
}

impl ObjNative {
    pub fn new(name: Vec<u8>) -> (native: Self)
        ensures
            native.name.value == name,
            native.name.wf(),
    {
        ObjNative { name: HashKeyString::new(name) }
    }
}

/// A heap object.
#[derive(Debug)]
pub enum Obj {
    Str(Vec<u8>),
    Closure(ObjClosure),
    UpValue(ObjUpValue),
    Native(ObjNative),
}

/// A heap object as contracts see it.
pub enum ObjView {
    Str(Seq<u8>),
    Closure { function: ObjFunction, upvalues: Seq<Gc> },
    UpValue(ObjUpValue),
    Native(Seq<u8>),
}

/// The bytes charged for a heap object before its contents are counted.
pub const OBJECT_BYTES: usize = 32;

/// `base + extra`, or the largest `usize` when the sum does not fit.
pub open spec fn spec_charge(base: usize, extra: int) -> usize {
    if base + extra > usize::MAX {
        usize::MAX
    } else {
        (base + extra) as usize
    }
}

impl View for Obj {
    type V = ObjView;

    open spec fn view(&self) -> ObjView {
        match self {
            Obj::Str(bytes) => ObjView::Str(bytes@),
            Obj::Closure(c) => ObjView::Closure { function: *c.function, upvalues: c.obj_upvalues@ },
            Obj::UpValue(u) => ObjView::UpValue(*u),
            Obj::Native(n) => ObjView::Native(n.name.value@),
        }
    }
}

impl ObjView {
    /// The handles held by the object: a closure holds its upvalues, a closed
    /// upvalue holds what its value holds, a string or a native nothing.
    pub open spec fn edges(self) -> Seq<Gc> {
        match self {
            ObjView::Closure { function, upvalues } => upvalues,
            ObjView::UpValue(u) => match u.closed {
                Some(v) => match v.spec_handle() {
                    Some(h) => seq![h],
                    None => Seq::empty(),
                },
                None => Seq::empty(),
            },
            _ => Seq::empty(),
        }
    }

    /// The bytes charged for the object: the fixed part, and one byte for each
    /// byte of a string or name, or eight for each upvalue of a closure.
    pub open spec fn footprint(self) -> usize {
        match self {
            ObjView::Str(bytes) => spec_charge(OBJECT_BYTES, bytes.len() as int),
            ObjView::Closure { function, upvalues } => spec_charge(OBJECT_BYTES, 8 * (upvalues.len() as int)),
            ObjView::UpValue(_) => OBJECT_BYTES,
            ObjView::Native(name) => spec_charge(OBJECT_BYTES, name.len() as int),
        }
    }
}

/// `base + extra`, or the largest `usize` when the sum does not fit.
fn charge(base: usize, extra: usize) -> (sum: usize)
    ensures
        sum == spec_charge(base, extra as int),
{
    if extra > usize::MAX - base {
        usize::MAX
    } else {
        base + extra
    }
}

impl Finalize for Obj {
}

impl Trace for Obj {
    open spec fn edges(v: ObjView) -> Seq<Gc> {
        v.edges()
    }

    open spec fn bytes(v: ObjView) -> usize {
        v.footprint()
    }

    fn trace(&self) -> (out: Vec<Gc>) {
        match self {
            Obj::Closure(c) => {
                let mut out: Vec<Gc> = Vec::new();
                let mut i: usize = 0;
                while i < c.obj_upvalues.len()
                    invariant
                        i <= c.obj_upvalues@.len(),
                        out@ == c.obj_upvalues@.take(i as int),
                    decreases c.obj_upvalues@.len() - i,
                {
                    out.push(c.obj_upvalues[i]);
                    proof {
                        assert(out@ =~= c.obj_upvalues@.take(i + 1));
                    }
                    i += 1;
                }
                proof {
                    assert(c.obj_upvalues@.take(i as int) =~= c.obj_upvalues@);
                }
                out
            },
            Obj::UpValue(u) => {
                let mut out: Vec<Gc> = Vec::new();
                match u.closed {
                    Some(v) => match v.handle() {
                        Some(h) => {
                            out.push(h);
                            proof {
                                assert(out@ =~= seq![h]);
                            }
                        },
                        None => {},
                    },
                    None => {},
                }
                out
            },
            _ => Vec::new(),
        }
    }

    fn footprint(&self) -> (bytes: usize) {
        match self {
            Obj::Str(text) => charge(OBJECT_BYTES, text.len()),
            Obj::Closure(c) => {
                let n = c.obj_upvalues.len();
                if n > usize::MAX / 8 {
                    usize::MAX
                } else {
                    charge(OBJECT_BYTES, 8 * n)
                }
            },
            Obj::UpValue(_) => OBJECT_BYTES,
            Obj::Native(n) => charge(OBJECT_BYTES, n.name.value.len()),
        }
    }
}

} // verus!
