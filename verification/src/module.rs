//! The immutable, deserializable program image a `Runtime` is built from.

use vstd::prelude::*;
use crate::opcode::Opcode;
use crate::value::Value;

verus! {

/// A function signature: argument kinds and return kinds.  At most one
/// return value is used today; a sequence is kept for forward
/// compatibility.
#[derive(Clone, Debug)]
pub enum Type {
    Func(Vec<ValType>, Vec<ValType>),
}

/// The kind of a scalar value.
#[derive(Copy, Clone, Debug, PartialEq, Eq, Structural)]
pub enum ValType {
    I32,
    I64,
    F32,
    F64,
}

/// One bytecode function: its signature by index, its local declarations
/// and its body.
#[derive(Clone, Debug)]
pub struct Function {
    pub typeidx: usize,
    pub locals: Vec<ValType>,
    pub body: FunctionBody,
}

/// The instruction sequence of a function.
#[derive(Clone, Debug)]
pub struct FunctionBody {
    pub opcodes: Vec<Opcode>,
}

/// A static byte payload copied into linear memory at instantiation.
#[derive(Clone, Debug)]
pub struct DataSegment {
    pub offset: u32,
    pub data: Vec<u8>,
}

/// The initial value of one global slot.
#[derive(Clone, Debug)]
pub struct Global {
    pub value: Value,
}

/// An import declaration for a native function, bound to a concrete
/// callable at or after instantiation.
#[derive(Clone, Debug)]
pub struct Native {
    pub module: String,
    pub field: String,
    pub typeidx: u32,
}

/// An indirect-call table: an ordered sequence of optional function
/// indices.
#[derive(Clone, Debug)]
pub struct Table {
    pub elements: Vec<Option<u32>>,
}

/// An immutable program image.  It may be shared read-only: a `Runtime`
/// owns the copy it was built from.
#[derive(Clone, Debug)]
pub struct Module {
    pub types: Vec<Type>,
    pub functions: Vec<Function>,
    pub data_segments: Vec<DataSegment>,
    pub globals: Vec<Global>,
    pub natives: Vec<Native>,
    pub tables: Vec<Table>,
}

impl Module {
    /// Every type index and table element referenced anywhere is in range.
    pub open spec fn valid(self) -> bool {
        &&& forall|i: int|
            0 <= i < self.functions@.len() ==> (#[trigger] self.functions@[i]).typeidx
                < self.types@.len()
        &&& forall|i: int|
            0 <= i < self.natives@.len() ==> (#[trigger] self.natives@[i]).typeidx
                < self.types@.len()
        &&& forall|i: int, j: int|
            0 <= i < self.tables@.len() && 0 <= j < self.tables@[i].elements@.len()
                && (#[trigger] self.tables@[i].elements@[j]) is Some
                ==> self.tables@[i].elements@[j]->0 < self.functions@.len()
    }
}

} // verus!
