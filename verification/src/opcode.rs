//! The closed instruction vocabulary a function body is built from.
//!
//! Control transfer uses resolved absolute jump targets (`Jmp`, `JmpIf`,
//! `JmpTable`), produced by the front end that lowers structured control
//! flow; the remaining operations are ordinary stack-machine arithmetic,
//! memory access with offset/alignment, and calls.

use vstd::prelude::*;

verus! {

/// Offset and alignment of a memory access.
#[derive(Copy, Clone, Debug, PartialEq, Eq, Structural)]
pub struct Memarg {
    pub offset: u32,
    pub align: u32,
}

/// One operation of a function body.
#[derive(Clone, Debug)]
pub enum Opcode {
    Drop,
    Select,
    GetLocal(u32),
    SetLocal(u32),
    TeeLocal(u32),
    GetGlobal(u32),
    SetGlobal(u32),
    CurrentMemory,
    GrowMemory,
    Nop,
    Unreachable,
    Return,
    Call(u32),
    CallIndirect(u32),
    I32Const(i32),
    I32Clz,
    I32Ctz,
    I32Popcnt,
    I32Add,
    I32Sub,
    I32Mul,
    I32DivU,
    I32DivS,
    I32RemU,
    I32RemS,
    I32And,
    I32Or,
    I32Xor,
    I32Shl,
    I32ShrU,
    I32ShrS,
    I32Rotl,
    I32Rotr,
    I32Eqz,
    I32Eq,
    I32Ne,
    I32LtU,
    I32LtS,
    I32LeU,
    I32LeS,
    I32GtU,
    I32GtS,
    I32GeU,
    I32GeS,
    I32WrapI64,
    I32Load(Memarg),
    I32Store(Memarg),
    I32Load8U(Memarg),
    I32Load8S(Memarg),
    I32Load16U(Memarg),
    I32Load16S(Memarg),
    I32Store8(Memarg),
    I32Store16(Memarg),
    I64Const(i64),
    I64Clz,
    I64Ctz,
    I64Popcnt,
    I64Add,
    I64Sub,
    I64Mul,
    I64DivU,
    I64DivS,
    I64RemU,
    I64RemS,
    I64And,
    I64Or,
    I64Xor,
    I64Shl,
    I64ShrU,
    I64ShrS,
    I64Rotl,
    I64Rotr,
    I64Eqz,
    I64Eq,
    I64Ne,
    I64LtU,
    I64LtS,
    I64LeU,
    I64LeS,
    I64GtU,
    I64GtS,
    I64GeU,
    I64GeS,
    I64ExtendI32U,
    I64ExtendI32S,
    I64Load(Memarg),
    I64Store(Memarg),
    I64Load8U(Memarg),
    I64Load8S(Memarg),
    I64Load16U(Memarg),
    I64Load16S(Memarg),
    I64Load32U(Memarg),
    I64Load32S(Memarg),
    I64Store8(Memarg),
    I64Store16(Memarg),
    I64Store32(Memarg),
    Jmp(u32),
    JmpIf(u32),
    JmpTable(Vec<u32>, u32),
}

} // verus!
