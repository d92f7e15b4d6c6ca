//! Tagged runtime scalars and their uniform 64-bit slot encoding.
//!
//! Every value that crosses the boundary between the host and generated
//! code travels as a raw 64-bit slot.  `reinterpret_as_i64` is the
//! bit-level encoding into such a slot (single-precision payloads are first
//! widened to double precision, by value, so that slots are uniformly
//! double-width); `reinterpret_from_i64` decodes a slot at a given kind.
//! `cast_to_i64` is the distinct *numeric* conversion used by a few
//! instruction-set operations; the two must never be confused.

use vstd::prelude::*;
use crate::fp_ops::{
    spec_f64_bits_of_f32_bits, spec_f32_bits_of_f64_bits, spec_i64_trunc_of_f64_bits,
    f64_bits_of_f32_bits, f32_bits_of_f64_bits, i64_trunc_of_f64_bits, lemma_f32_round_trip,
};
use crate::module::ValType;

verus! {

/// A typed scalar.  Floating-point payloads are carried as their IEEE 754
/// bit patterns; the runtime itself never performs float arithmetic.
#[derive(Copy, Clone, Debug, PartialEq, Eq, Structural)]
pub enum Value {
    Undef,
    I32(i32),
    I64(i64),
    F32(u32),
    F64(u64),
}

/// The recoverable error of the typed accessors: the stored kind does not
/// match the requested kind.
#[derive(Copy, Clone, Debug, PartialEq, Eq, Structural)]
pub enum ExecuteError {
    ValueTypeMismatch,
}

pub type ExecuteResult<T> = Result<T, ExecuteError>;

/// The unsigned 32-bit pattern of a signed 32-bit integer.
pub open spec fn spec_u32_of_i32_bits(x: i32) -> u32 {
    if x >= 0 {
        x as u32
    } else {
        (x + 0x100000000) as u32
    }
}

/// The signed reading of an unsigned 32-bit pattern.
pub open spec fn spec_i32_of_u32_bits(u: u32) -> i32 {
    if u < 0x80000000 {
        u as i32
    } else {
        (u - 0x100000000) as i32
    }
}

/// The unsigned 64-bit pattern of a signed 64-bit integer.
pub open spec fn spec_u64_of_i64_bits(x: i64) -> u64 {
    if x >= 0 {
        x as u64
    } else {
        (x + 0x10000000000000000) as u64
    }
}

/// The signed reading of an unsigned 64-bit pattern.
pub open spec fn spec_i64_of_u64_bits(u: u64) -> i64 {
    if u < 0x8000000000000000 {
        u as i64
    } else {
        (u - 0x10000000000000000) as i64
    }
}

/// Slot encoding: bit-reinterpretation with no numeric conversion, except
/// that a single-precision payload is widened (exactly) to double width.
pub open spec fn spec_reinterpret_as_i64(v: Value) -> i64 {
    match v {
        Value::Undef => 0,
        Value::I32(x) => spec_u32_of_i32_bits(x) as i64,
        Value::I64(x) => x,
        Value::F32(b) => spec_i64_of_u64_bits(spec_f64_bits_of_f32_bits(b)),
        Value::F64(b) => spec_i64_of_u64_bits(b),
    }
}

/// Slot decoding at a declared kind; the inverse of the encoding on every
/// slot that an encoded value of that kind produced.
pub open spec fn spec_reinterpret_from_i64(v: i64, ty: ValType) -> Value {
    match ty {
        ValType::I32 => Value::I32(
            spec_i32_of_u32_bits((spec_u64_of_i64_bits(v) % 0x100000000) as u32),
        ),
        ValType::I64 => Value::I64(v),
        ValType::F32 => Value::F32(spec_f32_bits_of_f64_bits(spec_u64_of_i64_bits(v))),
        ValType::F64 => Value::F64(spec_u64_of_i64_bits(v)),
    }
}

/// Numeric conversion to a 64-bit integer: integers convert by value,
/// floating-point payloads by truncation toward zero with 0 for NaN and
/// out-of-range values.
pub open spec fn spec_cast_to_i64(v: Value) -> i64 {
    match v {
        Value::Undef => 0,
        Value::I32(x) => x as i64,
        Value::I64(x) => x,
        Value::F32(b) => spec_i64_trunc_of_f64_bits(spec_f64_bits_of_f32_bits(b)),
        Value::F64(b) => spec_i64_trunc_of_f64_bits(b),
    }
}

/// The kind of a typed value; meaningful only off `Undef`.
pub open spec fn spec_kind_of(v: Value) -> ValType {
    match v {
        Value::Undef => arbitrary(),
        Value::I32(_) => ValType::I32,
        Value::I64(_) => ValType::I64,
        Value::F32(_) => ValType::F32,
        Value::F64(_) => ValType::F64,
    }
}

impl Default for Value {
    /// The default value is the undefined value, which coerces to a typed
    /// zero wherever it is read.
    fn default() -> (r: Value)
        ensures
            r == Value::Undef,
    {
        Value::Undef
    }
}

impl Value {
    /// Reads the value as a 32-bit integer; `Undef` coerces to 0, any other
    /// wrong kind signals a type mismatch.
    pub fn get_i32(&self) -> (r: ExecuteResult<i32>)
        ensures
            r == match *self {
                Value::Undef => Ok::<i32, ExecuteError>(0),
                Value::I32(v) => Ok::<i32, ExecuteError>(v),
                _ => Err::<i32, ExecuteError>(ExecuteError::ValueTypeMismatch),
            },
    {
        match *self {
            Value::Undef => Ok(0),
            Value::I32(v) => Ok(v),
            _ => Err(ExecuteError::ValueTypeMismatch),
        }
    }

    /// Reads the value as a 64-bit integer; `Undef` coerces to 0, any other
    /// wrong kind signals a type mismatch.
    pub fn get_i64(&self) -> (r: ExecuteResult<i64>)
        ensures
            r == match *self {
                Value::Undef => Ok::<i64, ExecuteError>(0),
                Value::I64(v) => Ok::<i64, ExecuteError>(v),
                _ => Err::<i64, ExecuteError>(ExecuteError::ValueTypeMismatch),
            },
    {
        match *self {
            Value::Undef => Ok(0),
            Value::I64(v) => Ok(v),
            _ => Err(ExecuteError::ValueTypeMismatch),
        }
    }

    /// Numeric (not bitwise) conversion to a 64-bit integer.
    pub fn cast_to_i64(&self) -> (r: i64)
        ensures
            r == spec_cast_to_i64(*self),
    {
        match *self {
            Value::Undef => 0,
            Value::I32(v) => v as i64,
            Value::I64(v) => v,
            Value::F32(b) => i64_trunc_of_f64_bits(f64_bits_of_f32_bits(b)),
            Value::F64(b) => i64_trunc_of_f64_bits(b),
        }
    }

    /// Bit-reinterprets the value into its raw 64-bit slot encoding.
    pub fn reinterpret_as_i64(&self) -> (r: i64)
        ensures
            r == spec_reinterpret_as_i64(*self),
    {
        match *self {
            Value::Undef => 0,
            Value::I32(v) => {
                let u: u32 = if v >= 0 {
                    v as u32
                } else {
                    let t: i32 = v - i32::MIN;
                    (t as u32) + 0x80000000
                };
                u as i64
            },
            Value::I64(v) => v,
            Value::F32(b) => i64_of_u64_bits(f64_bits_of_f32_bits(b)),
            Value::F64(b) => i64_of_u64_bits(b),
        }
    }

    /// Decodes a raw 64-bit slot at the declared kind.
    pub fn reinterpret_from_i64(v: i64, ty: ValType) -> (r: Value)
        ensures
            r == spec_reinterpret_from_i64(v, ty),
    {
        match ty {
            ValType::I32 => {
                let u: u32 = (u64_of_i64_bits(v) % 0x100000000) as u32;
                Value::I32(i32_of_u32_bits(u))
            },
            ValType::I64 => Value::I64(v),
            ValType::F32 => Value::F32(f32_bits_of_f64_bits(u64_of_i64_bits(v))),
            ValType::F64 => Value::F64(u64_of_i64_bits(v)),
        }
    }
}

/// The unsigned 64-bit pattern of a signed 64-bit integer.
pub fn u64_of_i64_bits(x: i64) -> (r: u64)
    ensures
        r == spec_u64_of_i64_bits(x),
{
    if x >= 0 {
        x as u64
    } else {
        let t: i64 = x - i64::MIN;
        (t as u64) + 0x8000000000000000
    }
}

/// The signed reading of an unsigned 64-bit pattern.
pub fn i64_of_u64_bits(u: u64) -> (r: i64)
    ensures
        r == spec_i64_of_u64_bits(u),
{
    if u < 0x8000000000000000 {
        u as i64
    } else {
        let low: u64 = u - 0x8000000000000000;
        i64::MIN + (low as i64)
    }
}

/// The signed reading of an unsigned 32-bit pattern.
pub fn i32_of_u32_bits(u: u32) -> (r: i32)
    ensures
        r == spec_i32_of_u32_bits(u),
{
    if u < 0x80000000 {
        u as i32
    } else {
        let low: u32 = u - 0x80000000;
        i32::MIN + (low as i32)
    }
}

/// The unsigned 32-bit pattern of a signed 32-bit integer.
pub fn u32_of_i32_bits(x: i32) -> (r: u32)
    ensures
        r == spec_u32_of_i32_bits(x),
{
    if x >= 0 {
        x as u32
    } else {
        let t: i32 = x - i32::MIN;
        (t as u32) + 0x80000000
    }
}

/// The signed and unsigned readings of a 64-bit pattern are inverse to one
/// another.
pub proof fn lemma_u64_i64_bits_round_trip(u: u64)
    ensures
        spec_u64_of_i64_bits(spec_i64_of_u64_bits(u)) == u,
{
}

/// Encoding a typed value into its raw slot and decoding the slot at the
/// value's own kind reproduces the value, bit-exactly, floating-point NaN
/// payloads included.
pub proof fn lemma_reinterpret_round_trip(v: Value)
    requires
        !(v is Undef),
    ensures
        spec_reinterpret_from_i64(spec_reinterpret_as_i64(v), spec_kind_of(v)) == v,
{
    match v {
        Value::Undef => {},
        Value::I32(x) => {
            let u = spec_u32_of_i32_bits(x);
            assert(spec_u64_of_i64_bits(u as i64) == u as u64);
            assert((u as u64) % 0x100000000 == u as u64) by {
                vstd::arithmetic::div_mod::lemma_small_mod(u as nat, 0x100000000);
            }
            assert(spec_i32_of_u32_bits(u) == x);
        },
        Value::I64(x) => {},
        Value::F32(b) => {
            let w = spec_f64_bits_of_f32_bits(b);
            lemma_u64_i64_bits_round_trip(w);
            lemma_f32_round_trip(b);
        },
        Value::F64(b) => {
            lemma_u64_i64_bits_round_trip(b);
        },
    }
}

} // verus!
