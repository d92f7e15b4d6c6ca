//! The private, versionless byte encoding of a `Module`.
//!
//! Round-trip fidelity is the contract that matters: `wire_module` is the
//! single specification of the encoding; serialization is proved to
//! produce exactly it; deserialization is proved complete and faithful in
//! both directions — a successful decode consumed exactly the encoding of
//! the module it returns, and on any encoding of a module it succeeds and
//! reproduces that module.  Every number travels as a little-endian
//! 64-bit chunk; strings travel as their UTF-8 bytes behind a length.

use vstd::prelude::*;
use vstd::arithmetic::div_mod::{
    lemma_fundamental_div_mod, lemma_fundamental_div_mod_converse, lemma_div_denominator,
    lemma_multiply_divide_lt, lemma_small_mod,
};
use vstd::slice::slice_to_vec;
use vstd::utf8::{encode_utf8, valid_utf8, encode_utf8_valid_utf8, encode_utf8_decode_utf8};
use crate::module::{DataSegment, Function, FunctionBody, Global, Module, Native, Table, Type, ValType};
use crate::opcode::{Memarg, Opcode};
use crate::value::{
    i32_of_u32_bits, i64_of_u64_bits, lemma_u64_i64_bits_round_trip, spec_u32_of_i32_bits,
    spec_u64_of_i64_bits, u32_of_i32_bits, u64_of_i64_bits, Value,
};

verus! {

/// The eight little-endian bytes of `x`.
pub open spec fn le64(x: u64) -> Seq<u8> {
    seq![
        (x % 0x100) as u8,
        ((x / 0x100) % 0x100) as u8,
        ((x / 0x10000) % 0x100) as u8,
        ((x / 0x1000000) % 0x100) as u8,
        ((x / 0x100000000) % 0x100) as u8,
        ((x / 0x10000000000) % 0x100) as u8,
        ((x / 0x1000000000000) % 0x100) as u8,
        ((x / 0x100000000000000) % 0x100) as u8,
    ]
}

/// A length, as a 64-bit chunk.
pub open spec fn wire_usize(n: nat) -> Seq<u8> {
    le64(n as u64)
}

/// The bytes `w` stand at position `pos` of `d`.
pub open spec fn wire_at(d: Seq<u8>, pos: int, w: Seq<u8>) -> bool {
    0 <= pos && pos + w.len() <= d.len() && d.subrange(pos, pos + w.len() as int) == w
}

/// Reading the eight digits of the weighted byte sum recovers the bytes.
proof fn lemma_le64_digits(b0: u8, b1: u8, b2: u8, b3: u8, b4: u8, b5: u8, b6: u8, b7: u8, x: u64)
    requires
        x == b0 + b1 * 0x100 + b2 * 0x10000 + b3 * 0x1000000 + b4 * 0x100000000 + b5
            * 0x10000000000 + b6 * 0x1000000000000 + b7 * 0x100000000000000,
    ensures
        le64(x) =~= seq![b0, b1, b2, b3, b4, b5, b6, b7],
{
    let t1 = b1 + b2 * 0x100 + b3 * 0x10000 + b4 * 0x1000000 + b5 * 0x100000000 + b6
        * 0x10000000000 + b7 * 0x1000000000000;
    let t2 = b2 + b3 * 0x100 + b4 * 0x10000 + b5 * 0x1000000 + b6 * 0x100000000 + b7
        * 0x10000000000;
    let t3 = b3 + b4 * 0x100 + b5 * 0x10000 + b6 * 0x1000000 + b7 * 0x100000000;
    let t4 = b4 + b5 * 0x100 + b6 * 0x10000 + b7 * 0x1000000;
    let t5 = b5 + b6 * 0x100 + b7 * 0x10000;
    let t6 = b6 + b7 * 0x100;
    let t7 = b7 as int;
    lemma_fundamental_div_mod_converse(x as int, 0x100, t1, b0 as int);
    lemma_fundamental_div_mod_converse(t1, 0x100, t2, b1 as int);
    lemma_fundamental_div_mod_converse(t2, 0x100, t3, b2 as int);
    lemma_fundamental_div_mod_converse(t3, 0x100, t4, b3 as int);
    lemma_fundamental_div_mod_converse(t4, 0x100, t5, b4 as int);
    lemma_fundamental_div_mod_converse(t5, 0x100, t6, b5 as int);
    lemma_fundamental_div_mod_converse(t6, 0x100, t7, b6 as int);
    lemma_div_denominator(x as int, 0x100, 0x100);
    lemma_div_denominator(x as int, 0x10000, 0x100);
    lemma_div_denominator(x as int, 0x1000000, 0x100);
    lemma_div_denominator(x as int, 0x100000000, 0x100);
    lemma_div_denominator(x as int, 0x10000000000, 0x100);
    lemma_div_denominator(x as int, 0x1000000000000, 0x100);
}

/// A 64-bit value is the weighted sum of its little-endian digits.
proof fn lemma_le64_reconstruct(x: u64)
    ensures
        x == (x % 0x100) + ((x / 0x100) % 0x100) * 0x100 + ((x / 0x10000) % 0x100) * 0x10000 + ((x
            / 0x1000000) % 0x100) * 0x1000000 + ((x / 0x100000000) % 0x100) * 0x100000000 + ((x
            / 0x10000000000) % 0x100) * 0x10000000000 + ((x / 0x1000000000000) % 0x100)
            * 0x1000000000000 + ((x / 0x100000000000000) % 0x100) * 0x100000000000000,
{
    lemma_fundamental_div_mod(x as int, 0x100);
    lemma_fundamental_div_mod(x as int / 0x100, 0x100);
    lemma_fundamental_div_mod(x as int / 0x10000, 0x100);
    lemma_fundamental_div_mod(x as int / 0x1000000, 0x100);
    lemma_fundamental_div_mod(x as int / 0x100000000, 0x100);
    lemma_fundamental_div_mod(x as int / 0x10000000000, 0x100);
    lemma_fundamental_div_mod(x as int / 0x1000000000000, 0x100);
    lemma_div_denominator(x as int, 0x100, 0x100);
    lemma_div_denominator(x as int, 0x10000, 0x100);
    lemma_div_denominator(x as int, 0x1000000, 0x100);
    lemma_div_denominator(x as int, 0x100000000, 0x100);
    lemma_div_denominator(x as int, 0x10000000000, 0x100);
    lemma_div_denominator(x as int, 0x1000000000000, 0x100);
    assert((x as int / 0x100000000000000) % 0x100 == x as int / 0x100000000000000) by {
        lemma_multiply_divide_lt(x as int, 0x100000000000000, 0x100);
        lemma_small_mod(((x as int) / 0x100000000000000) as nat, 0x100);
    }
}

/// The little-endian encoding is injective.
proof fn lemma_le64_inj(x: u64, y: u64)
    requires
        le64(x) == le64(y),
    ensures
        x == y,
{
    lemma_le64_reconstruct(x);
    lemma_le64_reconstruct(y);
    assert(le64(x)[0] == le64(y)[0]);
    assert(le64(x)[1] == le64(y)[1]);
    assert(le64(x)[2] == le64(y)[2]);
    assert(le64(x)[3] == le64(y)[3]);
    assert(le64(x)[4] == le64(y)[4]);
    assert(le64(x)[5] == le64(y)[5]);
    assert(le64(x)[6] == le64(y)[6]);
    assert(le64(x)[7] == le64(y)[7]);
}

/// A concatenation standing at `pos` splits into its two parts.
proof fn lemma_wire_at_split(d: Seq<u8>, pos: int, a: Seq<u8>, b: Seq<u8>)
    requires
        wire_at(d, pos, a + b),
    ensures
        wire_at(d, pos, a),
        wire_at(d, pos + a.len(), b),
{
    let w = a + b;
    assert(d.subrange(pos, pos + a.len() as int) =~= w.subrange(0, a.len() as int));
    assert(w.subrange(0, a.len() as int) =~= a);
    assert(d.subrange(pos + a.len(), pos + w.len() as int) =~= w.subrange(
        a.len() as int,
        w.len() as int,
    ));
    assert(w.subrange(a.len() as int, w.len() as int) =~= b);
}

/// Two chunks standing at the same position hold the same value.
proof fn lemma_le64_at_unique(d: Seq<u8>, pos: int, x: u64, y: u64)
    requires
        wire_at(d, pos, le64(x)),
        wire_at(d, pos, le64(y)),
    ensures
        x == y,
{
    lemma_le64_inj(x, y);
}

/// Two adjacent pieces of a byte string concatenate to the whole piece.
proof fn lemma_cat2(data: Seq<u8>, a: int, b: int, c: int)
    requires
        0 <= a <= b <= c <= data.len(),
    ensures
        data.subrange(a, c) == data.subrange(a, b) + data.subrange(b, c),
{
    assert(data.subrange(a, c) =~= data.subrange(a, b) + data.subrange(b, c));
}

/// Appends the eight little-endian bytes of `x`.
fn ser_u64(buf: &mut Vec<u8>, x: u64)
    ensures
        final(buf)@ == old(buf)@ + le64(x),
{
    buf.push((x % 0x100) as u8);
    buf.push(((x / 0x100) % 0x100) as u8);
    buf.push(((x / 0x10000) % 0x100) as u8);
    buf.push(((x / 0x1000000) % 0x100) as u8);
    buf.push(((x / 0x100000000) % 0x100) as u8);
    buf.push(((x / 0x10000000000) % 0x100) as u8);
    buf.push(((x / 0x1000000000000) % 0x100) as u8);
    buf.push(((x / 0x100000000000000) % 0x100) as u8);
    proof {
        assert(buf@ =~= old(buf)@ + le64(x));
    }
}

/// Reads one 64-bit little-endian chunk.
fn de_u64(data: &Vec<u8>, pos: usize) -> (r: Option<(u64, usize)>)
    ensures
        r is Some ==> ({
            let (x, p2) = r->Some_0;
            &&& p2 == pos + 8
            &&& p2 <= data@.len()
            &&& data@.subrange(pos as int, p2 as int) == le64(x)
        }),
        forall|x: u64|
            #[trigger] wire_at(data@, pos as int, le64(x)) ==> r is Some && r->Some_0.0 == x
                && r->Some_0.1 == pos + 8,
{
    if data.len() < 8 || pos > data.len() - 8 {
        proof {
            assert forall|x: u64| !(#[trigger] wire_at(data@, pos as int, le64(x))) by {}
        }
        return None;
    }
    let b0: u64 = data[pos] as u64;
    let b1: u64 = data[pos + 1] as u64;
    let b2: u64 = data[pos + 2] as u64;
    let b3: u64 = data[pos + 3] as u64;
    let b4: u64 = data[pos + 4] as u64;
    let b5: u64 = data[pos + 5] as u64;
    let b6: u64 = data[pos + 6] as u64;
    let b7: u64 = data[pos + 7] as u64;
    let x: u64 = b0 + b1 * 0x100 + b2 * 0x10000 + b3 * 0x1000000 + b4 * 0x100000000 + b5
        * 0x10000000000 + b6 * 0x1000000000000 + b7 * 0x100000000000000;
    proof {
        lemma_le64_digits(
            data@[pos as int] as u8,
            data@[pos as int + 1] as u8,
            data@[pos as int + 2] as u8,
            data@[pos as int + 3] as u8,
            data@[pos as int + 4] as u8,
            data@[pos as int + 5] as u8,
            data@[pos as int + 6] as u8,
            data@[pos as int + 7] as u8,
            x,
        );
        assert(data@.subrange(pos as int, pos as int + 8) =~= le64(x));
        assert forall|x2: u64| #[trigger] wire_at(data@, pos as int, le64(x2)) implies x2 == x by {
            lemma_le64_inj(x2, x);
        }
    }
    Some((x, pos + 8))
}

/// Reads a length chunk that must fit the platform's `usize`.
fn de_usize(data: &Vec<u8>, pos: usize) -> (r: Option<(usize, usize)>)
    ensures
        r is Some ==> ({
            let (n, p2) = r->Some_0;
            &&& p2 == pos + 8
            &&& p2 <= data@.len()
            &&& data@.subrange(pos as int, p2 as int) == wire_usize(n as nat)
        }),
        forall|m: nat|
            #[trigger] wire_at(data@, pos as int, wire_usize(m)) && m <= usize::MAX ==> r is Some
                && r->Some_0.0 == m && r->Some_0.1 == pos + 8,
{
    let ures = de_u64(data, pos);
    proof {
        assert forall|m: nat|
            #[trigger] wire_at(data@, pos as int, wire_usize(m)) && m <= usize::MAX implies (ures
            is Some && ures->Some_0.0 == m as u64) by {
            assert(wire_usize(m) == le64(m as u64));
        }
    }
    match ures {
        None => None,
        Some((x, p1)) => {
            if x > usize::MAX as u64 {
                None
            } else {
                Some((x as usize, p1))
            }
        },
    }
}

/// Reads a 32-bit value stored in a 64-bit chunk.
fn de_u32(data: &Vec<u8>, pos: usize) -> (r: Option<(u32, usize)>)
    ensures
        r is Some ==> ({
            let (x, p2) = r->Some_0;
            &&& p2 == pos + 8
            &&& p2 <= data@.len()
            &&& data@.subrange(pos as int, p2 as int) == le64(x as u64)
        }),
        forall|x: u32|
            #[trigger] wire_at(data@, pos as int, le64(x as u64)) ==> r is Some && r->Some_0.0
                == x && r->Some_0.1 == pos + 8,
{
    match de_u64(data, pos) {
        None => None,
        Some((x, p1)) => {
            if x > 0xFFFFFFFF {
                None
            } else {
                Some((x as u32, p1))
            }
        },
    }
}

/// Reads a signed 32-bit value stored as its unsigned pattern.
fn de_i32(data: &Vec<u8>, pos: usize) -> (r: Option<(i32, usize)>)
    ensures
        r is Some ==> ({
            let (c, p2) = r->Some_0;
            &&& p2 == pos + 8
            &&& p2 <= data@.len()
            &&& data@.subrange(pos as int, p2 as int) == le64(spec_u32_of_i32_bits(c) as u64)
        }),
        forall|c: i32|
            #[trigger] wire_at(data@, pos as int, le64(spec_u32_of_i32_bits(c) as u64)) ==> r
                is Some && r->Some_0.0 == c && r->Some_0.1 == pos + 8,
{
    match de_u32(data, pos) {
        None => None,
        Some((u, p1)) => Some((i32_of_u32_bits(u), p1)),
    }
}

/// Reads a signed 64-bit value stored as its unsigned pattern.
fn de_i64(data: &Vec<u8>, pos: usize) -> (r: Option<(i64, usize)>)
    ensures
        r is Some ==> ({
            let (c, p2) = r->Some_0;
            &&& p2 == pos + 8
            &&& p2 <= data@.len()
            &&& data@.subrange(pos as int, p2 as int) == le64(spec_u64_of_i64_bits(c))
        }),
        forall|c: i64|
            #[trigger] wire_at(data@, pos as int, le64(spec_u64_of_i64_bits(c))) ==> r is Some
                && r->Some_0.0 == c && r->Some_0.1 == pos + 8,
{
    match de_u64(data, pos) {
        None => None,
        Some((u, p1)) => {
            proof {
                lemma_u64_i64_bits_round_trip(u);
                assert forall|c: i64|
                    #[trigger] wire_at(data@, pos as int, le64(spec_u64_of_i64_bits(c))) implies
                    spec_u64_of_i64_bits(c) == u by {
                    lemma_le64_at_unique(data@, pos as int, spec_u64_of_i64_bits(c), u);
                }
            }
            Some((i64_of_u64_bits(u), p1))
        },
    }
}

/// A memory access argument: offset then alignment.
pub open spec fn wire_memarg(a: Memarg) -> Seq<u8> {
    le64(a.offset as u64) + le64(a.align as u64)
}

/// One scalar kind.
pub open spec fn wire_valtype(t: ValType) -> Seq<u8> {
    le64(valtype_tag(t))
}

/// The tag of a scalar kind.
pub open spec fn valtype_tag(t: ValType) -> u64 {
    match t {
        ValType::I32 => 0,
        ValType::I64 => 1,
        ValType::F32 => 2,
        ValType::F64 => 3,
    }
}

/// The tag of a tagged scalar.
pub open spec fn value_tag(v: Value) -> u64 {
    match v {
        Value::Undef => 0,
        Value::I32(_) => 1,
        Value::I64(_) => 2,
        Value::F32(_) => 3,
        Value::F64(_) => 4,
    }
}

/// The 64-bit payload of a tagged scalar.
pub open spec fn value_payload(v: Value) -> u64 {
    match v {
        Value::Undef => 0,
        Value::I32(c) => spec_u32_of_i32_bits(c) as u64,
        Value::I64(c) => spec_u64_of_i64_bits(c),
        Value::F32(b) => b as u64,
        Value::F64(b) => b,
    }
}

/// A tagged scalar: kind tag then its 64-bit payload.
pub open spec fn wire_value(v: Value) -> Seq<u8> {
    le64(value_tag(v)) + le64(value_payload(v))
}

/// The presence tag of an optional function index.
pub open spec fn opt_tag(e: Option<u32>) -> u64 {
    match e {
        None => 0,
        Some(_) => 1,
    }
}

/// The payload of an optional function index.
pub open spec fn opt_payload(e: Option<u32>) -> u64 {
    match e {
        None => 0,
        Some(x) => x as u64,
    }
}

/// An optional function index: presence tag then the index (or zero).
pub open spec fn wire_opt_u32(e: Option<u32>) -> Seq<u8> {
    le64(opt_tag(e)) + le64(opt_payload(e))
}

/// One operation: its tag, then its payload chunks.
pub open spec fn wire_opcode(op: Opcode) -> Seq<u8> {
    match op {
        Opcode::Drop => le64(0),
        Opcode::Select => le64(1),
        Opcode::GetLocal(x) => le64(2) + le64(x as u64),
        Opcode::SetLocal(x) => le64(3) + le64(x as u64),
        Opcode::TeeLocal(x) => le64(4) + le64(x as u64),
        Opcode::GetGlobal(x) => le64(5) + le64(x as u64),
        Opcode::SetGlobal(x) => le64(6) + le64(x as u64),
        Opcode::CurrentMemory => le64(7),
        Opcode::GrowMemory => le64(8),
        Opcode::Nop => le64(9),
        Opcode::Unreachable => le64(10),
        Opcode::Return => le64(11),
        Opcode::Call(x) => le64(12) + le64(x as u64),
        Opcode::CallIndirect(x) => le64(13) + le64(x as u64),
        Opcode::I32Const(c) => le64(14) + le64(spec_u32_of_i32_bits(c) as u64),
        Opcode::I32Clz => le64(15),
        Opcode::I32Ctz => le64(16),
        Opcode::I32Popcnt => le64(17),
        Opcode::I32Add => le64(18),
        Opcode::I32Sub => le64(19),
        Opcode::I32Mul => le64(20),
        Opcode::I32DivU => le64(21),
        Opcode::I32DivS => le64(22),
        Opcode::I32RemU => le64(23),
        Opcode::I32RemS => le64(24),
        Opcode::I32And => le64(25),
        Opcode::I32Or => le64(26),
        Opcode::I32Xor => le64(27),
        Opcode::I32Shl => le64(28),
        Opcode::I32ShrU => le64(29),
        Opcode::I32ShrS => le64(30),
        Opcode::I32Rotl => le64(31),
        Opcode::I32Rotr => le64(32),
        Opcode::I32Eqz => le64(33),
        Opcode::I32Eq => le64(34),
        Opcode::I32Ne => le64(35),
        Opcode::I32LtU => le64(36),
        Opcode::I32LtS => le64(37),
        Opcode::I32LeU => le64(38),
        Opcode::I32LeS => le64(39),
        Opcode::I32GtU => le64(40),
        Opcode::I32GtS => le64(41),
        Opcode::I32GeU => le64(42),
        Opcode::I32GeS => le64(43),
        Opcode::I32WrapI64 => le64(44),
        Opcode::I32Load(a) => le64(45) + wire_memarg(a),
        Opcode::I32Store(a) => le64(46) + wire_memarg(a),
        Opcode::I32Load8U(a) => le64(47) + wire_memarg(a),
        Opcode::I32Load8S(a) => le64(48) + wire_memarg(a),
        Opcode::I32Load16U(a) => le64(49) + wire_memarg(a),
        Opcode::I32Load16S(a) => le64(50) + wire_memarg(a),
        Opcode::I32Store8(a) => le64(51) + wire_memarg(a),
        Opcode::I32Store16(a) => le64(52) + wire_memarg(a),
        Opcode::I64Const(c) => le64(53) + le64(spec_u64_of_i64_bits(c)),
        Opcode::I64Clz => le64(54),
        Opcode::I64Ctz => le64(55),
        Opcode::I64Popcnt => le64(56),
        Opcode::I64Add => le64(57),
        Opcode::I64Sub => le64(58),
        Opcode::I64Mul => le64(59),
        Opcode::I64DivU => le64(60),
        Opcode::I64DivS => le64(61),
        Opcode::I64RemU => le64(62),
        Opcode::I64RemS => le64(63),
        Opcode::I64And => le64(64),
        Opcode::I64Or => le64(65),
        Opcode::I64Xor => le64(66),
        Opcode::I64Shl => le64(67),
        Opcode::I64ShrU => le64(68),
        Opcode::I64ShrS => le64(69),
        Opcode::I64Rotl => le64(70),
        Opcode::I64Rotr => le64(71),
        Opcode::I64Eqz => le64(72),
        Opcode::I64Eq => le64(73),
        Opcode::I64Ne => le64(74),
        Opcode::I64LtU => le64(75),
        Opcode::I64LtS => le64(76),
        Opcode::I64LeU => le64(77),
        Opcode::I64LeS => le64(78),
        Opcode::I64GtU => le64(79),
        Opcode::I64GtS => le64(80),
        Opcode::I64GeU => le64(81),
        Opcode::I64GeS => le64(82),
        Opcode::I64ExtendI32U => le64(83),
        Opcode::I64ExtendI32S => le64(84),
        Opcode::I64Load(a) => le64(85) + wire_memarg(a),
        Opcode::I64Store(a) => le64(86) + wire_memarg(a),
        Opcode::I64Load8U(a) => le64(87) + wire_memarg(a),
        Opcode::I64Load8S(a) => le64(88) + wire_memarg(a),
        Opcode::I64Load16U(a) => le64(89) + wire_memarg(a),
        Opcode::I64Load16S(a) => le64(90) + wire_memarg(a),
        Opcode::I64Load32U(a) => le64(91) + wire_memarg(a),
        Opcode::I64Load32S(a) => le64(92) + wire_memarg(a),
        Opcode::I64Store8(a) => le64(93) + wire_memarg(a),
        Opcode::I64Store16(a) => le64(94) + wire_memarg(a),
        Opcode::I64Store32(a) => le64(95) + wire_memarg(a),
        Opcode::Jmp(x) => le64(96) + le64(x as u64),
        Opcode::JmpIf(x) => le64(97) + le64(x as u64),
        Opcode::JmpTable(t, o) => le64(98) + wire_u32s(t@) + le64(o as u64),
    }
}

/// A length-prefixed raw byte run.
pub open spec fn wire_bytes(b: Seq<u8>) -> Seq<u8> {
    wire_usize(b.len()) + b
}

/// A string: its UTF-8 bytes, length-prefixed.
pub open spec fn wire_string(s: Seq<char>) -> Seq<u8> {
    wire_bytes(encode_utf8(s))
}

/// A signature: argument kinds then return kinds.
pub open spec fn wire_type(t: Type) -> Seq<u8> {
    match t {
        Type::Func(a, r) => wire_valtypes(a@) + wire_valtypes(r@),
    }
}

/// A function: type index, locals, body.
pub open spec fn wire_function(f: Function) -> Seq<u8> {
    wire_usize(f.typeidx as nat) + wire_valtypes(f.locals@) + wire_opcodes(f.body.opcodes@)
}

/// A data segment: offset, then its payload bytes.
pub open spec fn wire_segment(d: DataSegment) -> Seq<u8> {
    le64(d.offset as u64) + wire_bytes(d.data@)
}

/// A global: its initial value.
pub open spec fn wire_global(g: Global) -> Seq<u8> {
    wire_value(g.value)
}

/// An import declaration: module, field, type index.
pub open spec fn wire_native(n: Native) -> Seq<u8> {
    wire_string(n.module@) + wire_string(n.field@) + le64(n.typeidx as u64)
}

/// An indirect-call table: its elements.
pub open spec fn wire_table(t: Table) -> Seq<u8> {
    wire_opts(t.elements@)
}

/// One 32-bit entry of a jump table.
pub open spec fn wire_u32e(x: u32) -> Seq<u8> {
    le64(x as u64)
}

/// The whole image: the six sections in order.
pub open spec fn wire_module(m: Module) -> Seq<u8> {
    wire_types(m.types@) + wire_functions(m.functions@) + wire_segments(m.data_segments@)
        + wire_globals(m.globals@) + wire_natives(m.natives@) + wire_tables(m.tables@)
}

/// Structural equality of operations; list payloads compare by contents.
pub open spec fn opcode_matches(a: Opcode, b: Opcode) -> bool {
    match (a, b) {
        (Opcode::JmpTable(t1, o1), Opcode::JmpTable(t2, o2)) => t1@ == t2@ && o1 == o2,
        _ => a == b,
    }
}

/// Structural equality of signatures, by contents.
pub open spec fn type_matches(a: Type, b: Type) -> bool {
    match (a, b) {
        (Type::Func(a1, r1), Type::Func(a2, r2)) => a1@ == a2@ && r1@ == r2@,
    }
}

/// Structural equality of functions, by contents.
pub open spec fn function_matches(a: Function, b: Function) -> bool {
    a.typeidx == b.typeidx && a.locals@ == b.locals@ && opcode_seq_matches(
        a.body.opcodes@,
        b.body.opcodes@,
    )
}

/// Structural equality of data segments, by contents.
pub open spec fn segment_matches(a: DataSegment, b: DataSegment) -> bool {
    a.offset == b.offset && a.data@ == b.data@
}

/// Structural equality of import declarations, by contents.
pub open spec fn native_matches(a: Native, b: Native) -> bool {
    a.module@ == b.module@ && a.field@ == b.field@ && a.typeidx == b.typeidx
}

/// Structural equality of tables, by contents.
pub open spec fn table_matches(a: Table, b: Table) -> bool {
    a.elements@ == b.elements@
}

/// Structural equality of whole modules, field by field, with strings and
/// nested vectors compared by contents.
pub open spec fn module_matches(a: Module, b: Module) -> bool {
    &&& type_seq_matches(a.types@, b.types@)
    &&& function_seq_matches(a.functions@, b.functions@)
    &&& segment_seq_matches(a.data_segments@, b.data_segments@)
    &&& a.globals@ == b.globals@
    &&& native_seq_matches(a.natives@, b.natives@)
    &&& table_seq_matches(a.tables@, b.tables@)
}

/// Elementwise structural equality.
pub open spec fn opcode_seq_matches(a: Seq<Opcode>, b: Seq<Opcode>) -> bool {
    a.len() == b.len() && (forall|i: int|
        0 <= i < a.len() ==> opcode_matches(#[trigger] a[i], #[trigger] b[i]))
}

/// Elementwise structural equality.
pub open spec fn type_seq_matches(a: Seq<Type>, b: Seq<Type>) -> bool {
    a.len() == b.len() && (forall|i: int|
        0 <= i < a.len() ==> type_matches(#[trigger] a[i], #[trigger] b[i]))
}

/// Elementwise structural equality.
pub open spec fn function_seq_matches(a: Seq<Function>, b: Seq<Function>) -> bool {
    a.len() == b.len() && (forall|i: int|
        0 <= i < a.len() ==> function_matches(#[trigger] a[i], #[trigger] b[i]))
}

/// Elementwise structural equality.
pub open spec fn segment_seq_matches(a: Seq<DataSegment>, b: Seq<DataSegment>) -> bool {
    a.len() == b.len() && (forall|i: int|
        0 <= i < a.len() ==> segment_matches(#[trigger] a[i], #[trigger] b[i]))
}

/// Elementwise structural equality.
pub open spec fn native_seq_matches(a: Seq<Native>, b: Seq<Native>) -> bool {
    a.len() == b.len() && (forall|i: int|
        0 <= i < a.len() ==> native_matches(#[trigger] a[i], #[trigger] b[i]))
}

/// Elementwise structural equality.
pub open spec fn table_seq_matches(a: Seq<Table>, b: Seq<Table>) -> bool {
    a.len() == b.len() && (forall|i: int|
        0 <= i < a.len() ==> table_matches(#[trigger] a[i], #[trigger] b[i]))
}

/// The elements, in order.
pub open spec fn wire_valtype_list(s: Seq<ValType>) -> Seq<u8>
    decreases s.len(),
{
    if s.len() == 0 {
        Seq::<u8>::empty()
    } else {
        wire_valtype_list(s.drop_last()) + wire_valtype(s.last())
    }
}

/// A length-prefixed list.
pub open spec fn wire_valtypes(s: Seq<ValType>) -> Seq<u8> {
    wire_usize(s.len()) + wire_valtype_list(s)
}

/// The elements, in order.
pub open spec fn wire_u32e_list(s: Seq<u32>) -> Seq<u8>
    decreases s.len(),
{
    if s.len() == 0 {
        Seq::<u8>::empty()
    } else {
        wire_u32e_list(s.drop_last()) + wire_u32e(s.last())
    }
}

/// A length-prefixed list.
pub open spec fn wire_u32s(s: Seq<u32>) -> Seq<u8> {
    wire_usize(s.len()) + wire_u32e_list(s)
}

/// The elements, in order.
pub open spec fn wire_opcode_list(s: Seq<Opcode>) -> Seq<u8>
    decreases s.len(),
{
    if s.len() == 0 {
        Seq::<u8>::empty()
    } else {
        wire_opcode_list(s.drop_last()) + wire_opcode(s.last())
    }
}

/// A length-prefixed list.
pub open spec fn wire_opcodes(s: Seq<Opcode>) -> Seq<u8> {
    wire_usize(s.len()) + wire_opcode_list(s)
}

/// The elements, in order.
pub open spec fn wire_type_list(s: Seq<Type>) -> Seq<u8>
    decreases s.len(),
{
    if s.len() == 0 {
        Seq::<u8>::empty()
    } else {
        wire_type_list(s.drop_last()) + wire_type(s.last())
    }
}

/// A length-prefixed list.
pub open spec fn wire_types(s: Seq<Type>) -> Seq<u8> {
    wire_usize(s.len()) + wire_type_list(s)
}

/// The elements, in order.
pub open spec fn wire_function_list(s: Seq<Function>) -> Seq<u8>
    decreases s.len(),
{
    if s.len() == 0 {
        Seq::<u8>::empty()
    } else {
        wire_function_list(s.drop_last()) + wire_function(s.last())
    }
}

/// A length-prefixed list.
pub open spec fn wire_functions(s: Seq<Function>) -> Seq<u8> {
    wire_usize(s.len()) + wire_function_list(s)
}

/// The elements, in order.
pub open spec fn wire_segment_list(s: Seq<DataSegment>) -> Seq<u8>
    decreases s.len(),
{
    if s.len() == 0 {
        Seq::<u8>::empty()
    } else {
        wire_segment_list(s.drop_last()) + wire_segment(s.last())
    }
}

/// A length-prefixed list.
pub open spec fn wire_segments(s: Seq<DataSegment>) -> Seq<u8> {
    wire_usize(s.len()) + wire_segment_list(s)
}

/// The elements, in order.
pub open spec fn wire_global_list(s: Seq<Global>) -> Seq<u8>
    decreases s.len(),
{
    if s.len() == 0 {
        Seq::<u8>::empty()
    } else {
        wire_global_list(s.drop_last()) + wire_global(s.last())
    }
}

/// A length-prefixed list.
pub open spec fn wire_globals(s: Seq<Global>) -> Seq<u8> {
    wire_usize(s.len()) + wire_global_list(s)
}

/// The elements, in order.
pub open spec fn wire_native_list(s: Seq<Native>) -> Seq<u8>
    decreases s.len(),
{
    if s.len() == 0 {
        Seq::<u8>::empty()
    } else {
        wire_native_list(s.drop_last()) + wire_native(s.last())
    }
}

/// A length-prefixed list.
pub open spec fn wire_natives(s: Seq<Native>) -> Seq<u8> {
    wire_usize(s.len()) + wire_native_list(s)
}

/// The elements, in order.
pub open spec fn wire_opt_u32_list(s: Seq<Option<u32>>) -> Seq<u8>
    decreases s.len(),
{
    if s.len() == 0 {
        Seq::<u8>::empty()
    } else {
        wire_opt_u32_list(s.drop_last()) + wire_opt_u32(s.last())
    }
}

/// A length-prefixed list.
pub open spec fn wire_opts(s: Seq<Option<u32>>) -> Seq<u8> {
    wire_usize(s.len()) + wire_opt_u32_list(s)
}

/// The elements, in order.
pub open spec fn wire_table_list(s: Seq<Table>) -> Seq<u8>
    decreases s.len(),
{
    if s.len() == 0 {
        Seq::<u8>::empty()
    } else {
        wire_table_list(s.drop_last()) + wire_table(s.last())
    }
}

/// A length-prefixed list.
pub open spec fn wire_tables(s: Seq<Table>) -> Seq<u8> {
    wire_usize(s.len()) + wire_table_list(s)
}

/// The list encoding distributes over concatenation.
proof fn lemma_wire_valtype_list_concat(a: Seq<ValType>, b: Seq<ValType>)
    ensures
        wire_valtype_list(a + b) == wire_valtype_list(a) + wire_valtype_list(b),
    decreases b.len(),
{
    if b.len() == 0 {
        assert(a + b =~= a);
        assert(wire_valtype_list(a) + wire_valtype_list(b) =~= wire_valtype_list(a));
    } else {
        lemma_wire_valtype_list_concat(a, b.drop_last());
        assert((a + b).drop_last() =~= a + b.drop_last());
        assert((a + b).last() == b.last());
        assert(wire_valtype_list(a) + (wire_valtype_list(b.drop_last()) + wire_valtype(b.last())) =~= (
        wire_valtype_list(a) + wire_valtype_list(b.drop_last())) + wire_valtype(b.last()));
    }
}

/// Every element takes at least one chunk.
proof fn lemma_wire_valtype_list_len(s: Seq<ValType>)
    ensures
        wire_valtype_list(s).len() >= 8 * s.len(),
    decreases s.len(),
{
    if s.len() > 0 {
        lemma_wire_valtype_list_len(s.drop_last());
        lemma_wire_valtype_min(s.last());
    }
}

/// The list encoding distributes over concatenation.
proof fn lemma_wire_u32e_list_concat(a: Seq<u32>, b: Seq<u32>)
    ensures
        wire_u32e_list(a + b) == wire_u32e_list(a) + wire_u32e_list(b),
    decreases b.len(),
{
    if b.len() == 0 {
        assert(a + b =~= a);
        assert(wire_u32e_list(a) + wire_u32e_list(b) =~= wire_u32e_list(a));
    } else {
        lemma_wire_u32e_list_concat(a, b.drop_last());
        assert((a + b).drop_last() =~= a + b.drop_last());
        assert((a + b).last() == b.last());
        assert(wire_u32e_list(a) + (wire_u32e_list(b.drop_last()) + wire_u32e(b.last())) =~= (
        wire_u32e_list(a) + wire_u32e_list(b.drop_last())) + wire_u32e(b.last()));
    }
}

/// Every element takes at least one chunk.
proof fn lemma_wire_u32e_list_len(s: Seq<u32>)
    ensures
        wire_u32e_list(s).len() >= 8 * s.len(),
    decreases s.len(),
{
    if s.len() > 0 {
        lemma_wire_u32e_list_len(s.drop_last());
        lemma_wire_u32e_min(s.last());
    }
}

/// The list encoding distributes over concatenation.
proof fn lemma_wire_opcode_list_concat(a: Seq<Opcode>, b: Seq<Opcode>)
    ensures
        wire_opcode_list(a + b) == wire_opcode_list(a) + wire_opcode_list(b),
    decreases b.len(),
{
    if b.len() == 0 {
        assert(a + b =~= a);
        assert(wire_opcode_list(a) + wire_opcode_list(b) =~= wire_opcode_list(a));
    } else {
        lemma_wire_opcode_list_concat(a, b.drop_last());
        assert((a + b).drop_last() =~= a + b.drop_last());
        assert((a + b).last() == b.last());
        assert(wire_opcode_list(a) + (wire_opcode_list(b.drop_last()) + wire_opcode(b.last())) =~= (
        wire_opcode_list(a) + wire_opcode_list(b.drop_last())) + wire_opcode(b.last()));
    }
}

/// Every element takes at least one chunk.
proof fn lemma_wire_opcode_list_len(s: Seq<Opcode>)
    ensures
        wire_opcode_list(s).len() >= 8 * s.len(),
    decreases s.len(),
{
    if s.len() > 0 {
        lemma_wire_opcode_list_len(s.drop_last());
        lemma_wire_opcode_min(s.last());
    }
}

/// The list encoding distributes over concatenation.
proof fn lemma_wire_type_list_concat(a: Seq<Type>, b: Seq<Type>)
    ensures
        wire_type_list(a + b) == wire_type_list(a) + wire_type_list(b),
    decreases b.len(),
{
    if b.len() == 0 {
        assert(a + b =~= a);
        assert(wire_type_list(a) + wire_type_list(b) =~= wire_type_list(a));
    } else {
        lemma_wire_type_list_concat(a, b.drop_last());
        assert((a + b).drop_last() =~= a + b.drop_last());
        assert((a + b).last() == b.last());
        assert(wire_type_list(a) + (wire_type_list(b.drop_last()) + wire_type(b.last())) =~= (
        wire_type_list(a) + wire_type_list(b.drop_last())) + wire_type(b.last()));
    }
}

/// Every element takes at least one chunk.
proof fn lemma_wire_type_list_len(s: Seq<Type>)
    ensures
        wire_type_list(s).len() >= 8 * s.len(),
    decreases s.len(),
{
    if s.len() > 0 {
        lemma_wire_type_list_len(s.drop_last());
        lemma_wire_type_min(s.last());
    }
}

/// The list encoding distributes over concatenation.
proof fn lemma_wire_function_list_concat(a: Seq<Function>, b: Seq<Function>)
    ensures
        wire_function_list(a + b) == wire_function_list(a) + wire_function_list(b),
    decreases b.len(),
{
    if b.len() == 0 {
        assert(a + b =~= a);
        assert(wire_function_list(a) + wire_function_list(b) =~= wire_function_list(a));
    } else {
        lemma_wire_function_list_concat(a, b.drop_last());
        assert((a + b).drop_last() =~= a + b.drop_last());
        assert((a + b).last() == b.last());
        assert(wire_function_list(a) + (wire_function_list(b.drop_last()) + wire_function(b.last())) =~= (
        wire_function_list(a) + wire_function_list(b.drop_last())) + wire_function(b.last()));
    }
}

/// Every element takes at least one chunk.
proof fn lemma_wire_function_list_len(s: Seq<Function>)
    ensures
        wire_function_list(s).len() >= 8 * s.len(),
    decreases s.len(),
{
    if s.len() > 0 {
        lemma_wire_function_list_len(s.drop_last());
        lemma_wire_function_min(s.last());
    }
}

/// The list encoding distributes over concatenation.
proof fn lemma_wire_segment_list_concat(a: Seq<DataSegment>, b: Seq<DataSegment>)
    ensures
        wire_segment_list(a + b) == wire_segment_list(a) + wire_segment_list(b),
    decreases b.len(),
{
    if b.len() == 0 {
        assert(a + b =~= a);
        assert(wire_segment_list(a) + wire_segment_list(b) =~= wire_segment_list(a));
    } else {
        lemma_wire_segment_list_concat(a, b.drop_last());
        assert((a + b).drop_last() =~= a + b.drop_last());
        assert((a + b).last() == b.last());
        assert(wire_segment_list(a) + (wire_segment_list(b.drop_last()) + wire_segment(b.last())) =~= (
        wire_segment_list(a) + wire_segment_list(b.drop_last())) + wire_segment(b.last()));
    }
}

/// Every element takes at least one chunk.
proof fn lemma_wire_segment_list_len(s: Seq<DataSegment>)
    ensures
        wire_segment_list(s).len() >= 8 * s.len(),
    decreases s.len(),
{
    if s.len() > 0 {
        lemma_wire_segment_list_len(s.drop_last());
        lemma_wire_segment_min(s.last());
    }
}

/// The list encoding distributes over concatenation.
proof fn lemma_wire_global_list_concat(a: Seq<Global>, b: Seq<Global>)
    ensures
        wire_global_list(a + b) == wire_global_list(a) + wire_global_list(b),
    decreases b.len(),
{
    if b.len() == 0 {
        assert(a + b =~= a);
        assert(wire_global_list(a) + wire_global_list(b) =~= wire_global_list(a));
    } else {
        lemma_wire_global_list_concat(a, b.drop_last());
        assert((a + b).drop_last() =~= a + b.drop_last());
        assert((a + b).last() == b.last());
        assert(wire_global_list(a) + (wire_global_list(b.drop_last()) + wire_global(b.last())) =~= (
        wire_global_list(a) + wire_global_list(b.drop_last())) + wire_global(b.last()));
    }
}

/// Every element takes at least one chunk.
proof fn lemma_wire_global_list_len(s: Seq<Global>)
    ensures
        wire_global_list(s).len() >= 8 * s.len(),
    decreases s.len(),
{
    if s.len() > 0 {
        lemma_wire_global_list_len(s.drop_last());
        lemma_wire_global_min(s.last());
    }
}

/// The list encoding distributes over concatenation.
proof fn lemma_wire_native_list_concat(a: Seq<Native>, b: Seq<Native>)
    ensures
        wire_native_list(a + b) == wire_native_list(a) + wire_native_list(b),
    decreases b.len(),
{
    if b.len() == 0 {
        assert(a + b =~= a);
        assert(wire_native_list(a) + wire_native_list(b) =~= wire_native_list(a));
    } else {
        lemma_wire_native_list_concat(a, b.drop_last());
        assert((a + b).drop_last() =~= a + b.drop_last());
        assert((a + b).last() == b.last());
        assert(wire_native_list(a) + (wire_native_list(b.drop_last()) + wire_native(b.last())) =~= (
        wire_native_list(a) + wire_native_list(b.drop_last())) + wire_native(b.last()));
    }
}

/// Every element takes at least one chunk.
proof fn lemma_wire_native_list_len(s: Seq<Native>)
    ensures
        wire_native_list(s).len() >= 8 * s.len(),
    decreases s.len(),
{
    if s.len() > 0 {
        lemma_wire_native_list_len(s.drop_last());
        lemma_wire_native_min(s.last());
    }
}

/// The list encoding distributes over concatenation.
proof fn lemma_wire_opt_u32_list_concat(a: Seq<Option<u32>>, b: Seq<Option<u32>>)
    ensures
        wire_opt_u32_list(a + b) == wire_opt_u32_list(a) + wire_opt_u32_list(b),
    decreases b.len(),
{
    if b.len() == 0 {
        assert(a + b =~= a);
        assert(wire_opt_u32_list(a) + wire_opt_u32_list(b) =~= wire_opt_u32_list(a));
    } else {
        lemma_wire_opt_u32_list_concat(a, b.drop_last());
        assert((a + b).drop_last() =~= a + b.drop_last());
        assert((a + b).last() == b.last());
        assert(wire_opt_u32_list(a) + (wire_opt_u32_list(b.drop_last()) + wire_opt_u32(b.last())) =~= (
        wire_opt_u32_list(a) + wire_opt_u32_list(b.drop_last())) + wire_opt_u32(b.last()));
    }
}

/// Every element takes at least one chunk.
proof fn lemma_wire_opt_u32_list_len(s: Seq<Option<u32>>)
    ensures
        wire_opt_u32_list(s).len() >= 8 * s.len(),
    decreases s.len(),
{
    if s.len() > 0 {
        lemma_wire_opt_u32_list_len(s.drop_last());
        lemma_wire_opt_u32_min(s.last());
    }
}

/// The list encoding distributes over concatenation.
proof fn lemma_wire_table_list_concat(a: Seq<Table>, b: Seq<Table>)
    ensures
        wire_table_list(a + b) == wire_table_list(a) + wire_table_list(b),
    decreases b.len(),
{
    if b.len() == 0 {
        assert(a + b =~= a);
        assert(wire_table_list(a) + wire_table_list(b) =~= wire_table_list(a));
    } else {
        lemma_wire_table_list_concat(a, b.drop_last());
        assert((a + b).drop_last() =~= a + b.drop_last());
        assert((a + b).last() == b.last());
        assert(wire_table_list(a) + (wire_table_list(b.drop_last()) + wire_table(b.last())) =~= (
        wire_table_list(a) + wire_table_list(b.drop_last())) + wire_table(b.last()));
    }
}

/// Every element takes at least one chunk.
proof fn lemma_wire_table_list_len(s: Seq<Table>)
    ensures
        wire_table_list(s).len() >= 8 * s.len(),
    decreases s.len(),
{
    if s.len() > 0 {
        lemma_wire_table_list_len(s.drop_last());
        lemma_wire_table_min(s.last());
    }
}

proof fn lemma_wire_valtype_min(v: ValType)
    ensures
        wire_valtype(v).len() >= 8,
{
}

proof fn lemma_wire_u32e_min(v: u32)
    ensures
        wire_u32e(v).len() >= 8,
{
}

proof fn lemma_wire_opt_u32_min(v: Option<u32>)
    ensures
        wire_opt_u32(v).len() >= 8,
{
}

proof fn lemma_wire_global_min(v: Global)
    ensures
        wire_global(v).len() >= 8,
{
}

#[verifier::rlimit(100)]
#[verifier::spinoff_prover]
proof fn lemma_wire_opcode_min(v: Opcode)
    ensures
        wire_opcode(v).len() >= 8,
{
}

proof fn lemma_wire_type_min(v: Type)
    ensures
        wire_type(v).len() >= 8,
{
}

proof fn lemma_wire_function_min(v: Function)
    ensures
        wire_function(v).len() >= 8,
{
}

proof fn lemma_wire_segment_min(v: DataSegment)
    ensures
        wire_segment(v).len() >= 8,
{
}

proof fn lemma_wire_native_min(v: Native)
    ensures
        wire_native(v).len() >= 8,
{
}

proof fn lemma_wire_table_min(v: Table)
    ensures
        wire_table(v).len() >= 8,
{
}

/// Splits a scalar-kind chunk off the byte string.
proof fn lemma_valtype_head(d: Seq<u8>, pos: int, t: ValType)
    requires
        wire_at(d, pos, wire_valtype(t)),
    ensures
        wire_at(d, pos, le64(valtype_tag(t))),
        wire_valtype(t).len() == 8,
        valtype_tag(t) <= 3,
{
}

/// Splits a tagged scalar into its tag and payload chunks.
proof fn lemma_value_head(d: Seq<u8>, pos: int, v: Value)
    requires
        wire_at(d, pos, wire_value(v)),
    ensures
        wire_at(d, pos, le64(value_tag(v))),
        wire_at(d, pos + 8, le64(value_payload(v))),
        wire_value(v).len() == 16,
        value_tag(v) <= 4,
{
    lemma_wire_at_split(d, pos, le64(value_tag(v)), le64(value_payload(v)));
}

/// Splits an optional index into its tag and payload chunks.
proof fn lemma_opt_head(d: Seq<u8>, pos: int, e: Option<u32>)
    requires
        wire_at(d, pos, wire_opt_u32(e)),
    ensures
        wire_at(d, pos, le64(opt_tag(e))),
        wire_at(d, pos + 8, le64(opt_payload(e))),
        wire_opt_u32(e).len() == 16,
        opt_tag(e) <= 1,
{
    lemma_wire_at_split(d, pos, le64(opt_tag(e)), le64(opt_payload(e)));
}

/// Splits a memory argument into its two chunks.
proof fn lemma_memarg_head(d: Seq<u8>, pos: int, a: Memarg)
    requires
        wire_at(d, pos, wire_memarg(a)),
    ensures
        wire_at(d, pos, le64(a.offset as u64)),
        wire_at(d, pos + 8, le64(a.align as u64)),
        wire_memarg(a).len() == 16,
{
    lemma_wire_at_split(d, pos, le64(a.offset as u64), le64(a.align as u64));
}

/// Relates the tag chunk read at `pos` to the operation standing there,
/// and exposes the payload's position.
#[verifier::rlimit(100)]
#[verifier::spinoff_prover]
proof fn lemma_opcode_head(d: Seq<u8>, pos: int, op: Opcode, x: u64)
    requires
        wire_at(d, pos, wire_opcode(op)),
        wire_at(d, pos, le64(x)),
    ensures
        x <= 98,
        x == 0 ==> op == Opcode::Drop && wire_opcode(op).len() == 8,
        x == 1 ==> op == Opcode::Select && wire_opcode(op).len() == 8,
        x == 2 ==> op is GetLocal && wire_at(d, pos + 8, le64(op->GetLocal_0 as u64)) && wire_opcode(op).len() == 16,
        x == 3 ==> op is SetLocal && wire_at(d, pos + 8, le64(op->SetLocal_0 as u64)) && wire_opcode(op).len() == 16,
        x == 4 ==> op is TeeLocal && wire_at(d, pos + 8, le64(op->TeeLocal_0 as u64)) && wire_opcode(op).len() == 16,
        x == 5 ==> op is GetGlobal && wire_at(d, pos + 8, le64(op->GetGlobal_0 as u64)) && wire_opcode(op).len() == 16,
        x == 6 ==> op is SetGlobal && wire_at(d, pos + 8, le64(op->SetGlobal_0 as u64)) && wire_opcode(op).len() == 16,
        x == 7 ==> op == Opcode::CurrentMemory && wire_opcode(op).len() == 8,
        x == 8 ==> op == Opcode::GrowMemory && wire_opcode(op).len() == 8,
        x == 9 ==> op == Opcode::Nop && wire_opcode(op).len() == 8,
        x == 10 ==> op == Opcode::Unreachable && wire_opcode(op).len() == 8,
        x == 11 ==> op == Opcode::Return && wire_opcode(op).len() == 8,
        x == 12 ==> op is Call && wire_at(d, pos + 8, le64(op->Call_0 as u64)) && wire_opcode(op).len() == 16,
        x == 13 ==> op is CallIndirect && wire_at(d, pos + 8, le64(op->CallIndirect_0 as u64)) && wire_opcode(op).len() == 16,
        x == 14 ==> op is I32Const && wire_at(d, pos + 8, le64(spec_u32_of_i32_bits(op->I32Const_0) as u64)) && wire_opcode(op).len() == 16,
        x == 15 ==> op == Opcode::I32Clz && wire_opcode(op).len() == 8,
        x == 16 ==> op == Opcode::I32Ctz && wire_opcode(op).len() == 8,
        x == 17 ==> op == Opcode::I32Popcnt && wire_opcode(op).len() == 8,
        x == 18 ==> op == Opcode::I32Add && wire_opcode(op).len() == 8,
        x == 19 ==> op == Opcode::I32Sub && wire_opcode(op).len() == 8,
        x == 20 ==> op == Opcode::I32Mul && wire_opcode(op).len() == 8,
        x == 21 ==> op == Opcode::I32DivU && wire_opcode(op).len() == 8,
        x == 22 ==> op == Opcode::I32DivS && wire_opcode(op).len() == 8,
        x == 23 ==> op == Opcode::I32RemU && wire_opcode(op).len() == 8,
        x == 24 ==> op == Opcode::I32RemS && wire_opcode(op).len() == 8,
        x == 25 ==> op == Opcode::I32And && wire_opcode(op).len() == 8,
        x == 26 ==> op == Opcode::I32Or && wire_opcode(op).len() == 8,
        x == 27 ==> op == Opcode::I32Xor && wire_opcode(op).len() == 8,
        x == 28 ==> op == Opcode::I32Shl && wire_opcode(op).len() == 8,
        x == 29 ==> op == Opcode::I32ShrU && wire_opcode(op).len() == 8,
        x == 30 ==> op == Opcode::I32ShrS && wire_opcode(op).len() == 8,
        x == 31 ==> op == Opcode::I32Rotl && wire_opcode(op).len() == 8,
        x == 32 ==> op == Opcode::I32Rotr && wire_opcode(op).len() == 8,
        x == 33 ==> op == Opcode::I32Eqz && wire_opcode(op).len() == 8,
        x == 34 ==> op == Opcode::I32Eq && wire_opcode(op).len() == 8,
        x == 35 ==> op == Opcode::I32Ne && wire_opcode(op).len() == 8,
        x == 36 ==> op == Opcode::I32LtU && wire_opcode(op).len() == 8,
        x == 37 ==> op == Opcode::I32LtS && wire_opcode(op).len() == 8,
        x == 38 ==> op == Opcode::I32LeU && wire_opcode(op).len() == 8,
        x == 39 ==> op == Opcode::I32LeS && wire_opcode(op).len() == 8,
        x == 40 ==> op == Opcode::I32GtU && wire_opcode(op).len() == 8,
        x == 41 ==> op == Opcode::I32GtS && wire_opcode(op).len() == 8,
        x == 42 ==> op == Opcode::I32GeU && wire_opcode(op).len() == 8,
        x == 43 ==> op == Opcode::I32GeS && wire_opcode(op).len() == 8,
        x == 44 ==> op == Opcode::I32WrapI64 && wire_opcode(op).len() == 8,
        x == 45 ==> op is I32Load && wire_at(d, pos + 8, wire_memarg(op->I32Load_0)) && wire_opcode(op).len() == 24,
        x == 46 ==> op is I32Store && wire_at(d, pos + 8, wire_memarg(op->I32Store_0)) && wire_opcode(op).len() == 24,
        x == 47 ==> op is I32Load8U && wire_at(d, pos + 8, wire_memarg(op->I32Load8U_0)) && wire_opcode(op).len() == 24,
        x == 48 ==> op is I32Load8S && wire_at(d, pos + 8, wire_memarg(op->I32Load8S_0)) && wire_opcode(op).len() == 24,
        x == 49 ==> op is I32Load16U && wire_at(d, pos + 8, wire_memarg(op->I32Load16U_0)) && wire_opcode(op).len() == 24,
        x == 50 ==> op is I32Load16S && wire_at(d, pos + 8, wire_memarg(op->I32Load16S_0)) && wire_opcode(op).len() == 24,
        x == 51 ==> op is I32Store8 && wire_at(d, pos + 8, wire_memarg(op->I32Store8_0)) && wire_opcode(op).len() == 24,
        x == 52 ==> op is I32Store16 && wire_at(d, pos + 8, wire_memarg(op->I32Store16_0)) && wire_opcode(op).len() == 24,
        x == 53 ==> op is I64Const && wire_at(d, pos + 8, le64(spec_u64_of_i64_bits(op->I64Const_0))) && wire_opcode(op).len() == 16,
        x == 54 ==> op == Opcode::I64Clz && wire_opcode(op).len() == 8,
        x == 55 ==> op == Opcode::I64Ctz && wire_opcode(op).len() == 8,
        x == 56 ==> op == Opcode::I64Popcnt && wire_opcode(op).len() == 8,
        x == 57 ==> op == Opcode::I64Add && wire_opcode(op).len() == 8,
        x == 58 ==> op == Opcode::I64Sub && wire_opcode(op).len() == 8,
        x == 59 ==> op == Opcode::I64Mul && wire_opcode(op).len() == 8,
        x == 60 ==> op == Opcode::I64DivU && wire_opcode(op).len() == 8,
        x == 61 ==> op == Opcode::I64DivS && wire_opcode(op).len() == 8,
        x == 62 ==> op == Opcode::I64RemU && wire_opcode(op).len() == 8,
        x == 63 ==> op == Opcode::I64RemS && wire_opcode(op).len() == 8,
        x == 64 ==> op == Opcode::I64And && wire_opcode(op).len() == 8,
        x == 65 ==> op == Opcode::I64Or && wire_opcode(op).len() == 8,
        x == 66 ==> op == Opcode::I64Xor && wire_opcode(op).len() == 8,
        x == 67 ==> op == Opcode::I64Shl && wire_opcode(op).len() == 8,
        x == 68 ==> op == Opcode::I64ShrU && wire_opcode(op).len() == 8,
        x == 69 ==> op == Opcode::I64ShrS && wire_opcode(op).len() == 8,
        x == 70 ==> op == Opcode::I64Rotl && wire_opcode(op).len() == 8,
        x == 71 ==> op == Opcode::I64Rotr && wire_opcode(op).len() == 8,
        x == 72 ==> op == Opcode::I64Eqz && wire_opcode(op).len() == 8,
        x == 73 ==> op == Opcode::I64Eq && wire_opcode(op).len() == 8,
        x == 74 ==> op == Opcode::I64Ne && wire_opcode(op).len() == 8,
        x == 75 ==> op == Opcode::I64LtU && wire_opcode(op).len() == 8,
        x == 76 ==> op == Opcode::I64LtS && wire_opcode(op).len() == 8,
        x == 77 ==> op == Opcode::I64LeU && wire_opcode(op).len() == 8,
        x == 78 ==> op == Opcode::I64LeS && wire_opcode(op).len() == 8,
        x == 79 ==> op == Opcode::I64GtU && wire_opcode(op).len() == 8,
        x == 80 ==> op == Opcode::I64GtS && wire_opcode(op).len() == 8,
        x == 81 ==> op == Opcode::I64GeU && wire_opcode(op).len() == 8,
        x == 82 ==> op == Opcode::I64GeS && wire_opcode(op).len() == 8,
        x == 83 ==> op == Opcode::I64ExtendI32U && wire_opcode(op).len() == 8,
        x == 84 ==> op == Opcode::I64ExtendI32S && wire_opcode(op).len() == 8,
        x == 85 ==> op is I64Load && wire_at(d, pos + 8, wire_memarg(op->I64Load_0)) && wire_opcode(op).len() == 24,
        x == 86 ==> op is I64Store && wire_at(d, pos + 8, wire_memarg(op->I64Store_0)) && wire_opcode(op).len() == 24,
        x == 87 ==> op is I64Load8U && wire_at(d, pos + 8, wire_memarg(op->I64Load8U_0)) && wire_opcode(op).len() == 24,
        x == 88 ==> op is I64Load8S && wire_at(d, pos + 8, wire_memarg(op->I64Load8S_0)) && wire_opcode(op).len() == 24,
        x == 89 ==> op is I64Load16U && wire_at(d, pos + 8, wire_memarg(op->I64Load16U_0)) && wire_opcode(op).len() == 24,
        x == 90 ==> op is I64Load16S && wire_at(d, pos + 8, wire_memarg(op->I64Load16S_0)) && wire_opcode(op).len() == 24,
        x == 91 ==> op is I64Load32U && wire_at(d, pos + 8, wire_memarg(op->I64Load32U_0)) && wire_opcode(op).len() == 24,
        x == 92 ==> op is I64Load32S && wire_at(d, pos + 8, wire_memarg(op->I64Load32S_0)) && wire_opcode(op).len() == 24,
        x == 93 ==> op is I64Store8 && wire_at(d, pos + 8, wire_memarg(op->I64Store8_0)) && wire_opcode(op).len() == 24,
        x == 94 ==> op is I64Store16 && wire_at(d, pos + 8, wire_memarg(op->I64Store16_0)) && wire_opcode(op).len() == 24,
        x == 95 ==> op is I64Store32 && wire_at(d, pos + 8, wire_memarg(op->I64Store32_0)) && wire_opcode(op).len() == 24,
        x == 96 ==> op is Jmp && wire_at(d, pos + 8, le64(op->Jmp_0 as u64)) && wire_opcode(op).len() == 16,
        x == 97 ==> op is JmpIf && wire_at(d, pos + 8, le64(op->JmpIf_0 as u64)) && wire_opcode(op).len() == 16,
        x == 98 ==> op is JmpTable && wire_at(d, pos + 8, wire_u32s(op->JmpTable_0@)) && wire_at(d, pos + 8 + wire_u32s(op->JmpTable_0@).len(), le64(op->JmpTable_1 as u64)) && wire_opcode(op).len() == 16 + wire_u32s(op->JmpTable_0@).len(),
{
    match op {
        Opcode::Drop => {
            lemma_le64_at_unique(d, pos, 0, x);
        },
        Opcode::Select => {
            lemma_le64_at_unique(d, pos, 1, x);
        },
        Opcode::GetLocal(_y) => {
            lemma_wire_at_split(d, pos, le64(2), le64(op->GetLocal_0 as u64));
            lemma_le64_at_unique(d, pos, 2, x);
        },
        Opcode::SetLocal(_y) => {
            lemma_wire_at_split(d, pos, le64(3), le64(op->SetLocal_0 as u64));
            lemma_le64_at_unique(d, pos, 3, x);
        },
        Opcode::TeeLocal(_y) => {
            lemma_wire_at_split(d, pos, le64(4), le64(op->TeeLocal_0 as u64));
            lemma_le64_at_unique(d, pos, 4, x);
        },
        Opcode::GetGlobal(_y) => {
            lemma_wire_at_split(d, pos, le64(5), le64(op->GetGlobal_0 as u64));
            lemma_le64_at_unique(d, pos, 5, x);
        },
        Opcode::SetGlobal(_y) => {
            lemma_wire_at_split(d, pos, le64(6), le64(op->SetGlobal_0 as u64));
            lemma_le64_at_unique(d, pos, 6, x);
        },
        Opcode::CurrentMemory => {
            lemma_le64_at_unique(d, pos, 7, x);
        },
        Opcode::GrowMemory => {
            lemma_le64_at_unique(d, pos, 8, x);
        },
        Opcode::Nop => {
            lemma_le64_at_unique(d, pos, 9, x);
        },
        Opcode::Unreachable => {
            lemma_le64_at_unique(d, pos, 10, x);
        },
        Opcode::Return => {
            lemma_le64_at_unique(d, pos, 11, x);
        },
        Opcode::Call(_y) => {
            lemma_wire_at_split(d, pos, le64(12), le64(op->Call_0 as u64));
            lemma_le64_at_unique(d, pos, 12, x);
        },
        Opcode::CallIndirect(_y) => {
            lemma_wire_at_split(d, pos, le64(13), le64(op->CallIndirect_0 as u64));
            lemma_le64_at_unique(d, pos, 13, x);
        },
        Opcode::I32Const(_y) => {
            lemma_wire_at_split(d, pos, le64(14), le64(spec_u32_of_i32_bits(op->I32Const_0) as u64));
            lemma_le64_at_unique(d, pos, 14, x);
        },
        Opcode::I32Clz => {
            lemma_le64_at_unique(d, pos, 15, x);
        },
        Opcode::I32Ctz => {
            lemma_le64_at_unique(d, pos, 16, x);
        },
        Opcode::I32Popcnt => {
            lemma_le64_at_unique(d, pos, 17, x);
        },
        Opcode::I32Add => {
            lemma_le64_at_unique(d, pos, 18, x);
        },
        Opcode::I32Sub => {
            lemma_le64_at_unique(d, pos, 19, x);
        },
        Opcode::I32Mul => {
            lemma_le64_at_unique(d, pos, 20, x);
        },
        Opcode::I32DivU => {
            lemma_le64_at_unique(d, pos, 21, x);
        },
        Opcode::I32DivS => {
            lemma_le64_at_unique(d, pos, 22, x);
        },
        Opcode::I32RemU => {
            lemma_le64_at_unique(d, pos, 23, x);
        },
        Opcode::I32RemS => {
            lemma_le64_at_unique(d, pos, 24, x);
        },
        Opcode::I32And => {
            lemma_le64_at_unique(d, pos, 25, x);
        },
        Opcode::I32Or => {
            lemma_le64_at_unique(d, pos, 26, x);
        },
        Opcode::I32Xor => {
            lemma_le64_at_unique(d, pos, 27, x);
        },
        Opcode::I32Shl => {
            lemma_le64_at_unique(d, pos, 28, x);
        },
        Opcode::I32ShrU => {
            lemma_le64_at_unique(d, pos, 29, x);
        },
        Opcode::I32ShrS => {
            lemma_le64_at_unique(d, pos, 30, x);
        },
        Opcode::I32Rotl => {
            lemma_le64_at_unique(d, pos, 31, x);
        },
        Opcode::I32Rotr => {
            lemma_le64_at_unique(d, pos, 32, x);
        },
        Opcode::I32Eqz => {
            lemma_le64_at_unique(d, pos, 33, x);
        },
        Opcode::I32Eq => {
            lemma_le64_at_unique(d, pos, 34, x);
        },
        Opcode::I32Ne => {
            lemma_le64_at_unique(d, pos, 35, x);
        },
        Opcode::I32LtU => {
            lemma_le64_at_unique(d, pos, 36, x);
        },
        Opcode::I32LtS => {
            lemma_le64_at_unique(d, pos, 37, x);
        },
        Opcode::I32LeU => {
            lemma_le64_at_unique(d, pos, 38, x);
        },
        Opcode::I32LeS => {
            lemma_le64_at_unique(d, pos, 39, x);
        },
        Opcode::I32GtU => {
            lemma_le64_at_unique(d, pos, 40, x);
        },
        Opcode::I32GtS => {
            lemma_le64_at_unique(d, pos, 41, x);
        },
        Opcode::I32GeU => {
            lemma_le64_at_unique(d, pos, 42, x);
        },
        Opcode::I32GeS => {
            lemma_le64_at_unique(d, pos, 43, x);
        },
        Opcode::I32WrapI64 => {
            lemma_le64_at_unique(d, pos, 44, x);
        },
        Opcode::I32Load(_a) => {
            lemma_wire_at_split(d, pos, le64(45), wire_memarg(op->I32Load_0));
            lemma_le64_at_unique(d, pos, 45, x);
        },
        Opcode::I32Store(_a) => {
            lemma_wire_at_split(d, pos, le64(46), wire_memarg(op->I32Store_0));
            lemma_le64_at_unique(d, pos, 46, x);
        },
        Opcode::I32Load8U(_a) => {
            lemma_wire_at_split(d, pos, le64(47), wire_memarg(op->I32Load8U_0));
            lemma_le64_at_unique(d, pos, 47, x);
        },
        Opcode::I32Load8S(_a) => {
            lemma_wire_at_split(d, pos, le64(48), wire_memarg(op->I32Load8S_0));
            lemma_le64_at_unique(d, pos, 48, x);
        },
        Opcode::I32Load16U(_a) => {
            lemma_wire_at_split(d, pos, le64(49), wire_memarg(op->I32Load16U_0));
            lemma_le64_at_unique(d, pos, 49, x);
        },
        Opcode::I32Load16S(_a) => {
            lemma_wire_at_split(d, pos, le64(50), wire_memarg(op->I32Load16S_0));
            lemma_le64_at_unique(d, pos, 50, x);
        },
        Opcode::I32Store8(_a) => {
            lemma_wire_at_split(d, pos, le64(51), wire_memarg(op->I32Store8_0));
            lemma_le64_at_unique(d, pos, 51, x);
        },
        Opcode::I32Store16(_a) => {
            lemma_wire_at_split(d, pos, le64(52), wire_memarg(op->I32Store16_0));
            lemma_le64_at_unique(d, pos, 52, x);
        },
        Opcode::I64Const(_y) => {
            lemma_wire_at_split(d, pos, le64(53), le64(spec_u64_of_i64_bits(op->I64Const_0)));
            lemma_le64_at_unique(d, pos, 53, x);
        },
        Opcode::I64Clz => {
            lemma_le64_at_unique(d, pos, 54, x);
        },
        Opcode::I64Ctz => {
            lemma_le64_at_unique(d, pos, 55, x);
        },
        Opcode::I64Popcnt => {
            lemma_le64_at_unique(d, pos, 56, x);
        },
        Opcode::I64Add => {
            lemma_le64_at_unique(d, pos, 57, x);
        },
        Opcode::I64Sub => {
            lemma_le64_at_unique(d, pos, 58, x);
        },
        Opcode::I64Mul => {
            lemma_le64_at_unique(d, pos, 59, x);
        },
        Opcode::I64DivU => {
            lemma_le64_at_unique(d, pos, 60, x);
        },
        Opcode::I64DivS => {
            lemma_le64_at_unique(d, pos, 61, x);
        },
        Opcode::I64RemU => {
            lemma_le64_at_unique(d, pos, 62, x);
        },
        Opcode::I64RemS => {
            lemma_le64_at_unique(d, pos, 63, x);
        },
        Opcode::I64And => {
            lemma_le64_at_unique(d, pos, 64, x);
        },
        Opcode::I64Or => {
            lemma_le64_at_unique(d, pos, 65, x);
        },
        Opcode::I64Xor => {
            lemma_le64_at_unique(d, pos, 66, x);
        },
        Opcode::I64Shl => {
            lemma_le64_at_unique(d, pos, 67, x);
        },
        Opcode::I64ShrU => {
            lemma_le64_at_unique(d, pos, 68, x);
        },
        Opcode::I64ShrS => {
            lemma_le64_at_unique(d, pos, 69, x);
        },
        Opcode::I64Rotl => {
            lemma_le64_at_unique(d, pos, 70, x);
        },
        Opcode::I64Rotr => {
            lemma_le64_at_unique(d, pos, 71, x);
        },
        Opcode::I64Eqz => {
            lemma_le64_at_unique(d, pos, 72, x);
        },
        Opcode::I64Eq => {
            lemma_le64_at_unique(d, pos, 73, x);
        },
        Opcode::I64Ne => {
            lemma_le64_at_unique(d, pos, 74, x);
        },
        Opcode::I64LtU => {
            lemma_le64_at_unique(d, pos, 75, x);
        },
        Opcode::I64LtS => {
            lemma_le64_at_unique(d, pos, 76, x);
        },
        Opcode::I64LeU => {
            lemma_le64_at_unique(d, pos, 77, x);
        },
        Opcode::I64LeS => {
            lemma_le64_at_unique(d, pos, 78, x);
        },
        Opcode::I64GtU => {
            lemma_le64_at_unique(d, pos, 79, x);
        },
        Opcode::I64GtS => {
            lemma_le64_at_unique(d, pos, 80, x);
        },
        Opcode::I64GeU => {
            lemma_le64_at_unique(d, pos, 81, x);
        },
        Opcode::I64GeS => {
            lemma_le64_at_unique(d, pos, 82, x);
        },
        Opcode::I64ExtendI32U => {
            lemma_le64_at_unique(d, pos, 83, x);
        },
        Opcode::I64ExtendI32S => {
            lemma_le64_at_unique(d, pos, 84, x);
        },
        Opcode::I64Load(_a) => {
            lemma_wire_at_split(d, pos, le64(85), wire_memarg(op->I64Load_0));
            lemma_le64_at_unique(d, pos, 85, x);
        },
        Opcode::I64Store(_a) => {
            lemma_wire_at_split(d, pos, le64(86), wire_memarg(op->I64Store_0));
            lemma_le64_at_unique(d, pos, 86, x);
        },
        Opcode::I64Load8U(_a) => {
            lemma_wire_at_split(d, pos, le64(87), wire_memarg(op->I64Load8U_0));
            lemma_le64_at_unique(d, pos, 87, x);
        },
        Opcode::I64Load8S(_a) => {
            lemma_wire_at_split(d, pos, le64(88), wire_memarg(op->I64Load8S_0));
            lemma_le64_at_unique(d, pos, 88, x);
        },
        Opcode::I64Load16U(_a) => {
            lemma_wire_at_split(d, pos, le64(89), wire_memarg(op->I64Load16U_0));
            lemma_le64_at_unique(d, pos, 89, x);
        },
        Opcode::I64Load16S(_a) => {
            lemma_wire_at_split(d, pos, le64(90), wire_memarg(op->I64Load16S_0));
            lemma_le64_at_unique(d, pos, 90, x);
        },
        Opcode::I64Load32U(_a) => {
            lemma_wire_at_split(d, pos, le64(91), wire_memarg(op->I64Load32U_0));
            lemma_le64_at_unique(d, pos, 91, x);
        },
        Opcode::I64Load32S(_a) => {
            lemma_wire_at_split(d, pos, le64(92), wire_memarg(op->I64Load32S_0));
            lemma_le64_at_unique(d, pos, 92, x);
        },
        Opcode::I64Store8(_a) => {
            lemma_wire_at_split(d, pos, le64(93), wire_memarg(op->I64Store8_0));
            lemma_le64_at_unique(d, pos, 93, x);
        },
        Opcode::I64Store16(_a) => {
            lemma_wire_at_split(d, pos, le64(94), wire_memarg(op->I64Store16_0));
            lemma_le64_at_unique(d, pos, 94, x);
        },
        Opcode::I64Store32(_a) => {
            lemma_wire_at_split(d, pos, le64(95), wire_memarg(op->I64Store32_0));
            lemma_le64_at_unique(d, pos, 95, x);
        },
        Opcode::Jmp(_y) => {
            lemma_wire_at_split(d, pos, le64(96), le64(op->Jmp_0 as u64));
            lemma_le64_at_unique(d, pos, 96, x);
        },
        Opcode::JmpIf(_y) => {
            lemma_wire_at_split(d, pos, le64(97), le64(op->JmpIf_0 as u64));
            lemma_le64_at_unique(d, pos, 97, x);
        },
        Opcode::JmpTable(_t, _o) => {
            assert(wire_opcode(op) =~= le64(98) + (wire_u32s(op->JmpTable_0@) + le64(op->JmpTable_1 as u64)));
            lemma_wire_at_split(d, pos, le64(98), wire_u32s(op->JmpTable_0@) + le64(op->JmpTable_1 as u64));
            lemma_wire_at_split(d, pos + 8, wire_u32s(op->JmpTable_0@), le64(op->JmpTable_1 as u64));
            lemma_le64_at_unique(d, pos, 98, x);
        },
    }
}
/// Appends one scalar kind.
fn ser_valtype(buf: &mut Vec<u8>, t: ValType)
    ensures
        final(buf)@ == old(buf)@ + wire_valtype(t),
{
    match t {
        ValType::I32 => ser_u64(buf, 0),
        ValType::I64 => ser_u64(buf, 1),
        ValType::F32 => ser_u64(buf, 2),
        ValType::F64 => ser_u64(buf, 3),
    }
}

/// Appends one jump-table entry.
fn ser_u32e(buf: &mut Vec<u8>, x: u32)
    ensures
        final(buf)@ == old(buf)@ + wire_u32e(x),
{
    ser_u64(buf, x as u64);
}

/// Appends one tagged scalar.
fn ser_value(buf: &mut Vec<u8>, v: Value)
    ensures
        final(buf)@ == old(buf)@ + wire_value(v),
{
    match v {
        Value::Undef => {
            ser_u64(buf, 0);
            ser_u64(buf, 0);
        },
        Value::I32(c) => {
            ser_u64(buf, 1);
            ser_u64(buf, u32_of_i32_bits(c) as u64);
        },
        Value::I64(c) => {
            ser_u64(buf, 2);
            ser_u64(buf, u64_of_i64_bits(c));
        },
        Value::F32(b) => {
            ser_u64(buf, 3);
            ser_u64(buf, b as u64);
        },
        Value::F64(b) => {
            ser_u64(buf, 4);
            ser_u64(buf, b);
        },
    }
    proof {
        assert(buf@ =~= old(buf)@ + wire_value(v));
    }
}

/// Appends one optional function index.
fn ser_opt_u32(buf: &mut Vec<u8>, e: Option<u32>)
    ensures
        final(buf)@ == old(buf)@ + wire_opt_u32(e),
{
    match e {
        None => {
            ser_u64(buf, 0);
            ser_u64(buf, 0);
        },
        Some(x) => {
            ser_u64(buf, 1);
            ser_u64(buf, x as u64);
        },
    }
    proof {
        assert(buf@ =~= old(buf)@ + wire_opt_u32(e));
    }
}

/// Appends a length-prefixed raw byte run.
#[verifier::loop_isolation(false)]
fn ser_bytes(buf: &mut Vec<u8>, v: &Vec<u8>)
    ensures
        final(buf)@ == old(buf)@ + wire_bytes(v@),
{
    ser_u64(buf, v.len() as u64);
    let mut i: usize = 0;
    while i < v.len()
        invariant
            i <= v@.len(),
            buf@ == old(buf)@ + wire_usize(v@.len()) + v@.take(i as int),
        decreases v@.len() - i,
    {
        let b: u8 = v[i];
        buf.push(b);
        proof {
            assert(buf@ =~= old(buf)@ + wire_usize(v@.len()) + v@.take((i + 1) as int));
        }
        i = i + 1;
    }
    proof {
        assert(v@.take(v@.len() as int) =~= v@);
        assert(buf@ =~= old(buf)@ + wire_bytes(v@));
    }
}

/// Appends a string as its UTF-8 bytes, length-prefixed.
fn ser_string(buf: &mut Vec<u8>, s: &String)
    ensures
        final(buf)@ == old(buf)@ + wire_string(s@),
{
    let bs = slice_to_vec(s.as_str().as_bytes());
    ser_bytes(buf, &bs);
}

/// Appends one operation.
fn ser_opcode(buf: &mut Vec<u8>, op: &Opcode)
    ensures
        final(buf)@ == old(buf)@ + wire_opcode(*op),
{
    match op {
        Opcode::Drop => {
            ser_u64(buf, 0);
        },
        Opcode::Select => {
            ser_u64(buf, 1);
        },
        Opcode::GetLocal(x) => {
            ser_u64(buf, 2);
            ser_u64(buf, *x as u64);
        },
        Opcode::SetLocal(x) => {
            ser_u64(buf, 3);
            ser_u64(buf, *x as u64);
        },
        Opcode::TeeLocal(x) => {
            ser_u64(buf, 4);
            ser_u64(buf, *x as u64);
        },
        Opcode::GetGlobal(x) => {
            ser_u64(buf, 5);
            ser_u64(buf, *x as u64);
        },
        Opcode::SetGlobal(x) => {
            ser_u64(buf, 6);
            ser_u64(buf, *x as u64);
        },
        Opcode::CurrentMemory => {
            ser_u64(buf, 7);
        },
        Opcode::GrowMemory => {
            ser_u64(buf, 8);
        },
        Opcode::Nop => {
            ser_u64(buf, 9);
        },
        Opcode::Unreachable => {
            ser_u64(buf, 10);
        },
        Opcode::Return => {
            ser_u64(buf, 11);
        },
        Opcode::Call(x) => {
            ser_u64(buf, 12);
            ser_u64(buf, *x as u64);
        },
        Opcode::CallIndirect(x) => {
            ser_u64(buf, 13);
            ser_u64(buf, *x as u64);
        },
        Opcode::I32Const(c) => {
            ser_u64(buf, 14);
            ser_u64(buf, u32_of_i32_bits(*c) as u64);
        },
        Opcode::I32Clz => {
            ser_u64(buf, 15);
        },
        Opcode::I32Ctz => {
            ser_u64(buf, 16);
        },
        Opcode::I32Popcnt => {
            ser_u64(buf, 17);
        },
        Opcode::I32Add => {
            ser_u64(buf, 18);
        },
        Opcode::I32Sub => {
            ser_u64(buf, 19);
        },
        Opcode::I32Mul => {
            ser_u64(buf, 20);
        },
        Opcode::I32DivU => {
            ser_u64(buf, 21);
        },
        Opcode::I32DivS => {
            ser_u64(buf, 22);
        },
        Opcode::I32RemU => {
            ser_u64(buf, 23);
        },
        Opcode::I32RemS => {
            ser_u64(buf, 24);
        },
        Opcode::I32And => {
            ser_u64(buf, 25);
        },
        Opcode::I32Or => {
            ser_u64(buf, 26);
        },
        Opcode::I32Xor => {
            ser_u64(buf, 27);
        },
        Opcode::I32Shl => {
            ser_u64(buf, 28);
        },
        Opcode::I32ShrU => {
            ser_u64(buf, 29);
        },
        Opcode::I32ShrS => {
            ser_u64(buf, 30);
        },
        Opcode::I32Rotl => {
            ser_u64(buf, 31);
        },
        Opcode::I32Rotr => {
            ser_u64(buf, 32);
        },
        Opcode::I32Eqz => {
            ser_u64(buf, 33);
        },
        Opcode::I32Eq => {
            ser_u64(buf, 34);
        },
        Opcode::I32Ne => {
            ser_u64(buf, 35);
        },
        Opcode::I32LtU => {
            ser_u64(buf, 36);
        },
        Opcode::I32LtS => {
            ser_u64(buf, 37);
        },
        Opcode::I32LeU => {
            ser_u64(buf, 38);
        },
        Opcode::I32LeS => {
            ser_u64(buf, 39);
        },
        Opcode::I32GtU => {
            ser_u64(buf, 40);
        },
        Opcode::I32GtS => {
            ser_u64(buf, 41);
        },
        Opcode::I32GeU => {
            ser_u64(buf, 42);
        },
        Opcode::I32GeS => {
            ser_u64(buf, 43);
        },
        Opcode::I32WrapI64 => {
            ser_u64(buf, 44);
        },
        Opcode::I32Load(a) => {
            ser_u64(buf, 45);
            ser_u64(buf, a.offset as u64);
            ser_u64(buf, a.align as u64);
        },
        Opcode::I32Store(a) => {
            ser_u64(buf, 46);
            ser_u64(buf, a.offset as u64);
            ser_u64(buf, a.align as u64);
        },
        Opcode::I32Load8U(a) => {
            ser_u64(buf, 47);
            ser_u64(buf, a.offset as u64);
            ser_u64(buf, a.align as u64);
        },
        Opcode::I32Load8S(a) => {
            ser_u64(buf, 48);
            ser_u64(buf, a.offset as u64);
            ser_u64(buf, a.align as u64);
        },
        Opcode::I32Load16U(a) => {
            ser_u64(buf, 49);
            ser_u64(buf, a.offset as u64);
            ser_u64(buf, a.align as u64);
        },
        Opcode::I32Load16S(a) => {
            ser_u64(buf, 50);
            ser_u64(buf, a.offset as u64);
            ser_u64(buf, a.align as u64);
        },
        Opcode::I32Store8(a) => {
            ser_u64(buf, 51);
            ser_u64(buf, a.offset as u64);
            ser_u64(buf, a.align as u64);
        },
        Opcode::I32Store16(a) => {
            ser_u64(buf, 52);
            ser_u64(buf, a.offset as u64);
            ser_u64(buf, a.align as u64);
        },
        Opcode::I64Const(c) => {
            ser_u64(buf, 53);
            ser_u64(buf, u64_of_i64_bits(*c));
        },
        Opcode::I64Clz => {
            ser_u64(buf, 54);
        },
        Opcode::I64Ctz => {
            ser_u64(buf, 55);
        },
        Opcode::I64Popcnt => {
            ser_u64(buf, 56);
        },
        Opcode::I64Add => {
            ser_u64(buf, 57);
        },
        Opcode::I64Sub => {
            ser_u64(buf, 58);
        },
        Opcode::I64Mul => {
            ser_u64(buf, 59);
        },
        Opcode::I64DivU => {
            ser_u64(buf, 60);
        },
        Opcode::I64DivS => {
            ser_u64(buf, 61);
        },
        Opcode::I64RemU => {
            ser_u64(buf, 62);
        },
        Opcode::I64RemS => {
            ser_u64(buf, 63);
        },
        Opcode::I64And => {
            ser_u64(buf, 64);
        },
        Opcode::I64Or => {
            ser_u64(buf, 65);
        },
        Opcode::I64Xor => {
            ser_u64(buf, 66);
        },
        Opcode::I64Shl => {
            ser_u64(buf, 67);
        },
        Opcode::I64ShrU => {
            ser_u64(buf, 68);
        },
        Opcode::I64ShrS => {
            ser_u64(buf, 69);
        },
        Opcode::I64Rotl => {
            ser_u64(buf, 70);
        },
        Opcode::I64Rotr => {
            ser_u64(buf, 71);
        },
        Opcode::I64Eqz => {
            ser_u64(buf, 72);
        },
        Opcode::I64Eq => {
            ser_u64(buf, 73);
        },
        Opcode::I64Ne => {
            ser_u64(buf, 74);
        },
        Opcode::I64LtU => {
            ser_u64(buf, 75);
        },
        Opcode::I64LtS => {
            ser_u64(buf, 76);
        },
        Opcode::I64LeU => {
            ser_u64(buf, 77);
        },
        Opcode::I64LeS => {
            ser_u64(buf, 78);
        },
        Opcode::I64GtU => {
            ser_u64(buf, 79);
        },
        Opcode::I64GtS => {
            ser_u64(buf, 80);
        },
        Opcode::I64GeU => {
            ser_u64(buf, 81);
        },
        Opcode::I64GeS => {
            ser_u64(buf, 82);
        },
        Opcode::I64ExtendI32U => {
            ser_u64(buf, 83);
        },
        Opcode::I64ExtendI32S => {
            ser_u64(buf, 84);
        },
        Opcode::I64Load(a) => {
            ser_u64(buf, 85);
            ser_u64(buf, a.offset as u64);
            ser_u64(buf, a.align as u64);
        },
        Opcode::I64Store(a) => {
            ser_u64(buf, 86);
            ser_u64(buf, a.offset as u64);
            ser_u64(buf, a.align as u64);
        },
        Opcode::I64Load8U(a) => {
            ser_u64(buf, 87);
            ser_u64(buf, a.offset as u64);
            ser_u64(buf, a.align as u64);
        },
        Opcode::I64Load8S(a) => {
            ser_u64(buf, 88);
            ser_u64(buf, a.offset as u64);
            ser_u64(buf, a.align as u64);
        },
        Opcode::I64Load16U(a) => {
            ser_u64(buf, 89);
            ser_u64(buf, a.offset as u64);
            ser_u64(buf, a.align as u64);
        },
        Opcode::I64Load16S(a) => {
            ser_u64(buf, 90);
            ser_u64(buf, a.offset as u64);
            ser_u64(buf, a.align as u64);
        },
        Opcode::I64Load32U(a) => {
            ser_u64(buf, 91);
            ser_u64(buf, a.offset as u64);
            ser_u64(buf, a.align as u64);
        },
        Opcode::I64Load32S(a) => {
            ser_u64(buf, 92);
            ser_u64(buf, a.offset as u64);
            ser_u64(buf, a.align as u64);
        },
        Opcode::I64Store8(a) => {
            ser_u64(buf, 93);
            ser_u64(buf, a.offset as u64);
            ser_u64(buf, a.align as u64);
        },
        Opcode::I64Store16(a) => {
            ser_u64(buf, 94);
            ser_u64(buf, a.offset as u64);
            ser_u64(buf, a.align as u64);
        },
        Opcode::I64Store32(a) => {
            ser_u64(buf, 95);
            ser_u64(buf, a.offset as u64);
            ser_u64(buf, a.align as u64);
        },
        Opcode::Jmp(x) => {
            ser_u64(buf, 96);
            ser_u64(buf, *x as u64);
        },
        Opcode::JmpIf(x) => {
            ser_u64(buf, 97);
            ser_u64(buf, *x as u64);
        },
        Opcode::JmpTable(t, o) => {
            ser_u64(buf, 98);
            ser_u32s(buf, t);
            ser_u64(buf, *o as u64);
        },
    }
    proof {
        assert(buf@ =~= old(buf)@ + wire_opcode(*op));
    }
}

/// Appends one signature.
fn ser_type(buf: &mut Vec<u8>, t: &Type)
    ensures
        final(buf)@ == old(buf)@ + wire_type(*t),
{
    match t {
        Type::Func(a, r) => {
            ser_valtypes(buf, a);
            ser_valtypes(buf, r);
            proof {
                assert(buf@ =~= old(buf)@ + wire_type(*t));
            }
        },
    }
}

/// Appends one function.
fn ser_function(buf: &mut Vec<u8>, f: &Function)
    ensures
        final(buf)@ == old(buf)@ + wire_function(*f),
{
    ser_u64(buf, f.typeidx as u64);
    ser_valtypes(buf, &f.locals);
    ser_opcodes(buf, &f.body.opcodes);
    proof {
        assert(buf@ =~= old(buf)@ + wire_function(*f));
    }
}

/// Appends one data segment.
fn ser_segment(buf: &mut Vec<u8>, d: &DataSegment)
    ensures
        final(buf)@ == old(buf)@ + wire_segment(*d),
{
    ser_u64(buf, d.offset as u64);
    ser_bytes(buf, &d.data);
    proof {
        assert(buf@ =~= old(buf)@ + wire_segment(*d));
    }
}

/// Appends one global.
fn ser_global(buf: &mut Vec<u8>, g: &Global)
    ensures
        final(buf)@ == old(buf)@ + wire_global(*g),
{
    ser_value(buf, g.value);
}

/// Appends one import declaration.
fn ser_native(buf: &mut Vec<u8>, n: &Native)
    ensures
        final(buf)@ == old(buf)@ + wire_native(*n),
{
    ser_string(buf, &n.module);
    ser_string(buf, &n.field);
    ser_u64(buf, n.typeidx as u64);
    proof {
        assert(buf@ =~= old(buf)@ + wire_native(*n));
    }
}

/// Appends one table.
fn ser_table(buf: &mut Vec<u8>, t: &Table)
    ensures
        final(buf)@ == old(buf)@ + wire_table(*t),
{
    ser_opts(buf, &t.elements);
}

/// Appends the whole image.
fn ser_module(buf: &mut Vec<u8>, m: &Module)
    ensures
        final(buf)@ == old(buf)@ + wire_module(*m),
{
    ser_types(buf, &m.types);
    ser_functions(buf, &m.functions);
    ser_segments(buf, &m.data_segments);
    ser_globals(buf, &m.globals);
    ser_natives(buf, &m.natives);
    ser_tables(buf, &m.tables);
    proof {
        assert(buf@ =~= old(buf)@ + wire_module(*m));
    }
}

/// Appends a length-prefixed list.
#[verifier::loop_isolation(false)]
fn ser_valtypes(buf: &mut Vec<u8>, v: &Vec<ValType>)
    ensures
        final(buf)@ == old(buf)@ + wire_valtypes(v@),
{
    ser_u64(buf, v.len() as u64);
    proof {
        assert(buf@ =~= old(buf)@ + wire_usize(v@.len()) + wire_valtype_list(v@.take(0)));
    }
    let mut i: usize = 0;
    while i < v.len()
        invariant
            i <= v@.len(),
            buf@ == old(buf)@ + wire_usize(v@.len()) + wire_valtype_list(v@.take(i as int)),
        decreases v@.len() - i,
    {
        let e: ValType = v[i];
        ser_valtype(buf, e);
        proof {
            assert(v@.take((i + 1) as int).drop_last() =~= v@.take(i as int));
            assert(v@.take((i + 1) as int).last() == v@[i as int]);
            assert(buf@ =~= old(buf)@ + wire_usize(v@.len()) + wire_valtype_list(
                v@.take((i + 1) as int),
            ));
        }
        i = i + 1;
    }
    proof {
        assert(v@.take(v@.len() as int) =~= v@);
        assert(buf@ =~= old(buf)@ + wire_valtypes(v@));
    }
}

/// Appends a length-prefixed list.
#[verifier::loop_isolation(false)]
fn ser_u32s(buf: &mut Vec<u8>, v: &Vec<u32>)
    ensures
        final(buf)@ == old(buf)@ + wire_u32s(v@),
{
    ser_u64(buf, v.len() as u64);
    proof {
        assert(buf@ =~= old(buf)@ + wire_usize(v@.len()) + wire_u32e_list(v@.take(0)));
    }
    let mut i: usize = 0;
    while i < v.len()
        invariant
            i <= v@.len(),
            buf@ == old(buf)@ + wire_usize(v@.len()) + wire_u32e_list(v@.take(i as int)),
        decreases v@.len() - i,
    {
        let e: u32 = v[i];
        ser_u32e(buf, e);
        proof {
            assert(v@.take((i + 1) as int).drop_last() =~= v@.take(i as int));
            assert(v@.take((i + 1) as int).last() == v@[i as int]);
            assert(buf@ =~= old(buf)@ + wire_usize(v@.len()) + wire_u32e_list(
                v@.take((i + 1) as int),
            ));
        }
        i = i + 1;
    }
    proof {
        assert(v@.take(v@.len() as int) =~= v@);
        assert(buf@ =~= old(buf)@ + wire_u32s(v@));
    }
}

/// Appends a length-prefixed list.
#[verifier::loop_isolation(false)]
fn ser_opcodes(buf: &mut Vec<u8>, v: &Vec<Opcode>)
    ensures
        final(buf)@ == old(buf)@ + wire_opcodes(v@),
{
    ser_u64(buf, v.len() as u64);
    proof {
        assert(buf@ =~= old(buf)@ + wire_usize(v@.len()) + wire_opcode_list(v@.take(0)));
    }
    let mut i: usize = 0;
    while i < v.len()
        invariant
            i <= v@.len(),
            buf@ == old(buf)@ + wire_usize(v@.len()) + wire_opcode_list(v@.take(i as int)),
        decreases v@.len() - i,
    {
        let e = &v[i];
        ser_opcode(buf, e);
        proof {
            assert(v@.take((i + 1) as int).drop_last() =~= v@.take(i as int));
            assert(v@.take((i + 1) as int).last() == v@[i as int]);
            assert(buf@ =~= old(buf)@ + wire_usize(v@.len()) + wire_opcode_list(
                v@.take((i + 1) as int),
            ));
        }
        i = i + 1;
    }
    proof {
        assert(v@.take(v@.len() as int) =~= v@);
        assert(buf@ =~= old(buf)@ + wire_opcodes(v@));
    }
}

/// Appends a length-prefixed list.
#[verifier::loop_isolation(false)]
fn ser_types(buf: &mut Vec<u8>, v: &Vec<Type>)
    ensures
        final(buf)@ == old(buf)@ + wire_types(v@),
{
    ser_u64(buf, v.len() as u64);
    proof {
        assert(buf@ =~= old(buf)@ + wire_usize(v@.len()) + wire_type_list(v@.take(0)));
    }
    let mut i: usize = 0;
    while i < v.len()
        invariant
            i <= v@.len(),
            buf@ == old(buf)@ + wire_usize(v@.len()) + wire_type_list(v@.take(i as int)),
        decreases v@.len() - i,
    {
        let e = &v[i];
        ser_type(buf, e);
        proof {
            assert(v@.take((i + 1) as int).drop_last() =~= v@.take(i as int));
            assert(v@.take((i + 1) as int).last() == v@[i as int]);
            assert(buf@ =~= old(buf)@ + wire_usize(v@.len()) + wire_type_list(
                v@.take((i + 1) as int),
            ));
        }
        i = i + 1;
    }
    proof {
        assert(v@.take(v@.len() as int) =~= v@);
        assert(buf@ =~= old(buf)@ + wire_types(v@));
    }
}

/// Appends a length-prefixed list.
#[verifier::loop_isolation(false)]
fn ser_functions(buf: &mut Vec<u8>, v: &Vec<Function>)
    ensures
        final(buf)@ == old(buf)@ + wire_functions(v@),
{
    ser_u64(buf, v.len() as u64);
    proof {
        assert(buf@ =~= old(buf)@ + wire_usize(v@.len()) + wire_function_list(v@.take(0)));
    }
    let mut i: usize = 0;
    while i < v.len()
        invariant
            i <= v@.len(),
            buf@ == old(buf)@ + wire_usize(v@.len()) + wire_function_list(v@.take(i as int)),
        decreases v@.len() - i,
    {
        let e = &v[i];
        ser_function(buf, e);
        proof {
            assert(v@.take((i + 1) as int).drop_last() =~= v@.take(i as int));
            assert(v@.take((i + 1) as int).last() == v@[i as int]);
            assert(buf@ =~= old(buf)@ + wire_usize(v@.len()) + wire_function_list(
                v@.take((i + 1) as int),
            ));
        }
        i = i + 1;
    }
    proof {
        assert(v@.take(v@.len() as int) =~= v@);
        assert(buf@ =~= old(buf)@ + wire_functions(v@));
    }
}

/// Appends a length-prefixed list.
#[verifier::loop_isolation(false)]
fn ser_segments(buf: &mut Vec<u8>, v: &Vec<DataSegment>)
    ensures
        final(buf)@ == old(buf)@ + wire_segments(v@),
{
    ser_u64(buf, v.len() as u64);
    proof {
        assert(buf@ =~= old(buf)@ + wire_usize(v@.len()) + wire_segment_list(v@.take(0)));
    }
    let mut i: usize = 0;
    while i < v.len()
        invariant
            i <= v@.len(),
            buf@ == old(buf)@ + wire_usize(v@.len()) + wire_segment_list(v@.take(i as int)),
        decreases v@.len() - i,
    {
        let e = &v[i];
        ser_segment(buf, e);
        proof {
            assert(v@.take((i + 1) as int).drop_last() =~= v@.take(i as int));
            assert(v@.take((i + 1) as int).last() == v@[i as int]);
            assert(buf@ =~= old(buf)@ + wire_usize(v@.len()) + wire_segment_list(
                v@.take((i + 1) as int),
            ));
        }
        i = i + 1;
    }
    proof {
        assert(v@.take(v@.len() as int) =~= v@);
        assert(buf@ =~= old(buf)@ + wire_segments(v@));
    }
}

/// Appends a length-prefixed list.
#[verifier::loop_isolation(false)]
fn ser_globals(buf: &mut Vec<u8>, v: &Vec<Global>)
    ensures
        final(buf)@ == old(buf)@ + wire_globals(v@),
{
    ser_u64(buf, v.len() as u64);
    proof {
        assert(buf@ =~= old(buf)@ + wire_usize(v@.len()) + wire_global_list(v@.take(0)));
    }
    let mut i: usize = 0;
    while i < v.len()
        invariant
            i <= v@.len(),
            buf@ == old(buf)@ + wire_usize(v@.len()) + wire_global_list(v@.take(i as int)),
        decreases v@.len() - i,
    {
        let e = &v[i];
        ser_global(buf, e);
        proof {
            assert(v@.take((i + 1) as int).drop_last() =~= v@.take(i as int));
            assert(v@.take((i + 1) as int).last() == v@[i as int]);
            assert(buf@ =~= old(buf)@ + wire_usize(v@.len()) + wire_global_list(
                v@.take((i + 1) as int),
            ));
        }
        i = i + 1;
    }
    proof {
        assert(v@.take(v@.len() as int) =~= v@);
        assert(buf@ =~= old(buf)@ + wire_globals(v@));
    }
}

/// Appends a length-prefixed list.
#[verifier::loop_isolation(false)]
fn ser_natives(buf: &mut Vec<u8>, v: &Vec<Native>)
    ensures
        final(buf)@ == old(buf)@ + wire_natives(v@),
{
    ser_u64(buf, v.len() as u64);
    proof {
        assert(buf@ =~= old(buf)@ + wire_usize(v@.len()) + wire_native_list(v@.take(0)));
    }
    let mut i: usize = 0;
    while i < v.len()
        invariant
            i <= v@.len(),
            buf@ == old(buf)@ + wire_usize(v@.len()) + wire_native_list(v@.take(i as int)),
        decreases v@.len() - i,
    {
        let e = &v[i];
        ser_native(buf, e);
        proof {
            assert(v@.take((i + 1) as int).drop_last() =~= v@.take(i as int));
            assert(v@.take((i + 1) as int).last() == v@[i as int]);
            assert(buf@ =~= old(buf)@ + wire_usize(v@.len()) + wire_native_list(
                v@.take((i + 1) as int),
            ));
        }
        i = i + 1;
    }
    proof {
        assert(v@.take(v@.len() as int) =~= v@);
        assert(buf@ =~= old(buf)@ + wire_natives(v@));
    }
}

/// Appends a length-prefixed list.
#[verifier::loop_isolation(false)]
fn ser_opts(buf: &mut Vec<u8>, v: &Vec<Option<u32>>)
    ensures
        final(buf)@ == old(buf)@ + wire_opts(v@),
{
    ser_u64(buf, v.len() as u64);
    proof {
        assert(buf@ =~= old(buf)@ + wire_usize(v@.len()) + wire_opt_u32_list(v@.take(0)));
    }
    let mut i: usize = 0;
    while i < v.len()
        invariant
            i <= v@.len(),
            buf@ == old(buf)@ + wire_usize(v@.len()) + wire_opt_u32_list(v@.take(i as int)),
        decreases v@.len() - i,
    {
        let e: Option<u32> = v[i];
        ser_opt_u32(buf, e);
        proof {
            assert(v@.take((i + 1) as int).drop_last() =~= v@.take(i as int));
            assert(v@.take((i + 1) as int).last() == v@[i as int]);
            assert(buf@ =~= old(buf)@ + wire_usize(v@.len()) + wire_opt_u32_list(
                v@.take((i + 1) as int),
            ));
        }
        i = i + 1;
    }
    proof {
        assert(v@.take(v@.len() as int) =~= v@);
        assert(buf@ =~= old(buf)@ + wire_opts(v@));
    }
}

/// Appends a length-prefixed list.
#[verifier::loop_isolation(false)]
fn ser_tables(buf: &mut Vec<u8>, v: &Vec<Table>)
    ensures
        final(buf)@ == old(buf)@ + wire_tables(v@),
{
    ser_u64(buf, v.len() as u64);
    proof {
        assert(buf@ =~= old(buf)@ + wire_usize(v@.len()) + wire_table_list(v@.take(0)));
    }
    let mut i: usize = 0;
    while i < v.len()
        invariant
            i <= v@.len(),
            buf@ == old(buf)@ + wire_usize(v@.len()) + wire_table_list(v@.take(i as int)),
        decreases v@.len() - i,
    {
        let e = &v[i];
        ser_table(buf, e);
        proof {
            assert(v@.take((i + 1) as int).drop_last() =~= v@.take(i as int));
            assert(v@.take((i + 1) as int).last() == v@[i as int]);
            assert(buf@ =~= old(buf)@ + wire_usize(v@.len()) + wire_table_list(
                v@.take((i + 1) as int),
            ));
        }
        i = i + 1;
    }
    proof {
        assert(v@.take(v@.len() as int) =~= v@);
        assert(buf@ =~= old(buf)@ + wire_tables(v@));
    }
}


/// Reads one scalar kind.
fn de_valtype(data: &Vec<u8>, pos: usize) -> (r: Option<(ValType, usize)>)
    ensures
        r is Some ==> ({
            let (t, p2) = r->Some_0;
            &&& pos <= p2 <= data@.len()
            &&& data@.subrange(pos as int, p2 as int) == wire_valtype(t)
        }),
        forall|t: ValType|
            #[trigger] wire_at(data@, pos as int, wire_valtype(t)) ==> r is Some && r->Some_0.0
                == t && r->Some_0.1 == pos + wire_valtype(t).len(),
{
    let ures = de_u64(data, pos);
    proof {
        assert forall|t: ValType| #[trigger] wire_at(data@, pos as int, wire_valtype(t)) implies (
        ures is Some && ures->Some_0.0 == valtype_tag(t)) by {
            lemma_valtype_head(data@, pos as int, t);
        }
    }
    match ures {
        None => None,
        Some((x, p1)) => match x {
            0 => Some((ValType::I32, p1)),
            1 => Some((ValType::I64, p1)),
            2 => Some((ValType::F32, p1)),
            3 => Some((ValType::F64, p1)),
            _ => None,
        },
    }
}

/// Reads one jump-table entry.
fn de_u32e(data: &Vec<u8>, pos: usize) -> (r: Option<(u32, usize)>)
    ensures
        r is Some ==> ({
            let (x, p2) = r->Some_0;
            &&& pos <= p2 <= data@.len()
            &&& data@.subrange(pos as int, p2 as int) == wire_u32e(x)
        }),
        forall|x: u32|
            #[trigger] wire_at(data@, pos as int, wire_u32e(x)) ==> r is Some && r->Some_0.0 == x
                && r->Some_0.1 == pos + wire_u32e(x).len(),
{
    let res = de_u32(data, pos);
    proof {
        assert forall|x: u32| #[trigger] wire_at(data@, pos as int, wire_u32e(x)) implies (res
            is Some && res->Some_0.0 == x) by {
            assert(wire_u32e(x) == le64(x as u64));
            assert(wire_at(data@, pos as int, le64(x as u64)));
        }
    }
    res
}

/// Reads one memory access argument.
fn de_memarg(data: &Vec<u8>, pos: usize) -> (r: Option<(Memarg, usize)>)
    ensures
        r is Some ==> ({
            let (a, p2) = r->Some_0;
            &&& pos <= p2 <= data@.len()
            &&& data@.subrange(pos as int, p2 as int) == wire_memarg(a)
        }),
        forall|a: Memarg|
            #[trigger] wire_at(data@, pos as int, wire_memarg(a)) ==> r is Some && r->Some_0.0
                == a && r->Some_0.1 == pos + wire_memarg(a).len(),
{
    let r1 = de_u32(data, pos);
    proof {
        assert forall|a: Memarg| #[trigger] wire_at(data@, pos as int, wire_memarg(a)) implies (r1
            is Some && r1->Some_0.0 == a.offset) by {
            lemma_memarg_head(data@, pos as int, a);
        }
    }
    let (off, p1) = match r1 {
        None => {
            return None;
        },
        Some(v) => v,
    };
    let r2 = de_u32(data, p1);
    proof {
        assert forall|a: Memarg| #[trigger] wire_at(data@, pos as int, wire_memarg(a)) implies (r2
            is Some && r2->Some_0.0 == a.align && r2->Some_0.1 == pos + 16) by {
            lemma_memarg_head(data@, pos as int, a);
            assert(wire_at(data@, p1 as int, le64(a.align as u64)));
        }
    }
    match r2 {
        None => None,
        Some((al, p2)) => {
            proof {
                lemma_cat2(data@, pos as int, p1 as int, p2 as int);
            }
            Some((Memarg { offset: off, align: al }, p2))
        },
    }
}

/// Reads one tagged scalar, rejecting non-canonical payloads.
fn de_value(data: &Vec<u8>, pos: usize) -> (r: Option<(Value, usize)>)
    ensures
        r is Some ==> ({
            let (v, p2) = r->Some_0;
            &&& pos <= p2 <= data@.len()
            &&& data@.subrange(pos as int, p2 as int) == wire_value(v)
        }),
        forall|v: Value|
            #[trigger] wire_at(data@, pos as int, wire_value(v)) ==> r is Some && r->Some_0.0 == v
                && r->Some_0.1 == pos + wire_value(v).len(),
{
    let r1 = de_u64(data, pos);
    proof {
        assert forall|v: Value| #[trigger] wire_at(data@, pos as int, wire_value(v)) implies (r1
            is Some && r1->Some_0.0 == value_tag(v)) by {
            lemma_value_head(data@, pos as int, v);
        }
    }
    let (tag, p1) = match r1 {
        None => {
            return None;
        },
        Some(v) => v,
    };
    let r2 = de_u64(data, p1);
    proof {
        assert forall|v: Value| #[trigger] wire_at(data@, pos as int, wire_value(v)) implies (r2
            is Some && r2->Some_0.0 == value_payload(v) && r2->Some_0.1 == pos + 16) by {
            lemma_value_head(data@, pos as int, v);
            assert(wire_at(data@, p1 as int, le64(value_payload(v))));
        }
    }
    let (pay, p2) = match r2 {
        None => {
            return None;
        },
        Some(v) => v,
    };
    proof {
        lemma_cat2(data@, pos as int, p1 as int, p2 as int);
    }
    match tag {
        0 => {
            if pay == 0 {
                Some((Value::Undef, p2))
            } else {
                None
            }
        },
        1 => {
            if pay > 0xFFFFFFFF {
                None
            } else {
                Some((Value::I32(i32_of_u32_bits(pay as u32)), p2))
            }
        },
        2 => {
            proof {
                lemma_u64_i64_bits_round_trip(pay);
            }
            Some((Value::I64(i64_of_u64_bits(pay)), p2))
        },
        3 => {
            if pay > 0xFFFFFFFF {
                None
            } else {
                Some((Value::F32(pay as u32), p2))
            }
        },
        4 => Some((Value::F64(pay), p2)),
        _ => None,
    }
}

/// Reads one optional function index, rejecting non-canonical payloads.
fn de_opt_u32(data: &Vec<u8>, pos: usize) -> (r: Option<(Option<u32>, usize)>)
    ensures
        r is Some ==> ({
            let (e, p2) = r->Some_0;
            &&& pos <= p2 <= data@.len()
            &&& data@.subrange(pos as int, p2 as int) == wire_opt_u32(e)
        }),
        forall|e: Option<u32>|
            #[trigger] wire_at(data@, pos as int, wire_opt_u32(e)) ==> r is Some && r->Some_0.0
                == e && r->Some_0.1 == pos + wire_opt_u32(e).len(),
{
    let r1 = de_u64(data, pos);
    proof {
        assert forall|e: Option<u32>| #[trigger] wire_at(data@, pos as int, wire_opt_u32(e)) implies (
        r1 is Some && r1->Some_0.0 == opt_tag(e)) by {
            lemma_opt_head(data@, pos as int, e);
        }
    }
    let (tag, p1) = match r1 {
        None => {
            return None;
        },
        Some(v) => v,
    };
    let r2 = de_u64(data, p1);
    proof {
        assert forall|e: Option<u32>| #[trigger] wire_at(data@, pos as int, wire_opt_u32(e)) implies (
        r2 is Some && r2->Some_0.0 == opt_payload(e) && r2->Some_0.1 == pos + 16) by {
            lemma_opt_head(data@, pos as int, e);
            assert(wire_at(data@, p1 as int, le64(opt_payload(e))));
        }
    }
    let (pay, p2) = match r2 {
        None => {
            return None;
        },
        Some(v) => v,
    };
    proof {
        lemma_cat2(data@, pos as int, p1 as int, p2 as int);
    }
    match tag {
        0 => {
            if pay == 0 {
                Some((None, p2))
            } else {
                None
            }
        },
        1 => {
            if pay > 0xFFFFFFFF {
                None
            } else {
                Some((Some(pay as u32), p2))
            }
        },
        _ => None,
    }
}

/// Reads a length-prefixed raw byte run.
#[verifier::loop_isolation(false)]
fn de_bytes(data: &Vec<u8>, pos: usize) -> (r: Option<(Vec<u8>, usize)>)
    ensures
        r is Some ==> ({
            let (v, p2) = r->Some_0;
            &&& pos <= p2 <= data@.len()
            &&& data@.subrange(pos as int, p2 as int) == wire_bytes(v@)
        }),
        forall|b: Seq<u8>|
            #[trigger] wire_at(data@, pos as int, wire_bytes(b)) && b.len() <= usize::MAX ==> r
                is Some && r->Some_0.0@ == b && r->Some_0.1 == pos + wire_bytes(b).len(),
{
    let nres = de_usize(data, pos);
    proof {
        assert forall|b: Seq<u8>|
            #[trigger] wire_at(data@, pos as int, wire_bytes(b)) && b.len() <= usize::MAX implies (
        nres is Some && nres->Some_0.0 == b.len()) by {
            assert(wire_bytes(b) == wire_usize(b.len()) + b);
            lemma_wire_at_split(data@, pos as int, wire_usize(b.len()), b);
        }
    }
    let (n, p1) = match nres {
        None => {
            return None;
        },
        Some(v) => v,
    };
    if n > data.len() || p1 > data.len() - n {
        proof {
            assert forall|b: Seq<u8>|
                #[trigger] wire_at(data@, pos as int, wire_bytes(b)) && b.len() <= usize::MAX implies
                false by {
                assert(wire_bytes(b) == wire_usize(b.len()) + b);
                lemma_wire_at_split(data@, pos as int, wire_usize(b.len()), b);
            }
        }
        return None;
    }
    let mut out: Vec<u8> = Vec::new();
    let mut i: usize = 0;
    while i < n
        invariant
            out@.len() == i,
            i <= n,
            p1 + n <= data@.len(),
            out@ == data@.subrange(p1 as int, p1 as int + i),
        decreases n - i,
    {
        let b: u8 = data[p1 + i];
        out.push(b);
        proof {
            assert(out@ =~= data@.subrange(p1 as int, p1 as int + i + 1));
        }
        i = i + 1;
    }
    proof {
        lemma_cat2(data@, pos as int, p1 as int, (p1 + n) as int);
        assert(data@.subrange(pos as int, (p1 + n) as int) =~= wire_bytes(out@));
        assert forall|b: Seq<u8>|
            #[trigger] wire_at(data@, pos as int, wire_bytes(b)) && b.len() <= usize::MAX implies (
        out@ == b) by {
            assert(wire_bytes(b) == wire_usize(b.len()) + b);
            lemma_wire_at_split(data@, pos as int, wire_usize(b.len()), b);
            assert(out@ =~= b);
        }
    }
    Some((out, p1 + n))
}

/// Relies on String::from_utf8: it succeeds exactly on valid UTF-8 and
/// returns the string holding exactly those bytes.
#[verifier::external_body]
fn string_from_utf8(v: Vec<u8>) -> (r: Option<String>)
    ensures
        r is Some <==> valid_utf8(v@),
        r is Some ==> encode_utf8((r->Some_0)@) == v@,
{
    match String::from_utf8(v) {
        Ok(s) => Some(s),
        Err(_) => None,
    }
}

/// Reads a string from its length-prefixed UTF-8 bytes.
fn de_string(data: &Vec<u8>, pos: usize) -> (r: Option<(String, usize)>)
    ensures
        r is Some ==> ({
            let (s, p2) = r->Some_0;
            &&& pos <= p2 <= data@.len()
            &&& data@.subrange(pos as int, p2 as int) == wire_string(s@)
        }),
        forall|s0: Seq<char>|
            #[trigger] wire_at(data@, pos as int, wire_string(s0)) ==> r is Some && (r->Some_0.0)@
                == s0 && r->Some_0.1 == pos + wire_string(s0).len(),
{
    let bres = de_bytes(data, pos);
    proof {
        assert forall|s0: Seq<char>| #[trigger] wire_at(data@, pos as int, wire_string(s0)) implies (
        bres is Some && bres->Some_0.0@ == encode_utf8(s0) && bres->Some_0.1 == pos + wire_string(
            s0,
        ).len()) by {
            vstd::std_specs::vec::axiom_spec_len(data);
            assert(wire_string(s0) == wire_bytes(encode_utf8(s0)));
            assert(wire_at(data@, pos as int, wire_bytes(encode_utf8(s0))));
            assert(encode_utf8(s0).len() <= usize::MAX);
        }
    }
    let (bs, p1) = match bres {
        None => {
            return None;
        },
        Some(v) => v,
    };
    let ghost bseq = bs@;
    let sres = string_from_utf8(bs);
    proof {
        assert forall|s0: Seq<char>| #[trigger] wire_at(data@, pos as int, wire_string(s0)) implies (
        sres is Some && (sres->Some_0)@ == s0) by {
            encode_utf8_valid_utf8(s0);
            encode_utf8_decode_utf8(s0);
            if sres is Some {
                encode_utf8_decode_utf8((sres->Some_0)@);
            }
        }
    }
    match sres {
        None => None,
        Some(st) => {
            proof {
                assert(wire_string(st@) == wire_bytes(bseq));
            }
            Some((st, p1))
        },
    }
}

/// Reads a length-prefixed list.
#[verifier::loop_isolation(false)]
#[verifier::rlimit(100)]
#[verifier::spinoff_prover]
fn de_valtypes(data: &Vec<u8>, pos: usize) -> (r: Option<(Vec<ValType>, usize)>)
    ensures
        r is Some ==> ({
            let (v, p2) = r->Some_0;
            &&& pos <= p2 <= data@.len()
            &&& data@.subrange(pos as int, p2 as int) == wire_valtypes(v@)
        }),
        forall|s: Seq<ValType>|
            #[trigger] wire_at(data@, pos as int, wire_valtypes(s)) && s.len() <= usize::MAX ==> r
                is Some && r->Some_0.0@ == s && r->Some_0.1 == pos + wire_valtypes(s).len(),
{
    let nres = de_usize(data, pos);
    proof {
        assert forall|s: Seq<ValType>|
            #[trigger] wire_at(data@, pos as int, wire_valtypes(s)) && s.len() <= usize::MAX implies (
        nres is Some && nres->Some_0.0 == s.len()) by {
            assert(wire_valtypes(s) == wire_usize(s.len()) + wire_valtype_list(s));
            lemma_wire_at_split(data@, pos as int, wire_usize(s.len()), wire_valtype_list(s));
        }
    }
    let (n, p1) = match nres {
        None => {
            return None;
        },
        Some(v) => v,
    };
    let mut out: Vec<ValType> = Vec::new();
    let mut p: usize = p1;
    let mut i: usize = 0;
    proof {
        assert forall|s: Seq<ValType>|
            #[trigger] wire_at(data@, pos as int, wire_valtypes(s)) && s.len() <= usize::MAX implies (
        out@ == s.take(0) && p1 == pos + 8 + wire_valtype_list(s.take(0)).len()) by {
            assert(s.take(0) =~= Seq::<ValType>::empty());
            assert(wire_valtype_list(s.take(0)).len() == 0);
        }
    }
    while i < n
        invariant
            out@.len() == i,
            i <= n,
            p1 <= p <= data@.len(),
            p1 == pos + 8,
            data@.subrange(p1 as int, p as int) == wire_valtype_list(out@),
            forall|s: Seq<ValType>|
                #[trigger] wire_at(data@, pos as int, wire_valtypes(s)) && s.len() <= usize::MAX ==> (
                s.len() == n && out@ == s.take(i as int) && p == pos + 8 + wire_valtype_list(s.take(i as int)).len()),
        decreases n - i,
    {
        let res = de_valtype(data, p);
        proof {
            assert forall|s: Seq<ValType>|
                #[trigger] wire_at(data@, pos as int, wire_valtypes(s)) && s.len() <= usize::MAX implies (
            res is Some && res->Some_0.0 == s[i as int] && res->Some_0.1 == pos + 8 + wire_valtype_list(
                s.take(i as int + 1),
            ).len() && out@.push(res->Some_0.0) == s.take(i as int + 1)) by {
                assert(wire_valtypes(s) == wire_usize(s.len()) + wire_valtype_list(s));
                lemma_wire_at_split(data@, pos as int, wire_usize(s.len()), wire_valtype_list(s));
                assert(s =~= s.take(i as int + 1) + s.skip(i as int + 1));
                lemma_wire_valtype_list_concat(s.take(i as int + 1), s.skip(i as int + 1));
                assert(s.take(i as int + 1).drop_last() =~= s.take(i as int));
                assert(s.take(i as int + 1).last() == s[i as int]);
                assert(wire_valtype_list(s.take(i as int + 1)) == wire_valtype_list(s.take(i as int))
                    + wire_valtype(s[i as int]));
                lemma_wire_at_split(
                    data@,
                    pos as int + 8,
                    wire_valtype_list(s.take(i as int + 1)),
                    wire_valtype_list(s.skip(i as int + 1)),
                );
                lemma_wire_at_split(
                    data@,
                    pos as int + 8,
                    wire_valtype_list(s.take(i as int)),
                    wire_valtype(s[i as int]),
                );
                assert(wire_at(data@, p as int, wire_valtype(s[i as int])));
                assert(out@.push(res->Some_0.0) =~= s.take(i as int + 1));
            }
        }
        let (e, p2) = match res {
            None => {
                return None;
            },
            Some(v) => v,
        };
        proof {
            lemma_cat2(data@, p1 as int, p as int, p2 as int);
            assert(out@.push(e).drop_last() =~= out@);
        }
        out.push(e);
        p = p2;
        i = i + 1;
    }
    proof {
        assert forall|s: Seq<ValType>|
            #[trigger] wire_at(data@, pos as int, wire_valtypes(s)) && s.len() <= usize::MAX implies (
        out@ == s && p == pos + wire_valtypes(s).len()) by {
            assert(s.take(s.len() as int) =~= s);
            assert(out@ =~= s);
        }
    }
    Some((out, p))
}

/// Reads a length-prefixed list.
#[verifier::loop_isolation(false)]
#[verifier::rlimit(100)]
#[verifier::spinoff_prover]
fn de_u32s(data: &Vec<u8>, pos: usize) -> (r: Option<(Vec<u32>, usize)>)
    ensures
        r is Some ==> ({
            let (v, p2) = r->Some_0;
            &&& pos <= p2 <= data@.len()
            &&& data@.subrange(pos as int, p2 as int) == wire_u32s(v@)
        }),
        forall|s: Seq<u32>|
            #[trigger] wire_at(data@, pos as int, wire_u32s(s)) && s.len() <= usize::MAX ==> r
                is Some && r->Some_0.0@ == s && r->Some_0.1 == pos + wire_u32s(s).len(),
{
    let nres = de_usize(data, pos);
    proof {
        assert forall|s: Seq<u32>|
            #[trigger] wire_at(data@, pos as int, wire_u32s(s)) && s.len() <= usize::MAX implies (
        nres is Some && nres->Some_0.0 == s.len()) by {
            assert(wire_u32s(s) == wire_usize(s.len()) + wire_u32e_list(s));
            lemma_wire_at_split(data@, pos as int, wire_usize(s.len()), wire_u32e_list(s));
        }
    }
    let (n, p1) = match nres {
        None => {
            return None;
        },
        Some(v) => v,
    };
    let mut out: Vec<u32> = Vec::new();
    let mut p: usize = p1;
    let mut i: usize = 0;
    proof {
        assert forall|s: Seq<u32>|
            #[trigger] wire_at(data@, pos as int, wire_u32s(s)) && s.len() <= usize::MAX implies (
        out@ == s.take(0) && p1 == pos + 8 + wire_u32e_list(s.take(0)).len()) by {
            assert(s.take(0) =~= Seq::<u32>::empty());
            assert(wire_u32e_list(s.take(0)).len() == 0);
        }
    }
    while i < n
        invariant
            out@.len() == i,
            i <= n,
            p1 <= p <= data@.len(),
            p1 == pos + 8,
            data@.subrange(p1 as int, p as int) == wire_u32e_list(out@),
            forall|s: Seq<u32>|
                #[trigger] wire_at(data@, pos as int, wire_u32s(s)) && s.len() <= usize::MAX ==> (
                s.len() == n && out@ == s.take(i as int) && p == pos + 8 + wire_u32e_list(s.take(i as int)).len()),
        decreases n - i,
    {
        let res = de_u32e(data, p);
        proof {
            assert forall|s: Seq<u32>|
                #[trigger] wire_at(data@, pos as int, wire_u32s(s)) && s.len() <= usize::MAX implies (
            res is Some && res->Some_0.0 == s[i as int] && res->Some_0.1 == pos + 8 + wire_u32e_list(
                s.take(i as int + 1),
            ).len() && out@.push(res->Some_0.0) == s.take(i as int + 1)) by {
                assert(wire_u32s(s) == wire_usize(s.len()) + wire_u32e_list(s));
                lemma_wire_at_split(data@, pos as int, wire_usize(s.len()), wire_u32e_list(s));
                assert(s =~= s.take(i as int + 1) + s.skip(i as int + 1));
                lemma_wire_u32e_list_concat(s.take(i as int + 1), s.skip(i as int + 1));
                assert(s.take(i as int + 1).drop_last() =~= s.take(i as int));
                assert(s.take(i as int + 1).last() == s[i as int]);
                assert(wire_u32e_list(s.take(i as int + 1)) == wire_u32e_list(s.take(i as int))
                    + wire_u32e(s[i as int]));
                lemma_wire_at_split(
                    data@,
                    pos as int + 8,
                    wire_u32e_list(s.take(i as int + 1)),
                    wire_u32e_list(s.skip(i as int + 1)),
                );
                lemma_wire_at_split(
                    data@,
                    pos as int + 8,
                    wire_u32e_list(s.take(i as int)),
                    wire_u32e(s[i as int]),
                );
                assert(wire_at(data@, p as int, wire_u32e(s[i as int])));
                assert(out@.push(res->Some_0.0) =~= s.take(i as int + 1));
            }
        }
        let (e, p2) = match res {
            None => {
                return None;
            },
            Some(v) => v,
        };
        proof {
            lemma_cat2(data@, p1 as int, p as int, p2 as int);
            assert(out@.push(e).drop_last() =~= out@);
        }
        out.push(e);
        p = p2;
        i = i + 1;
    }
    proof {
        assert forall|s: Seq<u32>|
            #[trigger] wire_at(data@, pos as int, wire_u32s(s)) && s.len() <= usize::MAX implies (
        out@ == s && p == pos + wire_u32s(s).len()) by {
            assert(s.take(s.len() as int) =~= s);
            assert(out@ =~= s);
        }
    }
    Some((out, p))
}

/// Reads a length-prefixed list.
#[verifier::loop_isolation(false)]
#[verifier::rlimit(100)]
#[verifier::spinoff_prover]
fn de_opcodes(data: &Vec<u8>, pos: usize) -> (r: Option<(Vec<Opcode>, usize)>)
    ensures
        r is Some ==> ({
            let (v, p2) = r->Some_0;
            &&& pos <= p2 <= data@.len()
            &&& data@.subrange(pos as int, p2 as int) == wire_opcodes(v@)
        }),
        forall|s: Seq<Opcode>|
            #[trigger] wire_at(data@, pos as int, wire_opcodes(s)) && s.len() <= usize::MAX ==> r
                is Some && opcode_seq_matches(r->Some_0.0@, s) && r->Some_0.1 == pos + wire_opcodes(s).len(),
{
    let nres = de_usize(data, pos);
    proof {
        assert forall|s: Seq<Opcode>|
            #[trigger] wire_at(data@, pos as int, wire_opcodes(s)) && s.len() <= usize::MAX implies (
        nres is Some && nres->Some_0.0 == s.len()) by {
            assert(wire_opcodes(s) == wire_usize(s.len()) + wire_opcode_list(s));
            lemma_wire_at_split(data@, pos as int, wire_usize(s.len()), wire_opcode_list(s));
        }
    }
    let (n, p1) = match nres {
        None => {
            return None;
        },
        Some(v) => v,
    };
    let mut out: Vec<Opcode> = Vec::new();
    let mut p: usize = p1;
    let mut i: usize = 0;
    proof {
        assert forall|s: Seq<Opcode>|
            #[trigger] wire_at(data@, pos as int, wire_opcodes(s)) && s.len() <= usize::MAX implies (
        opcode_seq_matches(out@, s.take(0)) && p1 == pos + 8 + wire_opcode_list(s.take(0)).len()) by {
            assert(s.take(0) =~= Seq::<Opcode>::empty());
            assert(wire_opcode_list(s.take(0)).len() == 0);
        }
    }
    while i < n
        invariant
            out@.len() == i,
            i <= n,
            p1 <= p <= data@.len(),
            p1 == pos + 8,
            data@.subrange(p1 as int, p as int) == wire_opcode_list(out@),
            forall|s: Seq<Opcode>|
                #[trigger] wire_at(data@, pos as int, wire_opcodes(s)) && s.len() <= usize::MAX ==> (
                s.len() == n && opcode_seq_matches(out@, s.take(i as int)) && p == pos + 8 + wire_opcode_list(s.take(i as int)).len()),
        decreases n - i,
    {
        let res = de_opcode(data, p);
        proof {
            assert forall|s: Seq<Opcode>|
                #[trigger] wire_at(data@, pos as int, wire_opcodes(s)) && s.len() <= usize::MAX implies (
            res is Some && opcode_matches(res->Some_0.0, s[i as int]) && res->Some_0.1 == pos + 8 + wire_opcode_list(
                s.take(i as int + 1),
            ).len() && opcode_seq_matches(out@.push(res->Some_0.0), s.take(i as int + 1))) by {
                assert(wire_opcodes(s) == wire_usize(s.len()) + wire_opcode_list(s));
                lemma_wire_at_split(data@, pos as int, wire_usize(s.len()), wire_opcode_list(s));
                assert(s =~= s.take(i as int + 1) + s.skip(i as int + 1));
                lemma_wire_opcode_list_concat(s.take(i as int + 1), s.skip(i as int + 1));
                assert(s.take(i as int + 1).drop_last() =~= s.take(i as int));
                assert(s.take(i as int + 1).last() == s[i as int]);
                assert(wire_opcode_list(s.take(i as int + 1)) == wire_opcode_list(s.take(i as int))
                    + wire_opcode(s[i as int]));
                lemma_wire_at_split(
                    data@,
                    pos as int + 8,
                    wire_opcode_list(s.take(i as int + 1)),
                    wire_opcode_list(s.skip(i as int + 1)),
                );
                lemma_wire_at_split(
                    data@,
                    pos as int + 8,
                    wire_opcode_list(s.take(i as int)),
                    wire_opcode(s[i as int]),
                );
                assert(wire_at(data@, p as int, wire_opcode(s[i as int])));
                assert forall|j: int| 0 <= j < i as int + 1 implies opcode_matches(
                    #[trigger] out@.push(res->Some_0.0)[j],
                    s.take(i as int + 1)[j],
                ) by {
                    if j < i as int {
                        assert(opcode_matches(out@[j], s.take(i as int)[j]));
                    }
                }
            }
        }
        let (e, p2) = match res {
            None => {
                return None;
            },
            Some(v) => v,
        };
        proof {
            lemma_cat2(data@, p1 as int, p as int, p2 as int);
            assert(out@.push(e).drop_last() =~= out@);
        }
        out.push(e);
        p = p2;
        i = i + 1;
    }
    proof {
        assert forall|s: Seq<Opcode>|
            #[trigger] wire_at(data@, pos as int, wire_opcodes(s)) && s.len() <= usize::MAX implies (
        opcode_seq_matches(out@, s) && p == pos + wire_opcodes(s).len()) by {
            assert(s.take(s.len() as int) =~= s);
            assert forall|j: int| 0 <= j < s.len() implies opcode_matches(
                #[trigger] out@[j],
                s[j],
            ) by {
                assert(opcode_matches(out@[j], s.take(s.len() as int)[j]));
            }
        }
    }
    Some((out, p))
}

/// Reads a length-prefixed list.
#[verifier::loop_isolation(false)]
#[verifier::rlimit(100)]
#[verifier::spinoff_prover]
fn de_types(data: &Vec<u8>, pos: usize) -> (r: Option<(Vec<Type>, usize)>)
    ensures
        r is Some ==> ({
            let (v, p2) = r->Some_0;
            &&& pos <= p2 <= data@.len()
            &&& data@.subrange(pos as int, p2 as int) == wire_types(v@)
        }),
        forall|s: Seq<Type>|
            #[trigger] wire_at(data@, pos as int, wire_types(s)) && s.len() <= usize::MAX ==> r
                is Some && type_seq_matches(r->Some_0.0@, s) && r->Some_0.1 == pos + wire_types(s).len(),
{
    let nres = de_usize(data, pos);
    proof {
        assert forall|s: Seq<Type>|
            #[trigger] wire_at(data@, pos as int, wire_types(s)) && s.len() <= usize::MAX implies (
        nres is Some && nres->Some_0.0 == s.len()) by {
            assert(wire_types(s) == wire_usize(s.len()) + wire_type_list(s));
            lemma_wire_at_split(data@, pos as int, wire_usize(s.len()), wire_type_list(s));
        }
    }
    let (n, p1) = match nres {
        None => {
            return None;
        },
        Some(v) => v,
    };
    let mut out: Vec<Type> = Vec::new();
    let mut p: usize = p1;
    let mut i: usize = 0;
    proof {
        assert forall|s: Seq<Type>|
            #[trigger] wire_at(data@, pos as int, wire_types(s)) && s.len() <= usize::MAX implies (
        type_seq_matches(out@, s.take(0)) && p1 == pos + 8 + wire_type_list(s.take(0)).len()) by {
            assert(s.take(0) =~= Seq::<Type>::empty());
            assert(wire_type_list(s.take(0)).len() == 0);
        }
    }
    while i < n
        invariant
            out@.len() == i,
            i <= n,
            p1 <= p <= data@.len(),
            p1 == pos + 8,
            data@.subrange(p1 as int, p as int) == wire_type_list(out@),
            forall|s: Seq<Type>|
                #[trigger] wire_at(data@, pos as int, wire_types(s)) && s.len() <= usize::MAX ==> (
                s.len() == n && type_seq_matches(out@, s.take(i as int)) && p == pos + 8 + wire_type_list(s.take(i as int)).len()),
        decreases n - i,
    {
        let res = de_type(data, p);
        proof {
            assert forall|s: Seq<Type>|
                #[trigger] wire_at(data@, pos as int, wire_types(s)) && s.len() <= usize::MAX implies (
            res is Some && type_matches(res->Some_0.0, s[i as int]) && res->Some_0.1 == pos + 8 + wire_type_list(
                s.take(i as int + 1),
            ).len() && type_seq_matches(out@.push(res->Some_0.0), s.take(i as int + 1))) by {
                assert(wire_types(s) == wire_usize(s.len()) + wire_type_list(s));
                lemma_wire_at_split(data@, pos as int, wire_usize(s.len()), wire_type_list(s));
                assert(s =~= s.take(i as int + 1) + s.skip(i as int + 1));
                lemma_wire_type_list_concat(s.take(i as int + 1), s.skip(i as int + 1));
                assert(s.take(i as int + 1).drop_last() =~= s.take(i as int));
                assert(s.take(i as int + 1).last() == s[i as int]);
                assert(wire_type_list(s.take(i as int + 1)) == wire_type_list(s.take(i as int))
                    + wire_type(s[i as int]));
                lemma_wire_at_split(
                    data@,
                    pos as int + 8,
                    wire_type_list(s.take(i as int + 1)),
                    wire_type_list(s.skip(i as int + 1)),
                );
                lemma_wire_at_split(
                    data@,
                    pos as int + 8,
                    wire_type_list(s.take(i as int)),
                    wire_type(s[i as int]),
                );
                assert(wire_at(data@, p as int, wire_type(s[i as int])));
                assert forall|j: int| 0 <= j < i as int + 1 implies type_matches(
                    #[trigger] out@.push(res->Some_0.0)[j],
                    s.take(i as int + 1)[j],
                ) by {
                    if j < i as int {
                        assert(type_matches(out@[j], s.take(i as int)[j]));
                    }
                }
            }
        }
        let (e, p2) = match res {
            None => {
                return None;
            },
            Some(v) => v,
        };
        proof {
            lemma_cat2(data@, p1 as int, p as int, p2 as int);
            assert(out@.push(e).drop_last() =~= out@);
        }
        out.push(e);
        p = p2;
        i = i + 1;
    }
    proof {
        assert forall|s: Seq<Type>|
            #[trigger] wire_at(data@, pos as int, wire_types(s)) && s.len() <= usize::MAX implies (
        type_seq_matches(out@, s) && p == pos + wire_types(s).len()) by {
            assert(s.take(s.len() as int) =~= s);
            assert forall|j: int| 0 <= j < s.len() implies type_matches(
                #[trigger] out@[j],
                s[j],
            ) by {
                assert(type_matches(out@[j], s.take(s.len() as int)[j]));
            }
        }
    }
    Some((out, p))
}

/// Reads a length-prefixed list.
#[verifier::loop_isolation(false)]
#[verifier::rlimit(100)]
#[verifier::spinoff_prover]
fn de_functions(data: &Vec<u8>, pos: usize) -> (r: Option<(Vec<Function>, usize)>)
    ensures
        r is Some ==> ({
            let (v, p2) = r->Some_0;
            &&& pos <= p2 <= data@.len()
            &&& data@.subrange(pos as int, p2 as int) == wire_functions(v@)
        }),
        forall|s: Seq<Function>|
            #[trigger] wire_at(data@, pos as int, wire_functions(s)) && s.len() <= usize::MAX ==> r
                is Some && function_seq_matches(r->Some_0.0@, s) && r->Some_0.1 == pos + wire_functions(s).len(),
{
    let nres = de_usize(data, pos);
    proof {
        assert forall|s: Seq<Function>|
            #[trigger] wire_at(data@, pos as int, wire_functions(s)) && s.len() <= usize::MAX implies (
        nres is Some && nres->Some_0.0 == s.len()) by {
            assert(wire_functions(s) == wire_usize(s.len()) + wire_function_list(s));
            lemma_wire_at_split(data@, pos as int, wire_usize(s.len()), wire_function_list(s));
        }
    }
    let (n, p1) = match nres {
        None => {
            return None;
        },
        Some(v) => v,
    };
    let mut out: Vec<Function> = Vec::new();
    let mut p: usize = p1;
    let mut i: usize = 0;
    proof {
        assert forall|s: Seq<Function>|
            #[trigger] wire_at(data@, pos as int, wire_functions(s)) && s.len() <= usize::MAX implies (
        function_seq_matches(out@, s.take(0)) && p1 == pos + 8 + wire_function_list(s.take(0)).len()) by {
            assert(s.take(0) =~= Seq::<Function>::empty());
            assert(wire_function_list(s.take(0)).len() == 0);
        }
    }
    while i < n
        invariant
            out@.len() == i,
            i <= n,
            p1 <= p <= data@.len(),
            p1 == pos + 8,
            data@.subrange(p1 as int, p as int) == wire_function_list(out@),
            forall|s: Seq<Function>|
                #[trigger] wire_at(data@, pos as int, wire_functions(s)) && s.len() <= usize::MAX ==> (
                s.len() == n && function_seq_matches(out@, s.take(i as int)) && p == pos + 8 + wire_function_list(s.take(i as int)).len()),
        decreases n - i,
    {
        let res = de_function(data, p);
        proof {
            assert forall|s: Seq<Function>|
                #[trigger] wire_at(data@, pos as int, wire_functions(s)) && s.len() <= usize::MAX implies (
            res is Some && function_matches(res->Some_0.0, s[i as int]) && res->Some_0.1 == pos + 8 + wire_function_list(
                s.take(i as int + 1),
            ).len() && function_seq_matches(out@.push(res->Some_0.0), s.take(i as int + 1))) by {
                assert(wire_functions(s) == wire_usize(s.len()) + wire_function_list(s));
                lemma_wire_at_split(data@, pos as int, wire_usize(s.len()), wire_function_list(s));
                assert(s =~= s.take(i as int + 1) + s.skip(i as int + 1));
                lemma_wire_function_list_concat(s.take(i as int + 1), s.skip(i as int + 1));
                assert(s.take(i as int + 1).drop_last() =~= s.take(i as int));
                assert(s.take(i as int + 1).last() == s[i as int]);
                assert(wire_function_list(s.take(i as int + 1)) == wire_function_list(s.take(i as int))
                    + wire_function(s[i as int]));
                lemma_wire_at_split(
                    data@,
                    pos as int + 8,
                    wire_function_list(s.take(i as int + 1)),
                    wire_function_list(s.skip(i as int + 1)),
                );
                lemma_wire_at_split(
                    data@,
                    pos as int + 8,
                    wire_function_list(s.take(i as int)),
                    wire_function(s[i as int]),
                );
                assert(wire_at(data@, p as int, wire_function(s[i as int])));
                assert forall|j: int| 0 <= j < i as int + 1 implies function_matches(
                    #[trigger] out@.push(res->Some_0.0)[j],
                    s.take(i as int + 1)[j],
                ) by {
                    if j < i as int {
                        assert(function_matches(out@[j], s.take(i as int)[j]));
                    }
                }
            }
        }
        let (e, p2) = match res {
            None => {
                return None;
            },
            Some(v) => v,
        };
        proof {
            lemma_cat2(data@, p1 as int, p as int, p2 as int);
            assert(out@.push(e).drop_last() =~= out@);
        }
        out.push(e);
        p = p2;
        i = i + 1;
    }
    proof {
        assert forall|s: Seq<Function>|
            #[trigger] wire_at(data@, pos as int, wire_functions(s)) && s.len() <= usize::MAX implies (
        function_seq_matches(out@, s) && p == pos + wire_functions(s).len()) by {
            assert(s.take(s.len() as int) =~= s);
            assert forall|j: int| 0 <= j < s.len() implies function_matches(
                #[trigger] out@[j],
                s[j],
            ) by {
                assert(function_matches(out@[j], s.take(s.len() as int)[j]));
            }
        }
    }
    Some((out, p))
}

/// Reads a length-prefixed list.
#[verifier::loop_isolation(false)]
#[verifier::rlimit(100)]
#[verifier::spinoff_prover]
fn de_segments(data: &Vec<u8>, pos: usize) -> (r: Option<(Vec<DataSegment>, usize)>)
    ensures
        r is Some ==> ({
            let (v, p2) = r->Some_0;
            &&& pos <= p2 <= data@.len()
            &&& data@.subrange(pos as int, p2 as int) == wire_segments(v@)
        }),
        forall|s: Seq<DataSegment>|
            #[trigger] wire_at(data@, pos as int, wire_segments(s)) && s.len() <= usize::MAX ==> r
                is Some && segment_seq_matches(r->Some_0.0@, s) && r->Some_0.1 == pos + wire_segments(s).len(),
{
    let nres = de_usize(data, pos);
    proof {
        assert forall|s: Seq<DataSegment>|
            #[trigger] wire_at(data@, pos as int, wire_segments(s)) && s.len() <= usize::MAX implies (
        nres is Some && nres->Some_0.0 == s.len()) by {
            assert(wire_segments(s) == wire_usize(s.len()) + wire_segment_list(s));
            lemma_wire_at_split(data@, pos as int, wire_usize(s.len()), wire_segment_list(s));
        }
    }
    let (n, p1) = match nres {
        None => {
            return None;
        },
        Some(v) => v,
    };
    let mut out: Vec<DataSegment> = Vec::new();
    let mut p: usize = p1;
    let mut i: usize = 0;
    proof {
        assert forall|s: Seq<DataSegment>|
            #[trigger] wire_at(data@, pos as int, wire_segments(s)) && s.len() <= usize::MAX implies (
        segment_seq_matches(out@, s.take(0)) && p1 == pos + 8 + wire_segment_list(s.take(0)).len()) by {
            assert(s.take(0) =~= Seq::<DataSegment>::empty());
            assert(wire_segment_list(s.take(0)).len() == 0);
        }
    }
    while i < n
        invariant
            out@.len() == i,
            i <= n,
            p1 <= p <= data@.len(),
            p1 == pos + 8,
            data@.subrange(p1 as int, p as int) == wire_segment_list(out@),
            forall|s: Seq<DataSegment>|
                #[trigger] wire_at(data@, pos as int, wire_segments(s)) && s.len() <= usize::MAX ==> (
                s.len() == n && segment_seq_matches(out@, s.take(i as int)) && p == pos + 8 + wire_segment_list(s.take(i as int)).len()),
        decreases n - i,
    {
        let res = de_segment(data, p);
        proof {
            assert forall|s: Seq<DataSegment>|
                #[trigger] wire_at(data@, pos as int, wire_segments(s)) && s.len() <= usize::MAX implies (
            res is Some && segment_matches(res->Some_0.0, s[i as int]) && res->Some_0.1 == pos + 8 + wire_segment_list(
                s.take(i as int + 1),
            ).len() && segment_seq_matches(out@.push(res->Some_0.0), s.take(i as int + 1))) by {
                assert(wire_segments(s) == wire_usize(s.len()) + wire_segment_list(s));
                lemma_wire_at_split(data@, pos as int, wire_usize(s.len()), wire_segment_list(s));
                assert(s =~= s.take(i as int + 1) + s.skip(i as int + 1));
                lemma_wire_segment_list_concat(s.take(i as int + 1), s.skip(i as int + 1));
                assert(s.take(i as int + 1).drop_last() =~= s.take(i as int));
                assert(s.take(i as int + 1).last() == s[i as int]);
                assert(wire_segment_list(s.take(i as int + 1)) == wire_segment_list(s.take(i as int))
                    + wire_segment(s[i as int]));
                lemma_wire_at_split(
                    data@,
                    pos as int + 8,
                    wire_segment_list(s.take(i as int + 1)),
                    wire_segment_list(s.skip(i as int + 1)),
                );
                lemma_wire_at_split(
                    data@,
                    pos as int + 8,
                    wire_segment_list(s.take(i as int)),
                    wire_segment(s[i as int]),
                );
                assert(wire_at(data@, p as int, wire_segment(s[i as int])));
                assert forall|j: int| 0 <= j < i as int + 1 implies segment_matches(
                    #[trigger] out@.push(res->Some_0.0)[j],
                    s.take(i as int + 1)[j],
                ) by {
                    if j < i as int {
                        assert(segment_matches(out@[j], s.take(i as int)[j]));
                    }
                }
            }
        }
        let (e, p2) = match res {
            None => {
                return None;
            },
            Some(v) => v,
        };
        proof {
            lemma_cat2(data@, p1 as int, p as int, p2 as int);
            assert(out@.push(e).drop_last() =~= out@);
        }
        out.push(e);
        p = p2;
        i = i + 1;
    }
    proof {
        assert forall|s: Seq<DataSegment>|
            #[trigger] wire_at(data@, pos as int, wire_segments(s)) && s.len() <= usize::MAX implies (
        segment_seq_matches(out@, s) && p == pos + wire_segments(s).len()) by {
            assert(s.take(s.len() as int) =~= s);
            assert forall|j: int| 0 <= j < s.len() implies segment_matches(
                #[trigger] out@[j],
                s[j],
            ) by {
                assert(segment_matches(out@[j], s.take(s.len() as int)[j]));
            }
        }
    }
    Some((out, p))
}

/// Reads a length-prefixed list.
#[verifier::loop_isolation(false)]
#[verifier::rlimit(100)]
#[verifier::spinoff_prover]
fn de_globals(data: &Vec<u8>, pos: usize) -> (r: Option<(Vec<Global>, usize)>)
    ensures
        r is Some ==> ({
            let (v, p2) = r->Some_0;
            &&& pos <= p2 <= data@.len()
            &&& data@.subrange(pos as int, p2 as int) == wire_globals(v@)
        }),
        forall|s: Seq<Global>|
            #[trigger] wire_at(data@, pos as int, wire_globals(s)) && s.len() <= usize::MAX ==> r
                is Some && r->Some_0.0@ == s && r->Some_0.1 == pos + wire_globals(s).len(),
{
    let nres = de_usize(data, pos);
    proof {
        assert forall|s: Seq<Global>|
            #[trigger] wire_at(data@, pos as int, wire_globals(s)) && s.len() <= usize::MAX implies (
        nres is Some && nres->Some_0.0 == s.len()) by {
            assert(wire_globals(s) == wire_usize(s.len()) + wire_global_list(s));
            lemma_wire_at_split(data@, pos as int, wire_usize(s.len()), wire_global_list(s));
        }
    }
    let (n, p1) = match nres {
        None => {
            return None;
        },
        Some(v) => v,
    };
    let mut out: Vec<Global> = Vec::new();
    let mut p: usize = p1;
    let mut i: usize = 0;
    proof {
        assert forall|s: Seq<Global>|
            #[trigger] wire_at(data@, pos as int, wire_globals(s)) && s.len() <= usize::MAX implies (
        out@ == s.take(0) && p1 == pos + 8 + wire_global_list(s.take(0)).len()) by {
            assert(s.take(0) =~= Seq::<Global>::empty());
            assert(wire_global_list(s.take(0)).len() == 0);
        }
    }
    while i < n
        invariant
            out@.len() == i,
            i <= n,
            p1 <= p <= data@.len(),
            p1 == pos + 8,
            data@.subrange(p1 as int, p as int) == wire_global_list(out@),
            forall|s: Seq<Global>|
                #[trigger] wire_at(data@, pos as int, wire_globals(s)) && s.len() <= usize::MAX ==> (
                s.len() == n && out@ == s.take(i as int) && p == pos + 8 + wire_global_list(s.take(i as int)).len()),
        decreases n - i,
    {
        let res = de_global(data, p);
        proof {
            assert forall|s: Seq<Global>|
                #[trigger] wire_at(data@, pos as int, wire_globals(s)) && s.len() <= usize::MAX implies (
            res is Some && res->Some_0.0 == s[i as int] && res->Some_0.1 == pos + 8 + wire_global_list(
                s.take(i as int + 1),
            ).len() && out@.push(res->Some_0.0) == s.take(i as int + 1)) by {
                assert(wire_globals(s) == wire_usize(s.len()) + wire_global_list(s));
                lemma_wire_at_split(data@, pos as int, wire_usize(s.len()), wire_global_list(s));
                assert(s =~= s.take(i as int + 1) + s.skip(i as int + 1));
                lemma_wire_global_list_concat(s.take(i as int + 1), s.skip(i as int + 1));
                assert(s.take(i as int + 1).drop_last() =~= s.take(i as int));
                assert(s.take(i as int + 1).last() == s[i as int]);
                assert(wire_global_list(s.take(i as int + 1)) == wire_global_list(s.take(i as int))
                    + wire_global(s[i as int]));
                lemma_wire_at_split(
                    data@,
                    pos as int + 8,
                    wire_global_list(s.take(i as int + 1)),
                    wire_global_list(s.skip(i as int + 1)),
                );
                lemma_wire_at_split(
                    data@,
                    pos as int + 8,
                    wire_global_list(s.take(i as int)),
                    wire_global(s[i as int]),
                );
                assert(wire_at(data@, p as int, wire_global(s[i as int])));
                assert(out@.push(res->Some_0.0) =~= s.take(i as int + 1));
            }
        }
        let (e, p2) = match res {
            None => {
                return None;
            },
            Some(v) => v,
        };
        proof {
            lemma_cat2(data@, p1 as int, p as int, p2 as int);
            assert(out@.push(e).drop_last() =~= out@);
        }
        out.push(e);
        p = p2;
        i = i + 1;
    }
    proof {
        assert forall|s: Seq<Global>|
            #[trigger] wire_at(data@, pos as int, wire_globals(s)) && s.len() <= usize::MAX implies (
        out@ == s && p == pos + wire_globals(s).len()) by {
            assert(s.take(s.len() as int) =~= s);
            assert(out@ =~= s);
        }
    }
    Some((out, p))
}

/// Reads a length-prefixed list.
#[verifier::loop_isolation(false)]
#[verifier::rlimit(100)]
#[verifier::spinoff_prover]
fn de_natives(data: &Vec<u8>, pos: usize) -> (r: Option<(Vec<Native>, usize)>)
    ensures
        r is Some ==> ({
            let (v, p2) = r->Some_0;
            &&& pos <= p2 <= data@.len()
            &&& data@.subrange(pos as int, p2 as int) == wire_natives(v@)
        }),
        forall|s: Seq<Native>|
            #[trigger] wire_at(data@, pos as int, wire_natives(s)) && s.len() <= usize::MAX ==> r
                is Some && native_seq_matches(r->Some_0.0@, s) && r->Some_0.1 == pos + wire_natives(s).len(),
{
    let nres = de_usize(data, pos);
    proof {
        assert forall|s: Seq<Native>|
            #[trigger] wire_at(data@, pos as int, wire_natives(s)) && s.len() <= usize::MAX implies (
        nres is Some && nres->Some_0.0 == s.len()) by {
            assert(wire_natives(s) == wire_usize(s.len()) + wire_native_list(s));
            lemma_wire_at_split(data@, pos as int, wire_usize(s.len()), wire_native_list(s));
        }
    }
    let (n, p1) = match nres {
        None => {
            return None;
        },
        Some(v) => v,
    };
    let mut out: Vec<Native> = Vec::new();
    let mut p: usize = p1;
    let mut i: usize = 0;
    proof {
        assert forall|s: Seq<Native>|
            #[trigger] wire_at(data@, pos as int, wire_natives(s)) && s.len() <= usize::MAX implies (
        native_seq_matches(out@, s.take(0)) && p1 == pos + 8 + wire_native_list(s.take(0)).len()) by {
            assert(s.take(0) =~= Seq::<Native>::empty());
            assert(wire_native_list(s.take(0)).len() == 0);
        }
    }
    while i < n
        invariant
            out@.len() == i,
            i <= n,
            p1 <= p <= data@.len(),
            p1 == pos + 8,
            data@.subrange(p1 as int, p as int) == wire_native_list(out@),
            forall|s: Seq<Native>|
                #[trigger] wire_at(data@, pos as int, wire_natives(s)) && s.len() <= usize::MAX ==> (
                s.len() == n && native_seq_matches(out@, s.take(i as int)) && p == pos + 8 + wire_native_list(s.take(i as int)).len()),
        decreases n - i,
    {
        let res = de_native(data, p);
        proof {
            assert forall|s: Seq<Native>|
                #[trigger] wire_at(data@, pos as int, wire_natives(s)) && s.len() <= usize::MAX implies (
            res is Some && native_matches(res->Some_0.0, s[i as int]) && res->Some_0.1 == pos + 8 + wire_native_list(
                s.take(i as int + 1),
            ).len() && native_seq_matches(out@.push(res->Some_0.0), s.take(i as int + 1))) by {
                assert(wire_natives(s) == wire_usize(s.len()) + wire_native_list(s));
                lemma_wire_at_split(data@, pos as int, wire_usize(s.len()), wire_native_list(s));
                assert(s =~= s.take(i as int + 1) + s.skip(i as int + 1));
                lemma_wire_native_list_concat(s.take(i as int + 1), s.skip(i as int + 1));
                assert(s.take(i as int + 1).drop_last() =~= s.take(i as int));
                assert(s.take(i as int + 1).last() == s[i as int]);
                assert(wire_native_list(s.take(i as int + 1)) == wire_native_list(s.take(i as int))
                    + wire_native(s[i as int]));
                lemma_wire_at_split(
                    data@,
                    pos as int + 8,
                    wire_native_list(s.take(i as int + 1)),
                    wire_native_list(s.skip(i as int + 1)),
                );
                lemma_wire_at_split(
                    data@,
                    pos as int + 8,
                    wire_native_list(s.take(i as int)),
                    wire_native(s[i as int]),
                );
                assert(wire_at(data@, p as int, wire_native(s[i as int])));
                assert forall|j: int| 0 <= j < i as int + 1 implies native_matches(
                    #[trigger] out@.push(res->Some_0.0)[j],
                    s.take(i as int + 1)[j],
                ) by {
                    if j < i as int {
                        assert(native_matches(out@[j], s.take(i as int)[j]));
                    }
                }
            }
        }
        let (e, p2) = match res {
            None => {
                return None;
            },
            Some(v) => v,
        };
        proof {
            lemma_cat2(data@, p1 as int, p as int, p2 as int);
            assert(out@.push(e).drop_last() =~= out@);
        }
        out.push(e);
        p = p2;
        i = i + 1;
    }
    proof {
        assert forall|s: Seq<Native>|
            #[trigger] wire_at(data@, pos as int, wire_natives(s)) && s.len() <= usize::MAX implies (
        native_seq_matches(out@, s) && p == pos + wire_natives(s).len()) by {
            assert(s.take(s.len() as int) =~= s);
            assert forall|j: int| 0 <= j < s.len() implies native_matches(
                #[trigger] out@[j],
                s[j],
            ) by {
                assert(native_matches(out@[j], s.take(s.len() as int)[j]));
            }
        }
    }
    Some((out, p))
}

/// Reads a length-prefixed list.
#[verifier::loop_isolation(false)]
#[verifier::rlimit(100)]
#[verifier::spinoff_prover]
fn de_opts(data: &Vec<u8>, pos: usize) -> (r: Option<(Vec<Option<u32>>, usize)>)
    ensures
        r is Some ==> ({
            let (v, p2) = r->Some_0;
            &&& pos <= p2 <= data@.len()
            &&& data@.subrange(pos as int, p2 as int) == wire_opts(v@)
        }),
        forall|s: Seq<Option<u32>>|
            #[trigger] wire_at(data@, pos as int, wire_opts(s)) && s.len() <= usize::MAX ==> r
                is Some && r->Some_0.0@ == s && r->Some_0.1 == pos + wire_opts(s).len(),
{
    let nres = de_usize(data, pos);
    proof {
        assert forall|s: Seq<Option<u32>>|
            #[trigger] wire_at(data@, pos as int, wire_opts(s)) && s.len() <= usize::MAX implies (
        nres is Some && nres->Some_0.0 == s.len()) by {
            assert(wire_opts(s) == wire_usize(s.len()) + wire_opt_u32_list(s));
            lemma_wire_at_split(data@, pos as int, wire_usize(s.len()), wire_opt_u32_list(s));
        }
    }
    let (n, p1) = match nres {
        None => {
            return None;
        },
        Some(v) => v,
    };
    let mut out: Vec<Option<u32>> = Vec::new();
    let mut p: usize = p1;
    let mut i: usize = 0;
    proof {
        assert forall|s: Seq<Option<u32>>|
            #[trigger] wire_at(data@, pos as int, wire_opts(s)) && s.len() <= usize::MAX implies (
        out@ == s.take(0) && p1 == pos + 8 + wire_opt_u32_list(s.take(0)).len()) by {
            assert(s.take(0) =~= Seq::<Option<u32>>::empty());
            assert(wire_opt_u32_list(s.take(0)).len() == 0);
        }
    }
    while i < n
        invariant
            out@.len() == i,
            i <= n,
            p1 <= p <= data@.len(),
            p1 == pos + 8,
            data@.subrange(p1 as int, p as int) == wire_opt_u32_list(out@),
            forall|s: Seq<Option<u32>>|
                #[trigger] wire_at(data@, pos as int, wire_opts(s)) && s.len() <= usize::MAX ==> (
                s.len() == n && out@ == s.take(i as int) && p == pos + 8 + wire_opt_u32_list(s.take(i as int)).len()),
        decreases n - i,
    {
        let res = de_opt_u32(data, p);
        proof {
            assert forall|s: Seq<Option<u32>>|
                #[trigger] wire_at(data@, pos as int, wire_opts(s)) && s.len() <= usize::MAX implies (
            res is Some && res->Some_0.0 == s[i as int] && res->Some_0.1 == pos + 8 + wire_opt_u32_list(
                s.take(i as int + 1),
            ).len() && out@.push(res->Some_0.0) == s.take(i as int + 1)) by {
                assert(wire_opts(s) == wire_usize(s.len()) + wire_opt_u32_list(s));
                lemma_wire_at_split(data@, pos as int, wire_usize(s.len()), wire_opt_u32_list(s));
                assert(s =~= s.take(i as int + 1) + s.skip(i as int + 1));
                lemma_wire_opt_u32_list_concat(s.take(i as int + 1), s.skip(i as int + 1));
                assert(s.take(i as int + 1).drop_last() =~= s.take(i as int));
                assert(s.take(i as int + 1).last() == s[i as int]);
                assert(wire_opt_u32_list(s.take(i as int + 1)) == wire_opt_u32_list(s.take(i as int))
                    + wire_opt_u32(s[i as int]));
                lemma_wire_at_split(
                    data@,
                    pos as int + 8,
                    wire_opt_u32_list(s.take(i as int + 1)),
                    wire_opt_u32_list(s.skip(i as int + 1)),
                );
                lemma_wire_at_split(
                    data@,
                    pos as int + 8,
                    wire_opt_u32_list(s.take(i as int)),
                    wire_opt_u32(s[i as int]),
                );
                assert(wire_at(data@, p as int, wire_opt_u32(s[i as int])));
                assert(out@.push(res->Some_0.0) =~= s.take(i as int + 1));
            }
        }
        let (e, p2) = match res {
            None => {
                return None;
            },
            Some(v) => v,
        };
        proof {
            lemma_cat2(data@, p1 as int, p as int, p2 as int);
            assert(out@.push(e).drop_last() =~= out@);
        }
        out.push(e);
        p = p2;
        i = i + 1;
    }
    proof {
        assert forall|s: Seq<Option<u32>>|
            #[trigger] wire_at(data@, pos as int, wire_opts(s)) && s.len() <= usize::MAX implies (
        out@ == s && p == pos + wire_opts(s).len()) by {
            assert(s.take(s.len() as int) =~= s);
            assert(out@ =~= s);
        }
    }
    Some((out, p))
}

/// Reads a length-prefixed list.
#[verifier::loop_isolation(false)]
#[verifier::rlimit(100)]
#[verifier::spinoff_prover]
fn de_tables(data: &Vec<u8>, pos: usize) -> (r: Option<(Vec<Table>, usize)>)
    ensures
        r is Some ==> ({
            let (v, p2) = r->Some_0;
            &&& pos <= p2 <= data@.len()
            &&& data@.subrange(pos as int, p2 as int) == wire_tables(v@)
        }),
        forall|s: Seq<Table>|
            #[trigger] wire_at(data@, pos as int, wire_tables(s)) && s.len() <= usize::MAX ==> r
                is Some && table_seq_matches(r->Some_0.0@, s) && r->Some_0.1 == pos + wire_tables(s).len(),
{
    let nres = de_usize(data, pos);
    proof {
        assert forall|s: Seq<Table>|
            #[trigger] wire_at(data@, pos as int, wire_tables(s)) && s.len() <= usize::MAX implies (
        nres is Some && nres->Some_0.0 == s.len()) by {
            assert(wire_tables(s) == wire_usize(s.len()) + wire_table_list(s));
            lemma_wire_at_split(data@, pos as int, wire_usize(s.len()), wire_table_list(s));
        }
    }
    let (n, p1) = match nres {
        None => {
            return None;
        },
        Some(v) => v,
    };
    let mut out: Vec<Table> = Vec::new();
    let mut p: usize = p1;
    let mut i: usize = 0;
    proof {
        assert forall|s: Seq<Table>|
            #[trigger] wire_at(data@, pos as int, wire_tables(s)) && s.len() <= usize::MAX implies (
        table_seq_matches(out@, s.take(0)) && p1 == pos + 8 + wire_table_list(s.take(0)).len()) by {
            assert(s.take(0) =~= Seq::<Table>::empty());
            assert(wire_table_list(s.take(0)).len() == 0);
        }
    }
    while i < n
        invariant
            out@.len() == i,
            i <= n,
            p1 <= p <= data@.len(),
            p1 == pos + 8,
            data@.subrange(p1 as int, p as int) == wire_table_list(out@),
            forall|s: Seq<Table>|
                #[trigger] wire_at(data@, pos as int, wire_tables(s)) && s.len() <= usize::MAX ==> (
                s.len() == n && table_seq_matches(out@, s.take(i as int)) && p == pos + 8 + wire_table_list(s.take(i as int)).len()),
        decreases n - i,
    {
        let res = de_table(data, p);
        proof {
            assert forall|s: Seq<Table>|
                #[trigger] wire_at(data@, pos as int, wire_tables(s)) && s.len() <= usize::MAX implies (
            res is Some && table_matches(res->Some_0.0, s[i as int]) && res->Some_0.1 == pos + 8 + wire_table_list(
                s.take(i as int + 1),
            ).len() && table_seq_matches(out@.push(res->Some_0.0), s.take(i as int + 1))) by {
                assert(wire_tables(s) == wire_usize(s.len()) + wire_table_list(s));
                lemma_wire_at_split(data@, pos as int, wire_usize(s.len()), wire_table_list(s));
                assert(s =~= s.take(i as int + 1) + s.skip(i as int + 1));
                lemma_wire_table_list_concat(s.take(i as int + 1), s.skip(i as int + 1));
                assert(s.take(i as int + 1).drop_last() =~= s.take(i as int));
                assert(s.take(i as int + 1).last() == s[i as int]);
                assert(wire_table_list(s.take(i as int + 1)) == wire_table_list(s.take(i as int))
                    + wire_table(s[i as int]));
                lemma_wire_at_split(
                    data@,
                    pos as int + 8,
                    wire_table_list(s.take(i as int + 1)),
                    wire_table_list(s.skip(i as int + 1)),
                );
                lemma_wire_at_split(
                    data@,
                    pos as int + 8,
                    wire_table_list(s.take(i as int)),
                    wire_table(s[i as int]),
                );
                assert(wire_at(data@, p as int, wire_table(s[i as int])));
                assert forall|j: int| 0 <= j < i as int + 1 implies table_matches(
                    #[trigger] out@.push(res->Some_0.0)[j],
                    s.take(i as int + 1)[j],
                ) by {
                    if j < i as int {
                        assert(table_matches(out@[j], s.take(i as int)[j]));
                    }
                }
            }
        }
        let (e, p2) = match res {
            None => {
                return None;
            },
            Some(v) => v,
        };
        proof {
            lemma_cat2(data@, p1 as int, p as int, p2 as int);
            assert(out@.push(e).drop_last() =~= out@);
        }
        out.push(e);
        p = p2;
        i = i + 1;
    }
    proof {
        assert forall|s: Seq<Table>|
            #[trigger] wire_at(data@, pos as int, wire_tables(s)) && s.len() <= usize::MAX implies (
        table_seq_matches(out@, s) && p == pos + wire_tables(s).len()) by {
            assert(s.take(s.len() as int) =~= s);
            assert forall|j: int| 0 <= j < s.len() implies table_matches(
                #[trigger] out@[j],
                s[j],
            ) by {
                assert(table_matches(out@[j], s.take(s.len() as int)[j]));
            }
        }
    }
    Some((out, p))
}

/// The tag of an operation.
pub open spec fn opcode_tag(op: Opcode) -> u64 {
    match op {
        Opcode::Drop => 0,
        Opcode::Select => 1,
        Opcode::GetLocal(_y) => 2,
        Opcode::SetLocal(_y) => 3,
        Opcode::TeeLocal(_y) => 4,
        Opcode::GetGlobal(_y) => 5,
        Opcode::SetGlobal(_y) => 6,
        Opcode::CurrentMemory => 7,
        Opcode::GrowMemory => 8,
        Opcode::Nop => 9,
        Opcode::Unreachable => 10,
        Opcode::Return => 11,
        Opcode::Call(_y) => 12,
        Opcode::CallIndirect(_y) => 13,
        Opcode::I32Const(_y) => 14,
        Opcode::I32Clz => 15,
        Opcode::I32Ctz => 16,
        Opcode::I32Popcnt => 17,
        Opcode::I32Add => 18,
        Opcode::I32Sub => 19,
        Opcode::I32Mul => 20,
        Opcode::I32DivU => 21,
        Opcode::I32DivS => 22,
        Opcode::I32RemU => 23,
        Opcode::I32RemS => 24,
        Opcode::I32And => 25,
        Opcode::I32Or => 26,
        Opcode::I32Xor => 27,
        Opcode::I32Shl => 28,
        Opcode::I32ShrU => 29,
        Opcode::I32ShrS => 30,
        Opcode::I32Rotl => 31,
        Opcode::I32Rotr => 32,
        Opcode::I32Eqz => 33,
        Opcode::I32Eq => 34,
        Opcode::I32Ne => 35,
        Opcode::I32LtU => 36,
        Opcode::I32LtS => 37,
        Opcode::I32LeU => 38,
        Opcode::I32LeS => 39,
        Opcode::I32GtU => 40,
        Opcode::I32GtS => 41,
        Opcode::I32GeU => 42,
        Opcode::I32GeS => 43,
        Opcode::I32WrapI64 => 44,
        Opcode::I32Load(_a) => 45,
        Opcode::I32Store(_a) => 46,
        Opcode::I32Load8U(_a) => 47,
        Opcode::I32Load8S(_a) => 48,
        Opcode::I32Load16U(_a) => 49,
        Opcode::I32Load16S(_a) => 50,
        Opcode::I32Store8(_a) => 51,
        Opcode::I32Store16(_a) => 52,
        Opcode::I64Const(_y) => 53,
        Opcode::I64Clz => 54,
        Opcode::I64Ctz => 55,
        Opcode::I64Popcnt => 56,
        Opcode::I64Add => 57,
        Opcode::I64Sub => 58,
        Opcode::I64Mul => 59,
        Opcode::I64DivU => 60,
        Opcode::I64DivS => 61,
        Opcode::I64RemU => 62,
        Opcode::I64RemS => 63,
        Opcode::I64And => 64,
        Opcode::I64Or => 65,
        Opcode::I64Xor => 66,
        Opcode::I64Shl => 67,
        Opcode::I64ShrU => 68,
        Opcode::I64ShrS => 69,
        Opcode::I64Rotl => 70,
        Opcode::I64Rotr => 71,
        Opcode::I64Eqz => 72,
        Opcode::I64Eq => 73,
        Opcode::I64Ne => 74,
        Opcode::I64LtU => 75,
        Opcode::I64LtS => 76,
        Opcode::I64LeU => 77,
        Opcode::I64LeS => 78,
        Opcode::I64GtU => 79,
        Opcode::I64GtS => 80,
        Opcode::I64GeU => 81,
        Opcode::I64GeS => 82,
        Opcode::I64ExtendI32U => 83,
        Opcode::I64ExtendI32S => 84,
        Opcode::I64Load(_a) => 85,
        Opcode::I64Store(_a) => 86,
        Opcode::I64Load8U(_a) => 87,
        Opcode::I64Load8S(_a) => 88,
        Opcode::I64Load16U(_a) => 89,
        Opcode::I64Load16S(_a) => 90,
        Opcode::I64Load32U(_a) => 91,
        Opcode::I64Load32S(_a) => 92,
        Opcode::I64Store8(_a) => 93,
        Opcode::I64Store16(_a) => 94,
        Opcode::I64Store32(_a) => 95,
        Opcode::Jmp(_y) => 96,
        Opcode::JmpIf(_y) => 97,
        Opcode::JmpTable(_t, _o) => 98,
    }
}

/// The tag chunk of an operation stands first.
#[verifier::rlimit(100)]
#[verifier::spinoff_prover]
proof fn lemma_opcode_first(d: Seq<u8>, pos: int, op: Opcode)
    requires
        wire_at(d, pos, wire_opcode(op)),
    ensures
        wire_at(d, pos, le64(opcode_tag(op))),
{
    match op {
        Opcode::Drop => {},
        Opcode::Select => {},
        Opcode::GetLocal(_y) => {
            assert(wire_opcode(op) =~= le64(2) + (le64(op->GetLocal_0 as u64)));
            lemma_wire_at_split(d, pos, le64(2), le64(op->GetLocal_0 as u64));
        },
        Opcode::SetLocal(_y) => {
            assert(wire_opcode(op) =~= le64(3) + (le64(op->SetLocal_0 as u64)));
            lemma_wire_at_split(d, pos, le64(3), le64(op->SetLocal_0 as u64));
        },
        Opcode::TeeLocal(_y) => {
            assert(wire_opcode(op) =~= le64(4) + (le64(op->TeeLocal_0 as u64)));
            lemma_wire_at_split(d, pos, le64(4), le64(op->TeeLocal_0 as u64));
        },
        Opcode::GetGlobal(_y) => {
            assert(wire_opcode(op) =~= le64(5) + (le64(op->GetGlobal_0 as u64)));
            lemma_wire_at_split(d, pos, le64(5), le64(op->GetGlobal_0 as u64));
        },
        Opcode::SetGlobal(_y) => {
            assert(wire_opcode(op) =~= le64(6) + (le64(op->SetGlobal_0 as u64)));
            lemma_wire_at_split(d, pos, le64(6), le64(op->SetGlobal_0 as u64));
        },
        Opcode::CurrentMemory => {},
        Opcode::GrowMemory => {},
        Opcode::Nop => {},
        Opcode::Unreachable => {},
        Opcode::Return => {},
        Opcode::Call(_y) => {
            assert(wire_opcode(op) =~= le64(12) + (le64(op->Call_0 as u64)));
            lemma_wire_at_split(d, pos, le64(12), le64(op->Call_0 as u64));
        },
        Opcode::CallIndirect(_y) => {
            assert(wire_opcode(op) =~= le64(13) + (le64(op->CallIndirect_0 as u64)));
            lemma_wire_at_split(d, pos, le64(13), le64(op->CallIndirect_0 as u64));
        },
        Opcode::I32Const(_y) => {
            assert(wire_opcode(op) =~= le64(14) + (le64(spec_u32_of_i32_bits(op->I32Const_0) as u64)));
            lemma_wire_at_split(d, pos, le64(14), le64(spec_u32_of_i32_bits(op->I32Const_0) as u64));
        },
        Opcode::I32Clz => {},
        Opcode::I32Ctz => {},
        Opcode::I32Popcnt => {},
        Opcode::I32Add => {},
        Opcode::I32Sub => {},
        Opcode::I32Mul => {},
        Opcode::I32DivU => {},
        Opcode::I32DivS => {},
        Opcode::I32RemU => {},
        Opcode::I32RemS => {},
        Opcode::I32And => {},
        Opcode::I32Or => {},
        Opcode::I32Xor => {},
        Opcode::I32Shl => {},
        Opcode::I32ShrU => {},
        Opcode::I32ShrS => {},
        Opcode::I32Rotl => {},
        Opcode::I32Rotr => {},
        Opcode::I32Eqz => {},
        Opcode::I32Eq => {},
        Opcode::I32Ne => {},
        Opcode::I32LtU => {},
        Opcode::I32LtS => {},
        Opcode::I32LeU => {},
        Opcode::I32LeS => {},
        Opcode::I32GtU => {},
        Opcode::I32GtS => {},
        Opcode::I32GeU => {},
        Opcode::I32GeS => {},
        Opcode::I32WrapI64 => {},
        Opcode::I32Load(_a) => {
            assert(wire_opcode(op) =~= le64(45) + (wire_memarg(op->I32Load_0)));
            lemma_wire_at_split(d, pos, le64(45), wire_memarg(op->I32Load_0));
        },
        Opcode::I32Store(_a) => {
            assert(wire_opcode(op) =~= le64(46) + (wire_memarg(op->I32Store_0)));
            lemma_wire_at_split(d, pos, le64(46), wire_memarg(op->I32Store_0));
        },
        Opcode::I32Load8U(_a) => {
            assert(wire_opcode(op) =~= le64(47) + (wire_memarg(op->I32Load8U_0)));
            lemma_wire_at_split(d, pos, le64(47), wire_memarg(op->I32Load8U_0));
        },
        Opcode::I32Load8S(_a) => {
            assert(wire_opcode(op) =~= le64(48) + (wire_memarg(op->I32Load8S_0)));
            lemma_wire_at_split(d, pos, le64(48), wire_memarg(op->I32Load8S_0));
        },
        Opcode::I32Load16U(_a) => {
            assert(wire_opcode(op) =~= le64(49) + (wire_memarg(op->I32Load16U_0)));
            lemma_wire_at_split(d, pos, le64(49), wire_memarg(op->I32Load16U_0));
        },
        Opcode::I32Load16S(_a) => {
            assert(wire_opcode(op) =~= le64(50) + (wire_memarg(op->I32Load16S_0)));
            lemma_wire_at_split(d, pos, le64(50), wire_memarg(op->I32Load16S_0));
        },
        Opcode::I32Store8(_a) => {
            assert(wire_opcode(op) =~= le64(51) + (wire_memarg(op->I32Store8_0)));
            lemma_wire_at_split(d, pos, le64(51), wire_memarg(op->I32Store8_0));
        },
        Opcode::I32Store16(_a) => {
            assert(wire_opcode(op) =~= le64(52) + (wire_memarg(op->I32Store16_0)));
            lemma_wire_at_split(d, pos, le64(52), wire_memarg(op->I32Store16_0));
        },
        Opcode::I64Const(_y) => {
            assert(wire_opcode(op) =~= le64(53) + (le64(spec_u64_of_i64_bits(op->I64Const_0))));
            lemma_wire_at_split(d, pos, le64(53), le64(spec_u64_of_i64_bits(op->I64Const_0)));
        },
        Opcode::I64Clz => {},
        Opcode::I64Ctz => {},
        Opcode::I64Popcnt => {},
        Opcode::I64Add => {},
        Opcode::I64Sub => {},
        Opcode::I64Mul => {},
        Opcode::I64DivU => {},
        Opcode::I64DivS => {},
        Opcode::I64RemU => {},
        Opcode::I64RemS => {},
        Opcode::I64And => {},
        Opcode::I64Or => {},
        Opcode::I64Xor => {},
        Opcode::I64Shl => {},
        Opcode::I64ShrU => {},
        Opcode::I64ShrS => {},
        Opcode::I64Rotl => {},
        Opcode::I64Rotr => {},
        Opcode::I64Eqz => {},
        Opcode::I64Eq => {},
        Opcode::I64Ne => {},
        Opcode::I64LtU => {},
        Opcode::I64LtS => {},
        Opcode::I64LeU => {},
        Opcode::I64LeS => {},
        Opcode::I64GtU => {},
        Opcode::I64GtS => {},
        Opcode::I64GeU => {},
        Opcode::I64GeS => {},
        Opcode::I64ExtendI32U => {},
        Opcode::I64ExtendI32S => {},
        Opcode::I64Load(_a) => {
            assert(wire_opcode(op) =~= le64(85) + (wire_memarg(op->I64Load_0)));
            lemma_wire_at_split(d, pos, le64(85), wire_memarg(op->I64Load_0));
        },
        Opcode::I64Store(_a) => {
            assert(wire_opcode(op) =~= le64(86) + (wire_memarg(op->I64Store_0)));
            lemma_wire_at_split(d, pos, le64(86), wire_memarg(op->I64Store_0));
        },
        Opcode::I64Load8U(_a) => {
            assert(wire_opcode(op) =~= le64(87) + (wire_memarg(op->I64Load8U_0)));
            lemma_wire_at_split(d, pos, le64(87), wire_memarg(op->I64Load8U_0));
        },
        Opcode::I64Load8S(_a) => {
            assert(wire_opcode(op) =~= le64(88) + (wire_memarg(op->I64Load8S_0)));
            lemma_wire_at_split(d, pos, le64(88), wire_memarg(op->I64Load8S_0));
        },
        Opcode::I64Load16U(_a) => {
            assert(wire_opcode(op) =~= le64(89) + (wire_memarg(op->I64Load16U_0)));
            lemma_wire_at_split(d, pos, le64(89), wire_memarg(op->I64Load16U_0));
        },
        Opcode::I64Load16S(_a) => {
            assert(wire_opcode(op) =~= le64(90) + (wire_memarg(op->I64Load16S_0)));
            lemma_wire_at_split(d, pos, le64(90), wire_memarg(op->I64Load16S_0));
        },
        Opcode::I64Load32U(_a) => {
            assert(wire_opcode(op) =~= le64(91) + (wire_memarg(op->I64Load32U_0)));
            lemma_wire_at_split(d, pos, le64(91), wire_memarg(op->I64Load32U_0));
        },
        Opcode::I64Load32S(_a) => {
            assert(wire_opcode(op) =~= le64(92) + (wire_memarg(op->I64Load32S_0)));
            lemma_wire_at_split(d, pos, le64(92), wire_memarg(op->I64Load32S_0));
        },
        Opcode::I64Store8(_a) => {
            assert(wire_opcode(op) =~= le64(93) + (wire_memarg(op->I64Store8_0)));
            lemma_wire_at_split(d, pos, le64(93), wire_memarg(op->I64Store8_0));
        },
        Opcode::I64Store16(_a) => {
            assert(wire_opcode(op) =~= le64(94) + (wire_memarg(op->I64Store16_0)));
            lemma_wire_at_split(d, pos, le64(94), wire_memarg(op->I64Store16_0));
        },
        Opcode::I64Store32(_a) => {
            assert(wire_opcode(op) =~= le64(95) + (wire_memarg(op->I64Store32_0)));
            lemma_wire_at_split(d, pos, le64(95), wire_memarg(op->I64Store32_0));
        },
        Opcode::Jmp(_y) => {
            assert(wire_opcode(op) =~= le64(96) + (le64(op->Jmp_0 as u64)));
            lemma_wire_at_split(d, pos, le64(96), le64(op->Jmp_0 as u64));
        },
        Opcode::JmpIf(_y) => {
            assert(wire_opcode(op) =~= le64(97) + (le64(op->JmpIf_0 as u64)));
            lemma_wire_at_split(d, pos, le64(97), le64(op->JmpIf_0 as u64));
        },
        Opcode::JmpTable(_t, _o) => {
            assert(wire_opcode(op) =~= le64(98) + (wire_u32s(op->JmpTable_0@) + le64(op->JmpTable_1 as u64)));
            lemma_wire_at_split(d, pos, le64(98), wire_u32s(op->JmpTable_0@) + le64(op->JmpTable_1 as u64));
        },
    }
}

/// Reads the payload of an operation whose tag is in this range.
#[verifier::rlimit(100)]
#[verifier::spinoff_prover]
fn de_opcode_a(data: &Vec<u8>, pos: usize, p1: usize, x: u64) -> (r: Option<(
    Opcode,
    usize,
)>)
    requires
        p1 == pos + 8,
        p1 <= data@.len(),
        data@.subrange(pos as int, p1 as int) == le64(x),
        x < 30,
    ensures
        r is Some ==> ({
            let (op, p2) = r->Some_0;
            &&& pos <= p2 <= data@.len()
            &&& data@.subrange(pos as int, p2 as int) == wire_opcode(op)
        }),
        forall|op: Opcode|
            #[trigger] wire_at(data@, pos as int, wire_opcode(op)) ==> r is Some
                && opcode_matches(r->Some_0.0, op) && r->Some_0.1 == pos + wire_opcode(op).len(),
{
    match x {
        0 => {
            proof {
                assert forall|op: Opcode| #[trigger] wire_at(data@, pos as int, wire_opcode(op)) implies (
                opcode_matches(Opcode::Drop, op) && p1 == pos + wire_opcode(op).len()) by {
                    assert(wire_at(data@, pos as int, le64(x)));
                    lemma_opcode_head(data@, pos as int, op, x);
                }
            }
            Some((Opcode::Drop, p1))
        },
        1 => {
            proof {
                assert forall|op: Opcode| #[trigger] wire_at(data@, pos as int, wire_opcode(op)) implies (
                opcode_matches(Opcode::Select, op) && p1 == pos + wire_opcode(op).len()) by {
                    assert(wire_at(data@, pos as int, le64(x)));
                    lemma_opcode_head(data@, pos as int, op, x);
                }
            }
            Some((Opcode::Select, p1))
        },
        2 => {
            let res = de_u32(data, p1);
            proof {
                assert forall|op: Opcode| #[trigger] wire_at(data@, pos as int, wire_opcode(op)) implies (
                op is GetLocal && res is Some && res->Some_0.0 == op->GetLocal_0 && res->Some_0.1 == pos
                    + wire_opcode(op).len()) by {
                    assert(wire_at(data@, pos as int, le64(x)));
                    lemma_opcode_head(data@, pos as int, op, x);
                    assert(wire_at(data@, p1 as int, le64(op->GetLocal_0 as u64)));
                }
            }
            match res {
                None => None,
                Some((y, p2)) => {
                    proof {
                        lemma_cat2(data@, pos as int, p1 as int, p2 as int);
                    }
                    Some((Opcode::GetLocal(y), p2))
                },
            }
        },
        3 => {
            let res = de_u32(data, p1);
            proof {
                assert forall|op: Opcode| #[trigger] wire_at(data@, pos as int, wire_opcode(op)) implies (
                op is SetLocal && res is Some && res->Some_0.0 == op->SetLocal_0 && res->Some_0.1 == pos
                    + wire_opcode(op).len()) by {
                    assert(wire_at(data@, pos as int, le64(x)));
                    lemma_opcode_head(data@, pos as int, op, x);
                    assert(wire_at(data@, p1 as int, le64(op->SetLocal_0 as u64)));
                }
            }
            match res {
                None => None,
                Some((y, p2)) => {
                    proof {
                        lemma_cat2(data@, pos as int, p1 as int, p2 as int);
                    }
                    Some((Opcode::SetLocal(y), p2))
                },
            }
        },
        4 => {
            let res = de_u32(data, p1);
            proof {
                assert forall|op: Opcode| #[trigger] wire_at(data@, pos as int, wire_opcode(op)) implies (
                op is TeeLocal && res is Some && res->Some_0.0 == op->TeeLocal_0 && res->Some_0.1 == pos
                    + wire_opcode(op).len()) by {
                    assert(wire_at(data@, pos as int, le64(x)));
                    lemma_opcode_head(data@, pos as int, op, x);
                    assert(wire_at(data@, p1 as int, le64(op->TeeLocal_0 as u64)));
                }
            }
            match res {
                None => None,
                Some((y, p2)) => {
                    proof {
                        lemma_cat2(data@, pos as int, p1 as int, p2 as int);
                    }
                    Some((Opcode::TeeLocal(y), p2))
                },
            }
        },
        5 => {
            let res = de_u32(data, p1);
            proof {
                assert forall|op: Opcode| #[trigger] wire_at(data@, pos as int, wire_opcode(op)) implies (
                op is GetGlobal && res is Some && res->Some_0.0 == op->GetGlobal_0 && res->Some_0.1 == pos
                    + wire_opcode(op).len()) by {
                    assert(wire_at(data@, pos as int, le64(x)));
                    lemma_opcode_head(data@, pos as int, op, x);
                    assert(wire_at(data@, p1 as int, le64(op->GetGlobal_0 as u64)));
                }
            }
            match res {
                None => None,
                Some((y, p2)) => {
                    proof {
                        lemma_cat2(data@, pos as int, p1 as int, p2 as int);
                    }
                    Some((Opcode::GetGlobal(y), p2))
                },
            }
        },
        6 => {
            let res = de_u32(data, p1);
            proof {
                assert forall|op: Opcode| #[trigger] wire_at(data@, pos as int, wire_opcode(op)) implies (
                op is SetGlobal && res is Some && res->Some_0.0 == op->SetGlobal_0 && res->Some_0.1 == pos
                    + wire_opcode(op).len()) by {
                    assert(wire_at(data@, pos as int, le64(x)));
                    lemma_opcode_head(data@, pos as int, op, x);
                    assert(wire_at(data@, p1 as int, le64(op->SetGlobal_0 as u64)));
                }
            }
            match res {
                None => None,
                Some((y, p2)) => {
                    proof {
                        lemma_cat2(data@, pos as int, p1 as int, p2 as int);
                    }
                    Some((Opcode::SetGlobal(y), p2))
                },
            }
        },
        7 => {
            proof {
                assert forall|op: Opcode| #[trigger] wire_at(data@, pos as int, wire_opcode(op)) implies (
                opcode_matches(Opcode::CurrentMemory, op) && p1 == pos + wire_opcode(op).len()) by {
                    assert(wire_at(data@, pos as int, le64(x)));
                    lemma_opcode_head(data@, pos as int, op, x);
                }
            }
            Some((Opcode::CurrentMemory, p1))
        },
        8 => {
            proof {
                assert forall|op: Opcode| #[trigger] wire_at(data@, pos as int, wire_opcode(op)) implies (
                opcode_matches(Opcode::GrowMemory, op) && p1 == pos + wire_opcode(op).len()) by {
                    assert(wire_at(data@, pos as int, le64(x)));
                    lemma_opcode_head(data@, pos as int, op, x);
                }
            }
            Some((Opcode::GrowMemory, p1))
        },
        9 => {
            proof {
                assert forall|op: Opcode| #[trigger] wire_at(data@, pos as int, wire_opcode(op)) implies (
                opcode_matches(Opcode::Nop, op) && p1 == pos + wire_opcode(op).len()) by {
                    assert(wire_at(data@, pos as int, le64(x)));
                    lemma_opcode_head(data@, pos as int, op, x);
                }
            }
            Some((Opcode::Nop, p1))
        },
        10 => {
            proof {
                assert forall|op: Opcode| #[trigger] wire_at(data@, pos as int, wire_opcode(op)) implies (
                opcode_matches(Opcode::Unreachable, op) && p1 == pos + wire_opcode(op).len()) by {
                    assert(wire_at(data@, pos as int, le64(x)));
                    lemma_opcode_head(data@, pos as int, op, x);
                }
            }
            Some((Opcode::Unreachable, p1))
        },
        11 => {
            proof {
                assert forall|op: Opcode| #[trigger] wire_at(data@, pos as int, wire_opcode(op)) implies (
                opcode_matches(Opcode::Return, op) && p1 == pos + wire_opcode(op).len()) by {
                    assert(wire_at(data@, pos as int, le64(x)));
                    lemma_opcode_head(data@, pos as int, op, x);
                }
            }
            Some((Opcode::Return, p1))
        },
        12 => {
            let res = de_u32(data, p1);
            proof {
                assert forall|op: Opcode| #[trigger] wire_at(data@, pos as int, wire_opcode(op)) implies (
                op is Call && res is Some && res->Some_0.0 == op->Call_0 && res->Some_0.1 == pos
                    + wire_opcode(op).len()) by {
                    assert(wire_at(data@, pos as int, le64(x)));
                    lemma_opcode_head(data@, pos as int, op, x);
                    assert(wire_at(data@, p1 as int, le64(op->Call_0 as u64)));
                }
            }
            match res {
                None => None,
                Some((y, p2)) => {
                    proof {
                        lemma_cat2(data@, pos as int, p1 as int, p2 as int);
                    }
                    Some((Opcode::Call(y), p2))
                },
            }
        },
        13 => {
            let res = de_u32(data, p1);
            proof {
                assert forall|op: Opcode| #[trigger] wire_at(data@, pos as int, wire_opcode(op)) implies (
                op is CallIndirect && res is Some && res->Some_0.0 == op->CallIndirect_0 && res->Some_0.1 == pos
                    + wire_opcode(op).len()) by {
                    assert(wire_at(data@, pos as int, le64(x)));
                    lemma_opcode_head(data@, pos as int, op, x);
                    assert(wire_at(data@, p1 as int, le64(op->CallIndirect_0 as u64)));
                }
            }
            match res {
                None => None,
                Some((y, p2)) => {
                    proof {
                        lemma_cat2(data@, pos as int, p1 as int, p2 as int);
                    }
                    Some((Opcode::CallIndirect(y), p2))
                },
            }
        },
        14 => {
            let res = de_i32(data, p1);
            proof {
                assert forall|op: Opcode| #[trigger] wire_at(data@, pos as int, wire_opcode(op)) implies (
                op is I32Const && res is Some && res->Some_0.0 == op->I32Const_0 && res->Some_0.1 == pos
                    + wire_opcode(op).len()) by {
                    assert(wire_at(data@, pos as int, le64(x)));
                    lemma_opcode_head(data@, pos as int, op, x);
                    assert(wire_at(data@, p1 as int, le64(spec_u32_of_i32_bits(op->I32Const_0) as u64)));
                }
            }
            match res {
                None => None,
                Some((y, p2)) => {
                    proof {
                        lemma_cat2(data@, pos as int, p1 as int, p2 as int);
                    }
                    Some((Opcode::I32Const(y), p2))
                },
            }
        },
        15 => {
            proof {
                assert forall|op: Opcode| #[trigger] wire_at(data@, pos as int, wire_opcode(op)) implies (
                opcode_matches(Opcode::I32Clz, op) && p1 == pos + wire_opcode(op).len()) by {
                    assert(wire_at(data@, pos as int, le64(x)));
                    lemma_opcode_head(data@, pos as int, op, x);
                }
            }
            Some((Opcode::I32Clz, p1))
        },
        16 => {
            proof {
                assert forall|op: Opcode| #[trigger] wire_at(data@, pos as int, wire_opcode(op)) implies (
                opcode_matches(Opcode::I32Ctz, op) && p1 == pos + wire_opcode(op).len()) by {
                    assert(wire_at(data@, pos as int, le64(x)));
                    lemma_opcode_head(data@, pos as int, op, x);
                }
            }
            Some((Opcode::I32Ctz, p1))
        },
        17 => {
            proof {
                assert forall|op: Opcode| #[trigger] wire_at(data@, pos as int, wire_opcode(op)) implies (
                opcode_matches(Opcode::I32Popcnt, op) && p1 == pos + wire_opcode(op).len()) by {
                    assert(wire_at(data@, pos as int, le64(x)));
                    lemma_opcode_head(data@, pos as int, op, x);
                }
            }
            Some((Opcode::I32Popcnt, p1))
        },
        18 => {
            proof {
                assert forall|op: Opcode| #[trigger] wire_at(data@, pos as int, wire_opcode(op)) implies (
                opcode_matches(Opcode::I32Add, op) && p1 == pos + wire_opcode(op).len()) by {
                    assert(wire_at(data@, pos as int, le64(x)));
                    lemma_opcode_head(data@, pos as int, op, x);
                }
            }
            Some((Opcode::I32Add, p1))
        },
        19 => {
            proof {
                assert forall|op: Opcode| #[trigger] wire_at(data@, pos as int, wire_opcode(op)) implies (
                opcode_matches(Opcode::I32Sub, op) && p1 == pos + wire_opcode(op).len()) by {
                    assert(wire_at(data@, pos as int, le64(x)));
                    lemma_opcode_head(data@, pos as int, op, x);
                }
            }
            Some((Opcode::I32Sub, p1))
        },
        20 => {
            proof {
                assert forall|op: Opcode| #[trigger] wire_at(data@, pos as int, wire_opcode(op)) implies (
                opcode_matches(Opcode::I32Mul, op) && p1 == pos + wire_opcode(op).len()) by {
                    assert(wire_at(data@, pos as int, le64(x)));
                    lemma_opcode_head(data@, pos as int, op, x);
                }
            }
            Some((Opcode::I32Mul, p1))
        },
        21 => {
            proof {
                assert forall|op: Opcode| #[trigger] wire_at(data@, pos as int, wire_opcode(op)) implies (
                opcode_matches(Opcode::I32DivU, op) && p1 == pos + wire_opcode(op).len()) by {
                    assert(wire_at(data@, pos as int, le64(x)));
                    lemma_opcode_head(data@, pos as int, op, x);
                }
            }
            Some((Opcode::I32DivU, p1))
        },
        22 => {
            proof {
                assert forall|op: Opcode| #[trigger] wire_at(data@, pos as int, wire_opcode(op)) implies (
                opcode_matches(Opcode::I32DivS, op) && p1 == pos + wire_opcode(op).len()) by {
                    assert(wire_at(data@, pos as int, le64(x)));
                    lemma_opcode_head(data@, pos as int, op, x);
                }
            }
            Some((Opcode::I32DivS, p1))
        },
        23 => {
            proof {
                assert forall|op: Opcode| #[trigger] wire_at(data@, pos as int, wire_opcode(op)) implies (
                opcode_matches(Opcode::I32RemU, op) && p1 == pos + wire_opcode(op).len()) by {
                    assert(wire_at(data@, pos as int, le64(x)));
                    lemma_opcode_head(data@, pos as int, op, x);
                }
            }
            Some((Opcode::I32RemU, p1))
        },
        24 => {
            proof {
                assert forall|op: Opcode| #[trigger] wire_at(data@, pos as int, wire_opcode(op)) implies (
                opcode_matches(Opcode::I32RemS, op) && p1 == pos + wire_opcode(op).len()) by {
                    assert(wire_at(data@, pos as int, le64(x)));
                    lemma_opcode_head(data@, pos as int, op, x);
                }
            }
            Some((Opcode::I32RemS, p1))
        },
        25 => {
            proof {
                assert forall|op: Opcode| #[trigger] wire_at(data@, pos as int, wire_opcode(op)) implies (
                opcode_matches(Opcode::I32And, op) && p1 == pos + wire_opcode(op).len()) by {
                    assert(wire_at(data@, pos as int, le64(x)));
                    lemma_opcode_head(data@, pos as int, op, x);
                }
            }
            Some((Opcode::I32And, p1))
        },
        26 => {
            proof {
                assert forall|op: Opcode| #[trigger] wire_at(data@, pos as int, wire_opcode(op)) implies (
                opcode_matches(Opcode::I32Or, op) && p1 == pos + wire_opcode(op).len()) by {
                    assert(wire_at(data@, pos as int, le64(x)));
                    lemma_opcode_head(data@, pos as int, op, x);
                }
            }
            Some((Opcode::I32Or, p1))
        },
        27 => {
            proof {
                assert forall|op: Opcode| #[trigger] wire_at(data@, pos as int, wire_opcode(op)) implies (
                opcode_matches(Opcode::I32Xor, op) && p1 == pos + wire_opcode(op).len()) by {
                    assert(wire_at(data@, pos as int, le64(x)));
                    lemma_opcode_head(data@, pos as int, op, x);
                }
            }
            Some((Opcode::I32Xor, p1))
        },
        28 => {
            proof {
                assert forall|op: Opcode| #[trigger] wire_at(data@, pos as int, wire_opcode(op)) implies (
                opcode_matches(Opcode::I32Shl, op) && p1 == pos + wire_opcode(op).len()) by {
                    assert(wire_at(data@, pos as int, le64(x)));
                    lemma_opcode_head(data@, pos as int, op, x);
                }
            }
            Some((Opcode::I32Shl, p1))
        },
        29 => {
            proof {
                assert forall|op: Opcode| #[trigger] wire_at(data@, pos as int, wire_opcode(op)) implies (
                opcode_matches(Opcode::I32ShrU, op) && p1 == pos + wire_opcode(op).len()) by {
                    assert(wire_at(data@, pos as int, le64(x)));
                    lemma_opcode_head(data@, pos as int, op, x);
                }
            }
            Some((Opcode::I32ShrU, p1))
        },
        _ => {
            proof {
                assert forall|op: Opcode| #[trigger] wire_at(data@, pos as int, wire_opcode(op)) implies
                    false by {
                    assert(wire_at(data@, pos as int, le64(x)));
                    lemma_opcode_head(data@, pos as int, op, x);
                }
            }
            None
        },
    }
}

/// Reads the payload of an operation whose tag is in this range.
#[verifier::rlimit(100)]
#[verifier::spinoff_prover]
fn de_opcode_b(data: &Vec<u8>, pos: usize, p1: usize, x: u64) -> (r: Option<(
    Opcode,
    usize,
)>)
    requires
        p1 == pos + 8,
        p1 <= data@.len(),
        data@.subrange(pos as int, p1 as int) == le64(x),
        30 <= x < 60,
    ensures
        r is Some ==> ({
            let (op, p2) = r->Some_0;
            &&& pos <= p2 <= data@.len()
            &&& data@.subrange(pos as int, p2 as int) == wire_opcode(op)
        }),
        forall|op: Opcode|
            #[trigger] wire_at(data@, pos as int, wire_opcode(op)) ==> r is Some
                && opcode_matches(r->Some_0.0, op) && r->Some_0.1 == pos + wire_opcode(op).len(),
{
    match x {
        30 => {
            proof {
                assert forall|op: Opcode| #[trigger] wire_at(data@, pos as int, wire_opcode(op)) implies (
                opcode_matches(Opcode::I32ShrS, op) && p1 == pos + wire_opcode(op).len()) by {
                    assert(wire_at(data@, pos as int, le64(x)));
                    lemma_opcode_head(data@, pos as int, op, x);
                }
            }
            Some((Opcode::I32ShrS, p1))
        },
        31 => {
            proof {
                assert forall|op: Opcode| #[trigger] wire_at(data@, pos as int, wire_opcode(op)) implies (
                opcode_matches(Opcode::I32Rotl, op) && p1 == pos + wire_opcode(op).len()) by {
                    assert(wire_at(data@, pos as int, le64(x)));
                    lemma_opcode_head(data@, pos as int, op, x);
                }
            }
            Some((Opcode::I32Rotl, p1))
        },
        32 => {
            proof {
                assert forall|op: Opcode| #[trigger] wire_at(data@, pos as int, wire_opcode(op)) implies (
                opcode_matches(Opcode::I32Rotr, op) && p1 == pos + wire_opcode(op).len()) by {
                    assert(wire_at(data@, pos as int, le64(x)));
                    lemma_opcode_head(data@, pos as int, op, x);
                }
            }
            Some((Opcode::I32Rotr, p1))
        },
        33 => {
            proof {
                assert forall|op: Opcode| #[trigger] wire_at(data@, pos as int, wire_opcode(op)) implies (
                opcode_matches(Opcode::I32Eqz, op) && p1 == pos + wire_opcode(op).len()) by {
                    assert(wire_at(data@, pos as int, le64(x)));
                    lemma_opcode_head(data@, pos as int, op, x);
                }
            }
            Some((Opcode::I32Eqz, p1))
        },
        34 => {
            proof {
                assert forall|op: Opcode| #[trigger] wire_at(data@, pos as int, wire_opcode(op)) implies (
                opcode_matches(Opcode::I32Eq, op) && p1 == pos + wire_opcode(op).len()) by {
                    assert(wire_at(data@, pos as int, le64(x)));
                    lemma_opcode_head(data@, pos as int, op, x);
                }
            }
            Some((Opcode::I32Eq, p1))
        },
        35 => {
            proof {
                assert forall|op: Opcode| #[trigger] wire_at(data@, pos as int, wire_opcode(op)) implies (
                opcode_matches(Opcode::I32Ne, op) && p1 == pos + wire_opcode(op).len()) by {
                    assert(wire_at(data@, pos as int, le64(x)));
                    lemma_opcode_head(data@, pos as int, op, x);
                }
            }
            Some((Opcode::I32Ne, p1))
        },
        36 => {
            proof {
                assert forall|op: Opcode| #[trigger] wire_at(data@, pos as int, wire_opcode(op)) implies (
                opcode_matches(Opcode::I32LtU, op) && p1 == pos + wire_opcode(op).len()) by {
                    assert(wire_at(data@, pos as int, le64(x)));
                    lemma_opcode_head(data@, pos as int, op, x);
                }
            }
            Some((Opcode::I32LtU, p1))
        },
        37 => {
            proof {
                assert forall|op: Opcode| #[trigger] wire_at(data@, pos as int, wire_opcode(op)) implies (
                opcode_matches(Opcode::I32LtS, op) && p1 == pos + wire_opcode(op).len()) by {
                    assert(wire_at(data@, pos as int, le64(x)));
                    lemma_opcode_head(data@, pos as int, op, x);
                }
            }
            Some((Opcode::I32LtS, p1))
        },
        38 => {
            proof {
                assert forall|op: Opcode| #[trigger] wire_at(data@, pos as int, wire_opcode(op)) implies (
                opcode_matches(Opcode::I32LeU, op) && p1 == pos + wire_opcode(op).len()) by {
                    assert(wire_at(data@, pos as int, le64(x)));
                    lemma_opcode_head(data@, pos as int, op, x);
                }
            }
            Some((Opcode::I32LeU, p1))
        },
        39 => {
            proof {
                assert forall|op: Opcode| #[trigger] wire_at(data@, pos as int, wire_opcode(op)) implies (
                opcode_matches(Opcode::I32LeS, op) && p1 == pos + wire_opcode(op).len()) by {
                    assert(wire_at(data@, pos as int, le64(x)));
                    lemma_opcode_head(data@, pos as int, op, x);
                }
            }
            Some((Opcode::I32LeS, p1))
        },
        40 => {
            proof {
                assert forall|op: Opcode| #[trigger] wire_at(data@, pos as int, wire_opcode(op)) implies (
                opcode_matches(Opcode::I32GtU, op) && p1 == pos + wire_opcode(op).len()) by {
                    assert(wire_at(data@, pos as int, le64(x)));
                    lemma_opcode_head(data@, pos as int, op, x);
                }
            }
            Some((Opcode::I32GtU, p1))
        },
        41 => {
            proof {
                assert forall|op: Opcode| #[trigger] wire_at(data@, pos as int, wire_opcode(op)) implies (
                opcode_matches(Opcode::I32GtS, op) && p1 == pos + wire_opcode(op).len()) by {
                    assert(wire_at(data@, pos as int, le64(x)));
                    lemma_opcode_head(data@, pos as int, op, x);
                }
            }
            Some((Opcode::I32GtS, p1))
        },
        42 => {
            proof {
                assert forall|op: Opcode| #[trigger] wire_at(data@, pos as int, wire_opcode(op)) implies (
                opcode_matches(Opcode::I32GeU, op) && p1 == pos + wire_opcode(op).len()) by {
                    assert(wire_at(data@, pos as int, le64(x)));
                    lemma_opcode_head(data@, pos as int, op, x);
                }
            }
            Some((Opcode::I32GeU, p1))
        },
        43 => {
            proof {
                assert forall|op: Opcode| #[trigger] wire_at(data@, pos as int, wire_opcode(op)) implies (
                opcode_matches(Opcode::I32GeS, op) && p1 == pos + wire_opcode(op).len()) by {
                    assert(wire_at(data@, pos as int, le64(x)));
                    lemma_opcode_head(data@, pos as int, op, x);
                }
            }
            Some((Opcode::I32GeS, p1))
        },
        44 => {
            proof {
                assert forall|op: Opcode| #[trigger] wire_at(data@, pos as int, wire_opcode(op)) implies (
                opcode_matches(Opcode::I32WrapI64, op) && p1 == pos + wire_opcode(op).len()) by {
                    assert(wire_at(data@, pos as int, le64(x)));
                    lemma_opcode_head(data@, pos as int, op, x);
                }
            }
            Some((Opcode::I32WrapI64, p1))
        },
        45 => {
            let res = de_memarg(data, p1);
            proof {
                assert forall|op: Opcode| #[trigger] wire_at(data@, pos as int, wire_opcode(op)) implies (
                op is I32Load && res is Some && res->Some_0.0 == op->I32Load_0 && res->Some_0.1 == pos
                    + wire_opcode(op).len()) by {
                    assert(wire_at(data@, pos as int, le64(x)));
                    lemma_opcode_head(data@, pos as int, op, x);
                    assert(wire_at(data@, p1 as int, wire_memarg(op->I32Load_0)));
                }
            }
            match res {
                None => None,
                Some((a, p2)) => {
                    proof {
                        lemma_cat2(data@, pos as int, p1 as int, p2 as int);
                    }
                    Some((Opcode::I32Load(a), p2))
                },
            }
        },
        46 => {
            let res = de_memarg(data, p1);
            proof {
                assert forall|op: Opcode| #[trigger] wire_at(data@, pos as int, wire_opcode(op)) implies (
                op is I32Store && res is Some && res->Some_0.0 == op->I32Store_0 && res->Some_0.1 == pos
                    + wire_opcode(op).len()) by {
                    assert(wire_at(data@, pos as int, le64(x)));
                    lemma_opcode_head(data@, pos as int, op, x);
                    assert(wire_at(data@, p1 as int, wire_memarg(op->I32Store_0)));
                }
            }
            match res {
                None => None,
                Some((a, p2)) => {
                    proof {
                        lemma_cat2(data@, pos as int, p1 as int, p2 as int);
                    }
                    Some((Opcode::I32Store(a), p2))
                },
            }
        },
        47 => {
            let res = de_memarg(data, p1);
            proof {
                assert forall|op: Opcode| #[trigger] wire_at(data@, pos as int, wire_opcode(op)) implies (
                op is I32Load8U && res is Some && res->Some_0.0 == op->I32Load8U_0 && res->Some_0.1 == pos
                    + wire_opcode(op).len()) by {
                    assert(wire_at(data@, pos as int, le64(x)));
                    lemma_opcode_head(data@, pos as int, op, x);
                    assert(wire_at(data@, p1 as int, wire_memarg(op->I32Load8U_0)));
                }
            }
            match res {
                None => None,
                Some((a, p2)) => {
                    proof {
                        lemma_cat2(data@, pos as int, p1 as int, p2 as int);
                    }
                    Some((Opcode::I32Load8U(a), p2))
                },
            }
        },
        48 => {
            let res = de_memarg(data, p1);
            proof {
                assert forall|op: Opcode| #[trigger] wire_at(data@, pos as int, wire_opcode(op)) implies (
                op is I32Load8S && res is Some && res->Some_0.0 == op->I32Load8S_0 && res->Some_0.1 == pos
                    + wire_opcode(op).len()) by {
                    assert(wire_at(data@, pos as int, le64(x)));
                    lemma_opcode_head(data@, pos as int, op, x);
                    assert(wire_at(data@, p1 as int, wire_memarg(op->I32Load8S_0)));
                }
            }
            match res {
                None => None,
                Some((a, p2)) => {
                    proof {
                        lemma_cat2(data@, pos as int, p1 as int, p2 as int);
                    }
                    Some((Opcode::I32Load8S(a), p2))
                },
            }
        },
        49 => {
            let res = de_memarg(data, p1);
            proof {
                assert forall|op: Opcode| #[trigger] wire_at(data@, pos as int, wire_opcode(op)) implies (
                op is I32Load16U && res is Some && res->Some_0.0 == op->I32Load16U_0 && res->Some_0.1 == pos
                    + wire_opcode(op).len()) by {
                    assert(wire_at(data@, pos as int, le64(x)));
                    lemma_opcode_head(data@, pos as int, op, x);
                    assert(wire_at(data@, p1 as int, wire_memarg(op->I32Load16U_0)));
                }
            }
            match res {
                None => None,
                Some((a, p2)) => {
                    proof {
                        lemma_cat2(data@, pos as int, p1 as int, p2 as int);
                    }
                    Some((Opcode::I32Load16U(a), p2))
                },
            }
        },
        50 => {
            let res = de_memarg(data, p1);
            proof {
                assert forall|op: Opcode| #[trigger] wire_at(data@, pos as int, wire_opcode(op)) implies (
                op is I32Load16S && res is Some && res->Some_0.0 == op->I32Load16S_0 && res->Some_0.1 == pos
                    + wire_opcode(op).len()) by {
                    assert(wire_at(data@, pos as int, le64(x)));
                    lemma_opcode_head(data@, pos as int, op, x);
                    assert(wire_at(data@, p1 as int, wire_memarg(op->I32Load16S_0)));
                }
            }
            match res {
                None => None,
                Some((a, p2)) => {
                    proof {
                        lemma_cat2(data@, pos as int, p1 as int, p2 as int);
                    }
                    Some((Opcode::I32Load16S(a), p2))
                },
            }
        },
        51 => {
            let res = de_memarg(data, p1);
            proof {
                assert forall|op: Opcode| #[trigger] wire_at(data@, pos as int, wire_opcode(op)) implies (
                op is I32Store8 && res is Some && res->Some_0.0 == op->I32Store8_0 && res->Some_0.1 == pos
                    + wire_opcode(op).len()) by {
                    assert(wire_at(data@, pos as int, le64(x)));
                    lemma_opcode_head(data@, pos as int, op, x);
                    assert(wire_at(data@, p1 as int, wire_memarg(op->I32Store8_0)));
                }
            }
            match res {
                None => None,
                Some((a, p2)) => {
                    proof {
                        lemma_cat2(data@, pos as int, p1 as int, p2 as int);
                    }
                    Some((Opcode::I32Store8(a), p2))
                },
            }
        },
        52 => {
            let res = de_memarg(data, p1);
            proof {
                assert forall|op: Opcode| #[trigger] wire_at(data@, pos as int, wire_opcode(op)) implies (
                op is I32Store16 && res is Some && res->Some_0.0 == op->I32Store16_0 && res->Some_0.1 == pos
                    + wire_opcode(op).len()) by {
                    assert(wire_at(data@, pos as int, le64(x)));
                    lemma_opcode_head(data@, pos as int, op, x);
                    assert(wire_at(data@, p1 as int, wire_memarg(op->I32Store16_0)));
                }
            }
            match res {
                None => None,
                Some((a, p2)) => {
                    proof {
                        lemma_cat2(data@, pos as int, p1 as int, p2 as int);
                    }
                    Some((Opcode::I32Store16(a), p2))
                },
            }
        },
        53 => {
            let res = de_i64(data, p1);
            proof {
                assert forall|op: Opcode| #[trigger] wire_at(data@, pos as int, wire_opcode(op)) implies (
                op is I64Const && res is Some && res->Some_0.0 == op->I64Const_0 && res->Some_0.1 == pos
                    + wire_opcode(op).len()) by {
                    assert(wire_at(data@, pos as int, le64(x)));
                    lemma_opcode_head(data@, pos as int, op, x);
                    assert(wire_at(data@, p1 as int, le64(spec_u64_of_i64_bits(op->I64Const_0))));
                }
            }
            match res {
                None => None,
                Some((y, p2)) => {
                    proof {
                        lemma_cat2(data@, pos as int, p1 as int, p2 as int);
                    }
                    Some((Opcode::I64Const(y), p2))
                },
            }
        },
        54 => {
            proof {
                assert forall|op: Opcode| #[trigger] wire_at(data@, pos as int, wire_opcode(op)) implies (
                opcode_matches(Opcode::I64Clz, op) && p1 == pos + wire_opcode(op).len()) by {
                    assert(wire_at(data@, pos as int, le64(x)));
                    lemma_opcode_head(data@, pos as int, op, x);
                }
            }
            Some((Opcode::I64Clz, p1))
        },
        55 => {
            proof {
                assert forall|op: Opcode| #[trigger] wire_at(data@, pos as int, wire_opcode(op)) implies (
                opcode_matches(Opcode::I64Ctz, op) && p1 == pos + wire_opcode(op).len()) by {
                    assert(wire_at(data@, pos as int, le64(x)));
                    lemma_opcode_head(data@, pos as int, op, x);
                }
            }
            Some((Opcode::I64Ctz, p1))
        },
        56 => {
            proof {
                assert forall|op: Opcode| #[trigger] wire_at(data@, pos as int, wire_opcode(op)) implies (
                opcode_matches(Opcode::I64Popcnt, op) && p1 == pos + wire_opcode(op).len()) by {
                    assert(wire_at(data@, pos as int, le64(x)));
                    lemma_opcode_head(data@, pos as int, op, x);
                }
            }
            Some((Opcode::I64Popcnt, p1))
        },
        57 => {
            proof {
                assert forall|op: Opcode| #[trigger] wire_at(data@, pos as int, wire_opcode(op)) implies (
                opcode_matches(Opcode::I64Add, op) && p1 == pos + wire_opcode(op).len()) by {
                    assert(wire_at(data@, pos as int, le64(x)));
                    lemma_opcode_head(data@, pos as int, op, x);
                }
            }
            Some((Opcode::I64Add, p1))
        },
        58 => {
            proof {
                assert forall|op: Opcode| #[trigger] wire_at(data@, pos as int, wire_opcode(op)) implies (
                opcode_matches(Opcode::I64Sub, op) && p1 == pos + wire_opcode(op).len()) by {
                    assert(wire_at(data@, pos as int, le64(x)));
                    lemma_opcode_head(data@, pos as int, op, x);
                }
            }
            Some((Opcode::I64Sub, p1))
        },
        59 => {
            proof {
                assert forall|op: Opcode| #[trigger] wire_at(data@, pos as int, wire_opcode(op)) implies (
                opcode_matches(Opcode::I64Mul, op) && p1 == pos + wire_opcode(op).len()) by {
                    assert(wire_at(data@, pos as int, le64(x)));
                    lemma_opcode_head(data@, pos as int, op, x);
                }
            }
            Some((Opcode::I64Mul, p1))
        },
        _ => {
            proof {
                assert forall|op: Opcode| #[trigger] wire_at(data@, pos as int, wire_opcode(op)) implies
                    false by {
                    assert(wire_at(data@, pos as int, le64(x)));
                    lemma_opcode_head(data@, pos as int, op, x);
                }
            }
            None
        },
    }
}

/// Reads the payload of an operation whose tag is in this range.
#[verifier::rlimit(100)]
#[verifier::spinoff_prover]
fn de_opcode_c(data: &Vec<u8>, pos: usize, p1: usize, x: u64) -> (r: Option<(
    Opcode,
    usize,
)>)
    requires
        p1 == pos + 8,
        p1 <= data@.len(),
        data@.subrange(pos as int, p1 as int) == le64(x),
        60 <= x < 90,
    ensures
        r is Some ==> ({
            let (op, p2) = r->Some_0;
            &&& pos <= p2 <= data@.len()
            &&& data@.subrange(pos as int, p2 as int) == wire_opcode(op)
        }),
        forall|op: Opcode|
            #[trigger] wire_at(data@, pos as int, wire_opcode(op)) ==> r is Some
                && opcode_matches(r->Some_0.0, op) && r->Some_0.1 == pos + wire_opcode(op).len(),
{
    match x {
        60 => {
            proof {
                assert forall|op: Opcode| #[trigger] wire_at(data@, pos as int, wire_opcode(op)) implies (
                opcode_matches(Opcode::I64DivU, op) && p1 == pos + wire_opcode(op).len()) by {
                    assert(wire_at(data@, pos as int, le64(x)));
                    lemma_opcode_head(data@, pos as int, op, x);
                }
            }
            Some((Opcode::I64DivU, p1))
        },
        61 => {
            proof {
                assert forall|op: Opcode| #[trigger] wire_at(data@, pos as int, wire_opcode(op)) implies (
                opcode_matches(Opcode::I64DivS, op) && p1 == pos + wire_opcode(op).len()) by {
                    assert(wire_at(data@, pos as int, le64(x)));
                    lemma_opcode_head(data@, pos as int, op, x);
                }
            }
            Some((Opcode::I64DivS, p1))
        },
        62 => {
            proof {
                assert forall|op: Opcode| #[trigger] wire_at(data@, pos as int, wire_opcode(op)) implies (
                opcode_matches(Opcode::I64RemU, op) && p1 == pos + wire_opcode(op).len()) by {
                    assert(wire_at(data@, pos as int, le64(x)));
                    lemma_opcode_head(data@, pos as int, op, x);
                }
            }
            Some((Opcode::I64RemU, p1))
        },
        63 => {
            proof {
                assert forall|op: Opcode| #[trigger] wire_at(data@, pos as int, wire_opcode(op)) implies (
                opcode_matches(Opcode::I64RemS, op) && p1 == pos + wire_opcode(op).len()) by {
                    assert(wire_at(data@, pos as int, le64(x)));
                    lemma_opcode_head(data@, pos as int, op, x);
                }
            }
            Some((Opcode::I64RemS, p1))
        },
        64 => {
            proof {
                assert forall|op: Opcode| #[trigger] wire_at(data@, pos as int, wire_opcode(op)) implies (
                opcode_matches(Opcode::I64And, op) && p1 == pos + wire_opcode(op).len()) by {
                    assert(wire_at(data@, pos as int, le64(x)));
                    lemma_opcode_head(data@, pos as int, op, x);
                }
            }
            Some((Opcode::I64And, p1))
        },
        65 => {
            proof {
                assert forall|op: Opcode| #[trigger] wire_at(data@, pos as int, wire_opcode(op)) implies (
                opcode_matches(Opcode::I64Or, op) && p1 == pos + wire_opcode(op).len()) by {
                    assert(wire_at(data@, pos as int, le64(x)));
                    lemma_opcode_head(data@, pos as int, op, x);
                }
            }
            Some((Opcode::I64Or, p1))
        },
        66 => {
            proof {
                assert forall|op: Opcode| #[trigger] wire_at(data@, pos as int, wire_opcode(op)) implies (
                opcode_matches(Opcode::I64Xor, op) && p1 == pos + wire_opcode(op).len()) by {
                    assert(wire_at(data@, pos as int, le64(x)));
                    lemma_opcode_head(data@, pos as int, op, x);
                }
            }
            Some((Opcode::I64Xor, p1))
        },
        67 => {
            proof {
                assert forall|op: Opcode| #[trigger] wire_at(data@, pos as int, wire_opcode(op)) implies (
                opcode_matches(Opcode::I64Shl, op) && p1 == pos + wire_opcode(op).len()) by {
                    assert(wire_at(data@, pos as int, le64(x)));
                    lemma_opcode_head(data@, pos as int, op, x);
                }
            }
            Some((Opcode::I64Shl, p1))
        },
        68 => {
            proof {
                assert forall|op: Opcode| #[trigger] wire_at(data@, pos as int, wire_opcode(op)) implies (
                opcode_matches(Opcode::I64ShrU, op) && p1 == pos + wire_opcode(op).len()) by {
                    assert(wire_at(data@, pos as int, le64(x)));
                    lemma_opcode_head(data@, pos as int, op, x);
                }
            }
            Some((Opcode::I64ShrU, p1))
        },
        69 => {
            proof {
                assert forall|op: Opcode| #[trigger] wire_at(data@, pos as int, wire_opcode(op)) implies (
                opcode_matches(Opcode::I64ShrS, op) && p1 == pos + wire_opcode(op).len()) by {
                    assert(wire_at(data@, pos as int, le64(x)));
                    lemma_opcode_head(data@, pos as int, op, x);
                }
            }
            Some((Opcode::I64ShrS, p1))
        },
        70 => {
            proof {
                assert forall|op: Opcode| #[trigger] wire_at(data@, pos as int, wire_opcode(op)) implies (
                opcode_matches(Opcode::I64Rotl, op) && p1 == pos + wire_opcode(op).len()) by {
                    assert(wire_at(data@, pos as int, le64(x)));
                    lemma_opcode_head(data@, pos as int, op, x);
                }
            }
            Some((Opcode::I64Rotl, p1))
        },
        71 => {
            proof {
                assert forall|op: Opcode| #[trigger] wire_at(data@, pos as int, wire_opcode(op)) implies (
                opcode_matches(Opcode::I64Rotr, op) && p1 == pos + wire_opcode(op).len()) by {
                    assert(wire_at(data@, pos as int, le64(x)));
                    lemma_opcode_head(data@, pos as int, op, x);
                }
            }
            Some((Opcode::I64Rotr, p1))
        },
        72 => {
            proof {
                assert forall|op: Opcode| #[trigger] wire_at(data@, pos as int, wire_opcode(op)) implies (
                opcode_matches(Opcode::I64Eqz, op) && p1 == pos + wire_opcode(op).len()) by {
                    assert(wire_at(data@, pos as int, le64(x)));
                    lemma_opcode_head(data@, pos as int, op, x);
                }
            }
            Some((Opcode::I64Eqz, p1))
        },
        73 => {
            proof {
                assert forall|op: Opcode| #[trigger] wire_at(data@, pos as int, wire_opcode(op)) implies (
                opcode_matches(Opcode::I64Eq, op) && p1 == pos + wire_opcode(op).len()) by {
                    assert(wire_at(data@, pos as int, le64(x)));
                    lemma_opcode_head(data@, pos as int, op, x);
                }
            }
            Some((Opcode::I64Eq, p1))
        },
        74 => {
            proof {
                assert forall|op: Opcode| #[trigger] wire_at(data@, pos as int, wire_opcode(op)) implies (
                opcode_matches(Opcode::I64Ne, op) && p1 == pos + wire_opcode(op).len()) by {
                    assert(wire_at(data@, pos as int, le64(x)));
                    lemma_opcode_head(data@, pos as int, op, x);
                }
            }
            Some((Opcode::I64Ne, p1))
        },
        75 => {
            proof {
                assert forall|op: Opcode| #[trigger] wire_at(data@, pos as int, wire_opcode(op)) implies (
                opcode_matches(Opcode::I64LtU, op) && p1 == pos + wire_opcode(op).len()) by {
                    assert(wire_at(data@, pos as int, le64(x)));
                    lemma_opcode_head(data@, pos as int, op, x);
                }
            }
            Some((Opcode::I64LtU, p1))
        },
        76 => {
            proof {
                assert forall|op: Opcode| #[trigger] wire_at(data@, pos as int, wire_opcode(op)) implies (
                opcode_matches(Opcode::I64LtS, op) && p1 == pos + wire_opcode(op).len()) by {
                    assert(wire_at(data@, pos as int, le64(x)));
                    lemma_opcode_head(data@, pos as int, op, x);
                }
            }
            Some((Opcode::I64LtS, p1))
        },
        77 => {
            proof {
                assert forall|op: Opcode| #[trigger] wire_at(data@, pos as int, wire_opcode(op)) implies (
                opcode_matches(Opcode::I64LeU, op) && p1 == pos + wire_opcode(op).len()) by {
                    assert(wire_at(data@, pos as int, le64(x)));
                    lemma_opcode_head(data@, pos as int, op, x);
                }
            }
            Some((Opcode::I64LeU, p1))
        },
        78 => {
            proof {
                assert forall|op: Opcode| #[trigger] wire_at(data@, pos as int, wire_opcode(op)) implies (
                opcode_matches(Opcode::I64LeS, op) && p1 == pos + wire_opcode(op).len()) by {
                    assert(wire_at(data@, pos as int, le64(x)));
                    lemma_opcode_head(data@, pos as int, op, x);
                }
            }
            Some((Opcode::I64LeS, p1))
        },
        79 => {
            proof {
                assert forall|op: Opcode| #[trigger] wire_at(data@, pos as int, wire_opcode(op)) implies (
                opcode_matches(Opcode::I64GtU, op) && p1 == pos + wire_opcode(op).len()) by {
                    assert(wire_at(data@, pos as int, le64(x)));
                    lemma_opcode_head(data@, pos as int, op, x);
                }
            }
            Some((Opcode::I64GtU, p1))
        },
        80 => {
            proof {
                assert forall|op: Opcode| #[trigger] wire_at(data@, pos as int, wire_opcode(op)) implies (
                opcode_matches(Opcode::I64GtS, op) && p1 == pos + wire_opcode(op).len()) by {
                    assert(wire_at(data@, pos as int, le64(x)));
                    lemma_opcode_head(data@, pos as int, op, x);
                }
            }
            Some((Opcode::I64GtS, p1))
        },
        81 => {
            proof {
                assert forall|op: Opcode| #[trigger] wire_at(data@, pos as int, wire_opcode(op)) implies (
                opcode_matches(Opcode::I64GeU, op) && p1 == pos + wire_opcode(op).len()) by {
                    assert(wire_at(data@, pos as int, le64(x)));
                    lemma_opcode_head(data@, pos as int, op, x);
                }
            }
            Some((Opcode::I64GeU, p1))
        },
        82 => {
            proof {
                assert forall|op: Opcode| #[trigger] wire_at(data@, pos as int, wire_opcode(op)) implies (
                opcode_matches(Opcode::I64GeS, op) && p1 == pos + wire_opcode(op).len()) by {
                    assert(wire_at(data@, pos as int, le64(x)));
                    lemma_opcode_head(data@, pos as int, op, x);
                }
            }
            Some((Opcode::I64GeS, p1))
        },
        83 => {
            proof {
                assert forall|op: Opcode| #[trigger] wire_at(data@, pos as int, wire_opcode(op)) implies (
                opcode_matches(Opcode::I64ExtendI32U, op) && p1 == pos + wire_opcode(op).len()) by {
                    assert(wire_at(data@, pos as int, le64(x)));
                    lemma_opcode_head(data@, pos as int, op, x);
                }
            }
            Some((Opcode::I64ExtendI32U, p1))
        },
        84 => {
            proof {
                assert forall|op: Opcode| #[trigger] wire_at(data@, pos as int, wire_opcode(op)) implies (
                opcode_matches(Opcode::I64ExtendI32S, op) && p1 == pos + wire_opcode(op).len()) by {
                    assert(wire_at(data@, pos as int, le64(x)));
                    lemma_opcode_head(data@, pos as int, op, x);
                }
            }
            Some((Opcode::I64ExtendI32S, p1))
        },
        85 => {
            let res = de_memarg(data, p1);
            proof {
                assert forall|op: Opcode| #[trigger] wire_at(data@, pos as int, wire_opcode(op)) implies (
                op is I64Load && res is Some && res->Some_0.0 == op->I64Load_0 && res->Some_0.1 == pos
                    + wire_opcode(op).len()) by {
                    assert(wire_at(data@, pos as int, le64(x)));
                    lemma_opcode_head(data@, pos as int, op, x);
                    assert(wire_at(data@, p1 as int, wire_memarg(op->I64Load_0)));
                }
            }
            match res {
                None => None,
                Some((a, p2)) => {
                    proof {
                        lemma_cat2(data@, pos as int, p1 as int, p2 as int);
                    }
                    Some((Opcode::I64Load(a), p2))
                },
            }
        },
        86 => {
            let res = de_memarg(data, p1);
            proof {
                assert forall|op: Opcode| #[trigger] wire_at(data@, pos as int, wire_opcode(op)) implies (
                op is I64Store && res is Some && res->Some_0.0 == op->I64Store_0 && res->Some_0.1 == pos
                    + wire_opcode(op).len()) by {
                    assert(wire_at(data@, pos as int, le64(x)));
                    lemma_opcode_head(data@, pos as int, op, x);
                    assert(wire_at(data@, p1 as int, wire_memarg(op->I64Store_0)));
                }
            }
            match res {
                None => None,
                Some((a, p2)) => {
                    proof {
                        lemma_cat2(data@, pos as int, p1 as int, p2 as int);
                    }
                    Some((Opcode::I64Store(a), p2))
                },
            }
        },
        87 => {
            let res = de_memarg(data, p1);
            proof {
                assert forall|op: Opcode| #[trigger] wire_at(data@, pos as int, wire_opcode(op)) implies (
                op is I64Load8U && res is Some && res->Some_0.0 == op->I64Load8U_0 && res->Some_0.1 == pos
                    + wire_opcode(op).len()) by {
                    assert(wire_at(data@, pos as int, le64(x)));
                    lemma_opcode_head(data@, pos as int, op, x);
                    assert(wire_at(data@, p1 as int, wire_memarg(op->I64Load8U_0)));
                }
            }
            match res {
                None => None,
                Some((a, p2)) => {
                    proof {
                        lemma_cat2(data@, pos as int, p1 as int, p2 as int);
                    }
                    Some((Opcode::I64Load8U(a), p2))
                },
            }
        },
        88 => {
            let res = de_memarg(data, p1);
            proof {
                assert forall|op: Opcode| #[trigger] wire_at(data@, pos as int, wire_opcode(op)) implies (
                op is I64Load8S && res is Some && res->Some_0.0 == op->I64Load8S_0 && res->Some_0.1 == pos
                    + wire_opcode(op).len()) by {
                    assert(wire_at(data@, pos as int, le64(x)));
                    lemma_opcode_head(data@, pos as int, op, x);
                    assert(wire_at(data@, p1 as int, wire_memarg(op->I64Load8S_0)));
                }
            }
            match res {
                None => None,
                Some((a, p2)) => {
                    proof {
                        lemma_cat2(data@, pos as int, p1 as int, p2 as int);
                    }
                    Some((Opcode::I64Load8S(a), p2))
                },
            }
        },
        89 => {
            let res = de_memarg(data, p1);
            proof {
                assert forall|op: Opcode| #[trigger] wire_at(data@, pos as int, wire_opcode(op)) implies (
                op is I64Load16U && res is Some && res->Some_0.0 == op->I64Load16U_0 && res->Some_0.1 == pos
                    + wire_opcode(op).len()) by {
                    assert(wire_at(data@, pos as int, le64(x)));
                    lemma_opcode_head(data@, pos as int, op, x);
                    assert(wire_at(data@, p1 as int, wire_memarg(op->I64Load16U_0)));
                }
            }
            match res {
                None => None,
                Some((a, p2)) => {
                    proof {
                        lemma_cat2(data@, pos as int, p1 as int, p2 as int);
                    }
                    Some((Opcode::I64Load16U(a), p2))
                },
            }
        },
        _ => {
            proof {
                assert forall|op: Opcode| #[trigger] wire_at(data@, pos as int, wire_opcode(op)) implies
                    false by {
                    assert(wire_at(data@, pos as int, le64(x)));
                    lemma_opcode_head(data@, pos as int, op, x);
                }
            }
            None
        },
    }
}

/// Reads the payload of an operation whose tag is in this range.
#[verifier::rlimit(100)]
#[verifier::spinoff_prover]
fn de_opcode_d(data: &Vec<u8>, pos: usize, p1: usize, x: u64) -> (r: Option<(
    Opcode,
    usize,
)>)
    requires
        p1 == pos + 8,
        p1 <= data@.len(),
        data@.subrange(pos as int, p1 as int) == le64(x),
        90 <= x,
    ensures
        r is Some ==> ({
            let (op, p2) = r->Some_0;
            &&& pos <= p2 <= data@.len()
            &&& data@.subrange(pos as int, p2 as int) == wire_opcode(op)
        }),
        forall|op: Opcode|
            #[trigger] wire_at(data@, pos as int, wire_opcode(op)) ==> r is Some
                && opcode_matches(r->Some_0.0, op) && r->Some_0.1 == pos + wire_opcode(op).len(),
{
    match x {
        90 => {
            let res = de_memarg(data, p1);
            proof {
                assert forall|op: Opcode| #[trigger] wire_at(data@, pos as int, wire_opcode(op)) implies (
                op is I64Load16S && res is Some && res->Some_0.0 == op->I64Load16S_0 && res->Some_0.1 == pos
                    + wire_opcode(op).len()) by {
                    assert(wire_at(data@, pos as int, le64(x)));
                    lemma_opcode_head(data@, pos as int, op, x);
                    assert(wire_at(data@, p1 as int, wire_memarg(op->I64Load16S_0)));
                }
            }
            match res {
                None => None,
                Some((a, p2)) => {
                    proof {
                        lemma_cat2(data@, pos as int, p1 as int, p2 as int);
                    }
                    Some((Opcode::I64Load16S(a), p2))
                },
            }
        },
        91 => {
            let res = de_memarg(data, p1);
            proof {
                assert forall|op: Opcode| #[trigger] wire_at(data@, pos as int, wire_opcode(op)) implies (
                op is I64Load32U && res is Some && res->Some_0.0 == op->I64Load32U_0 && res->Some_0.1 == pos
                    + wire_opcode(op).len()) by {
                    assert(wire_at(data@, pos as int, le64(x)));
                    lemma_opcode_head(data@, pos as int, op, x);
                    assert(wire_at(data@, p1 as int, wire_memarg(op->I64Load32U_0)));
                }
            }
            match res {
                None => None,
                Some((a, p2)) => {
                    proof {
                        lemma_cat2(data@, pos as int, p1 as int, p2 as int);
                    }
                    Some((Opcode::I64Load32U(a), p2))
                },
            }
        },
        92 => {
            let res = de_memarg(data, p1);
            proof {
                assert forall|op: Opcode| #[trigger] wire_at(data@, pos as int, wire_opcode(op)) implies (
                op is I64Load32S && res is Some && res->Some_0.0 == op->I64Load32S_0 && res->Some_0.1 == pos
                    + wire_opcode(op).len()) by {
                    assert(wire_at(data@, pos as int, le64(x)));
                    lemma_opcode_head(data@, pos as int, op, x);
                    assert(wire_at(data@, p1 as int, wire_memarg(op->I64Load32S_0)));
                }
            }
            match res {
                None => None,
                Some((a, p2)) => {
                    proof {
                        lemma_cat2(data@, pos as int, p1 as int, p2 as int);
                    }
                    Some((Opcode::I64Load32S(a), p2))
                },
            }
        },
        93 => {
            let res = de_memarg(data, p1);
            proof {
                assert forall|op: Opcode| #[trigger] wire_at(data@, pos as int, wire_opcode(op)) implies (
                op is I64Store8 && res is Some && res->Some_0.0 == op->I64Store8_0 && res->Some_0.1 == pos
                    + wire_opcode(op).len()) by {
                    assert(wire_at(data@, pos as int, le64(x)));
                    lemma_opcode_head(data@, pos as int, op, x);
                    assert(wire_at(data@, p1 as int, wire_memarg(op->I64Store8_0)));
                }
            }
            match res {
                None => None,
                Some((a, p2)) => {
                    proof {
                        lemma_cat2(data@, pos as int, p1 as int, p2 as int);
                    }
                    Some((Opcode::I64Store8(a), p2))
                },
            }
        },
        94 => {
            let res = de_memarg(data, p1);
            proof {
                assert forall|op: Opcode| #[trigger] wire_at(data@, pos as int, wire_opcode(op)) implies (
                op is I64Store16 && res is Some && res->Some_0.0 == op->I64Store16_0 && res->Some_0.1 == pos
                    + wire_opcode(op).len()) by {
                    assert(wire_at(data@, pos as int, le64(x)));
                    lemma_opcode_head(data@, pos as int, op, x);
                    assert(wire_at(data@, p1 as int, wire_memarg(op->I64Store16_0)));
                }
            }
            match res {
                None => None,
                Some((a, p2)) => {
                    proof {
                        lemma_cat2(data@, pos as int, p1 as int, p2 as int);
                    }
                    Some((Opcode::I64Store16(a), p2))
                },
            }
        },
        95 => {
            let res = de_memarg(data, p1);
            proof {
                assert forall|op: Opcode| #[trigger] wire_at(data@, pos as int, wire_opcode(op)) implies (
                op is I64Store32 && res is Some && res->Some_0.0 == op->I64Store32_0 && res->Some_0.1 == pos
                    + wire_opcode(op).len()) by {
                    assert(wire_at(data@, pos as int, le64(x)));
                    lemma_opcode_head(data@, pos as int, op, x);
                    assert(wire_at(data@, p1 as int, wire_memarg(op->I64Store32_0)));
                }
            }
            match res {
                None => None,
                Some((a, p2)) => {
                    proof {
                        lemma_cat2(data@, pos as int, p1 as int, p2 as int);
                    }
                    Some((Opcode::I64Store32(a), p2))
                },
            }
        },
        96 => {
            let res = de_u32(data, p1);
            proof {
                assert forall|op: Opcode| #[trigger] wire_at(data@, pos as int, wire_opcode(op)) implies (
                op is Jmp && res is Some && res->Some_0.0 == op->Jmp_0 && res->Some_0.1 == pos
                    + wire_opcode(op).len()) by {
                    assert(wire_at(data@, pos as int, le64(x)));
                    lemma_opcode_head(data@, pos as int, op, x);
                    assert(wire_at(data@, p1 as int, le64(op->Jmp_0 as u64)));
                }
            }
            match res {
                None => None,
                Some((y, p2)) => {
                    proof {
                        lemma_cat2(data@, pos as int, p1 as int, p2 as int);
                    }
                    Some((Opcode::Jmp(y), p2))
                },
            }
        },
        97 => {
            let res = de_u32(data, p1);
            proof {
                assert forall|op: Opcode| #[trigger] wire_at(data@, pos as int, wire_opcode(op)) implies (
                op is JmpIf && res is Some && res->Some_0.0 == op->JmpIf_0 && res->Some_0.1 == pos
                    + wire_opcode(op).len()) by {
                    assert(wire_at(data@, pos as int, le64(x)));
                    lemma_opcode_head(data@, pos as int, op, x);
                    assert(wire_at(data@, p1 as int, le64(op->JmpIf_0 as u64)));
                }
            }
            match res {
                None => None,
                Some((y, p2)) => {
                    proof {
                        lemma_cat2(data@, pos as int, p1 as int, p2 as int);
                    }
                    Some((Opcode::JmpIf(y), p2))
                },
            }
        },
        98 => {
            let res1 = de_u32s(data, p1);
            proof {
                assert forall|op: Opcode| #[trigger] wire_at(data@, pos as int, wire_opcode(op)) implies (
                op is JmpTable && res1 is Some && res1->Some_0.0@ == op->JmpTable_0@ && res1->Some_0.1
                    == pos + 8 + wire_u32s(op->JmpTable_0@).len()) by {
                    assert(wire_at(data@, pos as int, le64(x)));
                    lemma_opcode_head(data@, pos as int, op, x);
                    vstd::std_specs::vec::axiom_spec_len(data);
                    lemma_wire_u32e_list_len(op->JmpTable_0@);
                    assert(wire_u32s(op->JmpTable_0@) == wire_usize(op->JmpTable_0@.len())
                        + wire_u32e_list(op->JmpTable_0@));
                    assert(wire_at(data@, p1 as int, wire_u32s(op->JmpTable_0@)));
                }
            }
            let (t, p2) = match res1 {
                None => {
                    return None;
                },
                Some(v) => v,
            };
            let res2 = de_u32(data, p2);
            proof {
                assert forall|op: Opcode| #[trigger] wire_at(data@, pos as int, wire_opcode(op)) implies (
                res2 is Some && res2->Some_0.0 == op->JmpTable_1 && res2->Some_0.1 == pos
                    + wire_opcode(op).len()) by {
                    assert(wire_at(data@, pos as int, le64(x)));
                    lemma_opcode_head(data@, pos as int, op, x);
                    assert(wire_at(data@, p2 as int, le64(op->JmpTable_1 as u64)));
                }
            }
            match res2 {
                None => None,
                Some((o, p3)) => {
                    proof {
                        lemma_cat2(data@, p1 as int, p2 as int, p3 as int);
                        lemma_cat2(data@, pos as int, p1 as int, p3 as int);
                    }
                    Some((Opcode::JmpTable(t, o), p3))
                },
            }
        },
        _ => {
            proof {
                assert forall|op: Opcode| #[trigger] wire_at(data@, pos as int, wire_opcode(op)) implies
                    false by {
                    assert(wire_at(data@, pos as int, le64(x)));
                    lemma_opcode_head(data@, pos as int, op, x);
                }
            }
            None
        },
    }
}

/// Reads one operation.
fn de_opcode(data: &Vec<u8>, pos: usize) -> (r: Option<(Opcode, usize)>)
    ensures
        r is Some ==> ({
            let (op, p2) = r->Some_0;
            &&& pos <= p2 <= data@.len()
            &&& data@.subrange(pos as int, p2 as int) == wire_opcode(op)
        }),
        forall|op: Opcode|
            #[trigger] wire_at(data@, pos as int, wire_opcode(op)) ==> r is Some
                && opcode_matches(r->Some_0.0, op) && r->Some_0.1 == pos + wire_opcode(op).len(),
{
    let tres = de_u64(data, pos);
    proof {
        assert forall|op: Opcode| #[trigger] wire_at(data@, pos as int, wire_opcode(op)) implies (
        tres is Some) by {
            lemma_opcode_first(data@, pos as int, op);
        }
    }
    let (x, p1) = match tres {
        None => {
            return None;
        },
        Some(v) => v,
    };
    proof {
        assert(wire_at(data@, pos as int, le64(x)));
    }
    if x < 30 {
        de_opcode_a(data, pos, p1, x)
    } else if x < 60 {
        de_opcode_b(data, pos, p1, x)
    } else if x < 90 {
        de_opcode_c(data, pos, p1, x)
    } else {
        de_opcode_d(data, pos, p1, x)
    }
}

/// Reads one signature.
fn de_type(data: &Vec<u8>, pos: usize) -> (r: Option<(Type, usize)>)
    ensures
        r is Some ==> ({
            let (t, p2) = r->Some_0;
            &&& pos <= p2 <= data@.len()
            &&& data@.subrange(pos as int, p2 as int) == wire_type(t)
        }),
        forall|t: Type|
            #[trigger] wire_at(data@, pos as int, wire_type(t)) ==> r is Some && type_matches(
                r->Some_0.0,
                t,
            ) && r->Some_0.1 == pos + wire_type(t).len(),
{
    let r1 = de_valtypes(data, pos);
    proof {
        assert forall|t: Type| #[trigger] wire_at(data@, pos as int, wire_type(t)) implies (r1
            is Some && r1->Some_0.0@ == t->Func_0@ && r1->Some_0.1 == pos + wire_valtypes(
            t->Func_0@,
        ).len()) by {
            assert(wire_type(t) == wire_valtypes(t->Func_0@) + wire_valtypes(t->Func_1@));
            lemma_wire_at_split(
                data@,
                pos as int,
                wire_valtypes(t->Func_0@),
                wire_valtypes(t->Func_1@),
            );
            vstd::std_specs::vec::axiom_spec_len(data);
            lemma_wire_valtype_list_len(t->Func_0@);
        }
    }
    let (a, p1) = match r1 {
        None => {
            return None;
        },
        Some(v) => v,
    };
    let r2 = de_valtypes(data, p1);
    proof {
        assert forall|t: Type| #[trigger] wire_at(data@, pos as int, wire_type(t)) implies (r2
            is Some && r2->Some_0.0@ == t->Func_1@ && r2->Some_0.1 == pos + wire_type(t).len()) by {
            assert(wire_type(t) == wire_valtypes(t->Func_0@) + wire_valtypes(t->Func_1@));
            lemma_wire_at_split(
                data@,
                pos as int,
                wire_valtypes(t->Func_0@),
                wire_valtypes(t->Func_1@),
            );
            vstd::std_specs::vec::axiom_spec_len(data);
            lemma_wire_valtype_list_len(t->Func_1@);
            assert(wire_at(data@, p1 as int, wire_valtypes(t->Func_1@)));
        }
    }
    match r2 {
        None => None,
        Some((r2v, p2)) => {
            proof {
                lemma_cat2(data@, pos as int, p1 as int, p2 as int);
            }
            Some((Type::Func(a, r2v), p2))
        },
    }
}

/// Reads one function.
fn de_function(data: &Vec<u8>, pos: usize) -> (r: Option<(Function, usize)>)
    ensures
        r is Some ==> ({
            let (f, p2) = r->Some_0;
            &&& pos <= p2 <= data@.len()
            &&& data@.subrange(pos as int, p2 as int) == wire_function(f)
        }),
        forall|f: Function|
            #[trigger] wire_at(data@, pos as int, wire_function(f)) ==> r is Some
                && function_matches(r->Some_0.0, f) && r->Some_0.1 == pos + wire_function(f).len(),
{
    let r1 = de_usize(data, pos);
    proof {
        assert forall|f: Function| #[trigger] wire_at(data@, pos as int, wire_function(f)) implies (
        r1 is Some && r1->Some_0.0 == f.typeidx) by {
            assert(wire_function(f) =~= wire_usize(f.typeidx as nat) + (wire_valtypes(f.locals@)
                + wire_opcodes(f.body.opcodes@)));
            lemma_wire_at_split(
                data@,
                pos as int,
                wire_usize(f.typeidx as nat),
                wire_valtypes(f.locals@) + wire_opcodes(f.body.opcodes@),
            );
        }
    }
    let (tix, p1) = match r1 {
        None => {
            return None;
        },
        Some(v) => v,
    };
    let r2 = de_valtypes(data, p1);
    proof {
        assert forall|f: Function| #[trigger] wire_at(data@, pos as int, wire_function(f)) implies (
        r2 is Some && r2->Some_0.0@ == f.locals@ && r2->Some_0.1 == pos + 8 + wire_valtypes(
            f.locals@,
        ).len()) by {
            assert(wire_function(f) =~= wire_usize(f.typeidx as nat) + (wire_valtypes(f.locals@)
                + wire_opcodes(f.body.opcodes@)));
            lemma_wire_at_split(
                data@,
                pos as int,
                wire_usize(f.typeidx as nat),
                wire_valtypes(f.locals@) + wire_opcodes(f.body.opcodes@),
            );
            lemma_wire_at_split(
                data@,
                pos as int + 8,
                wire_valtypes(f.locals@),
                wire_opcodes(f.body.opcodes@),
            );
            vstd::std_specs::vec::axiom_spec_len(data);
            lemma_wire_valtype_list_len(f.locals@);
            assert(wire_at(data@, p1 as int, wire_valtypes(f.locals@)));
        }
    }
    let (locals, p2) = match r2 {
        None => {
            return None;
        },
        Some(v) => v,
    };
    let r3 = de_opcodes(data, p2);
    proof {
        assert forall|f: Function| #[trigger] wire_at(data@, pos as int, wire_function(f)) implies (
        r3 is Some && opcode_seq_matches(r3->Some_0.0@, f.body.opcodes@) && r3->Some_0.1 == pos
            + wire_function(f).len()) by {
            assert(wire_function(f) =~= wire_usize(f.typeidx as nat) + (wire_valtypes(f.locals@)
                + wire_opcodes(f.body.opcodes@)));
            lemma_wire_at_split(
                data@,
                pos as int,
                wire_usize(f.typeidx as nat),
                wire_valtypes(f.locals@) + wire_opcodes(f.body.opcodes@),
            );
            lemma_wire_at_split(
                data@,
                pos as int + 8,
                wire_valtypes(f.locals@),
                wire_opcodes(f.body.opcodes@),
            );
            vstd::std_specs::vec::axiom_spec_len(data);
            lemma_wire_opcode_list_len(f.body.opcodes@);
            assert(wire_at(data@, p2 as int, wire_opcodes(f.body.opcodes@)));
        }
    }
    let (opcodes, p3) = match r3 {
        None => {
            return None;
        },
        Some(v) => v,
    };
    proof {
        lemma_cat2(data@, p1 as int, p2 as int, p3 as int);
        lemma_cat2(data@, pos as int, p1 as int, p3 as int);
    }
    Some((Function { typeidx: tix, locals, body: FunctionBody { opcodes } }, p3))
}

/// Reads one data segment.
fn de_segment(data: &Vec<u8>, pos: usize) -> (r: Option<(DataSegment, usize)>)
    ensures
        r is Some ==> ({
            let (d, p2) = r->Some_0;
            &&& pos <= p2 <= data@.len()
            &&& data@.subrange(pos as int, p2 as int) == wire_segment(d)
        }),
        forall|g: DataSegment|
            #[trigger] wire_at(data@, pos as int, wire_segment(g)) ==> r is Some
                && segment_matches(r->Some_0.0, g) && r->Some_0.1 == pos + wire_segment(g).len(),
{
    let r1 = de_u32(data, pos);
    proof {
        assert forall|g: DataSegment| #[trigger] wire_at(data@, pos as int, wire_segment(g)) implies (
        r1 is Some && r1->Some_0.0 == g.offset) by {
            assert(wire_segment(g) == le64(g.offset as u64) + wire_bytes(g.data@));
            lemma_wire_at_split(data@, pos as int, le64(g.offset as u64), wire_bytes(g.data@));
        }
    }
    let (off, p1) = match r1 {
        None => {
            return None;
        },
        Some(v) => v,
    };
    let r2 = de_bytes(data, p1);
    proof {
        assert forall|g: DataSegment| #[trigger] wire_at(data@, pos as int, wire_segment(g)) implies (
        r2 is Some && r2->Some_0.0@ == g.data@ && r2->Some_0.1 == pos + wire_segment(g).len()) by {
            assert(wire_segment(g) == le64(g.offset as u64) + wire_bytes(g.data@));
            lemma_wire_at_split(data@, pos as int, le64(g.offset as u64), wire_bytes(g.data@));
            vstd::std_specs::vec::axiom_spec_len(data);
            assert(wire_at(data@, p1 as int, wire_bytes(g.data@)));
            assert(g.data@.len() <= usize::MAX);
        }
    }
    match r2 {
        None => None,
        Some((bs, p2)) => {
            proof {
                lemma_cat2(data@, pos as int, p1 as int, p2 as int);
            }
            Some((DataSegment { offset: off, data: bs }, p2))
        },
    }
}

/// Reads one global.
fn de_global(data: &Vec<u8>, pos: usize) -> (r: Option<(Global, usize)>)
    ensures
        r is Some ==> ({
            let (g, p2) = r->Some_0;
            &&& pos <= p2 <= data@.len()
            &&& data@.subrange(pos as int, p2 as int) == wire_global(g)
        }),
        forall|g: Global|
            #[trigger] wire_at(data@, pos as int, wire_global(g)) ==> r is Some && r->Some_0.0
                == g && r->Some_0.1 == pos + wire_global(g).len(),
{
    let res = de_value(data, pos);
    proof {
        assert forall|g: Global| #[trigger] wire_at(data@, pos as int, wire_global(g)) implies (res
            is Some && res->Some_0.0 == g.value) by {
            assert(wire_global(g) == wire_value(g.value));
            assert(wire_at(data@, pos as int, wire_value(g.value)));
        }
    }
    match res {
        None => None,
        Some((v, p1)) => Some((Global { value: v }, p1)),
    }
}

/// Reads one import declaration.
fn de_native(data: &Vec<u8>, pos: usize) -> (r: Option<(Native, usize)>)
    ensures
        r is Some ==> ({
            let (n, p2) = r->Some_0;
            &&& pos <= p2 <= data@.len()
            &&& data@.subrange(pos as int, p2 as int) == wire_native(n)
        }),
        forall|v: Native|
            #[trigger] wire_at(data@, pos as int, wire_native(v)) ==> r is Some && native_matches(
                r->Some_0.0,
                v,
            ) && r->Some_0.1 == pos + wire_native(v).len(),
{
    let r1 = de_string(data, pos);
    proof {
        assert forall|v: Native| #[trigger] wire_at(data@, pos as int, wire_native(v)) implies (r1
            is Some && (r1->Some_0.0)@ == v.module@ && r1->Some_0.1 == pos + wire_string(
            v.module@,
        ).len()) by {
            assert(wire_native(v) =~= wire_string(v.module@) + (wire_string(v.field@) + le64(
                v.typeidx as u64,
            )));
            lemma_wire_at_split(
                data@,
                pos as int,
                wire_string(v.module@),
                wire_string(v.field@) + le64(v.typeidx as u64),
            );
        }
    }
    let (m_, p1) = match r1 {
        None => {
            return None;
        },
        Some(v) => v,
    };
    let r2 = de_string(data, p1);
    proof {
        assert forall|v: Native| #[trigger] wire_at(data@, pos as int, wire_native(v)) implies (r2
            is Some && (r2->Some_0.0)@ == v.field@ && r2->Some_0.1 == pos + wire_string(
            v.module@,
        ).len() + wire_string(v.field@).len()) by {
            assert(wire_native(v) =~= wire_string(v.module@) + (wire_string(v.field@) + le64(
                v.typeidx as u64,
            )));
            lemma_wire_at_split(
                data@,
                pos as int,
                wire_string(v.module@),
                wire_string(v.field@) + le64(v.typeidx as u64),
            );
            lemma_wire_at_split(
                data@,
                pos as int + wire_string(v.module@).len(),
                wire_string(v.field@),
                le64(v.typeidx as u64),
            );
            assert(wire_at(data@, p1 as int, wire_string(v.field@)));
        }
    }
    let (f_, p2) = match r2 {
        None => {
            return None;
        },
        Some(v) => v,
    };
    let r3 = de_u32(data, p2);
    proof {
        assert forall|v: Native| #[trigger] wire_at(data@, pos as int, wire_native(v)) implies (r3
            is Some && r3->Some_0.0 == v.typeidx && r3->Some_0.1 == pos + wire_native(v).len()) by {
            assert(wire_native(v) =~= wire_string(v.module@) + (wire_string(v.field@) + le64(
                v.typeidx as u64,
            )));
            lemma_wire_at_split(
                data@,
                pos as int,
                wire_string(v.module@),
                wire_string(v.field@) + le64(v.typeidx as u64),
            );
            lemma_wire_at_split(
                data@,
                pos as int + wire_string(v.module@).len(),
                wire_string(v.field@),
                le64(v.typeidx as u64),
            );
            assert(wire_at(data@, p2 as int, le64(v.typeidx as u64)));
        }
    }
    let (tix, p3) = match r3 {
        None => {
            return None;
        },
        Some(v) => v,
    };
    proof {
        lemma_cat2(data@, p1 as int, p2 as int, p3 as int);
        lemma_cat2(data@, pos as int, p1 as int, p3 as int);
    }
    Some((Native { module: m_, field: f_, typeidx: tix }, p3))
}

/// Reads one table.
fn de_table(data: &Vec<u8>, pos: usize) -> (r: Option<(Table, usize)>)
    ensures
        r is Some ==> ({
            let (t, p2) = r->Some_0;
            &&& pos <= p2 <= data@.len()
            &&& data@.subrange(pos as int, p2 as int) == wire_table(t)
        }),
        forall|t: Table|
            #[trigger] wire_at(data@, pos as int, wire_table(t)) ==> r is Some && table_matches(
                r->Some_0.0,
                t,
            ) && r->Some_0.1 == pos + wire_table(t).len(),
{
    let res = de_opts(data, pos);
    proof {
        assert forall|t: Table| #[trigger] wire_at(data@, pos as int, wire_table(t)) implies (res
            is Some && res->Some_0.0@ == t.elements@ && res->Some_0.1 == pos + wire_table(
            t,
        ).len()) by {
            assert(wire_table(t) == wire_opts(t.elements@));
            assert(wire_at(data@, pos as int, wire_opts(t.elements@)));
            vstd::std_specs::vec::axiom_spec_len(data);
            lemma_wire_opt_u32_list_len(t.elements@);
        }
    }
    match res {
        None => None,
        Some((es, p1)) => Some((Table { elements: es }, p1)),
    }
}

/// Exposes the six sections of a whole image, with their positions.
#[verifier::rlimit(100)]
#[verifier::spinoff_prover]
proof fn lemma_module_sections(d: Seq<u8>, pos: int, m: Module)
    requires
        wire_at(d, pos, wire_module(m)),
        d.len() <= usize::MAX,
    ensures
        wire_at(d, pos, wire_types(m.types@)),
        wire_at(d, pos + wire_types(m.types@).len(), wire_functions(m.functions@)),
        wire_at(
            d,
            pos + wire_types(m.types@).len() + wire_functions(m.functions@).len(),
            wire_segments(m.data_segments@),
        ),
        wire_at(
            d,
            pos + wire_types(m.types@).len() + wire_functions(m.functions@).len() + wire_segments(
                m.data_segments@,
            ).len(),
            wire_globals(m.globals@),
        ),
        wire_at(
            d,
            pos + wire_types(m.types@).len() + wire_functions(m.functions@).len() + wire_segments(
                m.data_segments@,
            ).len() + wire_globals(m.globals@).len(),
            wire_natives(m.natives@),
        ),
        wire_at(
            d,
            pos + wire_types(m.types@).len() + wire_functions(m.functions@).len() + wire_segments(
                m.data_segments@,
            ).len() + wire_globals(m.globals@).len() + wire_natives(m.natives@).len(),
            wire_tables(m.tables@),
        ),
        wire_module(m).len() == wire_types(m.types@).len() + wire_functions(m.functions@).len()
            + wire_segments(m.data_segments@).len() + wire_globals(m.globals@).len()
            + wire_natives(m.natives@).len() + wire_tables(m.tables@).len(),
        m.types@.len() <= usize::MAX,
        m.functions@.len() <= usize::MAX,
        m.data_segments@.len() <= usize::MAX,
        m.globals@.len() <= usize::MAX,
        m.natives@.len() <= usize::MAX,
        m.tables@.len() <= usize::MAX,
{
    assert(wire_module(m) =~= wire_types(m.types@) + (wire_functions(m.functions@) + (
    wire_segments(m.data_segments@) + (wire_globals(m.globals@) + (wire_natives(m.natives@)
        + wire_tables(m.tables@))))));
    lemma_wire_at_split(
        d,
        pos,
        wire_types(m.types@),
        wire_functions(m.functions@) + (wire_segments(m.data_segments@) + (wire_globals(
            m.globals@,
        ) + (wire_natives(m.natives@) + wire_tables(m.tables@)))),
    );
    lemma_wire_at_split(
        d,
        pos + wire_types(m.types@).len(),
        wire_functions(m.functions@),
        wire_segments(m.data_segments@) + (wire_globals(m.globals@) + (wire_natives(m.natives@)
            + wire_tables(m.tables@))),
    );
    lemma_wire_at_split(
        d,
        pos + wire_types(m.types@).len() + wire_functions(m.functions@).len(),
        wire_segments(m.data_segments@),
        wire_globals(m.globals@) + (wire_natives(m.natives@) + wire_tables(m.tables@)),
    );
    lemma_wire_at_split(
        d,
        pos + wire_types(m.types@).len() + wire_functions(m.functions@).len() + wire_segments(
            m.data_segments@,
        ).len(),
        wire_globals(m.globals@),
        wire_natives(m.natives@) + wire_tables(m.tables@),
    );
    lemma_wire_at_split(
        d,
        pos + wire_types(m.types@).len() + wire_functions(m.functions@).len() + wire_segments(
            m.data_segments@,
        ).len() + wire_globals(m.globals@).len(),
        wire_natives(m.natives@),
        wire_tables(m.tables@),
    );
    lemma_wire_type_list_len(m.types@);
    lemma_wire_function_list_len(m.functions@);
    lemma_wire_segment_list_len(m.data_segments@);
    lemma_wire_global_list_len(m.globals@);
    lemma_wire_native_list_len(m.natives@);
    lemma_wire_table_list_len(m.tables@);
}

/// Reads a whole image starting at `pos`.
#[verifier::rlimit(100)]
#[verifier::spinoff_prover]
fn de_module(data: &Vec<u8>, pos: usize) -> (r: Option<(Module, usize)>)
    ensures
        r is Some ==> ({
            let (m, p2) = r->Some_0;
            &&& pos <= p2 <= data@.len()
            &&& data@.subrange(pos as int, p2 as int) == wire_module(m)
        }),
        forall|m: Module|
            #[trigger] wire_at(data@, pos as int, wire_module(m)) ==> r is Some && module_matches(
                r->Some_0.0,
                m,
            ) && r->Some_0.1 == pos + wire_module(m).len(),
{
    let res0 = de_types(data, pos);
    proof {
        assert forall|m: Module| #[trigger] wire_at(data@, pos as int, wire_module(m)) implies (
        res0 is Some && type_seq_matches(res0->Some_0.0@, m.types@) && res0->Some_0.1 == pos as int + wire_types(m.types@).len()) by {
            vstd::std_specs::vec::axiom_spec_len(data);
            lemma_module_sections(data@, pos as int, m);
            assert(wire_at(data@, pos as int, wire_types(m.types@)));
        }
    }
    let (types, p1) = match res0 {
        None => {
            return None;
        },
        Some(v) => v,
    };
    let res1 = de_functions(data, p1);
    proof {
        assert forall|m: Module| #[trigger] wire_at(data@, pos as int, wire_module(m)) implies (
        res1 is Some && function_seq_matches(res1->Some_0.0@, m.functions@) && res1->Some_0.1 == pos as int + wire_types(m.types@).len() + wire_functions(m.functions@).len()) by {
            vstd::std_specs::vec::axiom_spec_len(data);
            lemma_module_sections(data@, pos as int, m);
            assert(wire_at(data@, p1 as int, wire_functions(m.functions@)));
        }
    }
    let (functions, p2) = match res1 {
        None => {
            return None;
        },
        Some(v) => v,
    };
    let res2 = de_segments(data, p2);
    proof {
        assert forall|m: Module| #[trigger] wire_at(data@, pos as int, wire_module(m)) implies (
        res2 is Some && segment_seq_matches(res2->Some_0.0@, m.data_segments@) && res2->Some_0.1 == pos as int + wire_types(m.types@).len() + wire_functions(m.functions@).len() + wire_segments(m.data_segments@).len()) by {
            vstd::std_specs::vec::axiom_spec_len(data);
            lemma_module_sections(data@, pos as int, m);
            assert(wire_at(data@, p2 as int, wire_segments(m.data_segments@)));
        }
    }
    let (data_segments, p3) = match res2 {
        None => {
            return None;
        },
        Some(v) => v,
    };
    let res3 = de_globals(data, p3);
    proof {
        assert forall|m: Module| #[trigger] wire_at(data@, pos as int, wire_module(m)) implies (
        res3 is Some && res3->Some_0.0@ == m.globals@ && res3->Some_0.1 == pos as int + wire_types(m.types@).len() + wire_functions(m.functions@).len() + wire_segments(m.data_segments@).len() + wire_globals(m.globals@).len()) by {
            vstd::std_specs::vec::axiom_spec_len(data);
            lemma_module_sections(data@, pos as int, m);
            assert(wire_at(data@, p3 as int, wire_globals(m.globals@)));
        }
    }
    let (globals, p4) = match res3 {
        None => {
            return None;
        },
        Some(v) => v,
    };
    let res4 = de_natives(data, p4);
    proof {
        assert forall|m: Module| #[trigger] wire_at(data@, pos as int, wire_module(m)) implies (
        res4 is Some && native_seq_matches(res4->Some_0.0@, m.natives@) && res4->Some_0.1 == pos as int + wire_types(m.types@).len() + wire_functions(m.functions@).len() + wire_segments(m.data_segments@).len() + wire_globals(m.globals@).len() + wire_natives(m.natives@).len()) by {
            vstd::std_specs::vec::axiom_spec_len(data);
            lemma_module_sections(data@, pos as int, m);
            assert(wire_at(data@, p4 as int, wire_natives(m.natives@)));
        }
    }
    let (natives, p5) = match res4 {
        None => {
            return None;
        },
        Some(v) => v,
    };
    let res5 = de_tables(data, p5);
    proof {
        assert forall|m: Module| #[trigger] wire_at(data@, pos as int, wire_module(m)) implies (
        res5 is Some && table_seq_matches(res5->Some_0.0@, m.tables@) && res5->Some_0.1 == pos as int + wire_types(m.types@).len() + wire_functions(m.functions@).len() + wire_segments(m.data_segments@).len() + wire_globals(m.globals@).len() + wire_natives(m.natives@).len() + wire_tables(m.tables@).len()) by {
            vstd::std_specs::vec::axiom_spec_len(data);
            lemma_module_sections(data@, pos as int, m);
            assert(wire_at(data@, p5 as int, wire_tables(m.tables@)));
        }
    }
    let (tables, p6) = match res5 {
        None => {
            return None;
        },
        Some(v) => v,
    };
    proof {
        lemma_cat2(data@, p4 as int, p5 as int, p6 as int);
        lemma_cat2(data@, p3 as int, p4 as int, p6 as int);
        lemma_cat2(data@, p2 as int, p3 as int, p6 as int);
        lemma_cat2(data@, p1 as int, p2 as int, p6 as int);
        lemma_cat2(data@, pos as int, p1 as int, p6 as int);
    }
    Some((Module { types, functions, data_segments, globals, natives, tables }, p6))
}

impl Module {
    /// Encodes the module as its opaque byte image; always succeeds and
    /// produces exactly `wire_module`.
    pub fn std_serialize(&self) -> (r: Option<Vec<u8>>)
        ensures
            r is Some,
            (r->Some_0)@ == wire_module(*self),
    {
        let mut buf: Vec<u8> = Vec::new();
        ser_module(&mut buf, self);
        Some(buf)
    }

    /// Decodes a byte image.  Faithful in both directions: a returned
    /// module's encoding is exactly the input, and on the encoding of any
    /// module it succeeds and reproduces that module, field for field.
    pub fn std_deserialize(data: &[u8]) -> (r: Option<Module>)
        ensures
            r is Some ==> wire_module(r->Some_0) == data@,
            forall|m: Module|
                data@ == wire_module(m) ==> r is Some && module_matches(r->Some_0, m),
    {
        let v = slice_to_vec(data);
        let mres = de_module(&v, 0);
        proof {
            assert forall|m: Module| data@ == wire_module(m) implies (mres is Some
                && module_matches(mres->Some_0.0, m) && mres->Some_0.1 == wire_module(
                m,
            ).len()) by {
                assert(v@.subrange(0, v@.len() as int) =~= v@);
                assert(wire_at(v@, 0, wire_module(m)));
            }
        }
        match mres {
            None => None,
            Some((m, p)) => {
                if p == v.len() {
                    proof {
                        assert(v@.subrange(0, v@.len() as int) =~= v@);
                    }
                    Some(m)
                } else {
                    None
                }
            },
        }
    }
}

} // verus!
