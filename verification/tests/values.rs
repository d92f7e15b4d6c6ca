use wasm_core::module::ValType;
use wasm_core::value::{ExecuteError, Value};

#[test]
fn default_is_undef() {
    assert_eq!(Value::default(), Value::Undef);
}

#[test]
fn get_i32_accessor() {
    assert_eq!(Value::Undef.get_i32(), Ok(0));
    assert_eq!(Value::I32(-7).get_i32(), Ok(-7));
    assert_eq!(Value::I64(7).get_i32(), Err(ExecuteError::ValueTypeMismatch));
    assert_eq!(
        Value::F32(1.0f32.to_bits()).get_i32(),
        Err(ExecuteError::ValueTypeMismatch)
    );
}

#[test]
fn get_i64_accessor() {
    assert_eq!(Value::Undef.get_i64(), Ok(0));
    assert_eq!(Value::I64(-7).get_i64(), Ok(-7));
    assert_eq!(Value::I32(7).get_i64(), Err(ExecuteError::ValueTypeMismatch));
}

#[test]
fn reinterpret_i32_zero_extends() {
    // -1 as a slot is the unsigned 32-bit pattern, zero-extended
    assert_eq!(Value::I32(-1).reinterpret_as_i64(), 0xFFFFFFFFi64);
    assert_eq!(Value::I32(5).reinterpret_as_i64(), 5);
    assert_eq!(Value::Undef.reinterpret_as_i64(), 0);
    assert_eq!(Value::I64(-1).reinterpret_as_i64(), -1);
}

#[test]
fn reinterpret_f32_widens_to_double_bits() {
    // the single-precision payload is widened by value before the slot
    // encoding, so the slot holds the double's bit pattern
    let v = Value::F32(1.5f32.to_bits());
    assert_eq!(v.reinterpret_as_i64(), (1.5f64).to_bits() as i64);
    let w = Value::F32((-2.25f32).to_bits());
    assert_eq!(w.reinterpret_as_i64(), (-2.25f64).to_bits() as i64);
    // subnormal single widens to a normal double, still by value
    let tiny = f32::from_bits(1);
    assert_eq!(
        Value::F32(tiny.to_bits()).reinterpret_as_i64(),
        (tiny as f64).to_bits() as i64
    );
    // infinity
    assert_eq!(
        Value::F32(f32::INFINITY.to_bits()).reinterpret_as_i64(),
        f64::INFINITY.to_bits() as i64
    );
}

#[test]
fn reinterpret_f64_is_bit_identity() {
    let v = Value::F64((3.25f64).to_bits());
    assert_eq!(v.reinterpret_as_i64(), (3.25f64).to_bits() as i64);
}

#[test]
fn reinterpret_round_trip_concrete() {
    let cases = [
        Value::I32(5),
        Value::I32(-1),
        Value::I32(i32::MIN),
        Value::I64(i64::MIN),
        Value::I64(12345678901234),
        Value::F32(1.5f32.to_bits()),
        Value::F32((-0.0f32).to_bits()),
        Value::F32(f32::NAN.to_bits()),
        Value::F32(f32::from_bits(1).to_bits()),
        Value::F32(f32::INFINITY.to_bits()),
        Value::F64((6.02e23f64).to_bits()),
        Value::F64(f64::NAN.to_bits()),
    ];
    for v in cases {
        let kind = match v {
            Value::I32(_) => ValType::I32,
            Value::I64(_) => ValType::I64,
            Value::F32(_) => ValType::F32,
            Value::F64(_) => ValType::F64,
            Value::Undef => unreachable!(),
        };
        assert_eq!(Value::reinterpret_from_i64(v.reinterpret_as_i64(), kind), v);
    }
}

#[test]
fn reinterpret_from_i64_narrows_f32() {
    let slot = (1.5f64).to_bits() as i64;
    assert_eq!(
        Value::reinterpret_from_i64(slot, ValType::F32),
        Value::F32(1.5f32.to_bits())
    );
    let slot2 = 0x1_0000_0005u64 as i64;
    assert_eq!(Value::reinterpret_from_i64(slot2, ValType::I32), Value::I32(5));
}

#[test]
fn cast_to_i64_truncates() {
    assert_eq!(Value::Undef.cast_to_i64(), 0);
    assert_eq!(Value::I32(-3).cast_to_i64(), -3);
    assert_eq!(Value::I64(9).cast_to_i64(), 9);
    assert_eq!(Value::F64((3.7f64).to_bits()).cast_to_i64(), 3);
    assert_eq!(Value::F64((-3.7f64).to_bits()).cast_to_i64(), -3);
    assert_eq!(Value::F32((2.999f32).to_bits()).cast_to_i64(), 2);
    assert_eq!(Value::F32((-0.5f32).to_bits()).cast_to_i64(), 0);
    // NaN and out-of-range values convert to 0 rather than faulting
    assert_eq!(Value::F64(f64::NAN.to_bits()).cast_to_i64(), 0);
    assert_eq!(Value::F64((1e300f64).to_bits()).cast_to_i64(), 0);
    assert_eq!(Value::F64(f64::INFINITY.to_bits()).cast_to_i64(), 0);
    assert_eq!(Value::F64((-9.223372036854776e18f64).to_bits()).cast_to_i64(), i64::MIN);
    assert_eq!(Value::F64((4294967296.5f64).to_bits()).cast_to_i64(), 4294967296);
}
