use wasm_core::module::{
    DataSegment, Function, FunctionBody, Global, Module, Native, Table, Type, ValType,
};
use wasm_core::opcode::{Memarg, Opcode};
use wasm_core::value::Value;

fn rich_module() -> Module {
    Module {
        types: vec![
            Type::Func(vec![ValType::I32, ValType::F64], vec![ValType::I64]),
            Type::Func(vec![], vec![]),
        ],
        functions: vec![Function {
            typeidx: 0,
            locals: vec![ValType::F32, ValType::I64],
            body: FunctionBody {
                opcodes: vec![
                    Opcode::I32Const(-5),
                    Opcode::GetLocal(1),
                    Opcode::I64Const(i64::MIN),
                    Opcode::I32Load(Memarg { offset: 16, align: 2 }),
                    Opcode::I32Add,
                    Opcode::JmpTable(vec![1, 2, 9], 3),
                    Opcode::Return,
                ],
            },
        }],
        data_segments: vec![DataSegment { offset: 4, data: vec![9, 9, 255] }],
        globals: vec![
            Global { value: Value::Undef },
            Global { value: Value::I32(-1) },
            Global { value: Value::I64(7) },
            Global { value: Value::F32(1.5f32.to_bits()) },
            Global { value: Value::F64((2.5f64).to_bits()) },
        ],
        natives: vec![Native {
            module: "env".to_string(),
            field: "späther".to_string(),
            typeidx: 1,
        }],
        tables: vec![Table { elements: vec![Some(0), None, Some(3)] }],
    }
}

#[test]
fn round_trip_rich_module() {
    let m = rich_module();
    let bytes = m.std_serialize().unwrap();
    let m2 = Module::std_deserialize(&bytes).unwrap();

    assert_eq!(m2.types.len(), 2);
    assert!(matches!(&m2.types[0], Type::Func(a, r)
        if a == &vec![ValType::I32, ValType::F64] && r == &vec![ValType::I64]));
    assert!(matches!(&m2.types[1], Type::Func(a, r) if a.is_empty() && r.is_empty()));

    assert_eq!(m2.functions.len(), 1);
    let f = &m2.functions[0];
    assert_eq!(f.typeidx, 0);
    assert_eq!(f.locals, vec![ValType::F32, ValType::I64]);
    let ops = &f.body.opcodes;
    assert_eq!(ops.len(), 7);
    assert!(matches!(ops[0], Opcode::I32Const(-5)));
    assert!(matches!(ops[1], Opcode::GetLocal(1)));
    assert!(matches!(ops[2], Opcode::I64Const(i64::MIN)));
    assert!(matches!(ops[3], Opcode::I32Load(Memarg { offset: 16, align: 2 })));
    assert!(matches!(ops[4], Opcode::I32Add));
    assert!(matches!(&ops[5], Opcode::JmpTable(t, 3) if t == &vec![1, 2, 9]));
    assert!(matches!(ops[6], Opcode::Return));

    assert_eq!(m2.data_segments.len(), 1);
    assert_eq!(m2.data_segments[0].offset, 4);
    assert_eq!(m2.data_segments[0].data, vec![9, 9, 255]);

    assert_eq!(m2.globals.len(), 5);
    assert_eq!(m2.globals[0].value, Value::Undef);
    assert_eq!(m2.globals[1].value, Value::I32(-1));
    assert_eq!(m2.globals[2].value, Value::I64(7));
    assert_eq!(m2.globals[3].value, Value::F32(1.5f32.to_bits()));
    assert_eq!(m2.globals[4].value, Value::F64((2.5f64).to_bits()));

    assert_eq!(m2.natives.len(), 1);
    assert_eq!(m2.natives[0].module, "env");
    assert_eq!(m2.natives[0].field, "späther");
    assert_eq!(m2.natives[0].typeidx, 1);

    assert_eq!(m2.tables.len(), 1);
    assert_eq!(m2.tables[0].elements, vec![Some(0), None, Some(3)]);

    // decoding is byte-faithful: re-encoding reproduces the bytes exactly
    let bytes2 = m2.std_serialize().unwrap();
    assert_eq!(bytes, bytes2);
}

#[test]
fn round_trip_empty_module() {
    let m = Module {
        types: vec![],
        functions: vec![],
        data_segments: vec![],
        globals: vec![],
        natives: vec![],
        tables: vec![],
    };
    let bytes = m.std_serialize().unwrap();
    assert_eq!(bytes.len(), 48);
    let m2 = Module::std_deserialize(&bytes).unwrap();
    assert!(m2.types.is_empty());
    assert!(m2.functions.is_empty());
    assert!(m2.data_segments.is_empty());
    assert!(m2.globals.is_empty());
    assert!(m2.natives.is_empty());
    assert!(m2.tables.is_empty());
}

#[test]
fn deserialize_rejects_malformed_input() {
    assert!(Module::std_deserialize(&[]).is_none());
    assert!(Module::std_deserialize(&[1, 2, 3]).is_none());
    // a valid image with trailing garbage is rejected
    let m = rich_module();
    let mut bytes = m.std_serialize().unwrap();
    bytes.push(0);
    assert!(Module::std_deserialize(&bytes).is_none());
    // a truncated image is rejected
    let bytes3 = m.std_serialize().unwrap();
    assert!(Module::std_deserialize(&bytes3[..bytes3.len() - 1]).is_none());
}
