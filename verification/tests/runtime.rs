use wasm_core::jit::runtime::{
    Fault, NativeInvokeRequest, NativeResolver, Ondemand, Runtime, RuntimeConfig,
};
use wasm_core::module::{DataSegment, Global, Module, Native, Table, Type, ValType};
use wasm_core::value::{ExecuteError, Value};

struct NullOd;

impl Ondemand for NullOd {
    fn get_function_addr(&mut self, id: usize) -> usize {
        id * 1000
    }
}

struct AddResolver;

impl NativeResolver for AddResolver {
    fn resolve(&mut self, module: &str, field: &str) -> Option<usize> {
        if module == "env" && field == "add" {
            Some(7)
        } else {
            None
        }
    }

    fn invoke(
        &mut self,
        entry: usize,
        _mem: &mut Vec<u8>,
        args: &Vec<Value>,
    ) -> Result<Option<Value>, ExecuteError> {
        if entry != 7 {
            return Err(ExecuteError::ValueTypeMismatch);
        }
        let a = args[0].get_i32()?;
        let b = args[1].get_i32()?;
        Ok(Some(Value::I32(a + b)))
    }
}

fn empty_module() -> Module {
    Module {
        types: vec![],
        functions: vec![],
        data_segments: vec![],
        globals: vec![],
        natives: vec![],
        tables: vec![],
    }
}

fn cfg(default: usize, max: usize) -> RuntimeConfig {
    RuntimeConfig { mem_default: default, mem_max: max, opt_level: 0 }
}

fn new_rt(c: RuntimeConfig, m: Module) -> Result<Runtime<NullOd, AddResolver>, Fault> {
    Runtime::new(c, m)
}

#[test]
fn config_default_values() {
    let c = RuntimeConfig::default();
    assert_eq!(c.mem_default, 4096 * 1024);
    assert_eq!(c.mem_max, 16384 * 1024);
    assert_eq!(c.opt_level, 0);
}

#[test]
fn new_valid_config_initial_memory() {
    let rt = new_rt(cfg(16, 64), empty_module()).unwrap();
    assert_eq!(rt.mem.len(), 16);
    let info = rt.get_jit_info();
    assert_eq!(info.mem_len, 16);
    assert_eq!(info.global_count, 0);
}

#[test]
fn new_zero_default_faults() {
    assert_eq!(new_rt(cfg(0, 64), empty_module()).err(), Some(Fault::ConfigInvalid));
}

#[test]
fn new_max_below_default_faults() {
    assert_eq!(new_rt(cfg(16, 8), empty_module()).err(), Some(Fault::ConfigInvalid));
}

#[test]
fn new_loads_data_segments() {
    let mut m = empty_module();
    m.data_segments = vec![DataSegment { offset: 4, data: vec![9, 9] }];
    let rt = new_rt(cfg(16, 64), m).unwrap();
    let expect: Vec<u8> = vec![0, 0, 0, 0, 9, 9, 0, 0, 0, 0, 0, 0, 0, 0, 0, 0];
    assert_eq!(rt.mem, expect);
}

#[test]
fn new_rejects_oversized_segment() {
    let mut m = empty_module();
    m.data_segments = vec![DataSegment { offset: 15, data: vec![1, 2] }];
    assert_eq!(new_rt(cfg(16, 64), m).err(), Some(Fault::DataSegmentOutOfBounds));
}

#[test]
fn new_encodes_globals() {
    let mut m = empty_module();
    m.globals = vec![
        Global { value: Value::I32(-1) },
        Global { value: Value::F32(1.5f32.to_bits()) },
    ];
    let rt = new_rt(cfg(16, 64), m).unwrap();
    assert_eq!(rt.globals.len(), 2);
    assert_eq!(rt.globals[0], 0xFFFFFFFFi64);
    assert_eq!(rt.globals[1], (1.5f64).to_bits() as i64);
    assert_eq!(rt.get_jit_info().global_count, 2);
}

#[test]
fn grow_within_limit() {
    let mut rt = new_rt(cfg(16, 64), empty_module()).unwrap();
    let prev = rt.grow_memory(8).unwrap();
    assert_eq!(prev, 16);
    assert_eq!(rt.mem.len(), 24);
    assert_eq!(rt.get_jit_info().mem_len, 24);
    for i in 16..24 {
        assert_eq!(rt.mem[i], 0);
    }
    // a second grow reports the new previous length
    assert_eq!(rt.grow_memory(40).unwrap(), 24);
    assert_eq!(rt.get_jit_info().mem_len, 64);
}

#[test]
fn grow_beyond_limit_faults_and_keeps_length() {
    let mut rt = new_rt(cfg(16, 64), empty_module()).unwrap();
    assert_eq!(rt.grow_memory(49).err(), Some(Fault::MemoryLimitExceeded));
    assert_eq!(rt.mem.len(), 16);
    assert_eq!(rt.get_jit_info().mem_len, 16);
    assert_eq!(rt.grow_memory(usize::MAX).err(), Some(Fault::MemoryLimitExceeded));
    assert_eq!(rt.mem.len(), 16);
}

#[test]
fn ondemand_is_write_once() {
    let mut rt = new_rt(cfg(16, 64), empty_module()).unwrap();
    assert_eq!(rt.get_function_addr(3).err(), Some(Fault::OndemandNotSet));
    assert!(rt.set_ondemand(NullOd).is_ok());
    assert_eq!(rt.set_ondemand(NullOd).err(), Some(Fault::OndemandAlreadySet));
    assert_eq!(rt.get_function_addr(3).unwrap(), 3000);
}

#[test]
fn resolver_is_write_once() {
    let mut rt = new_rt(cfg(16, 64), empty_module()).unwrap();
    assert!(rt.set_native_resolver(AddResolver).is_ok());
    assert_eq!(
        rt.set_native_resolver(AddResolver).err(),
        Some(Fault::ResolverAlreadySet)
    );
}

fn table_module() -> Module {
    let mut m = empty_module();
    m.types = vec![Type::Func(vec![], vec![])];
    m.functions = vec![];
    m.tables = vec![Table { elements: vec![Some(1), None, Some(5), None] }];
    m
}

#[test]
fn indirect_call_null_entry_faults() {
    let mut rt = new_rt(cfg(16, 64), table_module()).unwrap();
    rt.set_ondemand(NullOd).unwrap();
    assert_eq!(rt.indirect_get_function_addr(3).err(), Some(Fault::NullTableEntry));
}

#[test]
fn indirect_call_resolves_like_direct() {
    let mut rt = new_rt(cfg(16, 64), table_module()).unwrap();
    rt.set_ondemand(NullOd).unwrap();
    let direct = rt.get_function_addr(5).unwrap();
    assert_eq!(rt.indirect_get_function_addr(2).unwrap(), direct);
    assert_eq!(rt.indirect_get_function_addr(0).unwrap(), 1000);
}

fn add_import_module() -> Module {
    let mut m = empty_module();
    m.types = vec![Type::Func(vec![ValType::I32, ValType::I32], vec![ValType::I32])];
    m.natives = vec![Native {
        module: "env".to_string(),
        field: "add".to_string(),
        typeidx: 0,
    }];
    m
}

#[test]
fn trampoline_add_completes() {
    let mut rt = new_rt(cfg(16, 64), add_import_module()).unwrap();
    rt.set_native_resolver(AddResolver).unwrap();
    let mut req = NativeInvokeRequest::new(2);
    req.push_arg(10);
    req.push_arg(20);
    let slot = rt.native_invoke_complete(req, 0).unwrap();
    assert_eq!(slot, Value::I32(30).reinterpret_as_i64());
    assert_eq!(slot, 30);
    // the memoized entry resolves again without a lookup
    let mut req2 = NativeInvokeRequest::new(2);
    req2.push_arg(1);
    req2.push_arg(2);
    assert_eq!(rt.native_invoke_complete(req2, 0).unwrap(), 3);
}

#[test]
fn trampoline_arity_mismatch_faults() {
    let mut rt = new_rt(cfg(16, 64), add_import_module()).unwrap();
    rt.set_native_resolver(AddResolver).unwrap();
    let mut req = NativeInvokeRequest::new(2);
    req.push_arg(10);
    assert_eq!(
        rt.native_invoke_complete(req, 0).err(),
        Some(Fault::NativeArityMismatch)
    );
}

#[test]
fn trampoline_without_resolver_faults() {
    let mut rt = new_rt(cfg(16, 64), add_import_module()).unwrap();
    let mut req = NativeInvokeRequest::new(2);
    req.push_arg(10);
    req.push_arg(20);
    assert_eq!(
        rt.native_invoke_complete(req, 0).err(),
        Some(Fault::NativeNotResolved)
    );
}

#[test]
fn trampoline_unknown_import_faults() {
    let mut m = add_import_module();
    m.natives[0].field = "mul".to_string();
    let mut rt = new_rt(cfg(16, 64), m).unwrap();
    rt.set_native_resolver(AddResolver).unwrap();
    let mut req = NativeInvokeRequest::new(2);
    req.push_arg(10);
    req.push_arg(20);
    assert_eq!(
        rt.native_invoke_complete(req, 0).err(),
        Some(Fault::NativeNotResolved)
    );
}

#[test]
fn trampoline_reinterprets_at_declared_kinds() {
    // a declared I32 argument arrives as its 32-bit reading of the slot
    let mut rt = new_rt(cfg(16, 64), add_import_module()).unwrap();
    rt.set_native_resolver(AddResolver).unwrap();
    let mut req = NativeInvokeRequest::new(2);
    // high garbage bits above the low 32 are cut by the declared kind
    req.push_arg(0x1_0000_0004u64 as i64);
    req.push_arg(2);
    assert_eq!(rt.native_invoke_complete(req, 0).unwrap(), 6);
}
