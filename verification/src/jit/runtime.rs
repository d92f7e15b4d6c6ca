//! The `Runtime`: live state of an instantiated module, and the entry
//! points generated native code calls back into.
//!
//! Addresses handed to generated code are opaque machine words, and the
//! info block is published as plain values: the embedder that actually
//! vends raw pointers keeps its own copy of the block in sync from these
//! and must republish it after every grow, since growth may relocate the
//! buffer.

use vstd::prelude::*;
use vstd::pervasive::VecAdditionalExecFns;
use crate::module::{DataSegment, Module, Type, ValType};
use crate::value::{
    spec_reinterpret_as_i64, spec_reinterpret_from_i64, ExecuteError, Value,
};

verus! {

/// A terminating fault: a programmer or integration error the embedder
/// must prevent by construction or catch at a higher layer.  The runtime
/// reports it and refuses the operation; it never corrupts its state.
#[derive(Copy, Clone, Debug, PartialEq, Eq, Structural)]
pub enum Fault {
    /// `mem_max < mem_default` or `mem_default == 0` at construction.
    ConfigInvalid,
    /// A data segment does not fit in the default memory size.
    DataSegmentOutOfBounds,
    /// A grow request would pass the configured memory ceiling.
    MemoryLimitExceeded,
    /// The lazy-compiler handle was attached twice.
    OndemandAlreadySet,
    /// A resolution was requested before a lazy compiler was attached.
    OndemandNotSet,
    /// The native resolver was attached twice.
    ResolverAlreadySet,
    /// The pushed argument count disagrees with the declared arity.
    NativeArityMismatch,
    /// No resolver is configured, or it does not know the import.
    NativeNotResolved,
    /// The bound native entry reported an error.
    NativeInvokeFailed,
    /// An indirect call went through an absent table element.
    NullTableEntry,
}

/// Lazy-compilation collaborator: turns a bytecode function index into a
/// native entry address, compiling on first access.
pub trait Ondemand {
    fn get_function_addr(&mut self, id: usize) -> usize;
}

/// Native-symbol collaborator: binds `{module, field}` import pairs to
/// callable entries and carries out the calls.  During a call the native
/// code is handed read/write access to linear memory and (being the
/// resolver itself) further resolution, and nothing else.
pub trait NativeResolver {
    fn resolve(&mut self, module: &str, field: &str) -> Option<usize>;

    fn invoke(&mut self, entry: usize, mem: &mut Vec<u8>, args: &Vec<Value>) -> Result<
        Option<Value>,
        ExecuteError,
    >;
}

/// Construction parameters of a `Runtime`.
#[derive(Copy, Clone, Debug, PartialEq, Eq, Structural)]
pub struct RuntimeConfig {
    pub mem_default: usize,
    pub mem_max: usize,
    pub opt_level: u32,
}

impl Default for RuntimeConfig {
    /// 4 MiB of initial memory under a 16 MiB ceiling, no optimization.
    fn default() -> (r: RuntimeConfig)
        ensures
            r == (RuntimeConfig { mem_default: 0x400000usize, mem_max: 0x1000000usize, opt_level: 0u32 }),
    {
        RuntimeConfig { mem_default: 4096 * 1024, mem_max: 16384 * 1024, opt_level: 0 }
    }
}

/// The info block generated code reads to locate the current memory and
/// globals.  Republished on every grow; its values always match the live
/// buffers.
#[derive(Copy, Clone, Debug, PartialEq, Eq, Structural)]
pub struct JitInfo {
    /// Current length of linear memory in bytes.
    pub mem_len: usize,
    /// Number of 64-bit global slots.
    pub global_count: usize,
}

/// A native-import binding cell: unresolved `{module, field}` until first
/// use, then the resolved entry.
#[derive(Clone, Debug)]
pub enum NativeFunction {
    Uninitialized(String, String),
    Ready(usize),
}

/// One import's binding cell together with its declared type index.
#[derive(Clone, Debug)]
pub struct NativeFunctionInfo {
    pub f: NativeFunction,
    pub typeidx: usize,
}

/// A small-vector argument buffer: up to 16 raw slots live inline, more
/// spill to the heap.  Held opaquely; its contents are reached through the
/// wrappers below, over `sv_args`.
#[verifier::external_body]
pub struct ArgBuffer {
    inner: smallvec::SmallVec<[i64; 16]>,
}

/// The raw argument slots held by a buffer, oldest first.
pub uninterp spec fn sv_args(v: ArgBuffer) -> Seq<i64>;

/// Relies on smallvec::SmallVec::with_capacity: constructs an empty vector
/// (the capacity request does not add items).
#[verifier::external_body]
fn sv_with_capacity(n: usize) -> (r: ArgBuffer)
    ensures
        sv_args(r) == Seq::<i64>::empty(),
{
    ArgBuffer { inner: smallvec::SmallVec::with_capacity(n) }
}

/// Relies on smallvec::SmallVec::push: appends one item at the end.
#[verifier::external_body]
fn sv_push(v: &mut ArgBuffer, x: i64)
    requires
        sv_args(*old(v)).len() < usize::MAX,
    ensures
        sv_args(*final(v)) == sv_args(*old(v)).push(x),
{
    v.inner.push(x)
}

/// Relies on smallvec::SmallVec::len: the number of items held.
#[verifier::external_body]
fn sv_len(v: &ArgBuffer) -> (r: usize)
    ensures
        r == sv_args(*v).len(),
{
    v.inner.len()
}

/// Relies on the index operator of smallvec::SmallVec: the `i`-th item.
#[verifier::external_body]
fn sv_get(v: &ArgBuffer, i: usize) -> (r: i64)
    requires
        i < sv_args(*v).len(),
    ensures
        r == sv_args(*v)[i as int],
{
    v.inner[i]
}

/// The invoke request of the begin/push/complete trampoline protocol.
pub struct NativeInvokeRequest {
    args: ArgBuffer,
}

impl NativeInvokeRequest {
    /// The raw slots pushed so far, in order.
    pub closed spec fn args_seq(self) -> Seq<i64> {
        sv_args(self.args)
    }

    /// Begin: a request sized for the expected argument count, holding no
    /// arguments yet.
    pub fn new(n_args: usize) -> (r: NativeInvokeRequest)
        ensures
            r.args_seq() == Seq::<i64>::empty(),
    {
        NativeInvokeRequest { args: sv_with_capacity(n_args) }
    }

    /// Push: append one raw argument slot; called once per argument, in
    /// declaration order.
    pub fn push_arg(&mut self, arg: i64)
        requires
            old(self).args_seq().len() < usize::MAX,
        ensures
            final(self).args_seq() == old(self).args_seq().push(arg),
    {
        sv_push(&mut self.args, arg);
    }

    /// The number of slots pushed so far.
    pub fn n_args(&self) -> (r: usize)
        ensures
            r == self.args_seq().len(),
    {
        sv_len(&self.args)
    }
}

/// `n` zero bytes.
pub open spec fn spec_zero_bytes(n: nat) -> Seq<u8> {
    Seq::new(n, |i: int| 0u8)
}

/// `mem` with `data` copied in at byte offset `off`.
pub open spec fn spec_store_bytes(mem: Seq<u8>, off: int, data: Seq<u8>) -> Seq<u8> {
    Seq::new(
        mem.len(),
        |i: int|
            if off <= i < off + data.len() {
                data[i - off]
            } else {
                mem[i]
            },
    )
}

/// `mem` with every segment's payload copied in, in declaration order.
pub open spec fn spec_load_segments(mem: Seq<u8>, segs: Seq<DataSegment>) -> Seq<u8>
    decreases segs.len(),
{
    if segs.len() == 0 {
        mem
    } else {
        spec_store_bytes(
            spec_load_segments(mem, segs.drop_last()),
            segs.last().offset as int,
            segs.last().data@,
        )
    }
}

/// Every segment's `offset + len(data)` stays within `n` bytes.
pub open spec fn spec_segments_in_bounds(segs: Seq<DataSegment>, n: int) -> bool {
    forall|k: int|
        0 <= k < segs.len() ==> (#[trigger] segs[k]).offset + segs[k].data@.len() <= n
}

/// The argument kinds of a signature.
pub open spec fn spec_arg_kinds(t: Type) -> Seq<ValType> {
    match t {
        Type::Func(a, _) => a@,
    }
}

/// The live state of an instantiated program.
pub struct Runtime<O: Ondemand, R: NativeResolver> {
    pub opt_level: u32,
    pub mem: Vec<u8>,
    pub mem_max: usize,
    pub source_module: Module,
    pub globals: Vec<i64>,
    pub native_functions: Vec<NativeFunctionInfo>,
    pub native_resolver: Option<R>,
    pub ondemand: Option<O>,
    pub jit_info: JitInfo,
}

impl<O: Ondemand, R: NativeResolver> Runtime<O, R> {
    /// Well-formedness: the published info block matches the live buffers,
    /// the module is internally consistent, and every binding cell carries
    /// an in-range type index.
    pub open spec fn wf(self) -> bool {
        &&& self.jit_info.mem_len == self.mem@.len()
        &&& self.jit_info.global_count == self.globals@.len()
        &&& self.source_module.valid()
        &&& self.native_functions@.len() == self.source_module.natives@.len()
        &&& forall|i: int|
            0 <= i < self.native_functions@.len() ==> (#[trigger] self.native_functions@[i]).typeidx
                < self.source_module.types@.len()
    }

    /// The declared argument kinds of import `id`.
    pub open spec fn spec_native_arg_kinds(self, id: int) -> Seq<ValType> {
        spec_arg_kinds(self.source_module.types@[self.native_functions@[id].typeidx as int])
    }

    /// Instantiates `m`: zero-filled memory of the default size overlaid
    /// with the data segments, globals materialized from their typed
    /// initial values in slot encoding, every import cell unresolved, and
    /// the info block published to match.
    #[verifier::loop_isolation(false)]
    pub fn new(cfg: RuntimeConfig, m: Module) -> (r: Result<Runtime<O, R>, Fault>)
        requires
            m.valid(),
        ensures
            (cfg.mem_default == 0 || cfg.mem_max < cfg.mem_default) ==> r == Err::<
                Runtime<O, R>,
                Fault,
            >(Fault::ConfigInvalid),
            (cfg.mem_default > 0 && cfg.mem_max >= cfg.mem_default && !spec_segments_in_bounds(
                m.data_segments@,
                cfg.mem_default as int,
            )) ==> r == Err::<Runtime<O, R>, Fault>(Fault::DataSegmentOutOfBounds),
            (cfg.mem_default > 0 && cfg.mem_max >= cfg.mem_default && spec_segments_in_bounds(
                m.data_segments@,
                cfg.mem_default as int,
            )) ==> r is Ok && ({
                let rt = r->Ok_0;
                &&& rt.wf()
                &&& rt.mem@ == spec_load_segments(
                    spec_zero_bytes(cfg.mem_default as nat),
                    m.data_segments@,
                )
                &&& rt.mem@.len() == cfg.mem_default
                &&& rt.mem_max == cfg.mem_max
                &&& rt.opt_level == cfg.opt_level
                &&& rt.source_module == m
                &&& rt.globals@.len() == m.globals@.len()
                &&& (forall|i: int|
                    0 <= i < m.globals@.len() ==> rt.globals@[i] == spec_reinterpret_as_i64(
                        (#[trigger] m.globals@[i]).value,
                    ))
                &&& (forall|i: int|
                    0 <= i < m.natives@.len() ==> (#[trigger] rt.native_functions@[i])
                        == (NativeFunctionInfo {
                        f: NativeFunction::Uninitialized(
                            m.natives@[i].module,
                            m.natives@[i].field,
                        ),
                        typeidx: m.natives@[i].typeidx as usize,
                    }))
                &&& rt.native_resolver is None
                &&& rt.ondemand is None
                &&& rt.jit_info == (JitInfo {
                    mem_len: cfg.mem_default,
                    global_count: m.globals@.len() as usize,
                })
            }),
    {
        if cfg.mem_max < cfg.mem_default || cfg.mem_default == 0 {
            return Err(Fault::ConfigInvalid);
        }
        // reject any segment that does not fit the default memory size
        let mut si: usize = 0;
        while si < m.data_segments.len()
            invariant
                si <= m.data_segments@.len(),
                forall|k: int|
                    0 <= k < si ==> (#[trigger] m.data_segments@[k]).offset
                        + m.data_segments@[k].data@.len() <= cfg.mem_default,
            decreases m.data_segments@.len() - si,
        {
            let ds = &m.data_segments[si];
            if ds.data.len() > cfg.mem_default || (ds.offset as usize) > cfg.mem_default
                - ds.data.len() {
                return Err(Fault::DataSegmentOutOfBounds);
            }
            si = si + 1;
        }
        // zero-filled default memory
        let mut mem: Vec<u8> = Vec::new();
        let mut zi: usize = 0;
        while zi < cfg.mem_default
            invariant
                zi <= cfg.mem_default,
                mem@ =~= spec_zero_bytes(zi as nat),
            decreases cfg.mem_default - zi,
        {
            mem.push(0);
            proof {
                assert(mem@ =~= spec_zero_bytes((zi + 1) as nat));
            }
            zi = zi + 1;
        }
        // overlay the data segments, in order
        let mut si2: usize = 0;
        while si2 < m.data_segments.len()
            invariant
                si2 <= m.data_segments@.len(),
                mem@.len() == cfg.mem_default,
                spec_segments_in_bounds(m.data_segments@, cfg.mem_default as int),
                mem@ == spec_load_segments(
                    spec_zero_bytes(cfg.mem_default as nat),
                    m.data_segments@.take(si2 as int),
                ),
            decreases m.data_segments@.len() - si2,
        {
            let ds = &m.data_segments[si2];
            let off = ds.offset as usize;
            let ghost prev = mem@;
            let mut j: usize = 0;
            while j < ds.data.len()
                invariant
                    j <= ds.data@.len(),
                    off + ds.data@.len() <= prev.len(),
                    mem@.len() == prev.len(),
                    ds == &m.data_segments@[si2 as int],
                    si2 < m.data_segments@.len(),
                    mem@ =~= spec_store_bytes(prev, off as int, ds.data@.take(j as int)),
                decreases ds.data@.len() - j,
            {
                let b = ds.data[j];
                mem.set(off + j, b);
                proof {
                    assert(mem@ =~= spec_store_bytes(
                        prev,
                        off as int,
                        ds.data@.take((j + 1) as int),
                    ));
                }
                j = j + 1;
            }
            proof {
                assert(ds.data@.take(ds.data@.len() as int) =~= ds.data@);
                assert(m.data_segments@.take((si2 + 1) as int).drop_last() =~= m.data_segments@.take(
                    si2 as int,
                ));
                assert(m.data_segments@.take((si2 + 1) as int).last() == m.data_segments@[si2 as int]);
                assert(mem@ == spec_load_segments(
                    spec_zero_bytes(cfg.mem_default as nat),
                    m.data_segments@.take((si2 + 1) as int),
                ));
            }
            si2 = si2 + 1;
        }
        proof {
            assert(m.data_segments@.take(m.data_segments@.len() as int) =~= m.data_segments@);
        }
        // globals in slot encoding
        let mut globals: Vec<i64> = Vec::new();
        let mut gi: usize = 0;
        while gi < m.globals.len()
            invariant
                gi <= m.globals@.len(),
                globals@.len() == gi,
                forall|k: int|
                    0 <= k < gi ==> globals@[k] == spec_reinterpret_as_i64(
                        (#[trigger] m.globals@[k]).value,
                    ),
            decreases m.globals@.len() - gi,
        {
            let g = &m.globals[gi];
            globals.push(g.value.reinterpret_as_i64());
            gi = gi + 1;
        }
        // unresolved import binding cells
        let mut nfs: Vec<NativeFunctionInfo> = Vec::new();
        let mut ni: usize = 0;
        while ni < m.natives.len()
            invariant
                ni <= m.natives@.len(),
                nfs@.len() == ni,
                forall|k: int|
                    0 <= k < ni ==> (#[trigger] nfs@[k]) == (NativeFunctionInfo {
                        f: NativeFunction::Uninitialized(m.natives@[k].module, m.natives@[k].field),
                        typeidx: m.natives@[k].typeidx as usize,
                    }),
            decreases m.natives@.len() - ni,
        {
            let n = &m.natives[ni];
            let tix = n.typeidx as usize;
            nfs.push(
                NativeFunctionInfo {
                    f: NativeFunction::Uninitialized(n.module.clone(), n.field.clone()),
                    typeidx: tix,
                },
            );
            ni = ni + 1;
        }
        let glen = globals.len();
        Ok(
            Runtime {
                opt_level: cfg.opt_level,
                mem,
                mem_max: cfg.mem_max,
                source_module: m,
                globals,
                native_functions: nfs,
                native_resolver: None,
                ondemand: None,
                jit_info: JitInfo { mem_len: cfg.mem_default, global_count: glen },
            },
        )
    }

    /// Attaches the lazy-compiler handle, exactly once.
    pub fn set_ondemand(&mut self, ondemand: O) -> (r: Result<(), Fault>)
        ensures
            old(self).ondemand is None ==> r is Ok && *final(self) == (Runtime {
                ondemand: Some(ondemand),
                ..*old(self)
            }),
            old(self).ondemand is Some ==> r == Err::<(), Fault>(Fault::OndemandAlreadySet)
                && *final(self) == *old(self),
    {
        if self.ondemand.is_some() {
            return Err(Fault::OndemandAlreadySet);
        }
        self.ondemand = Some(ondemand);
        Ok(())
    }

    /// Attaches the native resolver, exactly once.
    pub fn set_native_resolver(&mut self, resolver: R) -> (r: Result<(), Fault>)
        ensures
            old(self).native_resolver is None ==> r is Ok && *final(self) == (Runtime {
                native_resolver: Some(resolver),
                ..*old(self)
            }),
            old(self).native_resolver is Some ==> r == Err::<(), Fault>(Fault::ResolverAlreadySet)
                && *final(self) == *old(self),
    {
        if self.native_resolver.is_some() {
            return Err(Fault::ResolverAlreadySet);
        }
        self.native_resolver = Some(resolver);
        Ok(())
    }

    /// Resolves (compiling on demand) the native entry address of bytecode
    /// function `id`; requires an attached lazy compiler.
    pub fn get_function_addr(&mut self, id: usize) -> (r: Result<usize, Fault>)
        ensures
            r is Ok <==> old(self).ondemand is Some,
            old(self).ondemand is None ==> r == Err::<usize, Fault>(Fault::OndemandNotSet),
            final(self).mem == old(self).mem,
            final(self).globals == old(self).globals,
            final(self).jit_info == old(self).jit_info,
            final(self).native_functions == old(self).native_functions,
            final(self).source_module == old(self).source_module,
            final(self).mem_max == old(self).mem_max,
            final(self).opt_level == old(self).opt_level,
            final(self).native_resolver == old(self).native_resolver,
            final(self).ondemand is Some <==> old(self).ondemand is Some,
    {
        match &mut self.ondemand {
            Some(od) => Ok(od.get_function_addr(id)),
            None => Err(Fault::OndemandNotSet),
        }
    }

    /// Resolves an indirect call through table 0: an absent element is the
    /// null-entry fault; a present one resolves like a direct call.
    pub fn indirect_get_function_addr(&mut self, id_in_table: usize) -> (r: Result<usize, Fault>)
        requires
            old(self).source_module.tables@.len() > 0,
            id_in_table < old(self).source_module.tables@[0].elements@.len(),
        ensures
            old(self).source_module.tables@[0].elements@[id_in_table as int] is None ==> r == Err::<
                usize,
                Fault,
            >(Fault::NullTableEntry) && *final(self) == *old(self),
            old(self).source_module.tables@[0].elements@[id_in_table as int] is Some ==> (r
                is Ok <==> old(self).ondemand is Some),
            (old(self).source_module.tables@[0].elements@[id_in_table as int] is Some && old(self).ondemand is None) ==> r == Err::<usize, Fault>(Fault::OndemandNotSet),
            final(self).mem == old(self).mem,
            final(self).globals == old(self).globals,
            final(self).jit_info == old(self).jit_info,
            final(self).native_functions == old(self).native_functions,
            final(self).source_module == old(self).source_module,
            final(self).mem_max == old(self).mem_max,
            final(self).opt_level == old(self).opt_level,
            final(self).native_resolver == old(self).native_resolver,
            final(self).ondemand is Some <==> old(self).ondemand is Some,
    {
        let t = &self.source_module.tables[0];
        let entry = t.elements[id_in_table];
        match entry {
            None => Err(Fault::NullTableEntry),
            Some(fidx) => {
                let id = fidx as usize;
                self.get_function_addr(id)
            },
        }
    }

    /// Grows linear memory by `len_inc` zero bytes, returning the previous
    /// length and republishing the info block; a request past the ceiling
    /// faults and changes nothing.
    #[verifier::loop_isolation(false)]
    pub fn grow_memory(&mut self, len_inc: usize) -> (r: Result<usize, Fault>)
        requires
            old(self).wf(),
        ensures
            final(self).wf(),
            old(self).mem@.len() + len_inc <= old(self).mem_max ==> ({
                &&& r == Ok::<usize, Fault>(old(self).mem@.len() as usize)
                &&& final(self).mem@ == old(self).mem@ + spec_zero_bytes(len_inc as nat)
                &&& final(self).jit_info == (JitInfo {
                    mem_len: (old(self).mem@.len() + len_inc) as usize,
                    global_count: old(self).jit_info.global_count,
                })
            }),
            old(self).mem@.len() + len_inc > old(self).mem_max ==> r == Err::<usize, Fault>(
                Fault::MemoryLimitExceeded,
            ) && *final(self) == *old(self),
            final(self).globals == old(self).globals,
            final(self).native_functions == old(self).native_functions,
            final(self).source_module == old(self).source_module,
            final(self).mem_max == old(self).mem_max,
            final(self).opt_level == old(self).opt_level,
            final(self).native_resolver == old(self).native_resolver,
            final(self).ondemand == old(self).ondemand,
    {
        let prev_len = self.mem.len();
        if len_inc > self.mem_max || prev_len > self.mem_max - len_inc {
            return Err(Fault::MemoryLimitExceeded);
        }
        let ghost prev = self.mem@;
        let mut j: usize = 0;
        while j < len_inc
            invariant
                j <= len_inc,
                self.mem@ =~= prev + spec_zero_bytes(j as nat),
                self.mem_max == old(self).mem_max,
                self.globals == old(self).globals,
                self.native_functions == old(self).native_functions,
                self.source_module == old(self).source_module,
                self.opt_level == old(self).opt_level,
                self.native_resolver == old(self).native_resolver,
                self.ondemand == old(self).ondemand,
                self.jit_info == old(self).jit_info,
            decreases len_inc - j,
        {
            self.mem.push(0);
            proof {
                assert(self.mem@ =~= prev + spec_zero_bytes((j + 1) as nat));
            }
            j = j + 1;
        }
        let new_len = self.mem.len();
        self.jit_info.mem_len = new_len;
        Ok(prev_len)
    }

    /// The current info block.
    pub fn get_jit_info(&self) -> (r: &JitInfo)
        ensures
            *r == self.jit_info,
    {
        &self.jit_info
    }

    /// Complete: checks the pushed count against the declared arity,
    /// reinterprets each raw slot at its declared kind, invokes the bound
    /// native entry (resolving it on first use), and hands back the
    /// returned value's slot encoding.  Whatever the native did to linear
    /// memory, the info block is republished to match before returning.
    pub fn native_invoke_complete(&mut self, req: NativeInvokeRequest, id: usize) -> (r: Result<
        i64,
        Fault,
    >)
        requires
            old(self).wf(),
            id < old(self).native_functions@.len(),
        ensures
            final(self).wf(),
            final(self).globals == old(self).globals,
            final(self).source_module == old(self).source_module,
            final(self).mem_max == old(self).mem_max,
            final(self).opt_level == old(self).opt_level,
            final(self).ondemand == old(self).ondemand,
            final(self).jit_info.global_count == old(self).jit_info.global_count,
            final(self).native_resolver is Some <==> old(self).native_resolver is Some,
            // the binding cells: only cell `id` may move, and only to Ready
            final(self).native_functions@.len() == old(self).native_functions@.len(),
            forall|j: int|
                0 <= j < old(self).native_functions@.len() && j != id ==> final(self).native_functions@[j] == old(self).native_functions@[j],
            final(self).native_functions@[id as int].typeidx == old(self).native_functions@[id as int].typeidx,
            old(self).native_functions@[id as int].f is Ready ==> final(self).native_functions@[id as int].f == old(self).native_functions@[id as int].f,
            // an arity mismatch is a fault that changes nothing
            req.args_seq().len() != old(self).spec_native_arg_kinds(id as int).len() ==> r == Err::<
                i64,
                Fault,
            >(Fault::NativeArityMismatch) && *final(self) == *old(self),
            // without a resolver nothing can be invoked, and nothing changes
            (req.args_seq().len() == old(self).spec_native_arg_kinds(id as int).len() && old(self).native_resolver is None) ==> r == Err::<i64, Fault>(Fault::NativeNotResolved)
                && final(self).mem == old(self).mem && final(self).native_functions == old(self).native_functions,
            r is Err ==> (r->Err_0 == Fault::NativeArityMismatch || r->Err_0
                == Fault::NativeNotResolved || r->Err_0 == Fault::NativeInvokeFailed),
            // a successful completion leaves the import's binding cell resolved
            r is Ok ==> final(self).native_functions@[id as int].f is Ready,
            // the not-resolved fault never touches memory or the binding cells
            r == Err::<i64, Fault>(Fault::NativeNotResolved) ==> final(self).mem == old(self).mem
                && final(self).native_functions == old(self).native_functions,
    {
        // arity check against the declared signature
        let tix = self.native_functions[id].typeidx;
        let n_declared: usize;
        match &self.source_module.types[tix] {
            Type::Func(ty_args, _) => {
                n_declared = ty_args.len();
            },
        }
        if req.n_args() != n_declared {
            return Err(Fault::NativeArityMismatch);
        }
        // reinterpret the raw slots at their declared kinds
        let call_args: Vec<Value>;
        match &self.source_module.types[tix] {
            Type::Func(ty_args, _) => {
                call_args = decode_args(&req, ty_args);
            },
        }
        if self.native_resolver.is_none() {
            return Err(Fault::NativeNotResolved);
        }
        // bind the entry, resolving on first use
        let entry: usize;
        let need_memo: bool;
        let mut mname: String = String::new();
        let mut fname: String = String::new();
        match &self.native_functions[id].f {
            NativeFunction::Ready(e) => {
                entry = *e;
                need_memo = false;
            },
            NativeFunction::Uninitialized(m_, f_) => {
                mname = m_.clone();
                fname = f_.clone();
                need_memo = true;
                entry = 0;
            },
        }
        let entry2: usize;
        if need_memo {
            let resolved = match &mut self.native_resolver {
                Some(res) => res.resolve(mname.as_str(), fname.as_str()),
                None => None,
            };
            match resolved {
                None => {
                    return Err(Fault::NativeNotResolved);
                },
                Some(e) => {
                    entry2 = e;
                    self.native_functions.set(
                        id,
                        NativeFunctionInfo { f: NativeFunction::Ready(e), typeidx: tix },
                    );
                },
            }
        } else {
            entry2 = entry;
        }
        // the native call: read/write memory access, nothing else
        let out = match &mut self.native_resolver {
            Some(res) => res.invoke(entry2, &mut self.mem, &call_args),
            None => Err(ExecuteError::ValueTypeMismatch),
        };
        // republish the info block against whatever the native did
        let ml = self.mem.len();
        self.jit_info.mem_len = ml;
        match out {
            Err(_) => Err(Fault::NativeInvokeFailed),
            Ok(ret) => Ok(native_invoke_finish(ret)),
        }
    }
}

/// Reinterprets the pushed raw slots at the declared argument kinds, in
/// order.
pub fn decode_args(req: &NativeInvokeRequest, kinds: &Vec<ValType>) -> (r: Vec<Value>)
    requires
        req.args_seq().len() == kinds@.len(),
    ensures
        r@.len() == kinds@.len(),
        forall|i: int|
            0 <= i < r@.len() ==> r@[i] == spec_reinterpret_from_i64(
                req.args_seq()[i],
                kinds@[i],
            ),
{
    let n = kinds.len();
    let mut out: Vec<Value> = Vec::new();
    let mut i: usize = 0;
    while i < n
        invariant
            i <= n,
            n == kinds@.len(),
            req.args_seq().len() == kinds@.len(),
            out@.len() == i,
            forall|k: int|
                0 <= k < i ==> out@[k] == spec_reinterpret_from_i64(
                    req.args_seq()[k],
                    kinds@[k],
                ),
        decreases n - i,
    {
        let slot = sv_get(&req.args, i);
        let kind = kinds[i];
        out.push(Value::reinterpret_from_i64(slot, kind));
        i = i + 1;
    }
    out
}

/// The slot handed back to generated code after a native call: the
/// returned value's encoding, or the zero slot when the native returned
/// nothing.
pub fn native_invoke_finish(ret: Option<Value>) -> (r: i64)
    ensures
        r == match ret {
            Some(v) => spec_reinterpret_as_i64(v),
            None => 0,
        },
{
    match ret {
        Some(v) => v.reinterpret_as_i64(),
        None => 0,
    }
}

} // verus!
