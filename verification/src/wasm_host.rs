//! Running WebAssembly plugins with wasmtime: a filter plugin's `filter`
//! export is asked about each entry in turn, a transform plugin's
//! `transform` export rewrites a whole batch. The entries travel to the
//! guest as JSON bytes written into its exported memory.
//!
//! What a guest answers depends on its code and also on the machine it
//! runs on (its stack and memory limits), so the contracts below say what
//! holds of every answer and leave the answers themselves open.

use vstd::prelude::*;
use wasmtime::{Config, Engine, Linker, Memory, Module, OptLevel, Store, TypedFunc};

verus! {

#[verifier::external_type_specification]
#[verifier::external_body]
pub struct ExEngine(wasmtime::Engine);

#[verifier::external_type_specification]
#[verifier::external_body]
#[verifier::reject_recursive_types(T)]
pub struct ExStore<T: 'static>(wasmtime::Store<T>);

#[verifier::external_type_specification]
#[verifier::external_body]
pub struct ExMemory(wasmtime::Memory);

#[verifier::external_type_specification]
#[verifier::external_body]
#[verifier::reject_recursive_types(Params)]
#[verifier::reject_recursive_types(Results)]
pub struct ExTypedFunc<Params, Results>(wasmtime::TypedFunc<Params, Results>);

/// The fuel a plugin gets for one run, so that none runs forever.
pub const PLUGIN_FUEL: u64 = 1_000_000;

/// Bytes in a page of WebAssembly memory.
pub const WASM_PAGE: usize = 65536;

/// One exchange with a plugin, as the host made it.
pub enum GuestCall {
    /// Bytes written into the plugin's memory at an offset, and whether the
    /// write happened.
    Write(usize, Seq<u8>, bool),
    /// A call of the `filter` export with a pointer and a length, and its
    /// answer (`None` when the call failed).
    Filter(i32, i32, Option<i32>),
    /// A call of the `alloc` export with a length, and its answer.
    Alloc(i32, Option<i32>),
    /// A call of the `transform` export with a pointer and a length, and its
    /// reply.
    Transform(i32, i32, Option<i64>),
    /// A read of a length of bytes at an offset of the plugin's memory, and
    /// the bytes read.
    Read(usize, usize, Option<Seq<u8>>),
}

/// One run of a plugin: its module and the exchanges with it, in order.
pub struct PluginRun {
    /// The plugin's module.
    pub wasm: Seq<u8>,
    /// What the host handed the plugin and got back.
    pub calls: Seq<GuestCall>,
}

/// The wasmtime engine the plugins run in, and the record of the runs it
/// made.
pub struct WasmHost {
    engine: Engine,
    runs: Ghost<Seq<PluginRun>>,
}

/// An instantiated plugin: its store, the memory it exports, and the record
/// of the exchanges with it. Only the loaders below build one, so the
/// memory always belongs to the store.
pub struct Guest {
    store: Store<()>,
    memory: Memory,
    calls: Ghost<Seq<GuestCall>>,
}

impl Guest {
    /// The exchanges with the plugin so far.
    pub closed spec fn calls(&self) -> Seq<GuestCall> {
        self.calls@
    }
}

/// An instantiated filter plugin and its `filter` export.
pub struct FilterGuest {
    guest: Guest,
    filter: TypedFunc<(i32, i32), i32>,
}

/// An instantiated transform plugin, its `transform` export and its
/// `alloc` export when it has one.
pub struct TransformGuest {
    guest: Guest,
    alloc: Option<TypedFunc<i32, i32>>,
    transform: TypedFunc<(i32, i32), i64>,
}

/// Builds a wasmtime `Engine` from a `Config` with bulk memory,
/// optimisation for speed and fuel metering (`Engine::new`); `None` when
/// wasmtime refuses the configuration. Linear memories reserve 16 MiB of
/// address space up front (not wasmtime's platform default of several
/// GiB) and move when they grow past it, so plugins also run where address
/// space is scarce; what a plugin computes does not change. Nothing is
/// claimed of the result.
#[verifier::external_body]
fn new_engine() -> (r: Option<Engine>) {
    let mut config = Config::new();
    config.wasm_bulk_memory(true);
    config.cranelift_opt_level(OptLevel::Speed);
    config.consume_fuel(true);
    config.memory_reservation(1 << 24);
    config.memory_guard_size(1 << 16);
    config.memory_reservation_for_growth(1 << 24);
    Engine::new(&config).ok()
}

impl WasmHost {
    /// A host with a fresh engine (`None` when wasmtime refuses its
    /// configuration) and no runs yet.
    pub fn new() -> (r: Option<WasmHost>)
        ensures
            r matches Some(h) ==> h.runs() == Seq::<PluginRun>::empty(),
    {
        match new_engine() {
            Some(engine) => Some(WasmHost { engine, runs: Ghost(Seq::empty()) }),
            None => None,
        }
    }

    /// The runs made so far, oldest first.
    pub closed spec fn runs(&self) -> Seq<PluginRun> {
        self.runs@
    }
}

/// Compiles `wasm` (`Module::new`), makes a `Store` with `fuel`
/// (`Store::set_fuel`), instantiates the module with an empty `Linker`, and
/// looks up its `memory` export and its `filter` export typed
/// `(i32, i32) -> i32`; `None` when any step fails. Nothing is claimed of
/// the result.
#[verifier::external_body]
fn load_filter(engine: &Engine, wasm: &[u8], fuel: u64) -> (r: Option<(Store<()>, Memory, TypedFunc<(i32, i32), i32>)>) {
    let module = Module::new(engine, wasm).ok()?;
    let mut store = Store::new(engine, ());
    store.set_fuel(fuel).ok()?;
    let instance = Linker::new(engine).instantiate(&mut store, &module).ok()?;
    let memory = instance.get_memory(&mut store, "memory")?;
    let filter = instance.get_typed_func::<(i32, i32), i32>(&mut store, "filter").ok()?;
    Some((store, memory, filter))
}

/// As `load_filter`, for the `transform` export typed `(i32, i32) -> i64`
/// and the optional `alloc` export typed `i32 -> i32` (`None` in the
/// result when it is missing or of another type). Nothing is claimed of
/// the result.
#[verifier::external_body]
fn load_transform(
    engine: &Engine,
    wasm: &[u8],
    fuel: u64,
) -> (r: Option<(Store<()>, Memory, Option<TypedFunc<i32, i32>>, TypedFunc<(i32, i32), i64>)>) {
    let module = Module::new(engine, wasm).ok()?;
    let mut store = Store::new(engine, ());
    store.set_fuel(fuel).ok()?;
    let instance = Linker::new(engine).instantiate(&mut store, &module).ok()?;
    let memory = instance.get_memory(&mut store, "memory")?;
    let alloc = instance.get_typed_func::<i32, i32>(&mut store, "alloc").ok();
    let transform = instance.get_typed_func::<(i32, i32), i64>(&mut store, "transform").ok()?;
    Some((store, memory, alloc, transform))
}

/// `Memory::data_size`: the current size of the guest's memory in bytes.
/// Nothing is claimed of it.
#[verifier::external_body]
fn memory_size(g: &Guest) -> (n: usize) {
    g.memory.data_size(&g.store)
}

/// `Memory::grow` by `pages` pages; whether it succeeded. It hands the
/// plugin nothing, so the record of exchanges stays as it was.
#[verifier::external_body]
fn grow_memory(g: &mut Guest, pages: u64) -> (ok: bool)
    ensures
        final(g).calls() == old(g).calls(),
{
    g.memory.grow(&mut g.store, pages).is_ok()
}

/// `Memory::write` of `bytes` at `offset`; whether it succeeded (it fails,
/// writing nothing, when they do not fit). The write is recorded.
#[verifier::external_body]
fn write_memory(g: &mut Guest, offset: usize, bytes: &[u8]) -> (ok: bool)
    ensures
        final(g).calls() == old(g).calls().push(GuestCall::Write(offset, bytes@, ok)),
{
    g.memory.write(&mut g.store, offset, bytes).is_ok()
}

/// `Memory::read` of `len` bytes at `offset` into a fresh buffer; `None`
/// when they lie outside the memory. The bytes read are `len` long. The
/// read is recorded.
#[verifier::external_body]
fn read_memory(g: &mut Guest, offset: usize, len: usize) -> (r: Option<Vec<u8>>)
    ensures
        r matches Some(b) ==> b@.len() == len,
        final(g).calls() == old(g).calls().push(
            GuestCall::Read(
                offset,
                len,
                match r {
                    Some(b) => Some(b@),
                    None => None,
                },
            ),
        ),
{
    let mut buffer = vec![0u8; len];
    match g.memory.read(&g.store, offset, &mut buffer) {
        Ok(()) => Some(buffer),
        Err(_) => None,
    }
}

/// `TypedFunc::call` of the `filter` export on `(ptr, len)`; `None` when it
/// traps or runs out of fuel. Nothing is claimed of the answer; the call is
/// recorded.
#[verifier::external_body]
fn call_filter(g: &mut FilterGuest, ptr: i32, len: i32) -> (r: Option<i32>)
    ensures
        final(g).guest.calls() == old(g).guest.calls().push(GuestCall::Filter(ptr, len, r)),
{
    g.filter.call(&mut g.guest.store, (ptr, len)).ok()
}

/// `TypedFunc::call` of the `alloc` export on `len`; `None` when it traps.
/// Nothing is claimed of the answer; the call is recorded.
#[verifier::external_body]
fn call_alloc(g: &mut TransformGuest, len: i32) -> (r: Option<i32>)
    requires
        old(g).alloc is Some,
    ensures
        final(g).guest.calls() == old(g).guest.calls().push(GuestCall::Alloc(len, r)),
{
    match &g.alloc {
        Some(alloc) => alloc.call(&mut g.guest.store, len).ok(),
        None => None,
    }
}

/// `TypedFunc::call` of the `transform` export on `(ptr, len)`; `None` when
/// it traps or runs out of fuel. Nothing is claimed of the reply; the call
/// is recorded.
#[verifier::external_body]
fn call_transform(g: &mut TransformGuest, ptr: i32, len: i32) -> (r: Option<i64>)
    ensures
        final(g).guest.calls() == old(g).guest.calls().push(GuestCall::Transform(ptr, len, r)),
{
    g.transform.call(&mut g.guest.store, (ptr, len)).ok()
}

/// Write `bytes` into the guest's memory at `start`, first growing the
/// memory, when they do not fit, by one page more than the whole pages up
/// to their end; whether it worked. When it worked, the one exchange is
/// the write of `bytes` at `start`.
fn place_input(g: &mut Guest, start: usize, bytes: &[u8]) -> (ok: bool)
    ensures
        ok ==> final(g).calls() == old(g).calls().push(GuestCall::Write(start, bytes@, true)),
{
    let end = match start.checked_add(bytes.len()) {
        Some(e) => e,
        None => {
            return false;
        },
    };
    if end > memory_size(g) {
        let pages = (end / WASM_PAGE + 1) as u64;
        if !grow_memory(g, pages) {
            return false;
        }
    }
    write_memory(g, start, bytes)
}

/// The length a plugin is told for `bytes`: their count as an `i32`.
pub open spec fn wasm_len(bytes: Seq<u8>) -> i32 {
    bytes.len() as i32
}

/// The exchanges of a filter run that answered `answers` for `inputs`:
/// for each entry, its JSON written at offset 0, then `filter(0, len)`
/// with its byte count, answering the entry's answer.
pub open spec fn filter_calls(inputs: Seq<Seq<u8>>, answers: Seq<i32>) -> Seq<GuestCall>
    decreases inputs.len(),
{
    if inputs.len() == 0 || answers.len() == 0 {
        seq![]
    } else {
        filter_calls(inputs.drop_last(), answers.drop_last()) + seq![
            GuestCall::Write(0, inputs.last(), true),
            GuestCall::Filter(0, wasm_len(inputs.last()), Some(answers.last())),
        ]
    }
}

/// The bytes of each encoded entry.
pub open spec fn byte_views(v: Seq<Vec<u8>>) -> Seq<Seq<u8>> {
    Seq::new(v.len(), |i: int| v[i]@)
}

/// Where the input goes: where `alloc` said, or offset 0 without it.
pub open spec fn input_ptr(alloc: Option<i32>) -> i32 {
    match alloc {
        Some(p) => p,
        None => 0,
    }
}

/// The exchanges of a transform run up to the plugin's reply: `alloc`
/// asked for room for the input when the plugin has it, the input written
/// there (at offset 0 without it), and `transform` called on that pointer
/// and the input's length.
pub open spec fn transform_calls(input: Seq<u8>, alloc: Option<i32>, reply: i64) -> Seq<GuestCall> {
    let handed = match alloc {
        Some(p) => seq![GuestCall::Alloc(wasm_len(input), Some(p))],
        None => seq![],
    };
    handed + seq![
        GuestCall::Write(input_ptr(alloc) as usize, input, true),
        GuestCall::Transform(input_ptr(alloc), wasm_len(input), Some(reply)),
    ]
}

/// The reply's 64 bits read without sign.
pub open spec fn reply_bits(reply: i64) -> nat {
    (reply as u64) as nat
}

/// The pointer a transform reply gives: its high 32 bits.
pub open spec fn reply_ptr(reply: i64) -> nat {
    reply_bits(reply) / 0x1_0000_0000
}

/// The length a transform reply gives: its low 32 bits.
pub open spec fn reply_len(reply: i64) -> nat {
    reply_bits(reply) % 0x1_0000_0000
}

/// The bytes of a memory `memory_len` bytes long that a transform reply
/// points at, as offset and length: none when the length is zero or the
/// bytes run past the end of the memory.
pub open spec fn reply_span(reply: i64, memory_len: usize) -> Option<(usize, usize)> {
    if reply_len(reply) == 0 || reply_ptr(reply) + reply_len(reply) > memory_len {
        None
    } else {
        Some((reply_ptr(reply) as usize, reply_len(reply) as usize))
    }
}

/// The bytes a transform reply points at in a memory `memory_len` bytes
/// long (see [`reply_span`]).
pub fn reply_range(reply: i64, memory_len: usize) -> (r: Option<(usize, usize)>)
    ensures
        r == reply_span(reply, memory_len),
{
    let bits = reply as u64;
    let ptr = bits / 0x1_0000_0000;
    let len = bits % 0x1_0000_0000;
    if len == 0 || ptr + len > memory_len as u64 {
        None
    } else {
        Some((ptr as usize, len as usize))
    }
}

/// The positions of the non-zero answers in `results`, in order.
pub open spec fn nonzero_positions(results: Seq<i32>) -> Seq<usize>
    decreases results.len(),
{
    if results.len() == 0 {
        seq![]
    } else if results.last() != 0 {
        nonzero_positions(results.drop_last()).push((results.len() - 1) as usize)
    } else {
        nonzero_positions(results.drop_last())
    }
}

/// Whether `s` rises strictly.
pub open spec fn strictly_increasing(s: Seq<usize>) -> bool {
    forall|a: int, b: int| 0 <= a < b < s.len() ==> s[a] < s[b]
}

/// The positions of the non-zero answers rise strictly and lie inside
/// `results`.
pub proof fn lemma_nonzero_positions(results: Seq<i32>)
    requires
        results.len() <= usize::MAX,
    ensures
        strictly_increasing(nonzero_positions(results)),
        forall|j: int| 0 <= j < nonzero_positions(results).len() ==> #[trigger] nonzero_positions(results)[j]
            < results.len(),
    decreases results.len(),
{
    if results.len() > 0 {
        let prev = results.drop_last();
        lemma_nonzero_positions(prev);
        let p = nonzero_positions(prev);
        if results.last() != 0 {
            let q = p.push((results.len() - 1) as usize);
            assert forall|a: int, b: int| 0 <= a < b < q.len() implies q[a] < q[b] by {
                assert(q[a] == p[a]);
                if b == q.len() - 1 {
                    assert(p[a] < prev.len());
                } else {
                    assert(q[b] == p[b]);
                    assert(p[a] < p[b]);
                }
            }
        }
    }
}

/// The positions of the entries a filter plugin keeps: those it answered
/// with a non-zero value, in order.
pub fn kept_positions(results: &Vec<i32>) -> (k: Vec<usize>)
    ensures
        k@ == nonzero_positions(results@),
{
    let mut k: Vec<usize> = Vec::new();
    let mut i: usize = 0;
    while i < results.len()
        invariant
            i <= results@.len(),
            k@ == nonzero_positions(results@.take(i as int)),
        decreases results@.len() - i,
    {
        assert(results@.take(i + 1).drop_last() =~= results@.take(i as int));
        if results[i] != 0 {
            k.push(i);
        }
        i += 1;
    }
    assert(results@.take(i as int) =~= results@);
    k
}

impl WasmHost {
    /// Add a run of `wasm` to the record.
    fn record_run(&mut self, wasm: &[u8], calls: Ghost<Seq<GuestCall>>)
        ensures
            final(self).runs() == old(self).runs().push(PluginRun { wasm: wasm@, calls: calls@ }),
    {
        let ghost next = self.runs@.push(PluginRun { wasm: wasm@, calls: calls@ });
        self.runs = Ghost(next);
    }

    /// Run a filter plugin on the JSON of each entry in turn, written at
    /// the start of the guest's memory (grown when it does not fit), and
    /// ask its `filter` export about it with the byte count as an `i32`;
    /// the answers, one per entry, or `None` when the plugin cannot be
    /// loaded, its memory cannot take an entry, or a call fails. The run is
    /// recorded; when it answers, its exchanges are exactly those.
    pub fn run_filter_answers(&mut self, wasm_bytes: &[u8], entries_json: &Vec<Vec<u8>>) -> (r: Option<Vec<i32>>)
        ensures
            final(self).runs().drop_last() == old(self).runs(),
            final(self).runs().len() == old(self).runs().len() + 1,
            final(self).runs().last().wasm == wasm_bytes@,
            r matches Some(v) ==> v@.len() == entries_json@.len() && final(self).runs().last().calls
                == filter_calls(byte_views(entries_json@), v@),
    {
        let mut g = match load_filter(&self.engine, wasm_bytes, PLUGIN_FUEL) {
            Some((store, memory, filter)) => FilterGuest {
                guest: Guest { store, memory, calls: Ghost(Seq::empty()) },
                filter,
            },
            None => {
                self.record_run(wasm_bytes, Ghost(Seq::empty()));
                return None;
            },
        };
        let ghost inputs = byte_views(entries_json@);
        let mut answers: Vec<i32> = Vec::new();
        let mut i: usize = 0;
        while i < entries_json.len()
            invariant
                i <= entries_json@.len(),
                self.runs() == old(self).runs(),
                inputs == byte_views(entries_json@),
                answers@.len() == i,
                g.guest.calls() == filter_calls(inputs.take(i as int), answers@),
            decreases entries_json@.len() - i,
        {
            let json = entries_json[i].as_slice();
            if !place_input(&mut g.guest, 0, json) {
                self.record_run(wasm_bytes, Ghost(g.guest.calls()));
                return None;
            }
            let len = json.len() as i32;
            match call_filter(&mut g, 0, len) {
                Some(keep) => {
                    let ghost before = answers@;
                    answers.push(keep);
                    proof {
                        assert(inputs.take(i + 1).drop_last() =~= inputs.take(i as int));
                        assert(answers@.drop_last() =~= before);
                        assert(inputs.take(i + 1).last() == entries_json@[i as int]@);
                    }
                },
                None => {
                    self.record_run(wasm_bytes, Ghost(g.guest.calls()));
                    return None;
                },
            }
            i += 1;
        }
        proof {
            assert(inputs.take(i as int) =~= inputs);
        }
        self.record_run(wasm_bytes, Ghost(g.guest.calls()));
        Some(answers)
    }

    /// Run a filter plugin on the JSON of each entry; the positions of the
    /// entries it keeps, in order, or `None` when it fails (see
    /// [`WasmHost::run_filter_answers`], whose record it leaves).
    pub fn run_filter(&mut self, wasm_bytes: &[u8], entries_json: &Vec<Vec<u8>>) -> (r: Option<Vec<usize>>)
        ensures
            final(self).runs().drop_last() == old(self).runs(),
            final(self).runs().len() == old(self).runs().len() + 1,
            final(self).runs().last().wasm == wasm_bytes@,
            r matches Some(k) ==> exists|answers: Seq<i32>|
                answers.len() == entries_json@.len() && k@ == #[trigger] nonzero_positions(answers)
                    && final(self).runs().last().calls == filter_calls(byte_views(entries_json@), answers),
    {
        match self.run_filter_answers(wasm_bytes, entries_json) {
            Some(answers) => {
                let k = kept_positions(&answers);
                assert(answers@.len() == entries_json@.len() && k@ == nonzero_positions(answers@));
                Some(k)
            },
            None => None,
        }
    }

    /// Run a transform plugin on the JSON of a batch of entries, written
    /// where its `alloc` export says (at offset 0 when it has none), and
    /// call its `transform` export on that pointer and the input's length.
    /// The reply gives the bytes of the result (see [`reply_range`]):
    /// `Some(None)` when it gives none (the entries pass unchanged),
    /// `Some(Some(bytes))` with those bytes, and `None` when the plugin
    /// cannot be loaded, its memory cannot take the input, or a call or the
    /// read fails. The run is recorded with its exchanges.
    pub fn run_transform(&mut self, wasm_bytes: &[u8], input_json: &[u8]) -> (r: Option<Option<Vec<u8>>>)
        ensures
            final(self).runs().drop_last() == old(self).runs(),
            final(self).runs().len() == old(self).runs().len() + 1,
            final(self).runs().last().wasm == wasm_bytes@,
            r matches Some(None) ==> exists|alloc: Option<i32>, reply: i64, size: usize|
                #![trigger transform_calls(input_json@, alloc, reply), reply_span(reply, size)]
                reply_span(reply, size) is None && final(self).runs().last().calls == transform_calls(
                    input_json@,
                    alloc,
                    reply,
                ),
            r matches Some(Some(b)) ==> exists|alloc: Option<i32>, reply: i64, size: usize|
                #![trigger transform_calls(input_json@, alloc, reply), reply_span(reply, size)]
                reply_span(reply, size) matches Some((p, l)) && b@.len() == l && l > 0
                    && final(self).runs().last().calls == transform_calls(input_json@, alloc, reply).push(
                    GuestCall::Read(p, l, Some(b@)),
                ),
    {
        let mut g = match load_transform(&self.engine, wasm_bytes, PLUGIN_FUEL) {
            Some((store, memory, alloc, transform)) => TransformGuest {
                guest: Guest { store, memory, calls: Ghost(Seq::empty()) },
                alloc,
                transform,
            },
            None => {
                self.record_run(wasm_bytes, Ghost(Seq::empty()));
                return None;
            },
        };
        let input_len = input_json.len() as i32;
        let ghost mut alloc_answer: Option<i32> = None;
        let input_ptr: i32 = if g.alloc.is_some() {
            match call_alloc(&mut g, input_len) {
                Some(p) => {
                    proof {
                        alloc_answer = Some(p);
                    }
                    p
                },
                None => {
                    self.record_run(wasm_bytes, Ghost(g.guest.calls()));
                    return None;
                },
            }
        } else {
            0
        };
        let start = input_ptr as usize;
        if !place_input(&mut g.guest, start, input_json) {
            self.record_run(wasm_bytes, Ghost(g.guest.calls()));
            return None;
        }
        let result = match call_transform(&mut g, input_ptr, input_len) {
            Some(r) => r,
            None => {
                self.record_run(wasm_bytes, Ghost(g.guest.calls()));
                return None;
            },
        };
        let ghost handed = transform_calls(input_json@, alloc_answer, result);
        proof {
            assert(g.guest.calls() =~= handed);
        }
        let size = memory_size(&g.guest);
        match reply_range(result, size) {
            None => {
                self.record_run(wasm_bytes, Ghost(g.guest.calls()));
                proof {
                    assert(reply_span(result, size) is None);
                }
                Some(None)
            },
            Some((ptr, len)) => {
                let bytes = read_memory(&mut g.guest, ptr, len);
                self.record_run(wasm_bytes, Ghost(g.guest.calls()));
                match bytes {
                    Some(b) => {
                        proof {
                            assert(reply_span(result, size) == Some((ptr, len)));
                            assert(b@.len() == len && len > 0);
                        }
                        Some(Some(b))
                    },
                    None => None,
                }
            },
        }
    }
}

} // verus!
