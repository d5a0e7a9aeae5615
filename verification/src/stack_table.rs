//! The stack tables of a module: for every function, the operand stack at
//! every recorded offset, each slot reduced to what is needed to rebuild it.

use vstd::prelude::*;
use indexmap::IndexMap;
use crate::error::{FunctionError, ModuleError};
use crate::function::{CodePos, Function, FunctionView, Slot, Snapshot};
use crate::instr::Instr;
use crate::module::{concrete, ops_ordered, Module};
use crate::opcode::{copy_types, instr_valid};
use crate::val::WasmType;

verus! {

/// How the value of a stack slot can be had again: by reading a local, as a
/// constant, as one of the results of a call, or not at all, in which case
/// only its type is kept.
#[derive(Clone, Copy, Debug, PartialEq, Eq, Structural)]
pub enum CompiledOp {
    LocalGet(u32),
    I32Const(i32),
    F32Const(u32),
    I64Const(i64),
    F64Const(u64),
    Call(u32),
    Other(WasmType),
}

/// The byte offset of an instruction within its function body.
pub type Offset = u32;

/// A recorded stack: for each slot how its value can be had again, and its
/// type.
pub type Stack = Vec<(CompiledOp, WasmType)>;

/// One slot of a recorded stack as a value.
pub type SlotView = (CompiledOp, WasmType);

/// One entry of a table as a value: an offset and the stack recorded there.
pub type Entry = (Offset, Seq<SlotView>);

/// `indexmap::IndexMap`: a map that keeps its entries in the order in which
/// their keys were first inserted.
#[verifier::external_type_specification]
#[verifier::external_body]
#[verifier::reject_recursive_types(K)]
#[verifier::reject_recursive_types(V)]
#[verifier::reject_recursive_types(S)]
pub struct ExIndexMap<K, V, S>(IndexMap<K, V, S>);

/// The entries of the map, in the order in which the map keeps them.
pub uninterp spec fn entries(map: IndexMap<Offset, Stack>) -> Seq<Entry>;

/// The position of the first entry with the given offset.
pub open spec fn position_of(entries: Seq<Entry>, offset: Offset) -> Option<int>
    decreases entries.len(),
{
    if entries.len() == 0 {
        None
    } else {
        match position_of(entries.drop_last(), offset) {
            Some(i) => Some(i),
            None => if entries.last().0 == offset {
                Some(entries.len() - 1)
            } else {
                None
            },
        }
    }
}

/// The entries after an insertion: the stack of an offset that is present
/// is replaced where it stands, a new offset is added at the end.
pub open spec fn insert_entry(entries: Seq<Entry>, entry: Entry) -> Seq<Entry> {
    match position_of(entries, entry.0) {
        Some(i) => entries.update(i, entry),
        None => entries.push(entry),
    }
}

/// No offset occurs twice.
pub open spec fn distinct_offsets(entries: Seq<Entry>) -> bool {
    forall|i: int, j: int|
        0 <= i < j < entries.len() ==> (#[trigger] entries[i]).0 != (#[trigger] entries[j]).0
}

/// The entries of a map into which the first `n` of `pairs` were inserted,
/// one after another.
pub open spec fn collect_entries(pairs: Seq<Entry>, n: nat) -> Seq<Entry>
    decreases n,
{
    if n == 0 {
        Seq::empty()
    } else {
        insert_entry(collect_entries(pairs, (n - 1) as nat), pairs[n - 1])
    }
}

/// No slot of the stack has the type `Any`.
pub open spec fn stack_closed(stack: Seq<SlotView>) -> bool {
    forall|s: int| 0 <= s < stack.len() ==> (#[trigger] stack[s]).1 != WasmType::Any
}

/// No slot of a stack of the table has the type `Any`.
pub open spec fn table_closed(table: TableView) -> bool {
    forall|e: int| 0 <= e < table.entries.len() ==> stack_closed((#[trigger] table.entries[e]).1)
}

/// No slot of a stack of the tables has the type `Any`.
pub open spec fn closed(tables: Seq<TableView>) -> bool {
    forall|t: int| 0 <= t < tables.len() ==> table_closed(#[trigger] tables[t])
}

/// `position_of` finds an entry with the offset, and the first one; it finds
/// none only where there is none.
pub proof fn lemma_position_of(entries: Seq<Entry>, offset: Offset)
    ensures
        match position_of(entries, offset) {
            Some(i) => 0 <= i < entries.len() && entries[i].0 == offset && forall|j: int|
                0 <= j < i ==> (#[trigger] entries[j]).0 != offset,
            None => forall|j: int| 0 <= j < entries.len() ==> (#[trigger] entries[j]).0 != offset,
        },
    decreases entries.len(),
{
    if entries.len() > 0 {
        lemma_position_of(entries.drop_last(), offset);
        assert forall|j: int| 0 <= j < entries.len() - 1 implies entries[j] == entries.drop_last()[j] by {}
        match position_of(entries.drop_last(), offset) {
            Some(i) => {
                assert forall|j: int| 0 <= j < i implies (#[trigger] entries[j]).0 != offset by {
                    assert(entries[j] == entries.drop_last()[j]);
                }
            },
            None => {
                assert forall|j: int| 0 <= j < entries.len() - 1 implies (#[trigger] entries[j]).0
                    != offset by {
                    assert(entries[j] == entries.drop_last()[j]);
                }
            },
        }
    }
}

/// An insertion keeps the offsets distinct.
pub proof fn lemma_insert_keeps_distinct(entries: Seq<Entry>, entry: Entry)
    requires
        distinct_offsets(entries),
    ensures
        distinct_offsets(insert_entry(entries, entry)),
{
    lemma_position_of(entries, entry.0);
}

/// Every collected entry is one of the pairs.
pub proof fn lemma_collected_from_pairs(pairs: Seq<Entry>, n: nat, e: int)
    requires
        n <= pairs.len(),
        0 <= e < collect_entries(pairs, n).len(),
    ensures
        exists|i: int| 0 <= i < n && collect_entries(pairs, n)[e] == #[trigger] pairs[i],
    decreases n,
{
    if n > 0 {
        let before = collect_entries(pairs, (n - 1) as nat);
        lemma_position_of(before, pairs[n - 1].0);
        let here = match position_of(before, pairs[n - 1].0) {
            Some(i) => i,
            None => before.len() as int,
        };
        if e == here {
            assert(collect_entries(pairs, n)[e] == pairs[n - 1]);
        } else {
            assert(collect_entries(pairs, n)[e] == before[e]);
            lemma_collected_from_pairs(pairs, (n - 1) as nat, e);
        }
    }
}

/// The offsets of collected entries are distinct.
pub proof fn lemma_collect_distinct(pairs: Seq<Entry>, n: nat)
    requires
        n <= pairs.len(),
    ensures
        distinct_offsets(collect_entries(pairs, n)),
    decreases n,
{
    if n > 0 {
        lemma_collect_distinct(pairs, (n - 1) as nat);
        lemma_insert_keeps_distinct(collect_entries(pairs, (n - 1) as nat), pairs[n - 1]);
    }
}

/// Where no offset occurs twice among the pairs, the collected entries are
/// the pairs themselves, in their order.
pub proof fn lemma_collect_distinct_pairs(pairs: Seq<Entry>, n: nat)
    requires
        n <= pairs.len(),
        distinct_offsets(pairs),
    ensures
        collect_entries(pairs, n) == pairs.take(n as int),
    decreases n,
{
    if n == 0 {
        assert(pairs.take(0) == Seq::<Entry>::empty());
    } else {
        lemma_collect_distinct_pairs(pairs, (n - 1) as nat);
        let before = pairs.take(n - 1);
        lemma_position_of(before, pairs[n - 1].0);
        if position_of(before, pairs[n - 1].0) is Some {
            let i = position_of(before, pairs[n - 1].0)->Some_0;
            assert(before[i] == pairs[i]);
            assert(false);
        }
        assert(pairs.take(n as int) == before.push(pairs[n - 1]));
    }
}

/// Calls `IndexMap::new`, which makes a map without entries.
#[verifier::external_body]
pub(crate) fn map_new() -> (map: IndexMap<Offset, Stack>)
    ensures
        entries(map) == Seq::<Entry>::empty(),
{
    IndexMap::new()
}

/// Calls `IndexMap::len`, the number of entries.
#[verifier::external_body]
pub(crate) fn map_len(map: &IndexMap<Offset, Stack>) -> (n: usize)
    ensures
        n == entries(*map).len(),
{
    map.len()
}

/// Calls `IndexMap::insert`. Where the map holds the offset, the entry keeps
/// its place, takes the new stack, and the old stack is returned; else the
/// entry is added last and `None` is returned.
#[verifier::external_body]
pub(crate) fn map_insert(map: &mut IndexMap<Offset, Stack>, offset: Offset, stack: Stack) -> (old_stack:
    Option<Stack>)
    ensures
        entries(*final(map)) == insert_entry(entries(*old(map)), (offset, stack@)),
        match old_stack {
            Some(s) => position_of(entries(*old(map)), offset) matches Some(i) && s@ == entries(
                *old(map),
            )[i].1,
            None => position_of(entries(*old(map)), offset) is None,
        },
{
    map.insert(offset, stack)
}

/// Calls `IndexMap::get`: the stack stored for the offset, if there is one.
#[verifier::external_body]
pub(crate) fn map_get<'a>(map: &'a IndexMap<Offset, Stack>, offset: &Offset) -> (stack: Option<
    &'a Stack,
>)
    ensures
        match stack {
            Some(s) => position_of(entries(*map), *offset) matches Some(i) && s@ == entries(*map)[i].1,
            None => position_of(entries(*map), *offset) is None,
        },
{
    map.get(offset)
}

/// Calls `IndexMap::get_index`: the entry at a position in the order, or
/// `None` where the position is not below the number of entries.
#[verifier::external_body]
pub(crate) fn map_get_index<'a>(map: &'a IndexMap<Offset, Stack>, index: usize) -> (entry: Option<
    (&'a Offset, &'a Stack),
>)
    ensures
        match entry {
            Some((offset, stack)) => index < entries(*map).len() && (*offset, stack@) == entries(
                *map,
            )[index as int],
            None => index >= entries(*map).len(),
        },
{
    map.get_index(index)
}

/// The table of one function: the types of its locals, and its stacks by
/// offset, in program order.
#[derive(Debug)]
pub struct StackTable {
    pub locals: Vec<WasmType>,
    pub inner: IndexMap<Offset, Stack>,
}

/// The value of a `StackTable`.
pub struct TableView {
    pub locals: Seq<WasmType>,
    pub entries: Seq<Entry>,
}

impl View for StackTable {
    type V = TableView;

    open spec fn view(&self) -> TableView {
        TableView { locals: self.locals@, entries: entries(self.inner) }
    }
}

/// The tables of a module, one for each function and in the order of the
/// function index space. An imported function has an empty table.
#[derive(Debug)]
pub struct StackTables(pub Vec<StackTable>);

impl View for StackTables {
    type V = Seq<TableView>;

    open spec fn view(&self) -> Seq<TableView> {
        self.0@.map_values(|t: StackTable| t@)
    }
}

/// A stack that was looked up is not in the table.
#[derive(Clone, Copy, Debug, PartialEq, Eq, Structural)]
pub enum LookupError {
    /// No stack is recorded at the offset.
    OffsetNotFound(Offset),
    /// The table has no entry at the position.
    IndexNotFound(usize),
}

/// The tag that stands for the instruction which pushed a slot of type
/// `typ`.
pub open spec fn compact_op(module: Module, instr: Instr, typ: WasmType) -> CompiledOp {
    match instr {
        Instr::LocalGet { local_index } => CompiledOp::LocalGet(local_index),
        Instr::I32Const { value } => CompiledOp::I32Const(value),
        Instr::F32Const { bits } => CompiledOp::F32Const(bits),
        Instr::I64Const { value } => CompiledOp::I64Const(value),
        Instr::F64Const { bits } => CompiledOp::F64Const(bits),
        Instr::Call { function_index } => CompiledOp::Call(
            module.spec_type_by_func(function_index as int).results@.len() as u32,
        ),
        _ => CompiledOp::Other(typ),
    }
}

/// A snapshot as a table entry: its offset, and its stack with every slot
/// reduced to its tag and its type.
pub open spec fn compact(module: Module, snapshot: Snapshot) -> Entry {
    (snapshot.offset, snapshot.stack.map_values(|s: Slot| (compact_op(module, s.0, s.1), s.1)))
}

/// The entries of the table that is built from the snapshots in order.
pub open spec fn table_entries(module: Module, snapshots: Seq<Snapshot>) -> Seq<Entry> {
    collect_entries(snapshots.map_values(|s: Snapshot| compact(module, s)), snapshots.len())
}

/// A direct call on the stack names a function of the module.
pub open spec fn calls_known(module: Module, stack: Seq<Slot>) -> bool {
    forall|j: int|
        0 <= j < stack.len() ==> ((#[trigger] stack[j]).0 matches Instr::Call { function_index }
            ==> function_index < module.funcs@.len() && module.funcs@[function_index as int].fidx
            < module.types@.len())
}

/// Turns one snapshot into an entry of the table.
pub fn from_codepos(func: &Function, codepos: CodePos) -> (entry: (Offset, Stack))
    requires
        calls_known(*func.spec_module(), codepos@.stack),
    ensures
        (entry.0, entry.1@) == compact(*func.spec_module(), codepos@),
{
    let offset = codepos.offset;
    let module = func.module();
    let slots = &codepos.stack.inner;
    let ghost wanted = compact(*module, codepos@).1;
    let mut stack_vec: Stack = Vec::new();
    let mut i: usize = 0;
    while i < slots.len()
        invariant
            i <= slots@.len(),
            slots@ == codepos@.stack,
            wanted == compact(*module, codepos@).1,
            calls_known(*module, codepos@.stack),
            stack_vec@ == wanted.take(i as int),
        decreases slots@.len() - i,
    {
        let (op, typ) = slots[i];
        let compiled = match op {
            Instr::LocalGet { local_index } => CompiledOp::LocalGet(local_index),
            Instr::I32Const { value } => CompiledOp::I32Const(value),
            Instr::F32Const { bits } => CompiledOp::F32Const(bits),
            Instr::I64Const { value } => CompiledOp::I64Const(value),
            Instr::F64Const { bits } => CompiledOp::F64Const(bits),
            Instr::Call { function_index } => {
                let func_type = module.get_type_by_func(function_index);
                let result_size = func_type.results.len();
                CompiledOp::Call(#[verifier::truncate] (result_size as u32))
            },
            _ => CompiledOp::Other(typ),
        };
        stack_vec.push((compiled, typ));
        i += 1;
        assert(wanted.take(i as int) == wanted.take(i - 1).push(wanted[i - 1]));
    }
    assert(wanted.take(wanted.len() as int) == wanted);
    (offset, stack_vec)
}

/// The table of a function: empty for an imported function, else the locals
/// of the function and one entry for each snapshot of its simulation.
pub open spec fn table_of(func: Option<FunctionView>) -> Result<TableView, FunctionError> {
    match func {
        None => Ok(TableView { locals: Seq::empty(), entries: Seq::empty() }),
        Some(f) => match f.run() {
            Ok(snapshots) => Ok(
                TableView { locals: f.locals, entries: table_entries(f.module, snapshots) },
            ),
            Err(e) => Err(e),
        },
    }
}

/// Every direct call that a successful simulation leaves on a recorded stack
/// names a function of the module.
pub proof fn lemma_recorded_calls_known(f: FunctionView)
    requires
        f.wf(),
        f.run() is Ok,
    ensures
        forall|s: int|
            0 <= s < f.run()->Ok_0.len() ==> calls_known(
                f.module,
                (#[trigger] f.run()->Ok_0[s]).stack,
            ),
{
    f.lemma_slots_from_body(f.ops.len());
    let snapshots = f.run()->Ok_0;
    assert forall|s: int| 0 <= s < snapshots.len() implies calls_known(
        f.module,
        (#[trigger] snapshots[s]).stack,
    ) by {
        let stack = snapshots[s].stack;
        assert forall|j: int| 0 <= j < stack.len() implies ((#[trigger] stack[j]).0 matches Instr::Call {
            function_index,
        } ==> function_index < f.module.funcs@.len() && f.module.funcs@[function_index as int].fidx
            < f.module.types@.len()) by {
            assert(f.pushed_by_body(snapshots[s].stack[j]));
            let k = choose|k: int| 0 <= k < f.ops.len() && (#[trigger] f.ops[k]).instr == stack[j].0;
            assert(instr_valid(f.ops[k].instr, f.module, f.locals));
        }
    }
}

/// No offset occurs twice in the table of a function.
pub proof fn lemma_table_of_distinct(func: Option<FunctionView>)
    ensures
        table_of(func) matches Ok(table) ==> distinct_offsets(table.entries),
{
    if let Some(f) = func {
        if let Ok(snapshots) = f.run() {
            lemma_collect_distinct(
                snapshots.map_values(|s: Snapshot| compact(f.module, s)),
                snapshots.len(),
            );
        }
    }
}

/// The table of a function whose instructions are laid out one after
/// another has one entry for each snapshot of the simulation, in program
/// order: the offset of the snapshot and its stack, slot by slot.
pub proof fn entries_in_program_order(f: FunctionView)
    requires
        ops_ordered(f.ops),
        f.run() is Ok,
    ensures
        table_of(Some(f)) matches Ok(table) && table.entries == f.run()->Ok_0.map_values(
            |s: Snapshot| compact(f.module, s),
        ),
{
    let snapshots = f.run()->Ok_0;
    let pairs = snapshots.map_values(|s: Snapshot| compact(f.module, s));
    f.lemma_offsets_rise(f.ops.len());
    assert forall|i: int, j: int| 0 <= i < j < pairs.len() implies (#[trigger] pairs[i]).0 != (
    #[trigger] pairs[j]).0 by {
        assert(snapshots[i].offset < snapshots[j].offset);
    }
    lemma_collect_distinct_pairs(pairs, pairs.len());
    assert(pairs.take(pairs.len() as int) == pairs);
}

/// Where a function and its module declare no `Any`, no slot in the table
/// of the function has the type `Any`.
pub proof fn closed_table_law(f: FunctionView)
    requires
        f.wf(),
        f.types_concrete(),
        table_of(Some(f)) is Ok,
    ensures
        table_closed(table_of(Some(f))->Ok_0),
{
    let snapshots = f.run()->Ok_0;
    let pairs = snapshots.map_values(|s: Snapshot| compact(f.module, s));
    let table = table_of(Some(f))->Ok_0;
    f.stacks_closed_law(f.ops.len());
    assert forall|e: int| 0 <= e < table.entries.len() implies stack_closed(
        (#[trigger] table.entries[e]).1,
    ) by {
        lemma_collected_from_pairs(pairs, pairs.len(), e);
        let i = choose|i: int| 0 <= i < pairs.len() && table.entries[e] == #[trigger] pairs[i];
        assert forall|j: int| 0 <= j < pairs[i].1.len() implies (#[trigger] pairs[i].1[j]).1
            != WasmType::Any by {
            assert(pairs[i].1[j].1 == snapshots[i].stack[j].1);
        }
    }
}

impl StackTable {
    /// A table of the given locals and stacks.
    pub fn new(locals: Vec<WasmType>, inner: IndexMap<Offset, Stack>) -> (table: Self)
        ensures
            table.locals == locals,
            table.inner == inner,
    {
        Self { locals, inner }
    }

    /// Analyses one function and builds its table.
    ///
    /// Fails exactly where the simulation of the function fails, with its
    /// error.
    pub fn from_function(func: &Function) -> (r: Result<StackTable, FunctionError>)
        requires
            func.wf(),
        ensures
            match r {
                Ok(table) => table_of(func@) == Ok::<TableView, FunctionError>(table@),
                Err(e) => table_of(func@) == Err::<TableView, FunctionError>(e),
            },
    {
        proof {
            lemma_table_of_distinct(func@);
        }
        match func {
            Function::ImportFunction(_) => Ok(StackTable::new(Vec::new(), map_new())),
            Function::BytecodeFunction(bf) => {
                let codes = match bf.create_stack_table() {
                    Ok(codes) => codes,
                    Err(e) => {
                        return Err(e);
                    },
                };
                let ghost snapshots = bf@.run()->Ok_0;
                let ghost pairs = snapshots.map_values(|s: Snapshot| compact(*bf.module, s));
                let ghost recorded = codes@;
                proof {
                    lemma_recorded_calls_known(bf@);
                }
                let mut inner = map_new();
                for codepos in it: codes.into_iter()
                    invariant
                        it.seq() == recorded,
                        snapshots == crate::function::snapshots_of(recorded),
                        pairs == snapshots.map_values(|s: Snapshot| compact(*bf.module, s)),
                        func.spec_module() == bf.module,
                        forall|s: int|
                            0 <= s < snapshots.len() ==> calls_known(
                                *bf.module,
                                (#[trigger] snapshots[s]).stack,
                            ),
                        entries(inner) == collect_entries(pairs, it.index() as nat),
                {
                    assert(codepos@ == snapshots[it.index() as int]);
                    let (offset, stack) = from_codepos(func, codepos);
                    map_insert(&mut inner, offset, stack);
                }
                Ok(StackTable::new(copy_types(&bf.locals), inner))
            },
        }
    }
}

/// The tables of the first `n` functions of a module, or the first function
/// among them that cannot be analysed, with its error.
pub open spec fn tables_upto(module: Module, n: nat) -> Result<Seq<TableView>, ModuleError>
    decreases n,
{
    if n == 0 {
        Ok(Seq::empty())
    } else {
        match tables_upto(module, (n - 1) as nat) {
            Ok(tables) => match table_of(module.function_view(n - 1)) {
                Ok(table) => Ok(tables.push(table)),
                Err(error) => Err(ModuleError { func_index: (n - 1) as usize, error }),
            },
            Err(e) => Err(e),
        }
    }
}

/// The tables of a module, or the first function that cannot be analysed,
/// with its error.
pub open spec fn module_tables(module: Module) -> Result<Seq<TableView>, ModuleError> {
    tables_upto(module, module.funcs@.len())
}

proof fn lemma_tables_upto_ok(module: Module, tables: Seq<TableView>, n: nat)
    requires
        n <= tables.len(),
        forall|i: int|
            0 <= i < n ==> table_of(#[trigger] module.function_view(i)) == Ok::<
                TableView,
                FunctionError,
            >(tables[i]),
    ensures
        tables_upto(module, n) == Ok::<Seq<TableView>, ModuleError>(tables.take(n as int)),
    decreases n,
{
    if n > 0 {
        lemma_tables_upto_ok(module, tables, (n - 1) as nat);
        assert(table_of(module.function_view(n - 1)) == Ok::<TableView, FunctionError>(tables[n - 1]));
        assert(tables.take(n as int) == tables.take(n - 1).push(tables[n - 1]));
    } else {
        assert(tables.take(0) == Seq::<TableView>::empty());
    }
}

/// The tables of the first `n` functions of a module are the tables of these
/// functions, one by one.
pub proof fn lemma_tables_upto_each(module: Module, n: nat)
    requires
        tables_upto(module, n) is Ok,
    ensures
        tables_upto(module, n)->Ok_0.len() == n,
        forall|t: int|
            0 <= t < n ==> table_of(#[trigger] module.function_view(t)) == Ok::<
                TableView,
                FunctionError,
            >(tables_upto(module, n)->Ok_0[t]),
    decreases n,
{
    if n > 0 {
        lemma_tables_upto_each(module, (n - 1) as nat);
        let before = tables_upto(module, (n - 1) as nat)->Ok_0;
        let tables = tables_upto(module, n)->Ok_0;
        assert forall|t: int| 0 <= t < n implies table_of(#[trigger] module.function_view(t)) == Ok::<
            TableView,
            FunctionError,
        >(tables[t]) by {
            if t < n - 1 {
                assert(tables[t] == before[t]);
            }
        }
    }
}

/// Where a module declares no `Any`, no slot in its tables has the type
/// `Any`, so that its tables can be written unless they are too large. And
/// no offset occurs twice in a table.
pub proof fn closed_tables_law(module: Module)
    requires
        module.valid(),
        module.types_concrete(),
        module_tables(module) is Ok,
    ensures
        closed(module_tables(module)->Ok_0),
        forall|t: int|
            0 <= t < module_tables(module)->Ok_0.len() ==> distinct_offsets(
                (#[trigger] module_tables(module)->Ok_0[t]).entries,
            ),
{
    let tables = module_tables(module)->Ok_0;
    lemma_tables_upto_each(module, module.funcs@.len());
    assert forall|t: int| 0 <= t < tables.len() implies table_closed(#[trigger] tables[t])
        && distinct_offsets(tables[t].entries) by {
        lemma_table_of_distinct(module.function_view(t));
        match module.function_view(t) {
            Some(f) => {
                assert(module.body_valid(t));
                let body = module.funcs@[t].body->Some_0;
                crate::module::lemma_expand_concrete(body.locals@);
                assert(concrete(module.spec_type_by_func(t).params@));
                closed_table_law(f);
            },
            None => {},
        }
    }
}

proof fn lemma_tables_upto_err(module: Module, k: nat, error: FunctionError, n: nat)
    requires
        k < n,
        k <= usize::MAX,
        forall|i: int| 0 <= i < k ==> table_of(#[trigger] module.function_view(i)) is Ok,
        table_of(module.function_view(k as int)) == Err::<TableView, FunctionError>(error),
    ensures
        tables_upto(module, n) == Err::<Seq<TableView>, ModuleError>(
            ModuleError { func_index: k as usize, error },
        ),
    decreases n,
{
    if n - 1 > k {
        lemma_tables_upto_err(module, k, error, (n - 1) as nat);
    } else {
        let tables = Seq::new(k, |i: int| table_of(module.function_view(i))->Ok_0);
        lemma_tables_upto_ok(module, tables, k);
    }
}

impl StackTables {
    /// Analyses every function of a module and builds its tables.
    ///
    /// The result is that of `module_tables`.
    pub fn from_module(module: &Module) -> (r: Result<Self, ModuleError>)
        requires
            module.valid(),
        ensures
            match r {
                Ok(tables) => module_tables(*module) == Ok::<Seq<TableView>, ModuleError>(tables@),
                Err(e) => module_tables(*module) == Err::<Seq<TableView>, ModuleError>(e),
            },
            r matches Ok(tables) ==> tables.wf(),
            r matches Ok(tables) ==> (module.types_concrete() ==> closed(tables@)),
    {
        proof {
            if module.types_concrete() && module_tables(*module) is Ok {
                closed_tables_law(*module);
            }
        }
        let funcs = module.new_function_v2();
        let ghost views = funcs@;
        let r = StackTables::from_func(funcs);
        proof {
            if r is Ok {
                let tables = r->Ok_0@;
                assert forall|i: int| 0 <= i < tables.len() implies table_of(
                    #[trigger] module.function_view(i),
                ) == Ok::<TableView, FunctionError>(tables[i]) by {
                    assert(views[i]@ == module.function_view(i));
                }
                lemma_tables_upto_ok(*module, tables, tables.len());
                assert(tables.take(tables.len() as int) == tables);
            } else {
                let e = r->Err_0;
                assert forall|i: int| 0 <= i < e.func_index implies table_of(
                    #[trigger] module.function_view(i),
                ) is Ok by {
                    assert(views[i]@ == module.function_view(i));
                }
                assert(views[e.func_index as int]@ == module.function_view(e.func_index as int));
                lemma_tables_upto_err(*module, e.func_index as nat, e.error, module.funcs@.len());
            }
        }
        r
    }

    /// No offset occurs twice in a table.
    pub open spec fn wf(&self) -> bool {
        forall|t: int| 0 <= t < self@.len() ==> distinct_offsets((#[trigger] self@[t]).entries)
    }

    /// Analyses every function and builds the tables of the module.
    ///
    /// The tables stand in the order of the functions, with an empty table for
    /// an imported function. Where a function cannot be analysed, the first
    /// such function and its error are returned in place of the tables.
    pub fn from_func(funcs: Vec<Function<'_>>) -> (r: Result<Self, ModuleError>)
        requires
            forall|i: int| 0 <= i < funcs@.len() ==> (#[trigger] funcs@[i]).wf(),
        ensures
            match r {
                Ok(tables) => tables@.len() == funcs@.len() && forall|i: int|
                    0 <= i < funcs@.len() ==> table_of((#[trigger] funcs@[i])@) == Ok::<
                        TableView,
                        FunctionError,
                    >(tables@[i]),
                Err(e) => e.func_index < funcs@.len() && table_of(funcs@[e.func_index as int]@)
                    == Err::<TableView, FunctionError>(e.error) && forall|i: int|
                    0 <= i < e.func_index ==> table_of((#[trigger] funcs@[i])@) is Ok,
            },
            r matches Ok(tables) ==> tables.wf(),
    {
        let mut stack_tables: Vec<StackTable> = Vec::new();
        let mut i: usize = 0;
        while i < funcs.len()
            invariant
                i <= funcs@.len(),
                stack_tables@.len() == i,
                forall|k: int| 0 <= k < funcs@.len() ==> (#[trigger] funcs@[k]).wf(),
                forall|k: int|
                    0 <= k < i ==> table_of((#[trigger] funcs@[k])@) == Ok::<TableView, FunctionError>(
                        stack_tables@[k]@,
                    ),
                forall|k: int| 0 <= k < i ==> distinct_offsets((#[trigger] stack_tables@[k])@.entries),
            decreases funcs@.len() - i,
        {
            proof {
                lemma_table_of_distinct(funcs@[i as int]@);
            }
            match StackTable::from_function(&funcs[i]) {
                Ok(table) => {
                    stack_tables.push(table);
                },
                Err(error) => {
                    return Err(ModuleError { func_index: i, error });
                },
            }
            i += 1;
        }
        Ok(StackTables(stack_tables))
    }

    /// Analyses every function by itself, so that a function that cannot
    /// be analysed does not stand in the way of the others.
    ///
    /// The results stand in the order of the functions: for each function
    /// its table, or the error that ended its analysis.
    pub fn analyse_each(funcs: &Vec<Function<'_>>) -> (results: Vec<Result<StackTable, FunctionError>>)
        requires
            forall|i: int| 0 <= i < funcs@.len() ==> (#[trigger] funcs@[i]).wf(),
        ensures
            results@.len() == funcs@.len(),
            forall|i: int|
                0 <= i < funcs@.len() ==> match #[trigger] results@[i] {
                    Ok(table) => table_of(funcs@[i]@) == Ok::<TableView, FunctionError>(table@),
                    Err(e) => table_of(funcs@[i]@) == Err::<TableView, FunctionError>(e),
                },
    {
        let mut results: Vec<Result<StackTable, FunctionError>> = Vec::new();
        let mut i: usize = 0;
        while i < funcs.len()
            invariant
                i <= funcs@.len(),
                results@.len() == i,
                forall|k: int| 0 <= k < funcs@.len() ==> (#[trigger] funcs@[k]).wf(),
                forall|k: int|
                    0 <= k < i ==> match #[trigger] results@[k] {
                        Ok(table) => table_of(funcs@[k]@) == Ok::<TableView, FunctionError>(table@),
                        Err(e) => table_of(funcs@[k]@) == Err::<TableView, FunctionError>(e),
                    },
            decreases funcs@.len() - i,
        {
            results.push(StackTable::from_function(&funcs[i]));
            i += 1;
        }
        results
    }

    /// The stack recorded at `offset` in the function `fidx`.
    pub fn get_stack(&self, fidx: usize, offset: u32) -> (r: Result<&Stack, LookupError>)
        requires
            fidx < self@.len(),
        ensures
            match r {
                Ok(stack) => position_of(self@[fidx as int].entries, offset) matches Some(i)
                    && stack@ == self@[fidx as int].entries[i].1,
                Err(e) => position_of(self@[fidx as int].entries, offset) is None && e
                    == LookupError::OffsetNotFound(offset),
            },
    {
        let s = &self.0[fidx];
        match map_get(&s.inner, &offset) {
            Some(stack) => Ok(stack),
            None => Err(LookupError::OffsetNotFound(offset)),
        }
    }

    /// The `n`-th stack, in program order, of the function `fidx`.
    pub fn get_stack_nth(&self, fidx: usize, n: usize) -> (r: Result<&Stack, LookupError>)
        requires
            fidx < self@.len(),
        ensures
            match r {
                Ok(stack) => n < self@[fidx as int].entries.len() && stack@
                    == self@[fidx as int].entries[n as int].1,
                Err(e) => n >= self@[fidx as int].entries.len() && e == LookupError::IndexNotFound(
                    n,
                ),
            },
    {
        let s = &self.0[fidx];
        match map_get_index(&s.inner, n) {
            Some((_, stack)) => Ok(stack),
            None => Err(LookupError::IndexNotFound(n)),
        }
    }
}

} // verus!
