//! The tables in a form that can be addressed directly.
//!
//! Three runs of bytes are made, all numbers little-endian. The *type table*
//! holds the recorded stacks of all functions one after another, in the order
//! of the functions and of their offsets; each is a record of the number of
//! its slots, four bytes, and one tag byte for the type of each slot. The
//! *offset index* holds a section for every function that has recorded
//! stacks: the number of its locals, four bytes, one tag byte for each local,
//! and for each recorded offset the offset, four bytes, and the address of
//! its record in the type table, eight bytes. The *function index* holds for
//! every function its index, four bytes, and the address of its first offset
//! and address pair in the offset index, eight bytes; the address is 0 for a
//! function without recorded stacks, such as an imported one.

use vstd::prelude::*;
use crate::bytes::{
    lemma_occurs_split, lemma_u32_bytes, lemma_u64_bytes, occurs_at, u32_bytes, u64_bytes, write_u32,
    write_u64, write_u8,
};
use crate::codec::{
    decode_slot_types, decode_u32, encode_types, lemma_read_slot_types, lemma_read_u32,
    take_slot_types, take_u32, DeserializationError, SerializationError,
};
use crate::error::Error;
use crate::module::Module;
use crate::parse::{new_module, reads_as, ParseError};
use crate::val::WasmType;
use crate::stack_table::{
    closed, entries, module_tables, map_get_index, map_len, stack_closed, table_closed, Entry, SlotView, Stack,
    StackTables, TableView,
};

verus! {

/// The three runs of bytes.
#[derive(Clone, Debug, PartialEq, Eq)]
pub struct TableFiles {
    pub type_table: Vec<u8>,
    pub tablemap_func: Vec<u8>,
    pub tablemap_offset: Vec<u8>,
}

/// The tag bytes of the types of a stack.
pub open spec fn type_tags(stack: Seq<SlotView>) -> Seq<u8> {
    stack.map_values(|s: SlotView| s.1.spec_tag())
}

/// The record of a stack in the type table.
pub open spec fn record(stack: Seq<SlotView>) -> Seq<u8> {
    u32_bytes(stack.len() as u32) + type_tags(stack)
}

/// The records of the first `k` entries, one after another.
pub open spec fn table_records(entries: Seq<Entry>, k: nat) -> Seq<u8>
    decreases k,
{
    if k == 0 {
        Seq::empty()
    } else {
        table_records(entries, (k - 1) as nat) + record(entries[k - 1].1)
    }
}

/// The type table of the first `f` functions.
pub open spec fn type_table(tables: Seq<TableView>, f: nat) -> Seq<u8>
    decreases f,
{
    if f == 0 {
        Seq::empty()
    } else {
        type_table(tables, (f - 1) as nat) + table_records(
            tables[f - 1].entries,
            tables[f - 1].entries.len(),
        )
    }
}

/// The number of bytes that the records of the first `k` entries take.
pub open spec fn records_len(entries: Seq<Entry>, k: nat) -> nat
    decreases k,
{
    if k == 0 {
        0
    } else {
        records_len(entries, (k - 1) as nat) + 4 + entries[k - 1].1.len()
    }
}

/// The number of bytes that the records of the first `f` functions take.
pub open spec fn type_table_len(tables: Seq<TableView>, f: nat) -> nat
    decreases f,
{
    if f == 0 {
        0
    } else {
        type_table_len(tables, (f - 1) as nat) + records_len(
            tables[f - 1].entries,
            tables[f - 1].entries.len(),
        )
    }
}

/// The address in the type table of the record of entry `k` of function `f`.
pub open spec fn record_address(tables: Seq<TableView>, f: int, k: int) -> nat {
    type_table_len(tables, f as nat) + records_len(tables[f].entries, k as nat)
}

/// The number of bytes that the section of a function takes in the offset
/// index.
pub open spec fn section_len(table: TableView) -> nat {
    if table.entries.len() == 0 {
        0
    } else {
        4 + table.locals.len() + 12 * table.entries.len()
    }
}

/// The number of bytes that the sections of the first `f` functions take.
pub open spec fn sections_len(tables: Seq<TableView>, f: nat) -> nat
    decreases f,
{
    if f == 0 {
        0
    } else {
        sections_len(tables, (f - 1) as nat) + section_len(tables[f - 1])
    }
}

/// The address in the offset index of the first offset and address pair of
/// function `f`; 0 where the function has no recorded stack.
pub open spec fn first_pair_address(tables: Seq<TableView>, f: int) -> nat {
    if tables[f].entries.len() == 0 {
        0
    } else {
        sections_len(tables, f as nat) + 4 + tables[f].locals.len()
    }
}

/// The first `k` offset and address pairs of a function.
pub open spec fn offset_pairs(entries: Seq<Entry>, addresses: Seq<u64>, k: nat) -> Seq<u8>
    decreases k,
{
    if k == 0 {
        Seq::empty()
    } else {
        offset_pairs(entries, addresses, (k - 1) as nat) + (u32_bytes(entries[k - 1].0) + u64_bytes(
            addresses[k - 1],
        ))
    }
}

/// The section of a function in the offset index.
pub open spec fn offset_section(table: TableView, addresses: Seq<u64>) -> Seq<u8> {
    if table.entries.len() == 0 {
        Seq::empty()
    } else {
        u32_bytes(table.locals.len() as u32) + encode_types(table.locals) + offset_pairs(
            table.entries,
            addresses,
            table.entries.len(),
        )
    }
}

/// The offset index of the first `f` functions.
pub open spec fn offset_index(tables: Seq<TableView>, addresses: Seq<Seq<u64>>, f: nat) -> Seq<u8>
    decreases f,
{
    if f == 0 {
        Seq::empty()
    } else {
        offset_index(tables, addresses, (f - 1) as nat) + offset_section(
            tables[f - 1],
            addresses[f - 1],
        )
    }
}

/// The function index of the first `f` functions.
pub open spec fn func_index(addresses: Seq<u64>, f: nat) -> Seq<u8>
    decreases f,
{
    if f == 0 {
        Seq::empty()
    } else {
        func_index(addresses, (f - 1) as nat) + (u32_bytes((f - 1) as u32) + u64_bytes(
            addresses[f - 1],
        ))
    }
}

/// The tables are not too large for this form: the functions, the locals of
/// each function that has a section, and the slots of each stack can be
/// counted in four bytes, and every address fits in eight.
pub open spec fn index_fits(tables: Seq<TableView>) -> bool {
    &&& tables.len() <= u32::MAX
    &&& locals_fit(tables)
    &&& stacks_fit(tables)
    &&& addresses_fit(tables)
}

/// The addresses that the function index holds.
pub open spec fn func_addresses(tables: Seq<TableView>) -> Seq<u64> {
    Seq::new(tables.len(), |f: int| first_pair_address(tables, f) as u64)
}

/// The addresses that the offset index holds, by function and entry.
pub open spec fn record_addresses(tables: Seq<TableView>) -> Seq<Seq<u64>> {
    Seq::new(
        tables.len(),
        |f: int| Seq::new(tables[f].entries.len(), |k: int| record_address(tables, f, k) as u64),
    )
}

/// The slots of every stack can be counted in four bytes.
pub open spec fn stacks_fit(tables: Seq<TableView>) -> bool {
    forall|f: int, k: int|
        0 <= f < tables.len() && 0 <= k < tables[f].entries.len() ==> (
        #[trigger] tables[f].entries[k]).1.len() <= u32::MAX
}

/// The locals of every function that has a section can be counted in four
/// bytes.
pub open spec fn locals_fit(tables: Seq<TableView>) -> bool {
    forall|f: int|
        0 <= f < tables.len() && (#[trigger] tables[f]).entries.len() > 0 ==> tables[f].locals.len()
            <= u32::MAX
}

/// Every address fits in eight bytes.
pub open spec fn addresses_fit(tables: Seq<TableView>) -> bool {
    &&& type_table_len(tables, tables.len()) <= u64::MAX
    &&& sections_len(tables, tables.len()) <= u64::MAX
}

/// The records of the first entries take as many bytes as `records_len`
/// counts, and no more than those of more entries.
pub proof fn lemma_records_len(entries: Seq<Entry>, k: nat, n: nat)
    requires
        k <= n,
    ensures
        records_len(entries, k) <= records_len(entries, n),
        table_records(entries, k).len() == records_len(entries, k),
    decreases n,
{
    if k < n {
        lemma_records_len(entries, k, (n - 1) as nat);
    } else if k > 0 {
        lemma_records_len(entries, (k - 1) as nat, (k - 1) as nat);
        lemma_u32_bytes(entries[k - 1].1.len() as u32);
    }
}

/// The type table of the first functions takes as many bytes as
/// `type_table_len` counts, and no more than that of more functions.
pub proof fn lemma_type_table_len(tables: Seq<TableView>, f: nat, n: nat)
    requires
        f <= n,
    ensures
        type_table_len(tables, f) <= type_table_len(tables, n),
        type_table(tables, f).len() == type_table_len(tables, f),
    decreases n,
{
    if f < n {
        lemma_type_table_len(tables, f, (n - 1) as nat);
    } else if f > 0 {
        lemma_type_table_len(tables, (f - 1) as nat, (f - 1) as nat);
        lemma_records_len(
            tables[f - 1].entries,
            tables[f - 1].entries.len(),
            tables[f - 1].entries.len(),
        );
    }
}

/// The sections of the first functions take no more bytes than those of
/// more functions.
pub proof fn lemma_sections_len(tables: Seq<TableView>, f: nat, n: nat)
    requires
        f <= n,
    ensures
        sections_len(tables, f) <= sections_len(tables, n),
    decreases n,
{
    if f < n {
        lemma_sections_len(tables, f, (n - 1) as nat);
    }
}

/// A record stands in the records of its function where the records before
/// it end.
proof fn lemma_record_in_table(entries: Seq<Entry>, k: int, n: nat)
    requires
        0 <= k < n,
    ensures
        occurs_at(table_records(entries, n), records_len(entries, k as nat) as int, record(entries[k].1)),
    decreases n,
{
    let whole = table_records(entries, n);
    let before = table_records(entries, (n - 1) as nat);
    lemma_records_len(entries, (n - 1) as nat, (n - 1) as nat);
    if k == n - 1 {
        assert(whole.subrange(before.len() as int, whole.len() as int) == record(entries[k].1));
    } else {
        lemma_record_in_table(entries, k, (n - 1) as nat);
        let at = records_len(entries, k as nat) as int;
        let part = record(entries[k].1);
        assert(whole.subrange(at, at + part.len()) == before.subrange(at, at + part.len()));
    }
}

/// The records of a function stand in the type table where the records of
/// the functions before it end.
proof fn lemma_table_in_type_table(tables: Seq<TableView>, f: int, n: nat)
    requires
        0 <= f < n,
    ensures
        occurs_at(
            type_table(tables, n),
            type_table_len(tables, f as nat) as int,
            table_records(tables[f].entries, tables[f].entries.len()),
        ),
    decreases n,
{
    let whole = type_table(tables, n);
    let before = type_table(tables, (n - 1) as nat);
    lemma_type_table_len(tables, (n - 1) as nat, (n - 1) as nat);
    let part = table_records(tables[f].entries, tables[f].entries.len());
    if f == n - 1 {
        assert(whole.subrange(before.len() as int, whole.len() as int) == part);
    } else {
        lemma_table_in_type_table(tables, f, (n - 1) as nat);
        let at = type_table_len(tables, f as nat) as int;
        assert(whole.subrange(at, at + part.len()) == before.subrange(at, at + part.len()));
    }
}

/// The types of the stack whose record starts at `at`, or the reason why no
/// record starts there.
pub open spec fn decode_record(bytes: Seq<u8>, at: int) -> Result<Seq<WasmType>, DeserializationError> {
    match decode_u32(bytes, at) {
        Ok((count, start)) => match decode_slot_types(bytes, start, count as nat, Seq::empty()) {
            Ok((types, _)) => Ok(types),
            Err(e) => Err(e),
        },
        Err(e) => Err(e),
    }
}

/// The types of the slots of a stack.
pub open spec fn slot_types(stack: Seq<SlotView>) -> Seq<WasmType> {
    stack.map_values(|s: SlotView| s.1)
}

/// The address that is kept for an entry is the place of its record: in the
/// type table, the record of entry `k` of function `f` stands at
/// `record_address(tables, f, k)`, so that the four bytes there are the
/// number of slots of the stack, and the tag bytes of its types follow.
pub proof fn index_address_law(tables: Seq<TableView>, f: int, k: int)
    requires
        0 <= f < tables.len(),
        0 <= k < tables[f].entries.len(),
        tables[f].entries[k].1.len() <= u32::MAX,
    ensures
        ({
            let blob = type_table(tables, tables.len());
            let at = record_address(tables, f, k) as int;
            let stack = tables[f].entries[k].1;
            &&& occurs_at(blob, at, record(stack))
            &&& crate::bytes::le_u32(blob.subrange(at, at + 4)) == stack.len()
            &&& blob.subrange(at + 4, at + 4 + stack.len()) == type_tags(stack)
            &&& stack_closed(stack) ==> decode_record(blob, at) == Ok::<
                Seq<WasmType>,
                DeserializationError,
            >(slot_types(stack))
        }),
{
    let blob = type_table(tables, tables.len());
    let at = record_address(tables, f, k) as int;
    let stack = tables[f].entries[k].1;
    let es = tables[f].entries;
    let mine = table_records(es, es.len());
    let base = type_table_len(tables, f as nat) as int;
    let within = records_len(es, k as nat) as int;
    lemma_table_in_type_table(tables, f, tables.len());
    lemma_record_in_table(es, k, es.len());
    assert(blob.subrange(at, at + record(stack).len()) == mine.subrange(
        within,
        within + record(stack).len(),
    )) by {
        assert(blob.subrange(base, base + mine.len()) == mine);
        assert(blob.subrange(at, at + record(stack).len()) =~= blob.subrange(
            base,
            base + mine.len(),
        ).subrange(within, within + record(stack).len()));
    }
    lemma_u32_bytes(stack.len() as u32);
    lemma_occurs_split(blob, at, u32_bytes(stack.len() as u32), type_tags(stack));
    lemma_read_u32(blob, at, stack.len() as u32);
    assert(type_tags(stack) == encode_types(slot_types(stack)));
    if stack_closed(stack) {
        lemma_read_slot_types(blob, at + 4, slot_types(stack), Seq::empty());
        assert(Seq::<WasmType>::empty() + slot_types(stack) == slot_types(stack));
    }
}

/// Reads the record that starts at `address` in a type table, and gives the
/// types of the recorded stack.
///
/// Fails with `UnexpectedEnd` where the table ends before the record does,
/// with `InvalidTypeTag` where a byte of the record is not the tag of a
/// type, and with `OpenType` where it is the tag of `Any`.
pub fn read_record(type_table: &[u8], address: u64) -> (r: Result<
    Vec<WasmType>,
    DeserializationError,
>)
    ensures
        match r {
            Ok(types) => decode_record(type_table@, address as int) == Ok::<
                Seq<WasmType>,
                DeserializationError,
            >(types@),
            Err(e) => decode_record(type_table@, address as int) == Err::<
                Seq<WasmType>,
                DeserializationError,
            >(e),
        },
{
    if address > type_table.len() as u64 {
        return Err(DeserializationError::UnexpectedEnd);
    }
    let (count, start) = match take_u32(type_table, address as usize) {
        Ok(x) => x,
        Err(e) => {
            return Err(e);
        },
    };
    match take_slot_types(type_table, start, count) {
        Ok((types, _)) => Ok(types),
        Err(e) => Err(e),
    }
}

/// The pair of an entry stands in the pairs of its function at twelve times
/// its position.
proof fn lemma_pair_in_pairs(entries: Seq<Entry>, addresses: Seq<u64>, k: int, n: nat)
    requires
        0 <= k < n,
    ensures
        offset_pairs(entries, addresses, n).len() == 12 * n,
        occurs_at(
            offset_pairs(entries, addresses, n),
            12 * k,
            u32_bytes(entries[k].0) + u64_bytes(addresses[k]),
        ),
    decreases n,
{
    let whole = offset_pairs(entries, addresses, n);
    let before = offset_pairs(entries, addresses, (n - 1) as nat);
    let last = u32_bytes(entries[n - 1].0) + u64_bytes(addresses[n - 1]);
    lemma_u32_bytes(entries[n - 1].0);
    lemma_u64_bytes(addresses[n - 1]);
    lemma_pairs_len(entries, addresses, (n - 1) as nat);
    if k == n - 1 {
        assert(whole.subrange(before.len() as int, whole.len() as int) == last);
    } else {
        lemma_pair_in_pairs(entries, addresses, k, (n - 1) as nat);
        let part = u32_bytes(entries[k].0) + u64_bytes(addresses[k]);
        assert(whole.subrange(12 * k, 12 * k + part.len()) == before.subrange(
            12 * k,
            12 * k + part.len(),
        ));
    }
}

proof fn lemma_pairs_len(entries: Seq<Entry>, addresses: Seq<u64>, n: nat)
    ensures
        offset_pairs(entries, addresses, n).len() == 12 * n,
    decreases n,
{
    if n > 0 {
        lemma_pairs_len(entries, addresses, (n - 1) as nat);
        lemma_u32_bytes(entries[n - 1].0);
        lemma_u64_bytes(addresses[n - 1]);
    }
}

proof fn lemma_section_len(table: TableView, addresses: Seq<u64>)
    ensures
        offset_section(table, addresses).len() == section_len(table),
{
    lemma_pairs_len(table.entries, addresses, table.entries.len());
    lemma_u32_bytes(table.locals.len() as u32);
}

proof fn lemma_offset_index_len(tables: Seq<TableView>, addresses: Seq<Seq<u64>>, f: nat)
    ensures
        offset_index(tables, addresses, f).len() == sections_len(tables, f),
    decreases f,
{
    if f > 0 {
        lemma_offset_index_len(tables, addresses, (f - 1) as nat);
        lemma_section_len(tables[f - 1], addresses[f - 1]);
    }
}

proof fn lemma_section_in_index(tables: Seq<TableView>, addresses: Seq<Seq<u64>>, f: int, n: nat)
    requires
        0 <= f < n,
    ensures
        occurs_at(
            offset_index(tables, addresses, n),
            sections_len(tables, f as nat) as int,
            offset_section(tables[f], addresses[f]),
        ),
    decreases n,
{
    let whole = offset_index(tables, addresses, n);
    let before = offset_index(tables, addresses, (n - 1) as nat);
    lemma_offset_index_len(tables, addresses, (n - 1) as nat);
    let part = offset_section(tables[f], addresses[f]);
    if f == n - 1 {
        assert(whole.subrange(before.len() as int, whole.len() as int) == part);
    } else {
        lemma_section_in_index(tables, addresses, f, (n - 1) as nat);
        let at = sections_len(tables, f as nat) as int;
        assert(whole.subrange(at, at + part.len()) == before.subrange(at, at + part.len()));
    }
}

/// In the offset index, the offset of entry `k` of function `f` and the
/// address kept for it stand twelve bytes apart from the pair before, from
/// the address that the function index keeps for the function.
pub proof fn offset_index_law(tables: Seq<TableView>, addresses: Seq<Seq<u64>>, f: int, k: int)
    requires
        0 <= f < tables.len(),
        0 <= k < tables[f].entries.len(),
    ensures
        occurs_at(
            offset_index(tables, addresses, tables.len()),
            first_pair_address(tables, f) + 12 * k,
            u32_bytes(tables[f].entries[k].0) + u64_bytes(addresses[f][k]),
        ),
{
    let whole = offset_index(tables, addresses, tables.len());
    let table = tables[f];
    let section = offset_section(table, addresses[f]);
    let head = u32_bytes(table.locals.len() as u32) + encode_types(table.locals);
    let pairs = offset_pairs(table.entries, addresses[f], table.entries.len());
    let pair = u32_bytes(table.entries[k].0) + u64_bytes(addresses[f][k]);
    let base = sections_len(tables, f as nat) as int;
    lemma_section_in_index(tables, addresses, f, tables.len());
    lemma_u32_bytes(table.locals.len() as u32);
    lemma_u32_bytes(table.entries[k].0);
    lemma_u64_bytes(addresses[f][k]);
    lemma_occurs_split(whole, base, head, pairs);
    lemma_pair_in_pairs(table.entries, addresses[f], k, table.entries.len());
    let start = base + head.len();
    assert(whole.subrange(start + 12 * k, start + 12 * k + 12) =~= whole.subrange(
        start,
        start + pairs.len(),
    ).subrange(12 * k, 12 * k + 12));
}

/// In the function index, the index of function `f` and the address kept
/// for it stand at twelve times `f`.
pub proof fn func_index_law(addresses: Seq<u64>, f: int, n: nat)
    requires
        0 <= f < n,
    ensures
        func_index(addresses, n).len() == 12 * n,
        occurs_at(func_index(addresses, n), 12 * f, u32_bytes(f as u32) + u64_bytes(addresses[f])),
    decreases n,
{
    let whole = func_index(addresses, n);
    let before = func_index(addresses, (n - 1) as nat);
    let last = u32_bytes((n - 1) as u32) + u64_bytes(addresses[n - 1]);
    lemma_u32_bytes((n - 1) as u32);
    lemma_u64_bytes(addresses[n - 1]);
    lemma_func_index_len(addresses, (n - 1) as nat);
    if f == n - 1 {
        assert(whole.subrange(before.len() as int, whole.len() as int) == last);
    } else {
        func_index_law(addresses, f, (n - 1) as nat);
        let part = u32_bytes(f as u32) + u64_bytes(addresses[f]);
        lemma_u32_bytes(f as u32);
        lemma_u64_bytes(addresses[f]);
        assert(whole.subrange(12 * f, 12 * f + part.len()) == before.subrange(
            12 * f,
            12 * f + part.len(),
        ));
    }
}

proof fn lemma_func_index_len(addresses: Seq<u64>, n: nat)
    ensures
        func_index(addresses, n).len() == 12 * n,
    decreases n,
{
    if n > 0 {
        lemma_func_index_len(addresses, (n - 1) as nat);
        lemma_u32_bytes((n - 1) as u32);
        lemma_u64_bytes(addresses[n - 1]);
    }
}

/// The lists of addresses as values.
pub open spec fn address_lists(lists: Vec<Vec<u64>>) -> Seq<Seq<u64>> {
    lists@.map_values(|a: Vec<u64>| a@)
}

fn add_len(total: u64, extra: usize) -> (r: Option<u64>)
    ensures
        match r {
            Some(sum) => sum == total + extra,
            None => total + extra > u64::MAX,
        },
{
    let extra = extra as u64;
    if extra > u64::MAX - total {
        None
    } else {
        Some(total + extra)
    }
}

fn write_types(out: &mut Vec<u8>, types: &Vec<WasmType>)
    ensures
        final(out)@ == old(out)@ + encode_types(types@),
{
    let mut i: usize = 0;
    while i < types.len()
        invariant
            i <= types@.len(),
            out@ == old(out)@ + encode_types(types@.take(i as int)),
        decreases types@.len() - i,
    {
        write_u8(out, types[i].tag());
        i += 1;
        assert(out@ =~= old(out)@ + encode_types(types@.take(i as int)));
    }
    assert(types@.take(types@.len() as int) == types@);
}

fn write_record(out: &mut Vec<u8>, stack: &Stack) -> (r: Result<
    (),
    SerializationError,
>)
    requires
        stack@.len() <= u32::MAX,
    ensures
        match r {
            Ok(_) => stack_closed(stack@) && final(out)@ == old(out)@ + record(stack@),
            Err(e) => !stack_closed(stack@) && e == SerializationError::OpenType,
        },
{
    write_u32(out, stack.len() as u32);
    let ghost start = out@;
    let mut i: usize = 0;
    while i < stack.len()
        invariant
            i <= stack@.len(),
            out@ == start + type_tags(stack@.take(i as int)),
            forall|s: int| 0 <= s < i ==> (#[trigger] stack@[s]).1 != WasmType::Any,
        decreases stack@.len() - i,
    {
        match stack[i].1 {
            WasmType::Any => {
                return Err(SerializationError::OpenType);
            },
            _ => {},
        }
        write_u8(out, stack[i].1.tag());
        i += 1;
        assert(out@ =~= start + type_tags(stack@.take(i as int)));
    }
    assert(stack@.take(stack@.len() as int) == stack@);
    Ok(())
}

fn check_stacks_fit(tables: &StackTables) -> (b: bool)
    ensures
        b == stacks_fit(tables@),
{
    let mut f: usize = 0;
    while f < tables.0.len()
        invariant
            f <= tables@.len(),
            forall|g: int, k: int|
                0 <= g < f && 0 <= k < tables@[g].entries.len() ==> (
                #[trigger] tables@[g].entries[k]).1.len() <= u32::MAX,
        decreases tables@.len() - f,
    {
        let table = &tables.0[f];
        let n = map_len(&table.inner);
        let mut k: usize = 0;
        while k < n
            invariant
                k <= n,
                f < tables@.len(),
                n == tables@[f as int].entries.len(),
                tables@[f as int].entries == entries(table.inner),
                forall|j: int|
                    0 <= j < k ==> (#[trigger] tables@[f as int].entries[j]).1.len() <= u32::MAX,
            decreases n - k,
        {
            match map_get_index(&table.inner, k) {
                Some((_, stack)) => {
                    if stack.len() > u32::MAX as usize {
                        assert(tables@[f as int].entries[k as int].1.len() > u32::MAX);
                        return false;
                    }
                },
                None => {},
            }
            k += 1;
        }
        f += 1;
    }
    true
}

/// Writes the type table: the record of every recorded stack, function by
/// function.
///
/// Fails with `TooLarge` exactly where some stack has more slots than four
/// bytes can count, and else with `OpenType` exactly where some slot has the
/// type `Any`.
pub fn write_type_stack_table(tables: &StackTables) -> (r: Result<Vec<u8>, SerializationError>)
    ensures
        match r {
            Ok(bytes) => stacks_fit(tables@) && closed(tables@) && bytes@ == type_table(
                tables@,
                tables@.len(),
            ),
            Err(SerializationError::TooLarge) => !stacks_fit(tables@),
            Err(SerializationError::OpenType) => stacks_fit(tables@) && !closed(tables@),
        },
{
    if !check_stacks_fit(tables) {
        return Err(SerializationError::TooLarge);
    }
    let mut out: Vec<u8> = Vec::new();
    let mut f: usize = 0;
    while f < tables.0.len()
        invariant
            f <= tables@.len(),
            stacks_fit(tables@),
            out@ == type_table(tables@, f as nat),
            forall|g: int| 0 <= g < f ==> table_closed(#[trigger] tables@[g]),
        decreases tables@.len() - f,
    {
        let table = &tables.0[f];
        let n = map_len(&table.inner);
        let ghost es = tables@[f as int].entries;
        let ghost start = out@;
        let mut k: usize = 0;
        while k < n
            invariant
                k <= n,
                n == es.len(),
                f < tables@.len(),
                stacks_fit(tables@),
                es == tables@[f as int].entries,
                es == entries(table.inner),
                out@ == start + table_records(es, k as nat),
                forall|j: int| 0 <= j < k ==> stack_closed((#[trigger] es[j]).1),
            decreases n - k,
        {
            let stack = match map_get_index(&table.inner, k) {
                Some((_, stack)) => stack,
                None => {
                    assert(false);
                    return Err(SerializationError::OpenType);
                },
            };
            assert(tables@[f as int].entries[k as int].1.len() <= u32::MAX);
            match write_record(&mut out, stack) {
                Ok(_) => {},
                Err(e) => {
                    assert(!stack_closed(tables@[f as int].entries[k as int].1));
                    assert(!table_closed(tables@[f as int]));
                    return Err(e);
                },
            }
            k += 1;
            assert(out@ =~= start + table_records(es, k as nat));
        }
        f += 1;
    }
    Ok(out)
}

/// Computes the addresses that the two indexes hold: for every function
/// the address of its first pair in the offset index, and for every entry of
/// every function the address of its record in the type table.
///
/// Fails with `TooLarge` exactly where the type table or the offset index
/// would be longer than eight bytes can address.
pub fn calc_tablemap(tables: &StackTables) -> (r: Result<
    (Vec<u64>, Vec<Vec<u64>>),
    SerializationError,
>)
    ensures
        match r {
            Ok((tablemap_func, tablemap_offset)) => addresses_fit(tables@) && tablemap_func@
                == func_addresses(tables@) && address_lists(tablemap_offset) == record_addresses(
                tables@,
            ),
            Err(e) => !addresses_fit(tables@) && e == SerializationError::TooLarge,
        },
        r matches Ok((_, tablemap_offset)) ==> tablemap_offset@.len() == tables@.len() && forall|
            f: int,
        |
            0 <= f < tables@.len() ==> (#[trigger] tablemap_offset@[f])@.len()
                == tables@[f].entries.len(),
{
    let mut tablemap_func: Vec<u64> = Vec::new();
    let mut tablemap_offset: Vec<Vec<u64>> = Vec::new();
    let mut record_addr: u64 = 0;
    let mut section_addr: u64 = 0;
    let ghost total = tables@.len();
    let mut f: usize = 0;
    while f < tables.0.len()
        invariant
            f <= tables@.len(),
            total == tables@.len(),
            record_addr == type_table_len(tables@, f as nat),
            section_addr == sections_len(tables@, f as nat),
            tablemap_func@.len() == f,
            tablemap_offset@.len() == f,
            forall|g: int|
                0 <= g < f ==> #[trigger] tablemap_func@[g] == first_pair_address(tables@, g),
            forall|g: int|
                0 <= g < f ==> (#[trigger] tablemap_offset@[g])@ == record_addresses(tables@)[g],
        decreases tables@.len() - f,
    {
        let table = &tables.0[f];
        let n = map_len(&table.inner);
        let ghost es = tables@[f as int].entries;
        proof {
            lemma_sections_len(tables@, (f + 1) as nat, total);
            lemma_type_table_len(tables@, (f + 1) as nat, total);
        }
        let mut pair_addr: u64 = section_addr;
        if n == 0 {
            tablemap_func.push(0);
        } else {
            let after_count = match add_len(section_addr, 4) {
                Some(a) => a,
                None => {
                    return Err(SerializationError::TooLarge);
                },
            };
            pair_addr = match add_len(after_count, table.locals.len()) {
                Some(a) => a,
                None => {
                    return Err(SerializationError::TooLarge);
                },
            };
            tablemap_func.push(pair_addr);
        }
        let mut addrs: Vec<u64> = Vec::new();
        let mut addr: u64 = record_addr;
        let mut k: usize = 0;
        while k < n
            invariant
                k <= n,
                n == es.len(),
                f < tables@.len(),
                es == tables@[f as int].entries,
                es == entries(table.inner),
                record_addr == type_table_len(tables@, f as nat),
                addr == record_addr + records_len(es, k as nat),
                n > 0 ==> pair_addr == section_addr + 4 + table.locals@.len() + 12 * k,
                table.locals@ == tables@[f as int].locals,
                section_addr == sections_len(tables@, f as nat),
                sections_len(tables@, (f + 1) as nat) <= sections_len(tables@, total),
                type_table_len(tables@, (f + 1) as nat) <= type_table_len(tables@, total),
                total == tables@.len(),
                addrs@.len() == k,
                forall|j: int| 0 <= j < k ==> #[trigger] addrs@[j] == record_address(tables@, f as int, j),
            decreases n - k,
        {
            let stack = match map_get_index(&table.inner, k) {
                Some((_, stack)) => stack,
                None => {
                    assert(false);
                    return Err(SerializationError::TooLarge);
                },
            };
            addrs.push(addr);
            proof {
                lemma_records_len(es, (k + 1) as nat, n as nat);
            }
            let after_count = match add_len(addr, 4) {
                Some(a) => a,
                None => {
                    return Err(SerializationError::TooLarge);
                },
            };
            addr = match add_len(after_count, stack.len()) {
                Some(a) => a,
                None => {
                    return Err(SerializationError::TooLarge);
                },
            };
            pair_addr = match add_len(pair_addr, 12) {
                Some(a) => a,
                None => {
                    return Err(SerializationError::TooLarge);
                },
            };
            k += 1;
        }
        record_addr = addr;
        if n > 0 {
            section_addr = pair_addr;
        }
        assert(addrs@ =~= record_addresses(tables@)[f as int]);
        tablemap_offset.push(addrs);
        f += 1;
    }
    assert(tablemap_func@ =~= func_addresses(tables@));
    assert(address_lists(tablemap_offset) =~= record_addresses(tables@));
    Ok((tablemap_func, tablemap_offset))
}

/// Writes the function index from the addresses of the functions.
///
/// Fails with `TooLarge` exactly where there are more functions than four
/// bytes can count.
pub fn write_tablemap_func(tablemap_func: &Vec<u64>) -> (r: Result<Vec<u8>, SerializationError>)
    ensures
        match r {
            Ok(bytes) => tablemap_func@.len() <= u32::MAX && bytes@ == func_index(
                tablemap_func@,
                tablemap_func@.len(),
            ),
            Err(e) => tablemap_func@.len() > u32::MAX && e == SerializationError::TooLarge,
        },
{
    if tablemap_func.len() > u32::MAX as usize {
        return Err(SerializationError::TooLarge);
    }
    let mut out: Vec<u8> = Vec::new();
    let mut fidx: u32 = 0;
    while (fidx as usize) < tablemap_func.len()
        invariant
            fidx <= tablemap_func@.len() <= u32::MAX,
            out@ == func_index(tablemap_func@, fidx as nat),
        decreases tablemap_func@.len() - fidx,
    {
        write_u32(&mut out, fidx);
        write_u64(&mut out, tablemap_func[fidx as usize]);
        fidx += 1;
        assert(out@ =~= func_index(tablemap_func@, fidx as nat));
    }
    Ok(out)
}

/// Writes the offset index from the addresses of the records.
///
/// Fails with `TooLarge` exactly where a function that has a section has
/// more locals than four bytes can count.
pub fn write_tablemap_offset(tablemap_offset: &Vec<Vec<u64>>, tables: &StackTables) -> (r: Result<
    Vec<u8>,
    SerializationError,
>)
    requires
        tablemap_offset@.len() == tables@.len(),
        forall|f: int|
            0 <= f < tables@.len() ==> (#[trigger] tablemap_offset@[f])@.len()
                == tables@[f].entries.len(),
    ensures
        match r {
            Ok(bytes) => locals_fit(tables@) && bytes@ == offset_index(
                tables@,
                address_lists(*tablemap_offset),
                tables@.len(),
            ),
            Err(e) => !locals_fit(tables@) && e == SerializationError::TooLarge,
        },
{
    let mut out: Vec<u8> = Vec::new();
    let ghost lists = address_lists(*tablemap_offset);
    let mut f: usize = 0;
    while f < tables.0.len()
        invariant
            f <= tables@.len(),
            tablemap_offset@.len() == tables@.len(),
            forall|g: int|
                0 <= g < tables@.len() ==> (#[trigger] tablemap_offset@[g])@.len()
                    == tables@[g].entries.len(),
            lists == address_lists(*tablemap_offset),
            out@ == offset_index(tables@, lists, f as nat),
            forall|g: int|
                0 <= g < f && (#[trigger] tables@[g]).entries.len() > 0 ==> tables@[g].locals.len()
                    <= u32::MAX,
        decreases tables@.len() - f,
    {
        let table = &tables.0[f];
        let addrs = &tablemap_offset[f];
        let n = map_len(&table.inner);
        let ghost es = tables@[f as int].entries;
        if n > 0 {
            let locals = &table.locals;
            if locals.len() > u32::MAX as usize {
                return Err(SerializationError::TooLarge);
            }
            write_u32(&mut out, locals.len() as u32);
            write_types(&mut out, locals);
            let ghost start = out@;
            let mut k: usize = 0;
            while k < n
                invariant
                    k <= n,
                    n == es.len(),
                    n == addrs@.len(),
                    es == entries(table.inner),
                    out@ == start + offset_pairs(es, addrs@, k as nat),
                decreases n - k,
            {
                let offset = match map_get_index(&table.inner, k) {
                    Some((offset, _)) => *offset,
                    None => {
                        assert(false);
                        return Err(SerializationError::TooLarge);
                    },
                };
                write_u32(&mut out, offset);
                write_u64(&mut out, addrs[k]);
                k += 1;
                assert(out@ =~= start + offset_pairs(es, addrs@, k as nat));
            }
        }
        f += 1;
        assert(lists[f - 1] == addrs@);
        assert(out@ =~= offset_index(tables@, lists, f as nat));
    }
    Ok(out)
}

/// Makes the type table and both indexes of the tables.
///
/// Fails with `TooLarge` exactly where `index_fits` does not hold, and else
/// with `OpenType` exactly where some slot has the type `Any`.
pub fn table_files(tables: &StackTables) -> (r: Result<TableFiles, SerializationError>)
    ensures
        match r {
            Ok(files) => {
                &&& index_fits(tables@)
                &&& closed(tables@)
                &&& files.type_table@ == type_table(tables@, tables@.len())
                &&& files.tablemap_func@ == func_index(func_addresses(tables@), tables@.len())
                &&& files.tablemap_offset@ == offset_index(
                    tables@,
                    record_addresses(tables@),
                    tables@.len(),
                )
            },
            Err(SerializationError::TooLarge) => !index_fits(tables@),
            Err(SerializationError::OpenType) => index_fits(tables@) && !closed(tables@),
        },
{
    let (tablemap_func, tablemap_offset) = match calc_tablemap(tables) {
        Ok(maps) => maps,
        Err(e) => {
            return Err(e);
        },
    };
    let func_bytes = match write_tablemap_func(&tablemap_func) {
        Ok(bytes) => bytes,
        Err(e) => {
            return Err(e);
        },
    };
    let offset_bytes = match write_tablemap_offset(&tablemap_offset, tables) {
        Ok(bytes) => bytes,
        Err(e) => {
            return Err(e);
        },
    };
    let type_table = match write_type_stack_table(tables) {
        Ok(bytes) => bytes,
        Err(e) => {
            return Err(e);
        },
    };
    Ok(TableFiles { type_table, tablemap_func: func_bytes, tablemap_offset: offset_bytes })
}

/// What laying out the tables of a module that was read gives.
///
/// Where the module could not be read, the error of reading it. Else, where
/// a function cannot be analysed, the first such function with its error.
/// Else the type table and both indexes of the tables of the module, or
/// `TooLarge` where the tables are too large for them.
pub open spec fn laid_out_as(read: Result<Module, ParseError>, r: Result<TableFiles, Error>) -> bool {
    match read {
        Err(e) => r == Err::<TableFiles, Error>(Error::Parse(e)),
        Ok(module) => match module_tables(module) {
            Err(e) => r == Err::<TableFiles, Error>(Error::Analysis(e)),
            Ok(tables) => if index_fits(tables) {
                &&& r matches Ok(files)
                &&& files.type_table@ == type_table(tables, tables.len())
                &&& files.tablemap_func@ == func_index(func_addresses(tables), tables.len())
                &&& files.tablemap_offset@ == offset_index(
                    tables,
                    record_addresses(tables),
                    tables.len(),
                )
            } else {
                r == Err::<TableFiles, Error>(Error::Serialization(SerializationError::TooLarge))
            },
        },
    }
}

/// Reads a module from its binary form, analyses it, and makes the type
/// table and both indexes of its tables.
///
/// The result is what `laid_out_as` says of what reading the bytes gives.
pub fn create_table(buf: &Vec<u8>) -> (r: Result<TableFiles, Error>)
    ensures
        exists|read: Result<Module, ParseError>| #[trigger]
            reads_as(buf@, read) && laid_out_as(read, r),
{
    let read = new_module(buf);
    let ghost witness = read;
    let module = match read {
        Ok(module) => module,
        Err(e) => {
            let r = Err(Error::Parse(e));
            assert(reads_as(buf@, witness) && laid_out_as(witness, r));
            return r;
        },
    };
    let tables = match StackTables::from_module(&module) {
        Ok(tables) => tables,
        Err(e) => {
            let r = Err(Error::Analysis(e));
            assert(reads_as(buf@, witness) && laid_out_as(witness, r));
            return r;
        },
    };
    let r = match table_files(&tables) {
        Ok(files) => Ok(files),
        Err(e) => Err(Error::Serialization(e)),
    };
    assert(reads_as(buf@, witness) && laid_out_as(witness, r));
    r
}

} // verus!
