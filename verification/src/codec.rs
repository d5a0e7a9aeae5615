//! The binary form of the stack tables of a module.
//!
//! All numbers are little-endian. The form starts with a magic number and a
//! version, each four bytes. Then come the number of tables, four bytes, and
//! the tables. A table is the number of its locals, four bytes, one tag byte
//! for each local, the number of its entries, four bytes, and the entries. An
//! entry is its offset, four bytes, the number of its slots, four bytes, and
//! the slots. A slot is the tag byte of its operand, what the operand carries
//! (four or eight bytes, or the tag byte of a type), and the tag byte of the
//! slot's type.

use vstd::prelude::*;
use crate::bytes::{
    get_u32, get_u64, le_u32, le_u64, lemma_le_u32, lemma_le_u64, lemma_occurs_join,
    lemma_occurs_split, lemma_u32_bytes, lemma_u64_bytes, occurs_at,
    write_u32, write_u64, u32_bytes, u64_bytes,
};
use crate::module::Module;
use crate::stack_table::{
    closed, closed_tables_law, distinct_offsets, entries, map_get, map_get_index, map_insert,
    map_len, map_new, module_tables,
    position_of, stack_closed, table_closed, CompiledOp, Entry, SlotView, Stack, StackTable,
    StackTables, TableView,
};
use crate::val::WasmType;

verus! {

/// The first four bytes of the binary form, read as a number.
pub const MAGIC: u32 = 0x4c42_5453;

/// The version of the binary form that is written and read.
pub const VERSION: u32 = 1;

/// Why tables could not be written.
#[derive(Clone, Copy, Debug, PartialEq, Eq, Structural)]
pub enum SerializationError {
    /// A list has more items than four bytes can count.
    TooLarge,
    /// The type of a stack slot is open: `Any` stands for a type during the
    /// analysis and is never written as the type of a slot.
    OpenType,
}

/// Why bytes could not be read as tables.
#[derive(Clone, Copy, Debug, PartialEq, Eq, Structural)]
pub enum DeserializationError {
    /// The bytes end inside a value.
    UnexpectedEnd,
    /// The bytes do not start with the magic number.
    BadMagic,
    /// The bytes were written in another version of the form.
    UnsupportedVersion(u32),
    /// A byte that should be the tag of a type is none.
    InvalidTypeTag(u8),
    /// A byte that should be the tag of an operand is none.
    InvalidOperandTag(u8),
    /// The type of a stack slot is `Any`.
    OpenType,
    /// A table has two entries with this offset.
    DuplicateOffset(u32),
    /// Bytes follow the last table.
    TrailingBytes,
}

/// The bits of a signed number as an unsigned one, in two's complement.
pub open spec fn i32_bits(v: i32) -> u32 {
    if v >= 0 {
        v as u32
    } else {
        (v + 0x1_0000_0000) as u32
    }
}

/// The signed number with the given bits.
pub open spec fn i32_of_bits(b: u32) -> i32 {
    if b < 0x8000_0000 {
        b as i32
    } else {
        (b - 0x1_0000_0000) as i32
    }
}

/// The bits of a signed number as an unsigned one, in two's complement.
pub open spec fn i64_bits(v: i64) -> u64 {
    if v >= 0 {
        v as u64
    } else {
        (v + 0x1_0000_0000_0000_0000) as u64
    }
}

/// The signed number with the given bits.
pub open spec fn i64_of_bits(b: u64) -> i64 {
    if b < 0x8000_0000_0000_0000 {
        b as i64
    } else {
        (b - 0x1_0000_0000_0000_0000) as i64
    }
}

/// Every list of the tables can be counted in four bytes.
pub open spec fn fits(tables: Seq<TableView>) -> bool {
    &&& tables.len() <= u32::MAX
    &&& forall|t: int| 0 <= t < tables.len() ==> table_fits(#[trigger] tables[t])
}

/// Every list of the table can be counted in four bytes.
pub open spec fn table_fits(table: TableView) -> bool {
    &&& table.locals.len() <= u32::MAX
    &&& table.entries.len() <= u32::MAX
    &&& forall|e: int|
        0 <= e < table.entries.len() ==> (#[trigger] table.entries[e]).1.len() <= u32::MAX
}

/// The bytes of an operand: its tag, and what it carries.
pub open spec fn encode_op(op: CompiledOp) -> Seq<u8> {
    match op {
        CompiledOp::LocalGet(index) => seq![0u8] + u32_bytes(index),
        CompiledOp::I32Const(value) => seq![1u8] + u32_bytes(i32_bits(value)),
        CompiledOp::F32Const(bits) => seq![2u8] + u32_bytes(bits),
        CompiledOp::I64Const(value) => seq![3u8] + u64_bytes(i64_bits(value)),
        CompiledOp::F64Const(bits) => seq![4u8] + u64_bytes(bits),
        CompiledOp::Call(results) => seq![5u8] + u32_bytes(results),
        CompiledOp::Other(typ) => seq![6u8, typ.spec_tag()],
    }
}

/// The bytes of a slot: its operand, and the tag of its type.
pub open spec fn encode_slot(slot: SlotView) -> Seq<u8> {
    encode_op(slot.0).push(slot.1.spec_tag())
}

/// The bytes of the slots of a stack, one after another.
pub open spec fn encode_stack(stack: Seq<SlotView>) -> Seq<u8>
    decreases stack.len(),
{
    if stack.len() == 0 {
        Seq::empty()
    } else {
        encode_stack(stack.drop_last()) + encode_slot(stack.last())
    }
}

/// The bytes of an entry: its offset, the number of its slots, and the
/// slots.
pub open spec fn encode_entry(entry: Entry) -> Seq<u8> {
    u32_bytes(entry.0) + u32_bytes(entry.1.len() as u32) + encode_stack(entry.1)
}

/// The bytes of entries, one after another.
pub open spec fn encode_entries(entries: Seq<Entry>) -> Seq<u8>
    decreases entries.len(),
{
    if entries.len() == 0 {
        Seq::empty()
    } else {
        encode_entries(entries.drop_last()) + encode_entry(entries.last())
    }
}

/// The tag bytes of types.
pub open spec fn encode_types(types: Seq<WasmType>) -> Seq<u8> {
    types.map_values(|t: WasmType| t.spec_tag())
}

/// The bytes of a table: the number of its locals, their tags, the number
/// of its entries, and the entries.
pub open spec fn encode_table(table: TableView) -> Seq<u8> {
    u32_bytes(table.locals.len() as u32) + encode_types(table.locals) + u32_bytes(
        table.entries.len() as u32,
    ) + encode_entries(table.entries)
}

/// The bytes of tables, one after another.
pub open spec fn encode_tables(tables: Seq<TableView>) -> Seq<u8>
    decreases tables.len(),
{
    if tables.len() == 0 {
        Seq::empty()
    } else {
        encode_tables(tables.drop_last()) + encode_table(tables.last())
    }
}

/// The binary form of the tables.
pub open spec fn encode(tables: Seq<TableView>) -> Seq<u8> {
    u32_bytes(MAGIC) + u32_bytes(VERSION) + u32_bytes(tables.len() as u32) + encode_tables(tables)
}

fn put_op(out: &mut Vec<u8>, op: &CompiledOp)
    ensures
        final(out)@ == old(out)@ + encode_op(*op),
{
    match op {
        CompiledOp::LocalGet(index) => {
            out.push(0);
            write_u32(out, *index);
        },
        CompiledOp::I32Const(value) => {
            out.push(1);
            let bits: u32 = if *value >= 0 {
                *value as u32
            } else {
                (*value as i64 + 0x1_0000_0000) as u32
            };
            write_u32(out, bits);
        },
        CompiledOp::F32Const(bits) => {
            out.push(2);
            write_u32(out, *bits);
        },
        CompiledOp::I64Const(value) => {
            out.push(3);
            let bits: u64 = if *value >= 0 {
                *value as u64
            } else {
                (*value as i128 + 0x1_0000_0000_0000_0000) as u64
            };
            write_u64(out, bits);
        },
        CompiledOp::F64Const(bits) => {
            out.push(4);
            write_u64(out, *bits);
        },
        CompiledOp::Call(results) => {
            out.push(5);
            write_u32(out, *results);
        },
        CompiledOp::Other(typ) => {
            out.push(6);
            out.push(typ.tag());
        },
    }
    assert(out@ =~= old(out)@ + encode_op(*op));
}

fn put_stack(out: &mut Vec<u8>, stack: &Stack) -> (r: Result<(), SerializationError>)
    requires
        stack@.len() <= u32::MAX,
    ensures
        match r {
            Ok(_) => stack_closed(stack@) && final(out)@ == old(out)@ + u32_bytes(
                stack@.len() as u32,
            ) + encode_stack(stack@),
            Err(e) => !stack_closed(stack@) && e == SerializationError::OpenType,
        },
{
    write_u32(out, stack.len() as u32);
    let ghost start = out@;
    let mut i: usize = 0;
    while i < stack.len()
        invariant
            i <= stack@.len(),
            out@ == start + encode_stack(stack@.take(i as int)),
            forall|s: int| 0 <= s < i ==> (#[trigger] stack@[s]).1 != WasmType::Any,
        decreases stack@.len() - i,
    {
        let slot = &stack[i];
        match slot.1 {
            WasmType::Any => {
                return Err(SerializationError::OpenType);
            },
            _ => {},
        }
        put_op(out, &slot.0);
        out.push(slot.1.tag());
        i += 1;
        proof {
            let upto = stack@.take(i as int);
            assert(upto.drop_last() == stack@.take(i - 1));
            assert(upto.last() == stack@[i - 1]);
            assert(out@ =~= start + encode_stack(upto));
        }
    }
    assert(stack@.take(stack@.len() as int) == stack@);
    Ok(())
}

fn table_sizes_fit(table: &StackTable) -> (b: bool)
    ensures
        b == table_fits(table@),
{
    if table.locals.len() > u32::MAX as usize {
        return false;
    }
    let n = map_len(&table.inner);
    if n > u32::MAX as usize {
        return false;
    }
    let mut k: usize = 0;
    while k < n
        invariant
            k <= n,
            n == entries(table.inner).len(),
            forall|e: int| 0 <= e < k ==> (#[trigger] entries(table.inner)[e]).1.len() <= u32::MAX,
        decreases n - k,
    {
        match map_get_index(&table.inner, k) {
            Some((_, stack)) => {
                if stack.len() > u32::MAX as usize {
                    return false;
                }
            },
            None => {},
        }
        k += 1;
    }
    true
}

fn put_table(out: &mut Vec<u8>, table: &StackTable) -> (r: Result<(), SerializationError>)
    requires
        table_fits(table@),
    ensures
        match r {
            Ok(_) => table_closed(table@) && final(out)@ == old(out)@ + encode_table(table@),
            Err(e) => !table_closed(table@) && e == SerializationError::OpenType,
        },
{
    let locals = &table.locals;
    write_u32(out, locals.len() as u32);
    let ghost start = out@;
    let mut i: usize = 0;
    while i < locals.len()
        invariant
            i <= locals@.len(),
            out@ == start + encode_types(locals@.take(i as int)),
        decreases locals@.len() - i,
    {
        out.push(locals[i].tag());
        i += 1;
        assert(out@ =~= start + encode_types(locals@.take(i as int)));
    }
    assert(locals@.take(locals@.len() as int) == locals@);
    let n = map_len(&table.inner);
    write_u32(out, n as u32);
    let ghost start = out@;
    let ghost all = entries(table.inner);
    let mut k: usize = 0;
    while k < n
        invariant
            k <= n,
            n == all.len(),
            all == entries(table.inner),
            table_fits(table@),
            out@ == start + encode_entries(all.take(k as int)),
            forall|e: int| 0 <= e < k ==> stack_closed((#[trigger] all[e]).1),
        decreases n - k,
    {
        let (offset, stack) = match map_get_index(&table.inner, k) {
            Some(entry) => entry,
            None => {
                assert(false);
                return Err(SerializationError::OpenType);
            },
        };
        write_u32(out, *offset);
        assert(all[k as int].1.len() <= u32::MAX);
        match put_stack(out, stack) {
            Ok(_) => {},
            Err(e) => {
                assert(!stack_closed(table@.entries[k as int].1));
                return Err(e);
            },
        }
        k += 1;
        proof {
            let upto = all.take(k as int);
            assert(upto.drop_last() == all.take(k - 1));
            assert(upto.last() == all[k - 1]);
            assert(out@ =~= start + encode_entries(upto));
        }
    }
    assert(all.take(all.len() as int) == all);
    assert(out@ =~= old(out)@ + encode_table(table@));
    Ok(())
}

impl StackTables {
    /// Tests `fits`.
    pub fn sizes_fit(&self) -> (b: bool)
        ensures
            b == fits(self@),
    {
        let tables = &self.0;
        if tables.len() > u32::MAX as usize {
            return false;
        }
        let mut i: usize = 0;
        while i < tables.len()
            invariant
                i <= tables@.len(),
                tables == &self.0,
                forall|t: int| 0 <= t < i ==> table_fits(#[trigger] self@[t]),
            decreases tables@.len() - i,
        {
            if !table_sizes_fit(&tables[i]) {
                assert(!table_fits(self@[i as int]));
                return false;
            }
            i += 1;
        }
        true
    }

    /// Writes the tables in their binary form.
    ///
    /// Fails with `TooLarge` exactly where some list of the tables has more
    /// items than four bytes can count, and else with `OpenType` exactly
    /// where some slot has the type `Any`. What is written of tables in which
    /// no offset occurs twice is read back as the same tables.
    pub fn serialize(&self) -> (r: Result<Vec<u8>, SerializationError>)
        ensures
            match r {
                Ok(bytes) => fits(self@) && closed(self@) && bytes@ == encode(self@),
                Err(SerializationError::TooLarge) => !fits(self@),
                Err(SerializationError::OpenType) => fits(self@) && !closed(self@),
            },
            r matches Ok(bytes) ==> (self.wf() ==> decode(bytes@) == Ok::<
                Seq<TableView>,
                DeserializationError,
            >(self@)),
    {
        if !self.sizes_fit() {
            return Err(SerializationError::TooLarge);
        }
        let tables = &self.0;
        let mut out: Vec<u8> = Vec::new();
        write_u32(&mut out, MAGIC);
        write_u32(&mut out, VERSION);
        write_u32(&mut out, tables.len() as u32);
        let ghost start = out@;
        let mut i: usize = 0;
        while i < tables.len()
            invariant
                i <= tables@.len(),
                tables == &self.0,
                fits(self@),
                out@ == start + encode_tables(self@.take(i as int)),
                forall|t: int| 0 <= t < i ==> table_closed(#[trigger] self@[t]),
            decreases tables@.len() - i,
        {
            assert(table_fits(self@[i as int]));
            match put_table(&mut out, &tables[i]) {
                Ok(_) => {},
                Err(e) => {
                    assert(!table_closed(self@[i as int]));
                    return Err(e);
                },
            }
            i += 1;
            proof {
                let upto = self@.take(i as int);
                assert(upto.drop_last() == self@.take(i - 1));
                assert(upto.last() == self@[i - 1]);
                assert(out@ =~= start + encode_tables(upto));
            }
        }
        assert(self@.take(self@.len() as int) == self@);
        assert(out@ =~= encode(self@));
        proof {
            if self.wf() {
                round_trip(self@);
            }
        }
        Ok(out)
    }
}

/// What reading a value at a position gives: the value and the position
/// after it, or the reason why there is no value.
pub type Decoded<T> = Result<(T, int), DeserializationError>;

/// Reads four bytes as a number.
pub open spec fn decode_u32(bytes: Seq<u8>, at: int) -> Decoded<u32> {
    if 0 <= at && at + 4 <= bytes.len() {
        Ok((le_u32(bytes.subrange(at, at + 4)) as u32, at + 4))
    } else {
        Err(DeserializationError::UnexpectedEnd)
    }
}

/// Reads eight bytes as a number.
pub open spec fn decode_u64(bytes: Seq<u8>, at: int) -> Decoded<u64> {
    if 0 <= at && at + 8 <= bytes.len() {
        Ok((le_u64(bytes.subrange(at, at + 8)) as u64, at + 8))
    } else {
        Err(DeserializationError::UnexpectedEnd)
    }
}

/// Reads the tag of a type.
pub open spec fn decode_type(bytes: Seq<u8>, at: int) -> Decoded<WasmType> {
    if 0 <= at < bytes.len() {
        match WasmType::spec_from_tag(bytes[at]) {
            Some(typ) => Ok((typ, at + 1)),
            None => Err(DeserializationError::InvalidTypeTag(bytes[at])),
        }
    } else {
        Err(DeserializationError::UnexpectedEnd)
    }
}

/// Reads the type of a stack slot, which is never `Any`.
pub open spec fn decode_slot_type(bytes: Seq<u8>, at: int) -> Decoded<WasmType> {
    match decode_type(bytes, at) {
        Ok((typ, next)) => if typ == WasmType::Any {
            Err(DeserializationError::OpenType)
        } else {
            Ok((typ, next))
        },
        Err(e) => Err(e),
    }
}

/// Reads the types of `n` stack slots and adds them to `read`.
pub open spec fn decode_slot_types(bytes: Seq<u8>, at: int, n: nat, read: Seq<WasmType>) -> Decoded<
    Seq<WasmType>,
>
    decreases n,
{
    if n == 0 {
        Ok((read, at))
    } else {
        match decode_slot_type(bytes, at) {
            Ok((typ, next)) => decode_slot_types(bytes, next, (n - 1) as nat, read.push(typ)),
            Err(e) => Err(e),
        }
    }
}

/// Reads an operand: its tag, and what it carries.
pub open spec fn decode_op(bytes: Seq<u8>, at: int) -> Decoded<CompiledOp> {
    if 0 <= at < bytes.len() {
        let tag = bytes[at];
        if tag == 0 {
            match decode_u32(bytes, at + 1) {
                Ok((index, next)) => Ok((CompiledOp::LocalGet(index), next)),
                Err(e) => Err(e),
            }
        } else if tag == 1 {
            match decode_u32(bytes, at + 1) {
                Ok((bits, next)) => Ok((CompiledOp::I32Const(i32_of_bits(bits)), next)),
                Err(e) => Err(e),
            }
        } else if tag == 2 {
            match decode_u32(bytes, at + 1) {
                Ok((bits, next)) => Ok((CompiledOp::F32Const(bits), next)),
                Err(e) => Err(e),
            }
        } else if tag == 3 {
            match decode_u64(bytes, at + 1) {
                Ok((bits, next)) => Ok((CompiledOp::I64Const(i64_of_bits(bits)), next)),
                Err(e) => Err(e),
            }
        } else if tag == 4 {
            match decode_u64(bytes, at + 1) {
                Ok((bits, next)) => Ok((CompiledOp::F64Const(bits), next)),
                Err(e) => Err(e),
            }
        } else if tag == 5 {
            match decode_u32(bytes, at + 1) {
                Ok((results, next)) => Ok((CompiledOp::Call(results), next)),
                Err(e) => Err(e),
            }
        } else if tag == 6 {
            match decode_type(bytes, at + 1) {
                Ok((typ, next)) => Ok((CompiledOp::Other(typ), next)),
                Err(e) => Err(e),
            }
        } else {
            Err(DeserializationError::InvalidOperandTag(tag))
        }
    } else {
        Err(DeserializationError::UnexpectedEnd)
    }
}

/// Reads a slot: its operand, and its type.
pub open spec fn decode_slot(bytes: Seq<u8>, at: int) -> Decoded<SlotView> {
    match decode_op(bytes, at) {
        Ok((op, next)) => match decode_slot_type(bytes, next) {
            Ok((typ, end)) => Ok(((op, typ), end)),
            Err(e) => Err(e),
        },
        Err(e) => Err(e),
    }
}

/// Reads `n` slots and adds them to `read`.
pub open spec fn decode_stack(bytes: Seq<u8>, at: int, n: nat, read: Seq<SlotView>) -> Decoded<
    Seq<SlotView>,
>
    decreases n,
{
    if n == 0 {
        Ok((read, at))
    } else {
        match decode_slot(bytes, at) {
            Ok((slot, next)) => decode_stack(bytes, next, (n - 1) as nat, read.push(slot)),
            Err(e) => Err(e),
        }
    }
}

/// Reads an entry: its offset, the number of its slots, and the slots.
pub open spec fn decode_entry(bytes: Seq<u8>, at: int) -> Decoded<Entry> {
    match decode_u32(bytes, at) {
        Ok((offset, next)) => match decode_u32(bytes, next) {
            Ok((count, start)) => match decode_stack(bytes, start, count as nat, Seq::empty()) {
                Ok((stack, end)) => Ok(((offset, stack), end)),
                Err(e) => Err(e),
            },
            Err(e) => Err(e),
        },
        Err(e) => Err(e),
    }
}

/// Reads `n` entries and adds them to `read`. An entry whose offset was
/// read before is refused.
pub open spec fn decode_entries(bytes: Seq<u8>, at: int, n: nat, read: Seq<Entry>) -> Decoded<
    Seq<Entry>,
>
    decreases n,
{
    if n == 0 {
        Ok((read, at))
    } else {
        match decode_entry(bytes, at) {
            Ok((entry, next)) => if position_of(read, entry.0) is Some {
                Err(DeserializationError::DuplicateOffset(entry.0))
            } else {
                decode_entries(bytes, next, (n - 1) as nat, read.push(entry))
            },
            Err(e) => Err(e),
        }
    }
}

/// Reads `n` types and adds them to `read`.
pub open spec fn decode_types(bytes: Seq<u8>, at: int, n: nat, read: Seq<WasmType>) -> Decoded<
    Seq<WasmType>,
>
    decreases n,
{
    if n == 0 {
        Ok((read, at))
    } else {
        match decode_type(bytes, at) {
            Ok((typ, next)) => decode_types(bytes, next, (n - 1) as nat, read.push(typ)),
            Err(e) => Err(e),
        }
    }
}

/// Reads a table: its locals and its entries, each after its number.
pub open spec fn decode_table(bytes: Seq<u8>, at: int) -> Decoded<TableView> {
    match decode_u32(bytes, at) {
        Ok((locals_len, a)) => match decode_types(bytes, a, locals_len as nat, Seq::empty()) {
            Ok((locals, b)) => match decode_u32(bytes, b) {
                Ok((entries_len, c)) => match decode_entries(
                    bytes,
                    c,
                    entries_len as nat,
                    Seq::empty(),
                ) {
                    Ok((entries, end)) => Ok((TableView { locals, entries }, end)),
                    Err(e) => Err(e),
                },
                Err(e) => Err(e),
            },
            Err(e) => Err(e),
        },
        Err(e) => Err(e),
    }
}

/// Reads `n` tables and adds them to `read`.
pub open spec fn decode_tables(bytes: Seq<u8>, at: int, n: nat, read: Seq<TableView>) -> Decoded<
    Seq<TableView>,
>
    decreases n,
{
    if n == 0 {
        Ok((read, at))
    } else {
        match decode_table(bytes, at) {
            Ok((table, next)) => decode_tables(bytes, next, (n - 1) as nat, read.push(table)),
            Err(e) => Err(e),
        }
    }
}

/// The tables that the bytes are the binary form of, or the first reason
/// why they are the form of none.
pub open spec fn decode(bytes: Seq<u8>) -> Result<Seq<TableView>, DeserializationError> {
    match decode_u32(bytes, 0) {
        Ok((magic, a)) => if magic != MAGIC {
            Err(DeserializationError::BadMagic)
        } else {
            match decode_u32(bytes, a) {
                Ok((version, b)) => if version != VERSION {
                    Err(DeserializationError::UnsupportedVersion(version))
                } else {
                    match decode_u32(bytes, b) {
                        Ok((count, c)) => match decode_tables(bytes, c, count as nat, Seq::empty()) {
                            Ok((tables, end)) => if end == bytes.len() {
                                Ok(tables)
                            } else {
                                Err(DeserializationError::TrailingBytes)
                            },
                            Err(e) => Err(e),
                        },
                        Err(e) => Err(e),
                    }
                },
                Err(e) => Err(e),
            }
        },
        Err(e) => Err(e),
    }
}

pub(crate) proof fn lemma_read_u32(bytes: Seq<u8>, at: int, x: u32)
    requires
        occurs_at(bytes, at, u32_bytes(x)),
    ensures
        decode_u32(bytes, at) == Ok::<(u32, int), DeserializationError>((x, at + 4)),
{
    lemma_u32_bytes(x);
}

proof fn lemma_read_u64(bytes: Seq<u8>, at: int, x: u64)
    requires
        occurs_at(bytes, at, u64_bytes(x)),
    ensures
        decode_u64(bytes, at) == Ok::<(u64, int), DeserializationError>((x, at + 8)),
{
    lemma_u64_bytes(x);
}

proof fn lemma_read_type(bytes: Seq<u8>, at: int, typ: WasmType)
    requires
        occurs_at(bytes, at, seq![typ.spec_tag()]),
    ensures
        decode_type(bytes, at) == Ok::<(WasmType, int), DeserializationError>((typ, at + 1)),
{
    assert(bytes[at] == bytes.subrange(at, at + 1)[0]);
}

proof fn lemma_read_op(bytes: Seq<u8>, at: int, op: CompiledOp)
    requires
        occurs_at(bytes, at, encode_op(op)),
    ensures
        decode_op(bytes, at) == Ok::<(CompiledOp, int), DeserializationError>(
            (op, at + encode_op(op).len()),
        ),
{
    let whole = encode_op(op);
    assert(bytes[at] == bytes.subrange(at, at + whole.len())[0]);
    match op {
        CompiledOp::LocalGet(index) => {
            lemma_u32_bytes(index);
            lemma_occurs_split(bytes, at, seq![0u8], u32_bytes(index));
            lemma_read_u32(bytes, at + 1, index);
        },
        CompiledOp::I32Const(value) => {
            lemma_u32_bytes(i32_bits(value));
            lemma_occurs_split(bytes, at, seq![1u8], u32_bytes(i32_bits(value)));
            lemma_read_u32(bytes, at + 1, i32_bits(value));
        },
        CompiledOp::F32Const(bits) => {
            lemma_u32_bytes(bits);
            lemma_occurs_split(bytes, at, seq![2u8], u32_bytes(bits));
            lemma_read_u32(bytes, at + 1, bits);
        },
        CompiledOp::I64Const(value) => {
            lemma_u64_bytes(i64_bits(value));
            lemma_occurs_split(bytes, at, seq![3u8], u64_bytes(i64_bits(value)));
            lemma_read_u64(bytes, at + 1, i64_bits(value));
        },
        CompiledOp::F64Const(bits) => {
            lemma_u64_bytes(bits);
            lemma_occurs_split(bytes, at, seq![4u8], u64_bytes(bits));
            lemma_read_u64(bytes, at + 1, bits);
        },
        CompiledOp::Call(results) => {
            lemma_u32_bytes(results);
            lemma_occurs_split(bytes, at, seq![5u8], u32_bytes(results));
            lemma_read_u32(bytes, at + 1, results);
        },
        CompiledOp::Other(typ) => {
            assert(whole == seq![6u8] + seq![typ.spec_tag()]);
            lemma_occurs_split(bytes, at, seq![6u8], seq![typ.spec_tag()]);
            lemma_read_type(bytes, at + 1, typ);
        },
    }
}

proof fn lemma_read_slot(bytes: Seq<u8>, at: int, slot: SlotView)
    requires
        occurs_at(bytes, at, encode_slot(slot)),
        slot.1 != WasmType::Any,
    ensures
        decode_slot(bytes, at) == Ok::<(SlotView, int), DeserializationError>(
            (slot, at + encode_slot(slot).len()),
        ),
{
    assert(encode_slot(slot) == encode_op(slot.0) + seq![slot.1.spec_tag()]);
    lemma_occurs_split(bytes, at, encode_op(slot.0), seq![slot.1.spec_tag()]);
    lemma_read_op(bytes, at, slot.0);
    lemma_read_type(bytes, at + encode_op(slot.0).len(), slot.1);
}

proof fn lemma_encode_stack_concat(a: Seq<SlotView>, b: Seq<SlotView>)
    ensures
        encode_stack(a + b) == encode_stack(a) + encode_stack(b),
    decreases b.len(),
{
    if b.len() == 0 {
        assert(a + b == a);
    } else {
        assert((a + b).drop_last() == a + b.drop_last());
        lemma_encode_stack_concat(a, b.drop_last());
    }
}

proof fn lemma_encode_entries_concat(a: Seq<Entry>, b: Seq<Entry>)
    ensures
        encode_entries(a + b) == encode_entries(a) + encode_entries(b),
    decreases b.len(),
{
    if b.len() == 0 {
        assert(a + b == a);
    } else {
        assert((a + b).drop_last() == a + b.drop_last());
        lemma_encode_entries_concat(a, b.drop_last());
    }
}

proof fn lemma_encode_tables_concat(a: Seq<TableView>, b: Seq<TableView>)
    ensures
        encode_tables(a + b) == encode_tables(a) + encode_tables(b),
    decreases b.len(),
{
    if b.len() == 0 {
        assert(a + b == a);
    } else {
        assert((a + b).drop_last() == a + b.drop_last());
        lemma_encode_tables_concat(a, b.drop_last());
    }
}

proof fn lemma_encode_stack_front(stack: Seq<SlotView>)
    requires
        stack.len() > 0,
    ensures
        encode_stack(stack) == encode_slot(stack.first()) + encode_stack(stack.drop_first()),
{
    let first = seq![stack.first()];
    assert(stack == first + stack.drop_first());
    lemma_encode_stack_concat(first, stack.drop_first());
    assert(first.drop_last() == Seq::<SlotView>::empty());
    assert(encode_stack(first.drop_last()) == Seq::<u8>::empty());
    assert(encode_stack(first) == Seq::<u8>::empty() + encode_slot(first.last()));
    assert(encode_stack(first) == encode_slot(stack.first()));
}

proof fn lemma_encode_entries_front(entries: Seq<Entry>)
    requires
        entries.len() > 0,
    ensures
        encode_entries(entries) == encode_entry(entries.first()) + encode_entries(
            entries.drop_first(),
        ),
{
    let first = seq![entries.first()];
    assert(entries == first + entries.drop_first());
    lemma_encode_entries_concat(first, entries.drop_first());
    assert(first.drop_last() == Seq::<Entry>::empty());
    assert(encode_entries(first.drop_last()) == Seq::<u8>::empty());
    assert(encode_entries(first) == Seq::<u8>::empty() + encode_entry(first.last()));
    assert(encode_entries(first) == encode_entry(entries.first()));
}

proof fn lemma_encode_tables_front(tables: Seq<TableView>)
    requires
        tables.len() > 0,
    ensures
        encode_tables(tables) == encode_table(tables.first()) + encode_tables(tables.drop_first()),
{
    let first = seq![tables.first()];
    assert(tables == first + tables.drop_first());
    lemma_encode_tables_concat(first, tables.drop_first());
    assert(first.drop_last() == Seq::<TableView>::empty());
    assert(encode_tables(first.drop_last()) == Seq::<u8>::empty());
    assert(encode_tables(first) == Seq::<u8>::empty() + encode_table(first.last()));
    assert(encode_tables(first) == encode_table(tables.first()));
}

proof fn lemma_read_stack(bytes: Seq<u8>, at: int, stack: Seq<SlotView>, read: Seq<SlotView>)
    requires
        occurs_at(bytes, at, encode_stack(stack)),
        stack_closed(stack),
    ensures
        decode_stack(bytes, at, stack.len(), read) == Ok::<
            (Seq<SlotView>, int),
            DeserializationError,
        >((read + stack, at + encode_stack(stack).len())),
    decreases stack.len(),
{
    if stack.len() == 0 {
        assert(read + stack == read);
    } else {
        let rest = stack.drop_first();
        lemma_encode_stack_front(stack);
        lemma_occurs_split(bytes, at, encode_slot(stack.first()), encode_stack(rest));
        lemma_read_slot(bytes, at, stack.first());
        lemma_read_stack(
            bytes,
            at + encode_slot(stack.first()).len(),
            rest,
            read.push(stack.first()),
        );
        assert(read.push(stack.first()) + rest == read + stack);
    }
}

proof fn lemma_read_entry(bytes: Seq<u8>, at: int, entry: Entry)
    requires
        occurs_at(bytes, at, encode_entry(entry)),
        entry.1.len() <= u32::MAX,
        stack_closed(entry.1),
    ensures
        decode_entry(bytes, at) == Ok::<(Entry, int), DeserializationError>(
            (entry, at + encode_entry(entry).len()),
        ),
{
    let count = entry.1.len() as u32;
    lemma_u32_bytes(entry.0);
    lemma_u32_bytes(count);
    lemma_occurs_split(bytes, at, u32_bytes(entry.0) + u32_bytes(count), encode_stack(entry.1));
    lemma_occurs_split(bytes, at, u32_bytes(entry.0), u32_bytes(count));
    lemma_read_u32(bytes, at, entry.0);
    lemma_read_u32(bytes, at + 4, count);
    lemma_read_stack(bytes, at + 8, entry.1, Seq::empty());
    assert(Seq::<SlotView>::empty() + entry.1 == entry.1);
}

proof fn lemma_read_entries(bytes: Seq<u8>, at: int, entries: Seq<Entry>, read: Seq<Entry>)
    requires
        occurs_at(bytes, at, encode_entries(entries)),
        forall|e: int|
            0 <= e < entries.len() ==> (#[trigger] entries[e]).1.len() <= u32::MAX && stack_closed(
                entries[e].1,
            ),
        distinct_offsets(read + entries),
    ensures
        decode_entries(bytes, at, entries.len(), read) == Ok::<
            (Seq<Entry>, int),
            DeserializationError,
        >((read + entries, at + encode_entries(entries).len())),
    decreases entries.len(),
{
    if entries.len() == 0 {
        assert(read + entries == read);
    } else {
        let rest = entries.drop_first();
        lemma_encode_entries_front(entries);
        lemma_occurs_split(bytes, at, encode_entry(entries.first()), encode_entries(rest));
        lemma_read_entry(bytes, at, entries.first());
        let all = read + entries;
        crate::stack_table::lemma_position_of(read, entries.first().0);
        if position_of(read, entries.first().0) is Some {
            let i = position_of(read, entries.first().0)->Some_0;
            assert(all[i] == read[i]);
            assert(all[read.len() as int] == entries.first());
            assert(false);
        }
        assert(read.push(entries.first()) + rest == all);
        assert forall|e: int| 0 <= e < rest.len() implies (#[trigger] rest[e]).1.len() <= u32::MAX
            && stack_closed(rest[e].1) by {
            assert(rest[e] == entries[e + 1]);
        }
        lemma_read_entries(
            bytes,
            at + encode_entry(entries.first()).len(),
            rest,
            read.push(entries.first()),
        );
    }
}

pub(crate) proof fn lemma_read_types(bytes: Seq<u8>, at: int, types: Seq<WasmType>, read: Seq<WasmType>)
    requires
        occurs_at(bytes, at, encode_types(types)),
    ensures
        decode_types(bytes, at, types.len(), read) == Ok::<
            (Seq<WasmType>, int),
            DeserializationError,
        >((read + types, at + types.len())),
    decreases types.len(),
{
    if types.len() == 0 {
        assert(read + types == read);
    } else {
        let rest = types.drop_first();
        assert(encode_types(types) == seq![types.first().spec_tag()] + encode_types(rest));
        lemma_occurs_split(bytes, at, seq![types.first().spec_tag()], encode_types(rest));
        lemma_read_type(bytes, at, types.first());
        lemma_read_types(bytes, at + 1, rest, read.push(types.first()));
        assert(read.push(types.first()) + rest == read + types);
    }
}

proof fn lemma_read_table(bytes: Seq<u8>, at: int, table: TableView)
    requires
        occurs_at(bytes, at, encode_table(table)),
        table_fits(table),
        table_closed(table),
        distinct_offsets(table.entries),
    ensures
        decode_table(bytes, at) == Ok::<(TableView, int), DeserializationError>(
            (table, at + encode_table(table).len()),
        ),
{
    let locals_len = table.locals.len() as u32;
    let entries_len = table.entries.len() as u32;
    let a = u32_bytes(locals_len);
    let b = encode_types(table.locals);
    let c = u32_bytes(entries_len);
    let d = encode_entries(table.entries);
    lemma_u32_bytes(locals_len);
    lemma_u32_bytes(entries_len);
    lemma_occurs_split(bytes, at, a + b + c, d);
    lemma_occurs_split(bytes, at, a + b, c);
    lemma_occurs_split(bytes, at, a, b);
    lemma_read_u32(bytes, at, locals_len);
    lemma_read_types(bytes, at + 4, table.locals, Seq::empty());
    assert(Seq::<WasmType>::empty() + table.locals == table.locals);
    lemma_read_u32(bytes, at + 4 + b.len(), entries_len);
    assert(Seq::<Entry>::empty() + table.entries == table.entries);
    lemma_read_entries(bytes, at + 8 + b.len(), table.entries, Seq::empty());
}

proof fn lemma_read_tables(bytes: Seq<u8>, at: int, tables: Seq<TableView>, read: Seq<TableView>)
    requires
        occurs_at(bytes, at, encode_tables(tables)),
        forall|t: int|
            0 <= t < tables.len() ==> table_fits(#[trigger] tables[t]) && table_closed(tables[t]),
        forall|t: int| 0 <= t < tables.len() ==> distinct_offsets((#[trigger] tables[t]).entries),
    ensures
        decode_tables(bytes, at, tables.len(), read) == Ok::<
            (Seq<TableView>, int),
            DeserializationError,
        >((read + tables, at + encode_tables(tables).len())),
    decreases tables.len(),
{
    if tables.len() == 0 {
        assert(read + tables == read);
    } else {
        let rest = tables.drop_first();
        lemma_encode_tables_front(tables);
        lemma_occurs_split(bytes, at, encode_table(tables.first()), encode_tables(rest));
        lemma_read_table(bytes, at, tables.first());
        assert forall|t: int| 0 <= t < rest.len() implies table_fits(#[trigger] rest[t])
            && table_closed(rest[t]) && distinct_offsets(rest[t].entries) by {
            assert(rest[t] == tables[t + 1]);
        }
        lemma_read_tables(
            bytes,
            at + encode_table(tables.first()).len(),
            rest,
            read.push(tables.first()),
        );
        assert(read.push(tables.first()) + rest == read + tables);
    }
}

/// Tables that are written and read again come back as they were: the same
/// tables in the same order, each with the same locals and the same entries
/// in the same order.
pub proof fn round_trip(tables: Seq<TableView>)
    requires
        fits(tables),
        closed(tables),
        forall|t: int| 0 <= t < tables.len() ==> distinct_offsets((#[trigger] tables[t]).entries),
    ensures
        decode(encode(tables)) == Ok::<Seq<TableView>, DeserializationError>(tables),
{
    let bytes = encode(tables);
    let count = tables.len() as u32;
    let head = u32_bytes(MAGIC) + u32_bytes(VERSION) + u32_bytes(count);
    lemma_u32_bytes(MAGIC);
    lemma_u32_bytes(VERSION);
    lemma_u32_bytes(count);
    assert(bytes.subrange(0, bytes.len() as int) == bytes);
    lemma_occurs_split(bytes, 0, head, encode_tables(tables));
    lemma_occurs_split(bytes, 0, u32_bytes(MAGIC) + u32_bytes(VERSION), u32_bytes(count));
    lemma_occurs_split(bytes, 0, u32_bytes(MAGIC), u32_bytes(VERSION));
    lemma_read_u32(bytes, 0, MAGIC);
    lemma_read_u32(bytes, 4, VERSION);
    lemma_read_u32(bytes, 8, count);
    lemma_read_tables(bytes, 12, tables, Seq::empty());
    assert(Seq::<TableView>::empty() + tables == tables);
}

/// The tables of a module that can be analysed come back as they were when
/// they are written and read again, unless they are too large to be
/// written.
pub proof fn analysed_round_trip(module: Module)
    requires
        module.valid(),
        module.types_concrete(),
        module_tables(module) matches Ok(tables) && fits(tables),
    ensures
        decode(encode(module_tables(module)->Ok_0)) == Ok::<Seq<TableView>, DeserializationError>(
            module_tables(module)->Ok_0,
        ),
{
    closed_tables_law(module);
    round_trip(module_tables(module)->Ok_0);
}

proof fn lemma_u32_written(bytes: Seq<u8>, at: int)
    requires
        decode_u32(bytes, at) is Ok,
    ensures
        decode_u32(bytes, at)->Ok_0.1 == at + 4,
        occurs_at(bytes, at, u32_bytes(decode_u32(bytes, at)->Ok_0.0)),
{
    lemma_le_u32(bytes.subrange(at, at + 4));
}

proof fn lemma_u64_written(bytes: Seq<u8>, at: int)
    requires
        decode_u64(bytes, at) is Ok,
    ensures
        decode_u64(bytes, at)->Ok_0.1 == at + 8,
        occurs_at(bytes, at, u64_bytes(decode_u64(bytes, at)->Ok_0.0)),
{
    lemma_le_u64(bytes.subrange(at, at + 8));
}

proof fn lemma_type_written(bytes: Seq<u8>, at: int)
    requires
        decode_type(bytes, at) is Ok,
    ensures
        decode_type(bytes, at)->Ok_0.1 == at + 1,
        occurs_at(bytes, at, seq![decode_type(bytes, at)->Ok_0.0.spec_tag()]),
{
    let typ = decode_type(bytes, at)->Ok_0.0;
    assert(bytes.subrange(at, at + 1) =~= seq![typ.spec_tag()]);
}

proof fn lemma_op_written(bytes: Seq<u8>, at: int)
    requires
        decode_op(bytes, at) is Ok,
    ensures
        occurs_at(bytes, at, encode_op(decode_op(bytes, at)->Ok_0.0)),
        decode_op(bytes, at)->Ok_0.1 == at + encode_op(decode_op(bytes, at)->Ok_0.0).len(),
{
    let tag = bytes[at];
    let op = decode_op(bytes, at)->Ok_0.0;
    assert(occurs_at(bytes, at, seq![tag])) by {
        assert(bytes.subrange(at, at + 1) =~= seq![tag]);
    }
    if tag == 0 || tag == 1 || tag == 2 || tag == 5 {
        lemma_u32_written(bytes, at + 1);
        let x = decode_u32(bytes, at + 1)->Ok_0.0;
        lemma_u32_bytes(x);
        lemma_occurs_join(bytes, at, seq![tag], u32_bytes(x));
        if tag == 1 {
            assert(i32_bits(i32_of_bits(x)) == x);
        }
    } else if tag == 3 || tag == 4 {
        lemma_u64_written(bytes, at + 1);
        let x = decode_u64(bytes, at + 1)->Ok_0.0;
        lemma_u64_bytes(x);
        lemma_occurs_join(bytes, at, seq![tag], u64_bytes(x));
        if tag == 3 {
            assert(i64_bits(i64_of_bits(x)) == x);
        }
    } else {
        lemma_type_written(bytes, at + 1);
        let typ = decode_type(bytes, at + 1)->Ok_0.0;
        lemma_occurs_join(bytes, at, seq![tag], seq![typ.spec_tag()]);
        assert(seq![tag] + seq![typ.spec_tag()] =~= seq![6u8, typ.spec_tag()]);
    }
}

proof fn lemma_slot_written(bytes: Seq<u8>, at: int)
    requires
        decode_slot(bytes, at) is Ok,
    ensures
        occurs_at(bytes, at, encode_slot(decode_slot(bytes, at)->Ok_0.0)),
        decode_slot(bytes, at)->Ok_0.1 == at + encode_slot(decode_slot(bytes, at)->Ok_0.0).len(),
        decode_slot(bytes, at)->Ok_0.0.1 != WasmType::Any,
{
    lemma_op_written(bytes, at);
    let (op, next) = decode_op(bytes, at)->Ok_0;
    lemma_type_written(bytes, next);
    let typ = decode_type(bytes, next)->Ok_0.0;
    lemma_occurs_join(bytes, at, encode_op(op), seq![typ.spec_tag()]);
    assert(encode_op(op) + seq![typ.spec_tag()] =~= encode_slot((op, typ)));
}

proof fn lemma_stack_written(bytes: Seq<u8>, at: int, n: nat, read: Seq<SlotView>)
    requires
        0 <= at <= bytes.len(),
        decode_stack(bytes, at, n, read) is Ok,
    ensures
        ({
            let (all, end) = decode_stack(bytes, at, n, read)->Ok_0;
            let rest = all.skip(read.len() as int);
            &&& all.len() == read.len() + n
            &&& all.take(read.len() as int) == read
            &&& stack_closed(rest)
            &&& occurs_at(bytes, at, encode_stack(rest))
            &&& end == at + encode_stack(rest).len()
        }),
    decreases n,
{
    let (all, end) = decode_stack(bytes, at, n, read)->Ok_0;
    let rest = all.skip(read.len() as int);
    if n == 0 {
        assert(rest =~= Seq::<SlotView>::empty());
        assert(all.take(read.len() as int) =~= read);
        assert(bytes.subrange(at, at) =~= Seq::<u8>::empty());
    } else {
        lemma_slot_written(bytes, at);
        let (slot, next) = decode_slot(bytes, at)->Ok_0;
        lemma_stack_written(bytes, next, (n - 1) as nat, read.push(slot));
        let more = all.skip(read.len() as int + 1);
        assert(all.take(read.len() as int) =~= all.take(read.len() as int + 1).take(read.len() as int));
        assert(all.take(read.len() as int) =~= read);
        assert(all[read.len() as int] == all.take(read.len() as int + 1)[read.len() as int]);
        assert(rest.first() == slot);
        assert(rest.drop_first() =~= more);
        lemma_encode_stack_front(rest);
        lemma_occurs_join(bytes, at, encode_slot(slot), encode_stack(more));
        assert forall|s: int| 0 <= s < rest.len() implies (#[trigger] rest[s]).1 != WasmType::Any by {
            if s > 0 {
                assert(rest[s] == more[s - 1]);
            }
        }
    }
}

proof fn lemma_entry_written(bytes: Seq<u8>, at: int)
    requires
        0 <= at <= bytes.len(),
        decode_entry(bytes, at) is Ok,
    ensures
        ({
            let (entry, end) = decode_entry(bytes, at)->Ok_0;
            &&& entry.1.len() <= u32::MAX
            &&& stack_closed(entry.1)
            &&& occurs_at(bytes, at, encode_entry(entry))
            &&& end == at + encode_entry(entry).len()
        }),
{
    lemma_u32_written(bytes, at);
    lemma_u32_written(bytes, at + 4);
    let offset = decode_u32(bytes, at)->Ok_0.0;
    let count = decode_u32(bytes, at + 4)->Ok_0.0;
    lemma_stack_written(bytes, at + 8, count as nat, Seq::empty());
    let stack = decode_stack(bytes, at + 8, count as nat, Seq::empty())->Ok_0.0;
    assert(stack.skip(0) =~= stack);
    lemma_u32_bytes(offset);
    lemma_u32_bytes(count);
    lemma_occurs_join(bytes, at, u32_bytes(offset), u32_bytes(count));
    lemma_occurs_join(bytes, at, u32_bytes(offset) + u32_bytes(count), encode_stack(stack));
}

proof fn lemma_entries_written(bytes: Seq<u8>, at: int, n: nat, read: Seq<Entry>)
    requires
        0 <= at <= bytes.len(),
        distinct_offsets(read),
        decode_entries(bytes, at, n, read) is Ok,
    ensures
        ({
            let (all, end) = decode_entries(bytes, at, n, read)->Ok_0;
            let rest = all.skip(read.len() as int);
            &&& all.len() == read.len() + n
            &&& all.take(read.len() as int) == read
            &&& distinct_offsets(all)
            &&& forall|e: int|
                0 <= e < rest.len() ==> (#[trigger] rest[e]).1.len() <= u32::MAX && stack_closed(
                    rest[e].1,
                )
            &&& occurs_at(bytes, at, encode_entries(rest))
            &&& end == at + encode_entries(rest).len()
        }),
    decreases n,
{
    let (all, end) = decode_entries(bytes, at, n, read)->Ok_0;
    let rest = all.skip(read.len() as int);
    if n == 0 {
        assert(rest =~= Seq::<Entry>::empty());
        assert(all.take(read.len() as int) =~= read);
        assert(bytes.subrange(at, at) =~= Seq::<u8>::empty());
    } else {
        lemma_entry_written(bytes, at);
        let (entry, next) = decode_entry(bytes, at)->Ok_0;
        crate::stack_table::lemma_position_of(read, entry.0);
        lemma_entries_written(bytes, next, (n - 1) as nat, read.push(entry));
        let more = all.skip(read.len() as int + 1);
        assert(all.take(read.len() as int) =~= all.take(read.len() as int + 1).take(read.len() as int));
        assert(all.take(read.len() as int) =~= read);
        assert(all[read.len() as int] == all.take(read.len() as int + 1)[read.len() as int]);
        assert(rest.first() == entry);
        assert(rest.drop_first() =~= more);
        lemma_encode_entries_front(rest);
        lemma_occurs_join(bytes, at, encode_entry(entry), encode_entries(more));
        assert forall|e: int| 0 <= e < rest.len() implies (#[trigger] rest[e]).1.len() <= u32::MAX
            && stack_closed(rest[e].1) by {
            if e > 0 {
                assert(rest[e] == more[e - 1]);
            }
        }
    }
}

proof fn lemma_types_written(bytes: Seq<u8>, at: int, n: nat, read: Seq<WasmType>)
    requires
        0 <= at <= bytes.len(),
        decode_types(bytes, at, n, read) is Ok,
    ensures
        ({
            let (all, end) = decode_types(bytes, at, n, read)->Ok_0;
            let rest = all.skip(read.len() as int);
            &&& all.len() == read.len() + n
            &&& all.take(read.len() as int) == read
            &&& occurs_at(bytes, at, encode_types(rest))
            &&& end == at + n
        }),
    decreases n,
{
    let (all, end) = decode_types(bytes, at, n, read)->Ok_0;
    let rest = all.skip(read.len() as int);
    if n == 0 {
        assert(rest =~= Seq::<WasmType>::empty());
        assert(all.take(read.len() as int) =~= read);
        assert(bytes.subrange(at, at) =~= encode_types(rest));
    } else {
        lemma_type_written(bytes, at);
        let (typ, next) = decode_type(bytes, at)->Ok_0;
        lemma_types_written(bytes, next, (n - 1) as nat, read.push(typ));
        let more = all.skip(read.len() as int + 1);
        assert(all.take(read.len() as int) =~= all.take(read.len() as int + 1).take(read.len() as int));
        assert(all.take(read.len() as int) =~= read);
        assert(all[read.len() as int] == all.take(read.len() as int + 1)[read.len() as int]);
        assert(rest.first() == typ);
        assert(rest.drop_first() =~= more);
        assert(encode_types(rest) =~= seq![typ.spec_tag()] + encode_types(more));
        lemma_occurs_join(bytes, at, seq![typ.spec_tag()], encode_types(more));
    }
}

/// The table can be written and read back: it fits, no slot in it has the
/// type `Any`, and no offset occurs twice in it.
#[verifier::opaque]
spec fn table_sound(table: TableView) -> bool {
    table_fits(table) && table_closed(table) && distinct_offsets(table.entries)
}

proof fn lemma_table_written(bytes: Seq<u8>, at: int)
    requires
        0 <= at <= bytes.len(),
        decode_table(bytes, at) is Ok,
    ensures
        ({
            let (table, end) = decode_table(bytes, at)->Ok_0;
            &&& table_sound(table)
            &&& occurs_at(bytes, at, encode_table(table))
            &&& end == at + encode_table(table).len()
        }),
{
    reveal(table_sound);
    lemma_u32_written(bytes, at);
    let locals_len = decode_u32(bytes, at)->Ok_0.0;
    lemma_types_written(bytes, at + 4, locals_len as nat, Seq::empty());
    let (locals, b) = decode_types(bytes, at + 4, locals_len as nat, Seq::empty())->Ok_0;
    assert(locals.skip(0) =~= locals);
    lemma_u32_written(bytes, b);
    let entries_len = decode_u32(bytes, b)->Ok_0.0;
    lemma_entries_written(bytes, b + 4, entries_len as nat, Seq::empty());
    let entries = decode_entries(bytes, b + 4, entries_len as nat, Seq::empty())->Ok_0.0;
    assert(entries.skip(0) =~= entries);
    lemma_u32_bytes(locals_len);
    lemma_u32_bytes(entries_len);
    let head = u32_bytes(locals_len) + encode_types(locals);
    lemma_occurs_join(bytes, at, u32_bytes(locals_len), encode_types(locals));
    lemma_occurs_join(bytes, at, head, u32_bytes(entries_len));
    lemma_occurs_join(bytes, at, head + u32_bytes(entries_len), encode_entries(entries));
}

#[verifier::rlimit(30)]
proof fn lemma_tables_written(bytes: Seq<u8>, at: int, n: nat, read: Seq<TableView>)
    requires
        0 <= at <= bytes.len(),
        decode_tables(bytes, at, n, read) is Ok,
    ensures
        ({
            let (all, end) = decode_tables(bytes, at, n, read)->Ok_0;
            let rest = all.skip(read.len() as int);
            &&& all.len() == read.len() + n
            &&& all.take(read.len() as int) == read
            &&& forall|t: int| 0 <= t < rest.len() ==> table_sound(#[trigger] rest[t])
            &&& occurs_at(bytes, at, encode_tables(rest))
            &&& end == at + encode_tables(rest).len()
        }),
    decreases n,
{
    let (all, end) = decode_tables(bytes, at, n, read)->Ok_0;
    let rest = all.skip(read.len() as int);
    if n == 0 {
        assert(rest =~= Seq::<TableView>::empty());
        assert(all.take(read.len() as int) =~= read);
        assert(bytes.subrange(at, at) =~= Seq::<u8>::empty());
    } else {
        lemma_table_written(bytes, at);
        let (table, next) = decode_table(bytes, at)->Ok_0;
        lemma_tables_written(bytes, next, (n - 1) as nat, read.push(table));
        let more = all.skip(read.len() as int + 1);
        assert(all.take(read.len() as int) =~= all.take(read.len() as int + 1).take(read.len() as int));
        assert(all.take(read.len() as int) =~= read);
        assert(all[read.len() as int] == all.take(read.len() as int + 1)[read.len() as int]);
        assert(rest.first() == table);
        assert(rest.drop_first() =~= more);
        lemma_encode_tables_front(rest);
        lemma_occurs_join(bytes, at, encode_table(table), encode_tables(more));
        assert forall|t: int| 0 <= t < rest.len() implies table_sound(#[trigger] rest[t]) by {
            if t > 0 {
                assert(rest[t] == more[t - 1]);
            }
        }
    }
}

/// Bytes that are read as tables are the binary form of these tables, and of
/// no others: the tables fit, no slot in them has the type `Any`, no offset
/// occurs twice in a table, and writing them gives the bytes again. So bytes
/// that are the binary form of no tables are refused.
pub proof fn decoded_is_encoded(bytes: Seq<u8>)
    requires
        decode(bytes) is Ok,
    ensures
        encode(decode(bytes)->Ok_0) == bytes,
        fits(decode(bytes)->Ok_0),
        closed(decode(bytes)->Ok_0),
        forall|t: int|
            0 <= t < decode(bytes)->Ok_0.len() ==> distinct_offsets(
                (#[trigger] decode(bytes)->Ok_0[t]).entries,
            ),
{
    let tables = decode(bytes)->Ok_0;
    reveal(table_sound);
    lemma_u32_written(bytes, 0);
    lemma_u32_written(bytes, 4);
    lemma_u32_written(bytes, 8);
    let count = decode_u32(bytes, 8)->Ok_0.0;
    lemma_tables_written(bytes, 12, count as nat, Seq::empty());
    assert(tables.skip(0) =~= tables);
    assert forall|t: int| 0 <= t < tables.len() implies table_fits(#[trigger] tables[t])
        && table_closed(tables[t]) && distinct_offsets(tables[t].entries) by {
        assert(table_sound(tables[t]));
    }
    lemma_u32_bytes(MAGIC);
    lemma_u32_bytes(VERSION);
    lemma_u32_bytes(count);
    lemma_occurs_join(bytes, 0, u32_bytes(MAGIC), u32_bytes(VERSION));
    lemma_occurs_join(bytes, 0, u32_bytes(MAGIC) + u32_bytes(VERSION), u32_bytes(count));
    lemma_occurs_join(
        bytes,
        0,
        u32_bytes(MAGIC) + u32_bytes(VERSION) + u32_bytes(count),
        encode_tables(tables),
    );
    assert(bytes.subrange(0, bytes.len() as int) =~= bytes);
}

/// Whether an exec reader's result is what the spec reader gives.
pub open spec fn read_as<T, V>(
    got: Result<(T, usize), DeserializationError>,
    value: spec_fn(T) -> V,
    wanted: Decoded<V>,
) -> bool {
    match got {
        Ok((x, next)) => wanted == Ok::<(V, int), DeserializationError>((value(x), next as int)),
        Err(e) => wanted == Err::<(V, int), DeserializationError>(e),
    }
}

pub(crate) fn take_u32(data: &[u8], at: usize) -> (r: Result<(u32, usize), DeserializationError>)
    requires
        at <= data@.len(),
    ensures
        read_as(r, |x: u32| x, decode_u32(data@, at as int)),
        r matches Ok((_, next)) ==> next <= data@.len(),
{
    match get_u32(data, at) {
        Some((x, next)) => {
            proof {
                crate::bytes::lemma_le_u32(data@.subrange(at as int, at + 4));
            }
            Ok((x, next))
        },
        None => Err(DeserializationError::UnexpectedEnd),
    }
}

fn take_u64(data: &[u8], at: usize) -> (r: Result<(u64, usize), DeserializationError>)
    requires
        at <= data@.len(),
    ensures
        read_as(r, |x: u64| x, decode_u64(data@, at as int)),
        r matches Ok((_, next)) ==> next <= data@.len(),
{
    match get_u64(data, at) {
        Some((x, next)) => {
            proof {
                crate::bytes::lemma_le_u64(data@.subrange(at as int, at + 8));
            }
            Ok((x, next))
        },
        None => Err(DeserializationError::UnexpectedEnd),
    }
}

fn take_type(data: &[u8], at: usize) -> (r: Result<(WasmType, usize), DeserializationError>)
    requires
        at <= data@.len(),
    ensures
        read_as(r, |x: WasmType| x, decode_type(data@, at as int)),
        r matches Ok((_, next)) ==> next <= data@.len(),
{
    if at >= data.len() {
        return Err(DeserializationError::UnexpectedEnd);
    }
    match WasmType::from_tag(data[at]) {
        Some(typ) => Ok((typ, at + 1)),
        None => Err(DeserializationError::InvalidTypeTag(data[at])),
    }
}

fn take_slot_type(data: &[u8], at: usize) -> (r: Result<(WasmType, usize), DeserializationError>)
    requires
        at <= data@.len(),
    ensures
        read_as(r, |x: WasmType| x, decode_slot_type(data@, at as int)),
        r matches Ok((_, next)) ==> next <= data@.len(),
{
    match take_type(data, at) {
        Ok((typ, next)) => match typ {
            WasmType::Any => Err(DeserializationError::OpenType),
            _ => Ok((typ, next)),
        },
        Err(e) => Err(e),
    }
}

/// Reads the types of `n` stack slots from `start` on.
pub(crate) fn take_slot_types(data: &[u8], start: usize, n: u32) -> (r: Result<
    (Vec<WasmType>, usize),
    DeserializationError,
>)
    requires
        start <= data@.len(),
    ensures
        read_as(
            r,
            |x: Vec<WasmType>| x@,
            decode_slot_types(data@, start as int, n as nat, Seq::empty()),
        ),
        r matches Ok((_, next)) ==> next <= data@.len(),
{
    let mut types: Vec<WasmType> = Vec::new();
    let mut at = start;
    let mut i: u32 = 0;
    while i < n
        invariant
            i <= n,
            at <= data@.len(),
            decode_slot_types(data@, start as int, n as nat, Seq::empty()) == decode_slot_types(
                data@,
                at as int,
                (n - i) as nat,
                types@,
            ),
        decreases n - i,
    {
        let (typ, next) = match take_slot_type(data, at) {
            Ok(x) => x,
            Err(e) => {
                return Err(e);
            },
        };
        types.push(typ);
        at = next;
        i += 1;
    }
    Ok((types, at))
}

/// Where the tags of closed types stand at `at`, reading them as the types
/// of slots gives the types.
pub(crate) proof fn lemma_read_slot_types(
    bytes: Seq<u8>,
    at: int,
    types: Seq<WasmType>,
    read: Seq<WasmType>,
)
    requires
        occurs_at(bytes, at, encode_types(types)),
        forall|i: int| 0 <= i < types.len() ==> #[trigger] types[i] != WasmType::Any,
    ensures
        decode_slot_types(bytes, at, types.len(), read) == Ok::<
            (Seq<WasmType>, int),
            DeserializationError,
        >((read + types, at + types.len())),
    decreases types.len(),
{
    if types.len() == 0 {
        assert(read + types == read);
    } else {
        let rest = types.drop_first();
        assert(encode_types(types) == seq![types.first().spec_tag()] + encode_types(rest));
        lemma_occurs_split(bytes, at, seq![types.first().spec_tag()], encode_types(rest));
        lemma_read_type(bytes, at, types.first());
        assert forall|i: int| 0 <= i < rest.len() implies #[trigger] rest[i] != WasmType::Any by {
            assert(rest[i] == types[i + 1]);
        }
        lemma_read_slot_types(bytes, at + 1, rest, read.push(types.first()));
        assert(read.push(types.first()) + rest == read + types);
    }
}

fn signed32(bits: u32) -> (v: i32)
    ensures
        v == i32_of_bits(bits),
{
    if bits < 0x8000_0000 {
        bits as i32
    } else {
        (bits as i64 - 0x1_0000_0000) as i32
    }
}

fn signed64(bits: u64) -> (v: i64)
    ensures
        v == i64_of_bits(bits),
{
    if bits < 0x8000_0000_0000_0000 {
        bits as i64
    } else {
        (bits as i128 - 0x1_0000_0000_0000_0000) as i64
    }
}

fn take_op(data: &[u8], at: usize) -> (r: Result<(CompiledOp, usize), DeserializationError>)
    requires
        at <= data@.len(),
    ensures
        read_as(r, |x: CompiledOp| x, decode_op(data@, at as int)),
        r matches Ok((_, next)) ==> next <= data@.len(),
{
    if at >= data.len() {
        return Err(DeserializationError::UnexpectedEnd);
    }
    let tag = data[at];
    let next = at + 1;
    if tag == 0 {
        match take_u32(data, next) {
            Ok((index, end)) => Ok((CompiledOp::LocalGet(index), end)),
            Err(e) => Err(e),
        }
    } else if tag == 1 {
        match take_u32(data, next) {
            Ok((bits, end)) => Ok((CompiledOp::I32Const(signed32(bits)), end)),
            Err(e) => Err(e),
        }
    } else if tag == 2 {
        match take_u32(data, next) {
            Ok((bits, end)) => Ok((CompiledOp::F32Const(bits), end)),
            Err(e) => Err(e),
        }
    } else if tag == 3 {
        match take_u64(data, next) {
            Ok((bits, end)) => Ok((CompiledOp::I64Const(signed64(bits)), end)),
            Err(e) => Err(e),
        }
    } else if tag == 4 {
        match take_u64(data, next) {
            Ok((bits, end)) => Ok((CompiledOp::F64Const(bits), end)),
            Err(e) => Err(e),
        }
    } else if tag == 5 {
        match take_u32(data, next) {
            Ok((results, end)) => Ok((CompiledOp::Call(results), end)),
            Err(e) => Err(e),
        }
    } else if tag == 6 {
        match take_type(data, next) {
            Ok((typ, end)) => Ok((CompiledOp::Other(typ), end)),
            Err(e) => Err(e),
        }
    } else {
        Err(DeserializationError::InvalidOperandTag(tag))
    }
}

fn take_stack(data: &[u8], start: usize, n: u32) -> (r: Result<
    (Stack, usize),
    DeserializationError,
>)
    requires
        start <= data@.len(),
    ensures
        read_as(r, |x: Stack| x@, decode_stack(data@, start as int, n as nat, Seq::empty())),
        r matches Ok((_, next)) ==> next <= data@.len(),
{
    let mut stack: Stack = Vec::new();
    let mut at = start;
    let mut i: u32 = 0;
    while i < n
        invariant
            i <= n,
            at <= data@.len(),
            decode_stack(data@, start as int, n as nat, Seq::empty()) == decode_stack(
                data@,
                at as int,
                (n - i) as nat,
                stack@,
            ),
        decreases n - i,
    {
        let (op, next) = match take_op(data, at) {
            Ok(x) => x,
            Err(e) => {
                return Err(e);
            },
        };
        let (typ, end) = match take_slot_type(data, next) {
            Ok(x) => x,
            Err(e) => {
                return Err(e);
            },
        };
        stack.push((op, typ));
        at = end;
        i += 1;
    }
    Ok((stack, at))
}

pub(crate) fn take_types(data: &[u8], start: usize, n: u32) -> (r: Result<
    (Vec<WasmType>, usize),
    DeserializationError,
>)
    requires
        start <= data@.len(),
    ensures
        read_as(r, |x: Vec<WasmType>| x@, decode_types(data@, start as int, n as nat, Seq::empty())),
        r matches Ok((_, next)) ==> next <= data@.len(),
{
    let mut types: Vec<WasmType> = Vec::new();
    let mut at = start;
    let mut i: u32 = 0;
    while i < n
        invariant
            i <= n,
            at <= data@.len(),
            decode_types(data@, start as int, n as nat, Seq::empty()) == decode_types(
                data@,
                at as int,
                (n - i) as nat,
                types@,
            ),
        decreases n - i,
    {
        let (typ, next) = match take_type(data, at) {
            Ok(x) => x,
            Err(e) => {
                return Err(e);
            },
        };
        types.push(typ);
        at = next;
        i += 1;
    }
    Ok((types, at))
}

fn take_table(data: &[u8], start: usize) -> (r: Result<(StackTable, usize), DeserializationError>)
    requires
        start <= data@.len(),
    ensures
        read_as(r, |x: StackTable| x@, decode_table(data@, start as int)),
        r matches Ok((_, next)) ==> next <= data@.len(),
        r matches Ok((table, _)) ==> distinct_offsets(table@.entries),
{
    let (locals_len, a) = match take_u32(data, start) {
        Ok(x) => x,
        Err(e) => {
            return Err(e);
        },
    };
    let (locals, b) = match take_types(data, a, locals_len) {
        Ok(x) => x,
        Err(e) => {
            return Err(e);
        },
    };
    let (n, c) = match take_u32(data, b) {
        Ok(x) => x,
        Err(e) => {
            return Err(e);
        },
    };
    let mut inner = map_new();
    let mut at = c;
    let mut i: u32 = 0;
    while i < n
        invariant
            i <= n,
            at <= data@.len(),
            distinct_offsets(entries(inner)),
            decode_table(data@, start as int) == match decode_entries(
                data@,
                at as int,
                (n - i) as nat,
                entries(inner),
            ) {
                Ok((read, end)) => Ok::<(TableView, int), DeserializationError>(
                    (TableView { locals: locals@, entries: read }, end),
                ),
                Err(e) => Err::<(TableView, int), DeserializationError>(e),
            },
        decreases n - i,
    {
        let (offset, next) = match take_u32(data, at) {
            Ok(x) => x,
            Err(e) => {
                return Err(e);
            },
        };
        let (count, first) = match take_u32(data, next) {
            Ok(x) => x,
            Err(e) => {
                return Err(e);
            },
        };
        let (stack, end) = match take_stack(data, first, count) {
            Ok(x) => x,
            Err(e) => {
                return Err(e);
            },
        };
        if map_get(&inner, &offset).is_some() {
            return Err(DeserializationError::DuplicateOffset(offset));
        }
        proof {
            crate::stack_table::lemma_insert_keeps_distinct(entries(inner), (offset, stack@));
        }
        map_insert(&mut inner, offset, stack);
        at = end;
        i += 1;
    }
    Ok((StackTable::new(locals, inner), at))
}

impl StackTables {
    /// Reads tables from their binary form.
    ///
    /// Fails where the bytes are not the binary form of any tables, with the
    /// first reason that `decode` finds.
    pub fn deserialize(data: &[u8]) -> (r: Result<Self, DeserializationError>)
        ensures
            match r {
                Ok(tables) => decode(data@) == Ok::<Seq<TableView>, DeserializationError>(tables@),
                Err(e) => decode(data@) == Err::<Seq<TableView>, DeserializationError>(e),
            },
            r matches Ok(tables) ==> tables.wf(),
    {
        let (magic, a) = match take_u32(data, 0) {
            Ok(x) => x,
            Err(e) => {
                return Err(e);
            },
        };
        if magic != MAGIC {
            return Err(DeserializationError::BadMagic);
        }
        let (version, b) = match take_u32(data, a) {
            Ok(x) => x,
            Err(e) => {
                return Err(e);
            },
        };
        if version != VERSION {
            return Err(DeserializationError::UnsupportedVersion(version));
        }
        let (n, c) = match take_u32(data, b) {
            Ok(x) => x,
            Err(e) => {
                return Err(e);
            },
        };
        let mut tables: Vec<StackTable> = Vec::new();
        let mut at = c;
        let mut i: u32 = 0;
        assert(tables@.map_values(|t: StackTable| t@) == Seq::<TableView>::empty());
        while i < n
            invariant
                i <= n,
                at <= data@.len(),
                forall|t: int|
                    0 <= t < tables@.len() ==> distinct_offsets((#[trigger] tables@[t])@.entries),
                decode(data@) == match decode_tables(
                    data@,
                    at as int,
                    (n - i) as nat,
                    tables@.map_values(|t: StackTable| t@),
                ) {
                    Ok((read, end)) => if end == data@.len() {
                        Ok::<Seq<TableView>, DeserializationError>(read)
                    } else {
                        Err::<Seq<TableView>, DeserializationError>(
                            DeserializationError::TrailingBytes,
                        )
                    },
                    Err(e) => Err::<Seq<TableView>, DeserializationError>(e),
                },
            decreases n - i,
        {
            let ghost before = tables@.map_values(|t: StackTable| t@);
            let (table, next) = match take_table(data, at) {
                Ok(x) => x,
                Err(e) => {
                    return Err(e);
                },
            };
            tables.push(table);
            assert(tables@.map_values(|t: StackTable| t@) == before.push(table@));
            at = next;
            i += 1;
        }
        if at != data.len() {
            return Err(DeserializationError::TrailingBytes);
        }
        Ok(StackTables(tables))
    }
}

} // verus!
