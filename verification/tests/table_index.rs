use indexmap::IndexMap;
use wasm_stack_tables::codec::{DeserializationError, SerializationError};
use wasm_stack_tables::create_table::{
    calc_tablemap, read_record, table_files, write_tablemap_func, write_tablemap_offset,
    write_type_stack_table,
};
use wasm_stack_tables::stack_table::{CompiledOp, Stack, StackTable, StackTables};
use wasm_stack_tables::val::WasmType;

fn table(locals: Vec<WasmType>, entries: Vec<(u32, Stack)>) -> StackTable {
    let mut inner = IndexMap::new();
    for (offset, stack) in entries {
        inner.insert(offset, stack);
    }
    StackTable::new(locals, inner)
}

fn other(typ: WasmType) -> (CompiledOp, WasmType) {
    (CompiledOp::Other(typ), typ)
}

fn tables() -> StackTables {
    StackTables(vec![
        table(vec![], vec![]),
        table(
            vec![WasmType::I32],
            vec![
                (2, vec![(CompiledOp::LocalGet(0), WasmType::I32)]),
                (4, vec![(CompiledOp::LocalGet(0), WasmType::I32), other(WasmType::F64)]),
            ],
        ),
        table(vec![], vec![]),
        table(
            vec![WasmType::I64, WasmType::F32, WasmType::Ref],
            vec![(3, vec![]), (9, vec![other(WasmType::V128)])],
        ),
    ])
}

#[test]
fn type_table_holds_one_record_for_each_stack() {
    let bytes = write_type_stack_table(&tables()).unwrap();
    assert_eq!(
        bytes,
        vec![
            1, 0, 0, 0, 2, //
            2, 0, 0, 0, 2, 5, //
            0, 0, 0, 0, //
            1, 0, 0, 0, 6,
        ]
    );
}

#[test]
fn addresses_count_the_bytes_in_front() {
    let (funcs, offsets) = calc_tablemap(&tables()).unwrap();
    assert_eq!(funcs, vec![0, 5, 0, 36]);
    assert_eq!(offsets, vec![vec![], vec![0, 5], vec![], vec![11, 15]]);
}

#[test]
fn function_index_holds_twelve_bytes_for_each_function() {
    let bytes = write_tablemap_func(&vec![0, 5, 0, 0x0102_0304_0506_0708]).unwrap();
    assert_eq!(
        bytes,
        vec![
            0, 0, 0, 0, 0, 0, 0, 0, 0, 0, 0, 0, //
            1, 0, 0, 0, 5, 0, 0, 0, 0, 0, 0, 0, //
            2, 0, 0, 0, 0, 0, 0, 0, 0, 0, 0, 0, //
            3, 0, 0, 0, 8, 7, 6, 5, 4, 3, 2, 1,
        ]
    );
}

#[test]
fn offset_index_holds_a_section_for_each_function_with_stacks() {
    let tables = tables();
    let (_, offsets) = calc_tablemap(&tables).unwrap();
    let bytes = write_tablemap_offset(&offsets, &tables).unwrap();
    assert_eq!(
        bytes,
        vec![
            1, 0, 0, 0, 2, //
            2, 0, 0, 0, 0, 0, 0, 0, 0, 0, 0, 0, //
            4, 0, 0, 0, 5, 0, 0, 0, 0, 0, 0, 0, //
            3, 0, 0, 0, 4, 3, 7, //
            3, 0, 0, 0, 11, 0, 0, 0, 0, 0, 0, 0, //
            9, 0, 0, 0, 15, 0, 0, 0, 0, 0, 0, 0,
        ]
    );
}

fn u32_at(bytes: &[u8], at: usize) -> u32 {
    u32::from_le_bytes([bytes[at], bytes[at + 1], bytes[at + 2], bytes[at + 3]])
}

fn u64_at(bytes: &[u8], at: usize) -> u64 {
    let mut eight = [0u8; 8];
    eight.copy_from_slice(&bytes[at..at + 8]);
    u64::from_le_bytes(eight)
}

#[test]
fn every_address_leads_to_its_record() {
    let tables = tables();
    let files = table_files(&tables).unwrap();
    assert_eq!(files.tablemap_func.len(), 12 * tables.0.len());
    for (f, table) in tables.0.iter().enumerate() {
        assert_eq!(u32_at(&files.tablemap_func, 12 * f) as usize, f);
        let first = u64_at(&files.tablemap_func, 12 * f + 4) as usize;
        if table.inner.is_empty() {
            assert_eq!(first, 0);
            continue;
        }
        let locals_at = first - table.locals.len() - 4;
        assert_eq!(u32_at(&files.tablemap_offset, locals_at) as usize, table.locals.len());
        for (k, (offset, stack)) in table.inner.iter().enumerate() {
            assert_eq!(u32_at(&files.tablemap_offset, first + 12 * k), *offset);
            let address = u64_at(&files.tablemap_offset, first + 12 * k + 4);
            assert_eq!(u32_at(&files.type_table, address as usize) as usize, stack.len());
            let types: Vec<WasmType> = stack.iter().map(|slot| slot.1).collect();
            assert_eq!(read_record(&files.type_table, address), Ok(types));
        }
    }
}

#[test]
fn read_record_refuses_what_is_no_record() {
    let bytes = vec![2, 0, 0, 0, 2, 9, 1, 0, 0, 0];
    assert_eq!(read_record(&bytes, 0), Err(DeserializationError::InvalidTypeTag(9)));
    assert_eq!(read_record(&bytes, 6), Err(DeserializationError::UnexpectedEnd));
    assert_eq!(read_record(&bytes, 7), Err(DeserializationError::UnexpectedEnd));
    assert_eq!(read_record(&bytes, 11), Err(DeserializationError::UnexpectedEnd));
    assert_eq!(read_record(&bytes, u64::MAX), Err(DeserializationError::UnexpectedEnd));
    assert_eq!(read_record(&[0, 0, 0, 0], 0), Ok(vec![]));
    assert_eq!(read_record(&[1, 0, 0, 0, 0], 0), Err(DeserializationError::OpenType));
}

#[test]
fn open_slot_type_is_not_written() {
    let open = StackTables(vec![table(vec![], vec![(1, vec![other(WasmType::Any)])])]);
    assert_eq!(write_type_stack_table(&open), Err(SerializationError::OpenType));
    assert_eq!(table_files(&open).err(), Some(SerializationError::OpenType));
    assert!(calc_tablemap(&open).is_ok());
}
