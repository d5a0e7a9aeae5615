use indexmap::IndexMap;
use wasm_stack_tables::bytes::{write_u32, write_u64, write_u8, write_u8s};
use wasm_stack_tables::codec::{DeserializationError, SerializationError};
use wasm_stack_tables::stack_table::{CompiledOp, Stack, StackTable, StackTables};
use wasm_stack_tables::val::WasmType;

fn table(locals: Vec<WasmType>, entries: Vec<(u32, Stack)>) -> StackTable {
    let mut inner = IndexMap::new();
    for (offset, stack) in entries {
        inner.insert(offset, stack);
    }
    StackTable::new(locals, inner)
}

fn small_tables() -> StackTables {
    StackTables(vec![
        table(vec![], vec![]),
        table(
            vec![WasmType::I32],
            vec![
                (2, vec![(CompiledOp::LocalGet(0), WasmType::I32)]),
                (
                    4,
                    vec![
                        (CompiledOp::LocalGet(0), WasmType::I32),
                        (CompiledOp::I32Const(-1), WasmType::I32),
                    ],
                ),
            ],
        ),
    ])
}

fn small_bytes() -> Vec<u8> {
    vec![
        0x53, 0x54, 0x42, 0x4c, // magic
        1, 0, 0, 0, // version
        2, 0, 0, 0, // tables
        0, 0, 0, 0, 0, 0, 0, 0, // the empty table
        1, 0, 0, 0, 2, // locals
        2, 0, 0, 0, // entries
        2, 0, 0, 0, 1, 0, 0, 0, // offset 2, one slot
        0, 0, 0, 0, 0, 2, //
        4, 0, 0, 0, 2, 0, 0, 0, // offset 4, two slots
        0, 0, 0, 0, 0, 2, //
        1, 0xff, 0xff, 0xff, 0xff, 2,
    ]
}

fn same(a: &StackTables, b: &StackTables) -> bool {
    a.0.len() == b.0.len()
        && a.0.iter().zip(b.0.iter()).all(|(x, y)| {
            x.locals == y.locals
                && x.inner.len() == y.inner.len()
                && x.inner.iter().zip(y.inner.iter()).all(|(p, q)| p == q)
        })
}

#[test]
fn serialize_writes_the_documented_bytes() {
    assert_eq!(small_tables().serialize().unwrap(), small_bytes());
}

#[test]
fn deserialize_reads_the_documented_bytes() {
    let tables = StackTables::deserialize(&small_bytes()).unwrap();
    assert!(same(&tables, &small_tables()));
}

#[test]
fn every_operand_comes_back() {
    let stack: Stack = vec![
        (CompiledOp::LocalGet(0x0102_0304), WasmType::V128),
        (CompiledOp::I32Const(i32::MIN), WasmType::U8),
        (CompiledOp::I32Const(i32::MAX), WasmType::I32),
        (CompiledOp::I32Const(-2), WasmType::I32),
        (CompiledOp::F32Const(0x7fc0_0001), WasmType::F32),
        (CompiledOp::I64Const(i64::MIN), WasmType::I64),
        (CompiledOp::I64Const(-3), WasmType::I64),
        (CompiledOp::I64Const(0x0102_0304_0506_0708), WasmType::I64),
        (CompiledOp::F64Const(0xfff8_0000_0000_0001), WasmType::F64),
        (CompiledOp::Call(3), WasmType::V128),
        (CompiledOp::Other(WasmType::Ref), WasmType::Ref),
        (CompiledOp::Other(WasmType::Any), WasmType::F64),
    ];
    let tables = StackTables(vec![
        table(
            vec![
                WasmType::Any,
                WasmType::U8,
                WasmType::I32,
                WasmType::F32,
                WasmType::I64,
                WasmType::F64,
                WasmType::V128,
                WasmType::Ref,
            ],
            vec![(0xdead_beef, stack), (7, vec![]), (u32::MAX, vec![])],
        ),
        table(vec![], vec![]),
    ]);
    let bytes = tables.serialize().unwrap();
    let back = StackTables::deserialize(&bytes).unwrap();
    assert!(same(&back, &tables));
    let keys: Vec<u32> = back.0[0].inner.keys().copied().collect();
    assert_eq!(keys, vec![0xdead_beef, 7, u32::MAX]);
    assert_eq!(back.serialize().unwrap(), bytes);
}

#[test]
fn no_tables_are_twelve_bytes() {
    let bytes = StackTables(vec![]).serialize().unwrap();
    assert_eq!(bytes, vec![0x53, 0x54, 0x42, 0x4c, 1, 0, 0, 0, 0, 0, 0, 0]);
    assert_eq!(StackTables::deserialize(&bytes).unwrap().0.len(), 0);
}

fn error_of(bytes: &[u8]) -> DeserializationError {
    StackTables::deserialize(bytes).err().unwrap()
}

#[test]
fn short_input_is_refused() {
    assert_eq!(error_of(&[]), DeserializationError::UnexpectedEnd);
    assert_eq!(error_of(&[0x53, 0x54, 0x42]), DeserializationError::UnexpectedEnd);
    let bytes = small_bytes();
    for n in 4..bytes.len() {
        assert_eq!(error_of(&bytes[..n]), DeserializationError::UnexpectedEnd, "{}", n);
    }
}

#[test]
fn wrong_magic_is_refused() {
    let mut bytes = small_bytes();
    bytes[0] = 0x54;
    assert_eq!(error_of(&bytes), DeserializationError::BadMagic);
}

#[test]
fn other_version_is_refused() {
    let mut bytes = small_bytes();
    bytes[4] = 2;
    bytes[5] = 1;
    assert_eq!(error_of(&bytes), DeserializationError::UnsupportedVersion(0x0102));
}

#[test]
fn unknown_type_tag_is_refused() {
    let mut bytes = small_bytes();
    bytes[24] = 8;
    assert_eq!(error_of(&bytes), DeserializationError::InvalidTypeTag(8));
    let mut bytes = small_bytes();
    let last = bytes.len() - 1;
    bytes[last] = 0xff;
    assert_eq!(error_of(&bytes), DeserializationError::InvalidTypeTag(0xff));
}

#[test]
fn unknown_operand_tag_is_refused() {
    let mut bytes = small_bytes();
    bytes[37] = 7;
    assert_eq!(error_of(&bytes), DeserializationError::InvalidOperandTag(7));
}

#[test]
fn open_slot_type_is_refused() {
    let mut bytes = small_bytes();
    let last = bytes.len() - 1;
    bytes[last] = 0;
    assert_eq!(error_of(&bytes), DeserializationError::OpenType);
    let open = StackTables(vec![table(
        vec![WasmType::Any],
        vec![(1, vec![(CompiledOp::Other(WasmType::Any), WasmType::I32)]), (2, vec![
            (CompiledOp::I32Const(0), WasmType::I32),
            (CompiledOp::I32Const(0), WasmType::Any),
        ])],
    )]);
    assert_eq!(open.serialize(), Err(SerializationError::OpenType));
    assert!(open.sizes_fit());
    let closed = StackTables(vec![table(
        vec![WasmType::Any],
        vec![(1, vec![(CompiledOp::Other(WasmType::Any), WasmType::I32)])],
    )]);
    let bytes = closed.serialize().unwrap();
    assert!(same(&StackTables::deserialize(&bytes).unwrap(), &closed));
}

#[test]
fn repeated_offset_is_refused() {
    let mut bytes = small_bytes();
    bytes[43] = 2;
    assert_eq!(error_of(&bytes), DeserializationError::DuplicateOffset(2));
}

#[test]
fn bytes_after_the_tables_are_refused() {
    let mut bytes = small_bytes();
    bytes.push(0);
    assert_eq!(error_of(&bytes), DeserializationError::TrailingBytes);
}

#[test]
fn numbers_are_written_lowest_byte_first() {
    let mut out = vec![0xaa];
    write_u32(&mut out, 0x0403_0201);
    write_u64(&mut out, 0x0c0b_0a09_0807_0605);
    write_u8(&mut out, 0x0d);
    write_u8s(&mut out, &[0x0e, 0x0f]);
    assert_eq!(out, vec![0xaa, 1, 2, 3, 4, 5, 6, 7, 8, 9, 10, 11, 12, 13, 14, 15]);
}
