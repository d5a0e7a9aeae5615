use wasm_encoder::{
    BlockType, CodeSection, ConstExpr, EntityType, Function, FunctionSection, GlobalSection,
    GlobalType, HeapType, Ieee32, Ieee64, ImportSection, Instruction, MemArg, Module, TypeSection,
    ValType,
};
use wasm_stack_tables::create_table::{create_table, read_record};
use wasm_stack_tables::create_table_v2::create_table_v2;
use wasm_stack_tables::error::{AnalysisError, Error, FunctionError, ModuleError};
use wasm_stack_tables::instr::{Immediate, Instr};
use wasm_stack_tables::module::{FuncBody, Module as WasmModule, Op, Signature};
use wasm_stack_tables::parse::{
    decode_ops, locate, module_from, new_module, Parsed, ParseError, RawBody,
};
use wasm_stack_tables::stack_table::{CompiledOp, StackTables};
use wasm_stack_tables::val::WasmType;

fn body(locals: Vec<(u32, ValType)>, instructions: &[Instruction]) -> Function {
    let mut f = Function::new(locals);
    for i in instructions {
        f.instruction(i);
    }
    f
}

fn module_of(
    types: Vec<(Vec<ValType>, Vec<ValType>)>,
    imports: Vec<u32>,
    functions: Vec<(u32, Function)>,
    globals: Vec<ValType>,
) -> Vec<u8> {
    let mut module = Module::new();
    let mut section = TypeSection::new();
    for (params, results) in types {
        section.ty().function(params, results);
    }
    module.section(&section);
    let mut section = ImportSection::new();
    for ty in imports {
        section.import("env", "f", EntityType::Function(ty));
    }
    section.import("env", "g", EntityType::Global(GlobalType {
        val_type: ValType::I32,
        mutable: false,
        shared: false,
    }));
    module.section(&section);
    let mut section = FunctionSection::new();
    for (ty, _) in &functions {
        section.function(*ty);
    }
    module.section(&section);
    let mut section = GlobalSection::new();
    for val_type in globals {
        let init = match val_type {
            ValType::I64 => ConstExpr::i64_const(0),
            ValType::F32 => ConstExpr::f32_const(Ieee32::new(0)),
            ValType::F64 => ConstExpr::f64_const(Ieee64::new(0)),
            _ => ConstExpr::i32_const(0),
        };
        section.global(GlobalType { val_type, mutable: true, shared: false }, &init);
    }
    module.section(&section);
    let mut section = CodeSection::new();
    for (_, f) in &functions {
        section.function(f);
    }
    module.section(&section);
    module.finish()
}

fn op(instr: Instr, offset_before: u32, offset_after: u32) -> Op {
    Op { instr, offset_before, offset_after }
}

fn same_body(a: &FuncBody, locals: &[(u32, WasmType)], ops: &[Op]) -> bool {
    a.locals == locals && a.ops == ops
}

#[test]
fn module_with_one_function_is_read() {
    let bytes = module_of(
        vec![(vec![], vec![ValType::I32])],
        vec![],
        vec![(
            0,
            body(
                vec![(1, ValType::I32)],
                &[
                    Instruction::LocalGet(0),
                    Instruction::I32Const(5),
                    Instruction::I32Add,
                    Instruction::End,
                ],
            ),
        )],
        vec![],
    );
    let module = new_module(&bytes).unwrap();
    assert_eq!(module.types.len(), 1);
    assert!(module.types[0].params.is_empty());
    assert_eq!(module.types[0].results, vec![WasmType::I32]);
    assert_eq!(module.funcs.len(), 1);
    assert_eq!(module.funcs[0].fidx, 0);
    assert!(same_body(
        module.funcs[0].body.as_ref().unwrap(),
        &[(1, WasmType::I32)],
        &[
            op(Instr::LocalGet { local_index: 0 }, 0, 2),
            op(Instr::I32Const { value: 5 }, 2, 4),
            op(Instr::I32Add, 4, 5),
            op(Instr::End, 5, 6),
        ]
    ));
    assert!(module.globals.is_empty());
    let tables = StackTables::from_module(&module).unwrap();
    assert_eq!(tables.0.len(), 1);
    assert_eq!(tables.0[0].locals, vec![WasmType::I32]);
    let stacks: Vec<Vec<WasmType>> =
        tables.0[0].inner.values().map(|s| s.iter().map(|slot| slot.1).collect()).collect();
    assert_eq!(
        stacks,
        vec![
            vec![],
            vec![WasmType::I32],
            vec![WasmType::I32, WasmType::I32],
            vec![WasmType::I32],
            vec![WasmType::I32],
        ]
    );
}

#[test]
fn imported_functions_come_first() {
    let bytes = module_of(
        vec![
            (vec![ValType::I32], vec![ValType::I32]),
            (vec![ValType::F32, ValType::I64], vec![]),
        ],
        vec![1, 0],
        vec![
            (
                0,
                body(
                    vec![(2, ValType::F64), (1, ValType::V128)],
                    &[Instruction::I32Const(1), Instruction::Call(1), Instruction::End],
                ),
            ),
            (1, body(vec![], &[Instruction::GlobalGet(2), Instruction::Drop, Instruction::End])),
        ],
        vec![ValType::I64, ValType::F32, ValType::F64],
    );
    let module = new_module(&bytes).unwrap();
    let indices: Vec<u32> = module.funcs.iter().map(|f| f.fidx).collect();
    assert_eq!(indices, vec![1, 0, 0, 1]);
    let bodies: Vec<bool> = module.funcs.iter().map(|f| f.body.is_some()).collect();
    assert_eq!(bodies, vec![false, false, true, true]);
    assert_eq!(module.types[1].params, vec![WasmType::F32, WasmType::I64]);
    assert_eq!(module.globals, vec![WasmType::I64, WasmType::F32, WasmType::F64]);
    let funcs = module.new_function_v2();
    assert_eq!(funcs.len(), 4);
    let tables = StackTables::from_func(funcs).unwrap();
    assert_eq!(tables.0.len(), 4);
    assert!(tables.0[0].inner.is_empty() && tables.0[0].locals.is_empty());
    assert!(tables.0[1].inner.is_empty() && tables.0[1].locals.is_empty());
    assert_eq!(
        tables.0[2].locals,
        vec![WasmType::I32, WasmType::F64, WasmType::F64, WasmType::V128]
    );
    let keys: Vec<u32> = tables.0[2].inner.keys().copied().collect();
    assert_eq!(keys, vec![0, 2, 3, 4, 5]);
    assert_eq!(tables.get_stack(2, 2).unwrap(), &vec![(CompiledOp::I32Const(1), WasmType::I32)]);
    assert_eq!(tables.get_stack(2, 3).unwrap(), &vec![]);
    assert_eq!(tables.get_stack(2, 4).unwrap(), &vec![(CompiledOp::Call(1), WasmType::I32)]);
    assert_eq!(tables.0[3].locals, vec![WasmType::F32, WasmType::I64]);
    assert_eq!(
        tables.get_stack_nth(3, 1).unwrap(),
        &vec![(CompiledOp::Other(WasmType::F64), WasmType::F64)]
    );
}

fn memarg() -> MemArg {
    MemArg { offset: 0, align: 0, memory_index: 0 }
}

fn decoded(instructions: &[Instruction]) -> Vec<Instr> {
    let mut all = instructions.to_vec();
    all.push(Instruction::End);
    let bytes = module_of(
        vec![(vec![ValType::I32], vec![])],
        vec![],
        vec![(0, body(vec![], &all))],
        vec![ValType::I32],
    );
    let module = new_module(&bytes).unwrap();
    let body = module.funcs[0].body.as_ref().unwrap();
    assert_eq!(body.ops.last().unwrap().instr, Instr::End);
    body.ops[..body.ops.len() - 1].iter().map(|op| op.instr).collect()
}

#[test]
fn control_and_variable_instructions_are_told_apart() {
    let got = decoded(&[
        Instruction::Unreachable,
        Instruction::Nop,
        Instruction::Block(BlockType::Empty),
        Instruction::Loop(BlockType::Empty),
        Instruction::If(BlockType::Empty),
        Instruction::Else,
        Instruction::End,
        Instruction::End,
        Instruction::End,
        Instruction::Br(0),
        Instruction::BrIf(0),
        Instruction::BrTable(vec![0].into(), 0),
        Instruction::Return,
        Instruction::Call(0),
        Instruction::CallIndirect { type_index: 0, table_index: 0 },
        Instruction::Drop,
        Instruction::Select,
        Instruction::TypedSelect(ValType::I32),
        Instruction::LocalGet(0),
        Instruction::LocalSet(0),
        Instruction::LocalTee(0),
        Instruction::GlobalGet(0),
        Instruction::GlobalSet(0),
        Instruction::TableGet(0),
        Instruction::TableSet(0),
        Instruction::MemorySize(0),
        Instruction::MemoryGrow(0),
        Instruction::I32Const(-1),
        Instruction::I64Const(i64::MIN),
        Instruction::F32Const(Ieee32::new(0x7fc0_0001)),
        Instruction::F64Const(Ieee64::new(0xfff8_0000_0000_0001)),
        Instruction::MemoryCopy { src_mem: 0, dst_mem: 0 },
        Instruction::MemoryFill(0),
    ]);
    let want = vec![
        Instr::Unreachable,
        Instr::Nop,
        Instr::Block,
        Instr::Loop,
        Instr::If,
        Instr::Else,
        Instr::End,
        Instr::End,
        Instr::End,
        Instr::Br,
        Instr::BrIf,
        Instr::BrTable,
        Instr::Return,
        Instr::Call { function_index: 0 },
        Instr::CallIndirect { type_index: 0 },
        Instr::Drop,
        Instr::Select,
        Instr::TypedSelect,
        Instr::LocalGet { local_index: 0 },
        Instr::LocalSet,
        Instr::LocalTee,
        Instr::GlobalGet { global_index: 0 },
        Instr::GlobalSet,
        Instr::TableGet,
        Instr::TableSet,
        Instr::MemorySize,
        Instr::MemoryGrow,
        Instr::I32Const { value: -1 },
        Instr::I64Const { value: i64::MIN },
        Instr::F32Const { bits: 0x7fc0_0001 },
        Instr::F64Const { bits: 0xfff8_0000_0000_0001 },
        Instr::MemoryCopy,
        Instr::MemoryFill,
    ];
    assert_eq!(got, want);
}

#[test]
fn memory_instructions_are_told_apart() {
    let got = decoded(&[
        Instruction::I32Load(memarg()),
        Instruction::I64Load(memarg()),
        Instruction::F32Load(memarg()),
        Instruction::F64Load(memarg()),
        Instruction::I32Load8S(memarg()),
        Instruction::I32Load8U(memarg()),
        Instruction::I32Load16S(memarg()),
        Instruction::I32Load16U(memarg()),
        Instruction::I64Load8S(memarg()),
        Instruction::I64Load8U(memarg()),
        Instruction::I64Load16S(memarg()),
        Instruction::I64Load16U(memarg()),
        Instruction::I64Load32S(memarg()),
        Instruction::I64Load32U(memarg()),
        Instruction::I32Store(memarg()),
        Instruction::I64Store(memarg()),
        Instruction::F32Store(memarg()),
        Instruction::F64Store(memarg()),
        Instruction::I32Store8(memarg()),
        Instruction::I32Store16(memarg()),
        Instruction::I64Store8(memarg()),
        Instruction::I64Store16(memarg()),
        Instruction::I64Store32(memarg()),
    ]);
    let want = vec![
        Instr::I32Load,
        Instr::I64Load,
        Instr::F32Load,
        Instr::F64Load,
        Instr::I32Load8S,
        Instr::I32Load8U,
        Instr::I32Load16S,
        Instr::I32Load16U,
        Instr::I64Load8S,
        Instr::I64Load8U,
        Instr::I64Load16S,
        Instr::I64Load16U,
        Instr::I64Load32S,
        Instr::I64Load32U,
        Instr::I32Store,
        Instr::I64Store,
        Instr::F32Store,
        Instr::F64Store,
        Instr::I32Store8,
        Instr::I32Store16,
        Instr::I64Store8,
        Instr::I64Store16,
        Instr::I64Store32,
    ];
    assert_eq!(got, want);
}

#[test]
fn integer_instructions_are_told_apart() {
    let got = decoded(&[
        Instruction::I32Eqz,
        Instruction::I32Eq,
        Instruction::I32Ne,
        Instruction::I32LtS,
        Instruction::I32LtU,
        Instruction::I32GtS,
        Instruction::I32GtU,
        Instruction::I32LeS,
        Instruction::I32LeU,
        Instruction::I32GeS,
        Instruction::I32GeU,
        Instruction::I64Eqz,
        Instruction::I64Eq,
        Instruction::I64Ne,
        Instruction::I64LtS,
        Instruction::I64LtU,
        Instruction::I64GtS,
        Instruction::I64GtU,
        Instruction::I64LeS,
        Instruction::I64LeU,
        Instruction::I64GeS,
        Instruction::I64GeU,
        Instruction::I32Clz,
        Instruction::I32Ctz,
        Instruction::I32Popcnt,
        Instruction::I32Add,
        Instruction::I32Sub,
        Instruction::I32Mul,
        Instruction::I32DivS,
        Instruction::I32DivU,
        Instruction::I32RemS,
        Instruction::I32RemU,
        Instruction::I32And,
        Instruction::I32Or,
        Instruction::I32Xor,
        Instruction::I32Shl,
        Instruction::I32ShrS,
        Instruction::I32ShrU,
        Instruction::I32Rotl,
        Instruction::I32Rotr,
        Instruction::I64Clz,
        Instruction::I64Ctz,
        Instruction::I64Popcnt,
        Instruction::I64Add,
        Instruction::I64Sub,
        Instruction::I64Mul,
        Instruction::I64DivS,
        Instruction::I64DivU,
        Instruction::I64RemS,
        Instruction::I64RemU,
        Instruction::I64And,
        Instruction::I64Or,
        Instruction::I64Xor,
        Instruction::I64Shl,
        Instruction::I64ShrS,
        Instruction::I64ShrU,
        Instruction::I64Rotl,
        Instruction::I64Rotr,
        Instruction::I32Extend8S,
        Instruction::I32Extend16S,
        Instruction::I64Extend8S,
        Instruction::I64Extend16S,
        Instruction::I64Extend32S,
    ]);
    let want = vec![
        Instr::I32Eqz,
        Instr::I32Eq,
        Instr::I32Ne,
        Instr::I32LtS,
        Instr::I32LtU,
        Instr::I32GtS,
        Instr::I32GtU,
        Instr::I32LeS,
        Instr::I32LeU,
        Instr::I32GeS,
        Instr::I32GeU,
        Instr::I64Eqz,
        Instr::I64Eq,
        Instr::I64Ne,
        Instr::I64LtS,
        Instr::I64LtU,
        Instr::I64GtS,
        Instr::I64GtU,
        Instr::I64LeS,
        Instr::I64LeU,
        Instr::I64GeS,
        Instr::I64GeU,
        Instr::I32Clz,
        Instr::I32Ctz,
        Instr::I32Popcnt,
        Instr::I32Add,
        Instr::I32Sub,
        Instr::I32Mul,
        Instr::I32DivS,
        Instr::I32DivU,
        Instr::I32RemS,
        Instr::I32RemU,
        Instr::I32And,
        Instr::I32Or,
        Instr::I32Xor,
        Instr::I32Shl,
        Instr::I32ShrS,
        Instr::I32ShrU,
        Instr::I32Rotl,
        Instr::I32Rotr,
        Instr::I64Clz,
        Instr::I64Ctz,
        Instr::I64Popcnt,
        Instr::I64Add,
        Instr::I64Sub,
        Instr::I64Mul,
        Instr::I64DivS,
        Instr::I64DivU,
        Instr::I64RemS,
        Instr::I64RemU,
        Instr::I64And,
        Instr::I64Or,
        Instr::I64Xor,
        Instr::I64Shl,
        Instr::I64ShrS,
        Instr::I64ShrU,
        Instr::I64Rotl,
        Instr::I64Rotr,
        Instr::I32Extend8S,
        Instr::I32Extend16S,
        Instr::I64Extend8S,
        Instr::I64Extend16S,
        Instr::I64Extend32S,
    ];
    assert_eq!(got, want);
}

#[test]
fn float_and_conversion_instructions_are_told_apart() {
    let got = decoded(&[
        Instruction::F32Eq,
        Instruction::F32Ne,
        Instruction::F32Lt,
        Instruction::F32Gt,
        Instruction::F32Le,
        Instruction::F32Ge,
        Instruction::F64Eq,
        Instruction::F64Ne,
        Instruction::F64Lt,
        Instruction::F64Gt,
        Instruction::F64Le,
        Instruction::F64Ge,
        Instruction::F32Abs,
        Instruction::F32Neg,
        Instruction::F32Ceil,
        Instruction::F32Floor,
        Instruction::F32Trunc,
        Instruction::F32Nearest,
        Instruction::F32Sqrt,
        Instruction::F32Add,
        Instruction::F32Sub,
        Instruction::F32Mul,
        Instruction::F32Div,
        Instruction::F32Min,
        Instruction::F32Max,
        Instruction::F32Copysign,
        Instruction::F64Abs,
        Instruction::F64Neg,
        Instruction::F64Ceil,
        Instruction::F64Floor,
        Instruction::F64Trunc,
        Instruction::F64Nearest,
        Instruction::F64Sqrt,
        Instruction::F64Add,
        Instruction::F64Sub,
        Instruction::F64Mul,
        Instruction::F64Div,
        Instruction::F64Min,
        Instruction::F64Max,
        Instruction::F64Copysign,
        Instruction::I32WrapI64,
        Instruction::I32TruncF32S,
        Instruction::I32TruncF32U,
        Instruction::I32TruncF64S,
        Instruction::I32TruncF64U,
        Instruction::I64ExtendI32S,
        Instruction::I64ExtendI32U,
        Instruction::I64TruncF32S,
        Instruction::I64TruncF32U,
        Instruction::I64TruncF64S,
        Instruction::I64TruncF64U,
        Instruction::F32ConvertI32S,
        Instruction::F32ConvertI32U,
        Instruction::F32ConvertI64S,
        Instruction::F32ConvertI64U,
        Instruction::F32DemoteF64,
        Instruction::F64ConvertI32S,
        Instruction::F64ConvertI32U,
        Instruction::F64ConvertI64S,
        Instruction::F64ConvertI64U,
        Instruction::F64PromoteF32,
        Instruction::I32ReinterpretF32,
        Instruction::I64ReinterpretF64,
        Instruction::F32ReinterpretI32,
        Instruction::F64ReinterpretI64,
    ]);
    let want = vec![
        Instr::F32Eq,
        Instr::F32Ne,
        Instr::F32Lt,
        Instr::F32Gt,
        Instr::F32Le,
        Instr::F32Ge,
        Instr::F64Eq,
        Instr::F64Ne,
        Instr::F64Lt,
        Instr::F64Gt,
        Instr::F64Le,
        Instr::F64Ge,
        Instr::F32Abs,
        Instr::F32Neg,
        Instr::F32Ceil,
        Instr::F32Floor,
        Instr::F32Trunc,
        Instr::F32Nearest,
        Instr::F32Sqrt,
        Instr::F32Add,
        Instr::F32Sub,
        Instr::F32Mul,
        Instr::F32Div,
        Instr::F32Min,
        Instr::F32Max,
        Instr::F32Copysign,
        Instr::F64Abs,
        Instr::F64Neg,
        Instr::F64Ceil,
        Instr::F64Floor,
        Instr::F64Trunc,
        Instr::F64Nearest,
        Instr::F64Sqrt,
        Instr::F64Add,
        Instr::F64Sub,
        Instr::F64Mul,
        Instr::F64Div,
        Instr::F64Min,
        Instr::F64Max,
        Instr::F64Copysign,
        Instr::I32WrapI64,
        Instr::I32TruncF32S,
        Instr::I32TruncF32U,
        Instr::I32TruncF64S,
        Instr::I32TruncF64U,
        Instr::I64ExtendI32S,
        Instr::I64ExtendI32U,
        Instr::I64TruncF32S,
        Instr::I64TruncF32U,
        Instr::I64TruncF64S,
        Instr::I64TruncF64U,
        Instr::F32ConvertI32S,
        Instr::F32ConvertI32U,
        Instr::F32ConvertI64S,
        Instr::F32ConvertI64U,
        Instr::F32DemoteF64,
        Instr::F64ConvertI32S,
        Instr::F64ConvertI32U,
        Instr::F64ConvertI64S,
        Instr::F64ConvertI64U,
        Instr::F64PromoteF32,
        Instr::I32ReinterpretF32,
        Instr::I64ReinterpretF64,
        Instr::F32ReinterpretI32,
        Instr::F64ReinterpretI64,
    ];
    assert_eq!(got, want);
}

#[test]
fn other_instructions_are_unsupported() {
    let got = decoded(&[
        Instruction::RefNull(HeapType::FUNC),
        Instruction::RefIsNull,
        Instruction::MemoryInit { mem: 0, data_index: 0 },
        Instruction::I32TruncSatF32S,
        Instruction::TableSize(0),
    ]);
    assert_eq!(
        got,
        vec![
            Instr::Unsupported { opcode: 0xd0 },
            Instr::Unsupported { opcode: 0xd1 },
            Instr::Unsupported { opcode: 0xfc },
            Instr::Unsupported { opcode: 0xfc },
            Instr::Unsupported { opcode: 0xfc },
        ]
    );
}

#[test]
fn from_opcode_wants_the_right_immediate() {
    assert_eq!(Instr::from_opcode(0x6a, Immediate::Absent), Instr::I32Add);
    assert_eq!(Instr::from_opcode(0x6a, Immediate::Index(0)), Instr::Unsupported { opcode: 0x6a });
    assert_eq!(Instr::from_opcode(0x10, Immediate::Absent), Instr::Unsupported { opcode: 0x10 });
    assert_eq!(Instr::from_opcode(0x10, Immediate::Index(7)), Instr::Call { function_index: 7 });
    assert_eq!(Instr::from_opcode(0x41, Immediate::I64(1)), Instr::Unsupported { opcode: 0x41 });
    assert_eq!(Instr::from_opcode(0xfc, Immediate::MemoryFill), Instr::MemoryFill);
    assert_eq!(Instr::from_opcode(0x06, Immediate::Absent), Instr::Unsupported { opcode: 0x06 });
    assert_eq!(Instr::from_opcode(0xc5, Immediate::Absent), Instr::Unsupported { opcode: 0xc5 });
    assert_eq!(Instr::from_opcode(0xc4, Immediate::Absent), Instr::I64Extend32S);
    assert_eq!(Instr::from_opcode(0x27, Immediate::Absent), Instr::Unsupported { opcode: 0x27 });
}

#[test]
fn bytes_that_are_no_module_are_refused() {
    assert!(matches!(new_module(&vec![]), Err(ParseError::Malformed { .. })));
    assert!(matches!(
        new_module(&b"not a module at all".to_vec()),
        Err(ParseError::Malformed { offset: 0, .. })
    ));
    let mut bytes = module_of(
        vec![(vec![], vec![])],
        vec![],
        vec![(0, body(vec![], &[Instruction::Nop, Instruction::End]))],
        vec![],
    );
    let last = bytes.len() - 1;
    bytes[last - 1] = 0xff;
    match new_module(&bytes) {
        Err(ParseError::Malformed { offset, message }) => {
            assert_eq!(offset as usize, last - 1);
            assert!(!message.is_empty());
        }
        other => panic!("{:?}", other.map(|_| ())),
    }
}

#[test]
fn function_without_body_is_refused() {
    let mut module = Module::new();
    let mut types = TypeSection::new();
    types.ty().function(vec![], vec![]);
    module.section(&types);
    let mut functions = FunctionSection::new();
    functions.function(0);
    module.section(&functions);
    assert!(matches!(new_module(&module.finish()), Err(ParseError::Malformed { offset: 18, .. })));
    let end = FuncBody { locals: vec![], ops: vec![op(Instr::End, 0, 1)] };
    let signature = || Signature { params: vec![], results: vec![] };
    assert_eq!(
        WasmModule::assemble(vec![signature()], vec![], vec![0, 0], vec![end.clone()], vec![]).err(),
        Some(ParseError::MissingBody)
    );
    let module = WasmModule::assemble(
        vec![signature(), signature()],
        vec![1],
        vec![0],
        vec![end.clone(), end],
        vec![WasmType::F32],
    )
    .unwrap();
    assert_eq!(module.types.len(), 2);
    assert_eq!(module.globals, vec![WasmType::F32]);
    assert_eq!(module.funcs.len(), 2);
    assert_eq!((module.funcs[0].fidx, module.funcs[0].body.is_some()), (1, false));
    assert_eq!(module.funcs[1].fidx, 0);
    assert_eq!(module.funcs[1].body.as_ref().unwrap().ops, vec![op(Instr::End, 0, 1)]);
    assert!(module.is_valid());
}

#[test]
fn index_that_names_nothing_is_refused() {
    let with = |instruction: Instruction<'static>, ty: u32| {
        let bytes = module_of(
            vec![(vec![ValType::I32], vec![])],
            vec![],
            vec![(ty, body(vec![(2, ValType::I64)], &[instruction, Instruction::End]))],
            vec![ValType::I32],
        );
        new_module(&bytes).map(|_| ())
    };
    assert_eq!(with(Instruction::Call(0), 0), Ok(()));
    assert_eq!(with(Instruction::Call(1), 0), Err(ParseError::InvalidIndex));
    assert_eq!(with(Instruction::LocalGet(2), 0), Ok(()));
    assert_eq!(with(Instruction::LocalGet(3), 0), Err(ParseError::InvalidIndex));
    assert_eq!(with(Instruction::GlobalGet(0), 0), Ok(()));
    assert_eq!(with(Instruction::GlobalGet(1), 0), Err(ParseError::InvalidIndex));
    assert_eq!(with(Instruction::CallIndirect { type_index: 0, table_index: 0 }, 0), Ok(()));
    assert_eq!(
        with(Instruction::CallIndirect { type_index: 1, table_index: 0 }, 0),
        Err(ParseError::InvalidIndex)
    );
    assert_eq!(with(Instruction::Nop, 1), Err(ParseError::InvalidIndex));
}

#[test]
fn locate_counts_offsets_from_the_first_instruction() {
    let instrs = vec![
        (Instr::Nop, 100),
        (Instr::Call { function_index: 0 }, 101),
        (Instr::End, 103),
    ];
    assert_eq!(
        locate(&instrs, 104),
        Ok(vec![
            op(Instr::Nop, 0, 1),
            op(Instr::Call { function_index: 0 }, 1, 3),
            op(Instr::End, 3, 4),
        ])
    );
    assert_eq!(locate(&vec![], 7), Ok(vec![]));
    assert_eq!(locate(&instrs, 103), Err(ParseError::BadOffsets));
    assert_eq!(locate(&instrs, 0), Err(ParseError::BadOffsets));
    assert_eq!(locate(&instrs, 100 + (1 << 32)), Err(ParseError::BadOffsets));
    assert_eq!(locate(&vec![(Instr::Nop, 5), (Instr::End, 5)], 6), Err(ParseError::BadOffsets));
    assert_eq!(locate(&vec![(Instr::Nop, 5), (Instr::End, 4)], 6), Err(ParseError::BadOffsets));
    assert_eq!(
        locate(&vec![(Instr::CallIndirect { type_index: 0 }, 5), (Instr::End, 6)], 7),
        Err(ParseError::BadOffsets)
    );
    assert_eq!(
        locate(&vec![(Instr::End, 0)], u32::MAX as u64),
        Ok(vec![op(Instr::End, 0, u32::MAX)])
    );
}

fn calling_module() -> Vec<u8> {
    module_of(
        vec![(vec![ValType::I32], vec![ValType::I32])],
        vec![0],
        vec![(
            0,
            body(vec![], &[Instruction::I32Const(1), Instruction::Call(0), Instruction::End]),
        )],
        vec![],
    )
}

#[test]
fn tables_are_written_from_the_bytes_of_a_module() {
    let bytes = create_table_v2(&calling_module()).unwrap();
    let tables = StackTables::deserialize(&bytes).unwrap();
    assert_eq!(tables.0.len(), 2);
    assert!(tables.0[0].inner.is_empty());
    assert_eq!(tables.0[1].locals, vec![WasmType::I32]);
    let entries: Vec<(u32, Vec<(CompiledOp, WasmType)>)> =
        tables.0[1].inner.iter().map(|(k, v)| (*k, v.clone())).collect();
    assert_eq!(
        entries,
        vec![
            (0, vec![]),
            (2, vec![(CompiledOp::I32Const(1), WasmType::I32)]),
            (3, vec![]),
            (4, vec![(CompiledOp::Call(1), WasmType::I32)]),
            (5, vec![(CompiledOp::Call(1), WasmType::I32)]),
        ]
    );
}

#[test]
fn index_is_written_from_the_bytes_of_a_module() {
    let files = create_table(&calling_module()).unwrap();
    assert_eq!(
        files.type_table,
        vec![0, 0, 0, 0, 1, 0, 0, 0, 2, 0, 0, 0, 0, 1, 0, 0, 0, 2, 1, 0, 0, 0, 2]
    );
    assert_eq!(
        files.tablemap_func,
        vec![0, 0, 0, 0, 0, 0, 0, 0, 0, 0, 0, 0, 1, 0, 0, 0, 5, 0, 0, 0, 0, 0, 0, 0]
    );
    assert_eq!(
        files.tablemap_offset,
        vec![
            1, 0, 0, 0, 2, //
            0, 0, 0, 0, 0, 0, 0, 0, 0, 0, 0, 0, //
            2, 0, 0, 0, 4, 0, 0, 0, 0, 0, 0, 0, //
            3, 0, 0, 0, 9, 0, 0, 0, 0, 0, 0, 0, //
            4, 0, 0, 0, 13, 0, 0, 0, 0, 0, 0, 0, //
            5, 0, 0, 0, 18, 0, 0, 0, 0, 0, 0, 0,
        ]
    );
    assert_eq!(read_record(&files.type_table, 0), Ok(vec![]));
    assert_eq!(read_record(&files.type_table, 9), Ok(vec![]));
    assert_eq!(read_record(&files.type_table, 13), Ok(vec![WasmType::I32]));
}

#[test]
fn failure_names_the_function_and_the_offset() {
    let bytes = module_of(
        vec![(vec![], vec![])],
        vec![0],
        vec![
            (0, body(vec![], &[Instruction::End])),
            (0, body(vec![], &[Instruction::Nop, Instruction::I32Add, Instruction::End])),
            (0, body(vec![], &[Instruction::RefIsNull, Instruction::End])),
        ],
        vec![],
    );
    assert_eq!(
        create_table_v2(&bytes),
        Err(Error::Analysis(ModuleError {
            func_index: 2,
            error: FunctionError { offset: 1, kind: AnalysisError::StackUnderflow },
        }))
    );
    assert!(matches!(create_table_v2(&vec![0, 1, 2]), Err(Error::Parse(_))));
}

#[test]
fn decode_ops_reads_the_kind_from_the_buffer() {
    let buf = [0xff, 0x20, 0x00, 0x41, 0x05, 0x6a, 0x10, 0x00, 0xd0, 0x70, 0x0b];
    let items = vec![
        (Immediate::Index(0), 1),
        (Immediate::I32(5), 3),
        (Immediate::Absent, 5),
        (Immediate::Index(0), 6),
        (Immediate::Absent, 8),
        (Immediate::Absent, 10),
    ];
    assert_eq!(
        decode_ops(&buf, &items, 11),
        Ok(vec![
            op(Instr::LocalGet { local_index: 0 }, 0, 2),
            op(Instr::I32Const { value: 5 }, 2, 4),
            op(Instr::I32Add, 4, 5),
            op(Instr::Call { function_index: 0 }, 5, 7),
            op(Instr::Unsupported { opcode: 0xd0 }, 7, 9),
            op(Instr::End, 9, 10),
        ])
    );
    assert_eq!(decode_ops(&buf, &vec![], 0), Ok(vec![]));
    assert_eq!(
        decode_ops(&buf, &vec![(Immediate::Absent, 10)], 12),
        Ok(vec![op(Instr::End, 0, 2)])
    );
    assert_eq!(
        decode_ops(&buf, &vec![(Immediate::Index(3), 10)], 11),
        Ok(vec![op(Instr::Unsupported { opcode: 0x0b }, 0, 1)])
    );
}

#[test]
fn decode_ops_refuses_positions_out_of_place() {
    let buf = [0x01, 0x01, 0x0b];
    let nop = |at: u64| (Immediate::Absent, at);
    assert_eq!(decode_ops(&buf, &vec![nop(0), nop(1), nop(2)], 3).map(|ops| ops.len()), Ok(3));
    assert_eq!(decode_ops(&buf, &vec![nop(0), nop(1), nop(3)], 4), Err(ParseError::BadOffsets));
    assert_eq!(decode_ops(&buf, &vec![nop(u64::MAX)], u64::MAX), Err(ParseError::BadOffsets));
    assert_eq!(decode_ops(&buf, &vec![nop(1), nop(0)], 3), Err(ParseError::BadOffsets));
    assert_eq!(decode_ops(&buf, &vec![nop(0), nop(0)], 3), Err(ParseError::BadOffsets));
    assert_eq!(decode_ops(&buf, &vec![nop(0), nop(1)], 1), Err(ParseError::BadOffsets));
    assert_eq!(decode_ops(&[], &vec![nop(0)], 1), Err(ParseError::BadOffsets));
}

fn read_parts(functions: Vec<u32>, bodies: Vec<RawBody>) -> Parsed {
    Parsed {
        types: vec![
            Signature { params: vec![WasmType::I32], results: vec![] },
            Signature { params: vec![], results: vec![WasmType::F64] },
        ],
        imports: vec![None, Some(1), None, Some(0)],
        functions,
        globals: vec![WasmType::I64],
        bodies,
    }
}

fn raw(items: Vec<(Immediate, u64)>, end: u64) -> RawBody {
    RawBody { locals: vec![(2, WasmType::F32)], items, end }
}

#[test]
fn module_is_made_of_what_was_read() {
    let buf = [0x00, 0x20, 0x02, 0x1a, 0x0b, 0x10, 0x01, 0x0b];
    let first = raw(vec![(Immediate::Index(2), 1), (Immediate::Absent, 3), (Immediate::Absent, 4)], 5);
    let second = raw(vec![(Immediate::Index(1), 5), (Immediate::Absent, 7)], 8);
    let spare = raw(vec![], 8);
    let module = module_from(&buf, read_parts(vec![0, 1], vec![first, second, spare])).unwrap();
    assert_eq!(module.types.len(), 2);
    assert_eq!(module.types[1].results, vec![WasmType::F64]);
    assert_eq!(module.globals, vec![WasmType::I64]);
    let shape: Vec<(u32, bool)> = module.funcs.iter().map(|f| (f.fidx, f.body.is_some())).collect();
    assert_eq!(shape, vec![(1, false), (0, false), (0, true), (1, true)]);
    let body = module.funcs[2].body.as_ref().unwrap();
    assert_eq!(body.locals, vec![(2, WasmType::F32)]);
    assert_eq!(
        body.ops,
        vec![
            op(Instr::LocalGet { local_index: 2 }, 0, 2),
            op(Instr::Drop, 2, 3),
            op(Instr::End, 3, 4),
        ]
    );
    assert_eq!(
        module.funcs[3].body.as_ref().unwrap().ops,
        vec![op(Instr::Call { function_index: 1 }, 0, 2), op(Instr::End, 2, 3)]
    );
    assert!(module.is_valid());
}

#[test]
fn what_was_read_may_make_no_module() {
    let buf = [0x0b, 0x20, 0x03, 0x0b];
    let end = || raw(vec![(Immediate::Absent, 0)], 1);
    let outside = || raw(vec![(Immediate::Absent, 4)], 5);
    let get = |index: u32| raw(vec![(Immediate::Index(index), 1), (Immediate::Absent, 3)], 4);
    assert!(module_from(&buf, read_parts(vec![0], vec![end()])).is_ok());
    assert!(module_from(&buf, read_parts(vec![], vec![])).is_ok());
    assert_eq!(
        module_from(&buf, read_parts(vec![0, 0], vec![end()])).err(),
        Some(ParseError::MissingBody)
    );
    assert_eq!(
        module_from(&buf, read_parts(vec![0], vec![end(), outside()])).err(),
        Some(ParseError::BadOffsets)
    );
    assert_eq!(
        module_from(&buf, read_parts(vec![0, 0, 0], vec![outside()])).err(),
        Some(ParseError::BadOffsets)
    );
    assert_eq!(
        module_from(&buf, read_parts(vec![2], vec![end()])).err(),
        Some(ParseError::InvalidIndex)
    );
    assert!(module_from(&buf, read_parts(vec![0], vec![get(2)])).is_ok());
    assert_eq!(
        module_from(&buf, read_parts(vec![0], vec![get(3)])).err(),
        Some(ParseError::InvalidIndex)
    );
    assert!(module_from(&buf, read_parts(vec![1], vec![get(1)])).is_ok());
    assert_eq!(
        module_from(&buf, read_parts(vec![1], vec![get(2)])).err(),
        Some(ParseError::InvalidIndex)
    );
}
