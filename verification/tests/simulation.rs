use wasm_stack_tables::error::{AnalysisError, FunctionError};
use wasm_stack_tables::function::{BytecodeFunction, CodePos, Function, ImportFunction};
use wasm_stack_tables::instr::Instr;
use wasm_stack_tables::module::{Fn, FuncBody, Module, Op, Signature};
use wasm_stack_tables::stack_table::{CompiledOp, LookupError, StackTable, StackTables};
use wasm_stack_tables::val::WasmType;

fn op(instr: Instr, offset_before: u32, offset_after: u32) -> Op {
    Op { instr, offset_before, offset_after }
}

fn types_of(code: &CodePos) -> Vec<WasmType> {
    code.stack.inner.iter().map(|slot| slot.1).collect()
}

fn one_function(sig: Signature, body: FuncBody) -> Module {
    Module::new(vec![sig], vec![Fn { fidx: 0, body: Some(body) }], vec![])
}

#[test]
fn local_const_add_records_the_three_stacks() {
    let body = FuncBody {
        locals: vec![(1, WasmType::I32)],
        ops: vec![
            op(Instr::LocalGet { local_index: 0 }, 0, 2),
            op(Instr::I32Const { value: 5 }, 2, 4),
            op(Instr::I32Add, 4, 5),
            op(Instr::End, 5, 6),
        ],
    };
    let module = one_function(Signature { params: vec![], results: vec![WasmType::I32] }, body);
    let body = module.funcs[0].body.as_ref().unwrap();
    let f = BytecodeFunction::new(&module, body, 0);
    assert_eq!(f.locals, vec![WasmType::I32]);
    assert!(f.is_well_formed());
    let codes = f.create_stack_table().unwrap();
    let after: Vec<&CodePos> = codes.iter().filter(|c| c.offset > 0 && c.op != Instr::End).collect();
    assert_eq!(after.len(), 3);
    assert_eq!(types_of(after[0]), vec![WasmType::I32]);
    assert_eq!(types_of(after[1]), vec![WasmType::I32, WasmType::I32]);
    assert_eq!(types_of(after[2]), vec![WasmType::I32]);
    assert_eq!(codes.len(), 5);
    assert_eq!((codes[0].op, codes[0].offset, types_of(&codes[0])), (Instr::Nop, 0, vec![]));
    assert_eq!(codes[1].offset, 2);
    assert_eq!(codes[2].offset, 4);
    assert_eq!(codes[3].offset, 5);
    assert_eq!((codes[4].op, codes[4].offset), (Instr::End, 6));
    assert_eq!(types_of(&codes[4]), vec![WasmType::I32]);
    assert_eq!(codes[3].stack.inner[0].0, Instr::I32Add);
}

#[test]
fn call_records_the_stack_inside_the_call() {
    let callee = Signature { params: vec![WasmType::I32], results: vec![WasmType::I32] };
    let body = FuncBody {
        locals: vec![],
        ops: vec![
            op(Instr::I32Const { value: 1 }, 0, 2),
            op(Instr::Call { function_index: 0 }, 2, 4),
            op(Instr::End, 4, 5),
        ],
    };
    let module = Module::new(
        vec![callee],
        vec![Fn { fidx: 0, body: None }, Fn { fidx: 0, body: Some(body) }],
        vec![],
    );
    let body = module.funcs[1].body.as_ref().unwrap();
    let f = BytecodeFunction::new(&module, body, 1);
    assert!(f.is_well_formed());
    let codes = f.create_stack_table().unwrap();
    assert_eq!(codes.len(), 5);
    assert_eq!(codes[1].op, Instr::I32Const { value: 1 });
    assert_eq!(types_of(&codes[1]), vec![WasmType::I32]);
    assert_eq!(codes[2].op, Instr::Call { function_index: 0 });
    assert_eq!(codes[2].offset, 3);
    assert_eq!(types_of(&codes[2]), vec![]);
    assert_eq!(codes[3].op, Instr::Call { function_index: 0 });
    assert_eq!(codes[3].offset, 4);
    assert_eq!(types_of(&codes[3]), vec![WasmType::I32]);
    assert_eq!(codes[3].stack.inner[0].0, Instr::Call { function_index: 0 });
}

#[test]
fn imported_function_has_an_empty_table() {
    let callee = Signature { params: vec![WasmType::I32], results: vec![WasmType::I32] };
    let body = FuncBody { locals: vec![], ops: vec![op(Instr::End, 0, 1)] };
    let module = Module::new(
        vec![callee],
        vec![Fn { fidx: 0, body: None }, Fn { fidx: 0, body: Some(body) }],
        vec![],
    );
    let funcs = vec![
        Function::ImportFunction(ImportFunction::new(&module)),
        Function::BytecodeFunction(BytecodeFunction::new(
            &module,
            module.funcs[1].body.as_ref().unwrap(),
            1,
        )),
    ];
    let tables = StackTables::from_func(funcs).unwrap();
    assert_eq!(tables.0.len(), 2);
    assert!(tables.0[0].locals.is_empty());
    assert_eq!(tables.0[0].inner.len(), 0);
    assert_eq!(tables.0[1].locals, vec![WasmType::I32]);
    assert_eq!(tables.0[1].inner.len(), 2);
    assert_eq!(tables.get_stack_nth(0, 0), Err(LookupError::IndexNotFound(0)));
    assert_eq!(tables.get_stack(0, 0), Err(LookupError::OffsetNotFound(0)));
    assert_eq!(tables.get_stack(1, 1), Ok(&vec![]));
    assert_eq!(tables.get_stack(1, 0), Ok(&vec![]));
    assert_eq!(tables.get_stack(1, 2), Err(LookupError::OffsetNotFound(2)));
    assert_eq!(tables.get_stack_nth(1, 1), Ok(&vec![]));
    assert_eq!(tables.get_stack_nth(1, 2), Err(LookupError::IndexNotFound(2)));
}

#[test]
fn unsupported_instruction_fails_the_function() {
    let body = FuncBody {
        locals: vec![],
        ops: vec![
            op(Instr::I32Const { value: 1 }, 0, 2),
            op(Instr::Unsupported { opcode: 0xd0 }, 2, 4),
            op(Instr::End, 4, 5),
        ],
    };
    let module = one_function(Signature { params: vec![], results: vec![] }, body);
    let f = BytecodeFunction::new(&module, module.funcs[0].body.as_ref().unwrap(), 0);
    let e = f.create_stack_table().err().unwrap();
    assert_eq!(
        e,
        FunctionError {
            offset: 2,
            kind: AnalysisError::UnsupportedOpcode(Instr::Unsupported { opcode: 0xd0 }),
        }
    );
    let func = Function::BytecodeFunction(f);
    assert!(StackTable::from_function(&func).is_err());
}

#[test]
fn compaction_keeps_constants_locals_and_calls() {
    let callee = Signature { params: vec![], results: vec![WasmType::I64, WasmType::F32] };
    let own = Signature { params: vec![WasmType::F64], results: vec![] };
    let body = FuncBody {
        locals: vec![],
        ops: vec![
            op(Instr::LocalGet { local_index: 0 }, 0, 2),
            op(Instr::I32Const { value: -7 }, 2, 4),
            op(Instr::I32Eqz, 4, 5),
            op(Instr::Call { function_index: 0 }, 5, 7),
            op(Instr::End, 7, 8),
        ],
    };
    let module = Module::new(
        vec![callee, own],
        vec![Fn { fidx: 0, body: None }, Fn { fidx: 1, body: Some(body) }],
        vec![],
    );
    let f = BytecodeFunction::new(&module, module.funcs[1].body.as_ref().unwrap(), 1);
    let table = StackTable::from_function(&Function::BytecodeFunction(f)).unwrap();
    let keys: Vec<u32> = table.inner.keys().copied().collect();
    assert_eq!(keys, vec![0, 2, 4, 5, 6, 7, 8]);
    assert_eq!(
        table.inner[&4],
        vec![
            (CompiledOp::LocalGet(0), WasmType::F64),
            (CompiledOp::I32Const(-7), WasmType::I32),
        ]
    );
    assert_eq!(
        table.inner[&7],
        vec![
            (CompiledOp::LocalGet(0), WasmType::F64),
            (CompiledOp::Other(WasmType::I32), WasmType::I32),
            (CompiledOp::Call(2), WasmType::I64),
            (CompiledOp::Call(2), WasmType::F32),
        ]
    );
    assert_eq!(table.inner[&6], table.inner[&5]);
}
