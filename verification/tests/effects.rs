use wasm_stack_tables::error::{AnalysisError, FunctionError, ModuleError};
use wasm_stack_tables::function::{
    stack_apply, stack_apply_input, stack_apply_output, BytecodeFunction, Function, Stack,
};
use wasm_stack_tables::instr::Instr;
use wasm_stack_tables::module::{Fn, FuncBody, Module, Op, Signature};
use wasm_stack_tables::opcode::OpInfo;
use wasm_stack_tables::stack_table::{StackTable, StackTables};
use wasm_stack_tables::val::{SpaceKind, ValInfo, WasmType};

use wasm_stack_tables::val::WasmType::{Any, F32, F64, I32, I64};

fn op(instr: Instr, offset_before: u32, offset_after: u32) -> Op {
    Op { instr, offset_before, offset_after }
}

fn ops_of(instrs: &[Instr]) -> Vec<Op> {
    instrs.iter().enumerate().map(|(i, instr)| op(*instr, 2 * i as u32, 2 * i as u32 + 2)).collect()
}

fn sample_module(instrs: &[Instr]) -> Module {
    Module::new(
        vec![
            Signature { params: vec![I64, F32], results: vec![F64, I32] },
            Signature { params: vec![F64], results: vec![] },
        ],
        vec![
            Fn { fidx: 0, body: None },
            Fn {
                fidx: 1,
                body: Some(FuncBody { locals: vec![(2, I64), (0, F32), (1, I32)], ops: ops_of(instrs) }),
            },
        ],
        vec![F32, I64],
    )
}

fn effect(instr: Instr) -> Result<(Vec<WasmType>, Vec<WasmType>), AnalysisError> {
    let module = sample_module(&[]);
    let f = BytecodeFunction::new(&module, module.funcs[1].body.as_ref().unwrap(), 1);
    f.opinfo(&instr).map(|info| (info.input, info.output))
}

#[test]
fn locals_are_parameters_then_declared_locals() {
    let module = sample_module(&[]);
    let f = BytecodeFunction::new(&module, module.funcs[1].body.as_ref().unwrap(), 1);
    assert_eq!(f.locals, vec![F64, I64, I64, I32]);
    assert_eq!(*f.get_type_by_local(3), I32);
    assert_eq!(module.get_type_by_func(0).results, vec![F64, I32]);
    assert_eq!(module.get_type_by_type(1).params, vec![F64]);
    assert_eq!(*module.get_type_by_global(1), I64);
}

#[test]
fn constants_and_locals_push_one_value() {
    assert_eq!(effect(Instr::I32Const { value: 3 }), Ok((vec![], vec![I32])));
    assert_eq!(effect(Instr::I64Const { value: 3 }), Ok((vec![], vec![I64])));
    assert_eq!(effect(Instr::F32Const { bits: 3 }), Ok((vec![], vec![F32])));
    assert_eq!(effect(Instr::F64Const { bits: 3 }), Ok((vec![], vec![F64])));
    assert_eq!(effect(Instr::LocalGet { local_index: 0 }), Ok((vec![], vec![F64])));
    assert_eq!(effect(Instr::LocalGet { local_index: 3 }), Ok((vec![], vec![I32])));
    assert_eq!(effect(Instr::GlobalGet { global_index: 0 }), Ok((vec![], vec![F32])));
    assert_eq!(effect(Instr::MemorySize), Ok((vec![], vec![I32])));
}

#[test]
fn calls_take_parameters_and_give_results() {
    assert_eq!(
        effect(Instr::Call { function_index: 0 }),
        Ok((vec![I64, F32], vec![F64, I32]))
    );
    assert_eq!(effect(Instr::Call { function_index: 1 }), Ok((vec![F64], vec![])));
    assert_eq!(
        effect(Instr::CallIndirect { type_index: 0 }),
        Ok((vec![I64, F32, I32], vec![F64, I32]))
    );
    assert_eq!(effect(Instr::CallIndirect { type_index: 1 }), Ok((vec![F64, I32], vec![])));
}

#[test]
fn control_instructions_leave_the_stack() {
    for instr in [
        Instr::Unreachable,
        Instr::Nop,
        Instr::Block,
        Instr::Loop,
        Instr::If,
        Instr::Else,
        Instr::End,
        Instr::Br,
        Instr::Return,
    ] {
        assert_eq!(effect(instr), Ok((vec![], vec![])), "{:?}", instr);
    }
    assert_eq!(effect(Instr::BrIf), Ok((vec![I32], vec![])));
    assert_eq!(effect(Instr::BrTable), Ok((vec![I32], vec![])));
}

#[test]
fn polymorphic_instructions_have_open_types() {
    assert_eq!(effect(Instr::Drop), Ok((vec![Any], vec![])));
    assert_eq!(effect(Instr::LocalSet), Ok((vec![Any], vec![])));
    assert_eq!(effect(Instr::GlobalSet), Ok((vec![Any], vec![])));
    assert_eq!(effect(Instr::LocalTee), Ok((vec![Any], vec![Any])));
    assert_eq!(effect(Instr::Select), Ok((vec![Any, Any, I32], vec![Any])));
    assert_eq!(effect(Instr::TypedSelect), Ok((vec![Any, Any, I32], vec![Any])));
    assert_eq!(effect(Instr::TableSet), Ok((vec![I32, Any], vec![])));
    assert_eq!(effect(Instr::I32Store), Ok((vec![Any, Any], vec![])));
    assert_eq!(effect(Instr::F64Store), Ok((vec![Any, Any], vec![])));
    assert_eq!(effect(Instr::I64Store32), Ok((vec![Any, Any], vec![])));
}

#[test]
fn loads_take_an_address() {
    assert_eq!(effect(Instr::I32Load), Ok((vec![I32], vec![I32])));
    assert_eq!(effect(Instr::I32Load16U), Ok((vec![I32], vec![I32])));
    assert_eq!(effect(Instr::I64Load), Ok((vec![I32], vec![I64])));
    assert_eq!(effect(Instr::I64Load8S), Ok((vec![I32], vec![I64])));
    assert_eq!(effect(Instr::F32Load), Ok((vec![I32], vec![F32])));
    assert_eq!(effect(Instr::F64Load), Ok((vec![I32], vec![F64])));
    assert_eq!(effect(Instr::MemoryGrow), Ok((vec![I32], vec![I32])));
    assert_eq!(effect(Instr::MemoryCopy), Ok((vec![I32, I32, I32], vec![])));
    assert_eq!(effect(Instr::MemoryFill), Ok((vec![I32, I32, I32], vec![])));
}

#[test]
fn comparisons_give_an_i32() {
    assert_eq!(effect(Instr::I32Eqz), Ok((vec![I32], vec![I32])));
    assert_eq!(effect(Instr::I32LtS), Ok((vec![I32, I32], vec![I32])));
    assert_eq!(effect(Instr::F32Lt), Ok((vec![F32, F32], vec![I32])));
    assert_eq!(effect(Instr::F32Ge), Ok((vec![F32, F32], vec![I32])));
    assert_eq!(effect(Instr::I64Eqz), Ok((vec![I64], vec![I32])));
    assert_eq!(effect(Instr::I64GeU), Ok((vec![I64, I64], vec![I32])));
    assert_eq!(effect(Instr::F64Ne), Ok((vec![F64, F64], vec![I32])));
    assert_eq!(effect(Instr::F64Le), Ok((vec![F64, F64], vec![I32])));
}

#[test]
fn arithmetic_keeps_its_type() {
    assert_eq!(effect(Instr::I32Clz), Ok((vec![I32], vec![I32])));
    assert_eq!(effect(Instr::I32Rotr), Ok((vec![I32, I32], vec![I32])));
    assert_eq!(effect(Instr::I64Popcnt), Ok((vec![I64], vec![I64])));
    assert_eq!(effect(Instr::I64Mul), Ok((vec![I64, I64], vec![I64])));
    assert_eq!(effect(Instr::F32Sqrt), Ok((vec![F32], vec![F32])));
    assert_eq!(effect(Instr::F32Copysign), Ok((vec![F32, F32], vec![F32])));
    assert_eq!(effect(Instr::F64Nearest), Ok((vec![F64], vec![F64])));
    assert_eq!(effect(Instr::F64Min), Ok((vec![F64, F64], vec![F64])));
    assert_eq!(effect(Instr::I32Extend16S), Ok((vec![I32], vec![I32])));
    assert_eq!(effect(Instr::I64Extend32S), Ok((vec![I64], vec![I64])));
}

#[test]
fn conversions_change_the_type() {
    assert_eq!(effect(Instr::I32WrapI64), Ok((vec![I64], vec![I32])));
    assert_eq!(effect(Instr::I32TruncF32U), Ok((vec![F32], vec![I32])));
    assert_eq!(effect(Instr::I32TruncF64S), Ok((vec![F64], vec![I32])));
    assert_eq!(effect(Instr::I64ExtendI32U), Ok((vec![I32], vec![I64])));
    assert_eq!(effect(Instr::I64TruncF32S), Ok((vec![F32], vec![I64])));
    assert_eq!(effect(Instr::I64TruncF64U), Ok((vec![F64], vec![I64])));
    assert_eq!(effect(Instr::F32ConvertI32S), Ok((vec![I32], vec![F32])));
    assert_eq!(effect(Instr::F32ConvertI64S), Ok((vec![I64], vec![F32])));
    assert_eq!(effect(Instr::F32ConvertI64U), Ok((vec![I64], vec![F32])));
    assert_eq!(effect(Instr::F32DemoteF64), Ok((vec![F64], vec![F32])));
    assert_eq!(effect(Instr::F64ConvertI32U), Ok((vec![I32], vec![F64])));
    assert_eq!(effect(Instr::F64ConvertI64S), Ok((vec![I64], vec![F64])));
    assert_eq!(effect(Instr::F64PromoteF32), Ok((vec![F32], vec![F64])));
    assert_eq!(effect(Instr::I32ReinterpretF32), Ok((vec![F32], vec![I32])));
    assert_eq!(effect(Instr::I64ReinterpretF64), Ok((vec![F64], vec![I64])));
    assert_eq!(effect(Instr::F32ReinterpretI32), Ok((vec![I32], vec![F32])));
    assert_eq!(effect(Instr::F64ReinterpretI64), Ok((vec![I64], vec![F64])));
}

#[test]
fn instructions_without_entry_are_unsupported() {
    assert_eq!(effect(Instr::TableGet), Err(AnalysisError::UnsupportedOpcode(Instr::TableGet)));
    for opcode in [0x06, 0xd0, 0xfc, 0xfd, 0xff] {
        let instr = Instr::Unsupported { opcode };
        assert_eq!(effect(instr), Err(AnalysisError::UnsupportedOpcode(instr)));
    }
}

#[test]
fn stack_is_popped_then_pushed() {
    let mut stack = Stack::new();
    assert_eq!(stack.len(), 0);
    stack.push((Instr::Nop, I32));
    stack.push((Instr::Nop, I64));
    stack.push((Instr::Nop, F32));
    let info = OpInfo { input: vec![Any, Any], output: vec![F64, I32] };
    let taken = stack_apply_input(&mut stack, &info).unwrap();
    assert_eq!(taken, vec![(Instr::Nop, I64), (Instr::Nop, F32)]);
    assert_eq!(stack.inner, vec![(Instr::Nop, I32)]);
    stack_apply_output(&mut stack, &Instr::Select, &info, &taken);
    assert_eq!(stack.inner, vec![(Instr::Nop, I32), (Instr::Select, F64), (Instr::Select, I32)]);
    assert_eq!(stack_apply(&mut stack, &Instr::Drop, &info), Ok(()));
    assert_eq!(stack.inner, vec![(Instr::Nop, I32), (Instr::Drop, F64), (Instr::Drop, I32)]);
    assert_eq!(stack.copy().inner, stack.inner);
    assert_eq!(stack.len(), 3);
}

#[test]
fn open_result_takes_the_type_of_the_operand() {
    let mut stack = Stack::new();
    stack.push((Instr::Nop, F64));
    stack.push((Instr::Nop, I64));
    stack.push((Instr::Nop, I32));
    let select = OpInfo { input: vec![Any, Any, I32], output: vec![Any] };
    assert_eq!(stack_apply(&mut stack, &Instr::Select, &select), Ok(()));
    assert_eq!(stack.inner, vec![(Instr::Select, F64)]);
    let tee = OpInfo { input: vec![Any], output: vec![Any] };
    assert_eq!(stack_apply(&mut stack, &Instr::LocalTee, &tee), Ok(()));
    assert_eq!(stack.inner, vec![(Instr::LocalTee, F64)]);
    let more = OpInfo { input: vec![Any], output: vec![I32, Any, Any] };
    assert_eq!(stack_apply(&mut stack, &Instr::Nop, &more), Ok(()));
    assert_eq!(stack.inner, vec![(Instr::Nop, I32), (Instr::Nop, Any), (Instr::Nop, Any)]);
}

#[test]
fn select_and_tee_record_closed_types() {
    let module = sample_module(&[
        Instr::LocalGet { local_index: 0 },
        Instr::F64Const { bits: 0 },
        Instr::I32Const { value: 1 },
        Instr::Select,
        Instr::LocalTee,
        Instr::Drop,
        Instr::GlobalGet { global_index: 1 },
        Instr::LocalTee,
        Instr::End,
    ]);
    let f = BytecodeFunction::new(&module, module.funcs[1].body.as_ref().unwrap(), 1);
    let codes = f.create_stack_table().unwrap();
    let last: Vec<Vec<WasmType>> =
        codes.iter().map(|c| c.stack.inner.iter().map(|slot| slot.1).collect()).collect();
    assert_eq!(
        last,
        vec![
            vec![],
            vec![F64],
            vec![F64, F64],
            vec![F64, F64, I32],
            vec![F64],
            vec![F64],
            vec![],
            vec![I64],
            vec![I64],
            vec![I64],
        ]
    );
    assert_eq!(codes[4].stack.inner[0].0, Instr::Select);
    assert_eq!(codes[5].stack.inner[0].0, Instr::LocalTee);
}

#[test]
fn too_few_operands_are_an_underflow() {
    let mut stack = Stack::new();
    stack.push((Instr::Nop, I32));
    let info = OpInfo { input: vec![I32, I32], output: vec![I32] };
    assert_eq!(stack_apply_input(&mut stack, &info), Err(AnalysisError::StackUnderflow));
    assert_eq!(stack.inner, vec![(Instr::Nop, I32)]);
    assert_eq!(stack_apply(&mut stack, &Instr::I32Add, &info), Err(AnalysisError::StackUnderflow));
    assert_eq!(stack.inner, vec![(Instr::Nop, I32)]);
    let exact = OpInfo { input: vec![I32], output: vec![] };
    assert_eq!(stack_apply_input(&mut stack, &exact), Ok(vec![(Instr::Nop, I32)]));
    assert!(stack.inner.is_empty());
}

fn simulate(instrs: &[Instr]) -> Result<Vec<(u32, usize)>, FunctionError> {
    let module = sample_module(instrs);
    let f = BytecodeFunction::new(&module, module.funcs[1].body.as_ref().unwrap(), 1);
    assert!(f.is_well_formed());
    f.create_stack_table()
        .map(|codes| codes.iter().map(|c| (c.offset, c.stack.inner.len())).collect())
}

#[test]
fn underflow_names_the_offset_of_the_instruction() {
    assert_eq!(
        simulate(&[Instr::I32Const { value: 1 }, Instr::I32Add, Instr::End]),
        Err(FunctionError { offset: 2, kind: AnalysisError::StackUnderflow })
    );
    assert_eq!(
        simulate(&[Instr::Nop, Instr::Nop, Instr::Call { function_index: 0 }]),
        Err(FunctionError { offset: 4, kind: AnalysisError::StackUnderflow })
    );
    assert_eq!(
        simulate(&[Instr::Nop, Instr::TableGet]),
        Err(FunctionError { offset: 2, kind: AnalysisError::UnsupportedOpcode(Instr::TableGet) })
    );
}

#[test]
fn depth_of_arithmetic_is_pushes_less_pops() {
    let body = [
        Instr::I32Const { value: 1 },
        Instr::I32Const { value: 2 },
        Instr::I64Const { value: 3 },
        Instr::I32Add,
        Instr::F64Const { bits: 4 },
        Instr::F64Mul,
        Instr::F32Const { bits: 5 },
        Instr::I32Xor,
        Instr::I64Rotl,
    ];
    let depths: Vec<usize> = simulate(&body).unwrap().iter().map(|s| s.1).collect();
    assert_eq!(depths, vec![0, 1, 2, 3, 2, 3, 2, 3, 2, 1]);
    let pushes = body.len();
    let pops = 2 * 4;
    assert_eq!(*depths.last().unwrap(), pushes - pops);
}

#[test]
fn call_is_recorded_once_more() {
    let plain = simulate(&[
        Instr::I64Const { value: 1 },
        Instr::F32Const { bits: 2 },
        Instr::I64Const { value: 1 },
        Instr::I32WrapI64,
        Instr::End,
    ])
    .unwrap();
    assert_eq!(plain.len(), 1 + 5);
    let calling = simulate(&[
        Instr::I32Const { value: 9 },
        Instr::I64Const { value: 1 },
        Instr::F32Const { bits: 2 },
        Instr::Call { function_index: 0 },
        Instr::I32Const { value: 0 },
        Instr::CallIndirect { type_index: 1 },
        Instr::End,
    ])
    .unwrap();
    assert_eq!(
        calling,
        vec![(0, 0), (2, 1), (4, 2), (6, 3), (7, 1), (8, 3), (10, 4), (11, 2), (12, 2), (14, 2)]
    );
}

#[test]
fn simulation_ends_at_return() {
    let ended = simulate(&[
        Instr::I32Const { value: 1 },
        Instr::Return,
        Instr::I32Add,
        Instr::Unsupported { opcode: 0xd0 },
    ]);
    assert_eq!(ended, Ok(vec![(0, 0), (2, 1), (4, 1)]));
}

#[test]
fn return_needs_the_results_on_the_stack() {
    let module = Module::new(
        vec![Signature { params: vec![], results: vec![I32, I32] }],
        vec![Fn {
            fidx: 0,
            body: Some(FuncBody {
                locals: vec![],
                ops: ops_of(&[Instr::I32Const { value: 1 }, Instr::Return, Instr::End]),
            }),
        }],
        vec![],
    );
    let f = BytecodeFunction::new(&module, module.funcs[0].body.as_ref().unwrap(), 0);
    assert_eq!(
        f.create_stack_table().err(),
        Some(FunctionError { offset: 2, kind: AnalysisError::StackUnderflow })
    );
    let func = Function::BytecodeFunction(f);
    assert_eq!(
        StackTable::from_function(&func).err(),
        Some(FunctionError { offset: 2, kind: AnalysisError::StackUnderflow })
    );
    assert!(std::ptr::eq(func.module(), &module));
}

#[test]
fn indices_that_name_nothing_are_found() {
    let well_formed = |instr: Instr, before: u32| {
        let mut module = sample_module(&[]);
        module.funcs[1].body.as_mut().unwrap().ops = vec![op(instr, before, before.wrapping_add(2))];
        let f = BytecodeFunction::new(&module, module.funcs[1].body.as_ref().unwrap(), 1);
        (f.is_well_formed(), module.is_valid())
    };
    assert_eq!(well_formed(Instr::Call { function_index: 1 }, 0), (true, true));
    assert_eq!(well_formed(Instr::Call { function_index: 2 }, 0), (false, false));
    assert_eq!(well_formed(Instr::Call { function_index: 1 }, u32::MAX), (false, false));
    assert_eq!(well_formed(Instr::Nop, u32::MAX), (true, true));
    assert_eq!(well_formed(Instr::CallIndirect { type_index: 1 }, 0), (true, true));
    assert_eq!(well_formed(Instr::CallIndirect { type_index: 2 }, 0), (false, false));
    assert_eq!(well_formed(Instr::LocalGet { local_index: 3 }, 0), (true, true));
    assert_eq!(well_formed(Instr::LocalGet { local_index: 4 }, 0), (false, false));
    assert_eq!(well_formed(Instr::GlobalGet { global_index: 1 }, 0), (true, true));
    assert_eq!(well_formed(Instr::GlobalGet { global_index: 2 }, 0), (false, false));
    let mut module = sample_module(&[]);
    assert!(module.is_well_formed());
    module.funcs[0].fidx = 2;
    assert!(!module.is_well_formed());
    assert!(!module.is_valid());
}

#[test]
fn types_have_names_widths_and_tags() {
    let all = [
        (WasmType::Any, "Any", 0, 0),
        (WasmType::U8, "U8", 1, 1),
        (WasmType::I32, "I32", 4, 2),
        (WasmType::F32, "F32", 4, 3),
        (WasmType::I64, "I64", 8, 4),
        (WasmType::F64, "F64", 8, 5),
        (WasmType::V128, "V128", 16, 6),
        (WasmType::Ref, "Ref", 255, 7),
    ];
    for (ty, name, size, tag) in all {
        assert_eq!(ty.to_string(), name);
        assert_eq!(ty.size(), size);
        assert_eq!(ty.tag(), tag);
        assert_eq!(WasmType::from_tag(tag), Some(ty));
    }
    assert_eq!(WasmType::from_tag(8), None);
    assert_eq!(WasmType::from_tag(255), None);
    assert_eq!(ValInfo::new(SpaceKind::Dynamic).space_kind, SpaceKind::Dynamic);
    assert_eq!(ValInfo::new(SpaceKind::Static).space_kind, SpaceKind::Static);
    assert!(Instr::Call { function_index: 0 }.is_call());
    assert!(Instr::CallIndirect { type_index: 0 }.is_call());
    assert!(!Instr::Return.is_call());
}

#[test]
fn failed_function_does_not_stop_the_others() {
    let good = FuncBody { locals: vec![], ops: ops_of(&[Instr::I32Const { value: 1 }, Instr::End]) };
    let bad = FuncBody { locals: vec![], ops: ops_of(&[Instr::Nop, Instr::Drop, Instr::End]) };
    let module = Module::new(
        vec![Signature { params: vec![], results: vec![] }],
        vec![
            Fn { fidx: 0, body: Some(good.clone()) },
            Fn { fidx: 0, body: Some(bad) },
            Fn { fidx: 0, body: None },
            Fn { fidx: 0, body: Some(good) },
        ],
        vec![],
    );
    assert!(module.is_valid());
    let funcs = module.new_function_v2();
    let results = StackTables::analyse_each(&funcs);
    assert_eq!(results.len(), 4);
    assert_eq!(results[0].as_ref().unwrap().inner.len(), 3);
    assert_eq!(
        results[1].as_ref().err(),
        Some(&FunctionError { offset: 2, kind: AnalysisError::StackUnderflow })
    );
    assert_eq!(results[2].as_ref().unwrap().inner.len(), 0);
    assert_eq!(results[3].as_ref().unwrap().inner.len(), 3);
    assert_eq!(
        StackTables::from_func(funcs).err(),
        Some(ModuleError {
            func_index: 1,
            error: FunctionError { offset: 2, kind: AnalysisError::StackUnderflow },
        })
    );
    assert_eq!(
        StackTables::from_module(&module).err(),
        Some(ModuleError {
            func_index: 1,
            error: FunctionError { offset: 2, kind: AnalysisError::StackUnderflow },
        })
    );
}
